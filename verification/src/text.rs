//! Character-level helpers: Unicode white space, trimming, searching for a
//! pattern and decimal rendering of integers.

use vstd::prelude::*;

verus! {

/// The Unicode `White_Space` property, the one that `char::is_whitespace`
/// and `str::trim` go by.
pub open spec fn is_white_space(c: char) -> bool {
    let u = c as u32;
    ||| 0x9 <= u <= 0xD
    ||| u == 0x20
    ||| u == 0x85
    ||| u == 0xA0
    ||| u == 0x1680
    ||| 0x2000 <= u <= 0x200A
    ||| u == 0x2028
    ||| u == 0x2029
    ||| u == 0x202F
    ||| u == 0x205F
    ||| u == 0x3000
}

/// Decides [`is_white_space`].
pub fn is_white_space_char(c: char) -> (b: bool)
    ensures
        b == is_white_space(c),
{
    let u = c as u32;
    (0x9 <= u && u <= 0xD) || u == 0x20 || u == 0x85 || u == 0xA0 || u == 0x1680 || (0x2000 <= u
        && u <= 0x200A) || u == 0x2028 || u == 0x2029 || u == 0x202F || u == 0x205F || u == 0x3000
}

/// The characters of `s`, in order.
pub fn chars_of(s: &str) -> (v: Vec<char>)
    ensures
        v@ == s@,
{
    let mut v: Vec<char> = Vec::new();
    for c in it: s.chars()
        invariant
            v@ == it.seq().take(it.index()),
    {
        v.push(c);
    }
    v
}


/// `t` without its leading white space.
pub open spec fn trim_start(t: Seq<char>) -> Seq<char>
    decreases t.len(),
{
    if t.len() > 0 && is_white_space(t[0]) {
        trim_start(t.drop_first())
    } else {
        t
    }
}

/// `t` without its trailing white space.
pub open spec fn trim_end(t: Seq<char>) -> Seq<char>
    decreases t.len(),
{
    if t.len() > 0 && is_white_space(t.last()) {
        trim_end(t.drop_last())
    } else {
        t
    }
}

/// `t` without leading and trailing white space, as `str::trim` gives it.
pub open spec fn trim(t: Seq<char>) -> Seq<char> {
    trim_end(trim_start(t))
}

/// Trimming a trimmed text changes nothing.
pub proof fn lemma_trim_idempotent(t: Seq<char>)
    ensures
        trim(trim(t)) == trim(t),
{
    lemma_trim_start_shape(t);
    lemma_trim_end_shape(trim_start(t));
    let u = trim(t);
    if u.len() > 0 {
        lemma_trim_end_keeps_first(trim_start(t));
        assert(!is_white_space(u[0]));
        assert(!is_white_space(u.last()));
    } else {
        assert(u =~= Seq::<char>::empty());
    }
}

/// What `trim_start` leaves is a suffix of its argument that does not begin with white space.
pub proof fn lemma_trim_start_shape(t: Seq<char>)
    ensures
        trim_start(t).len() <= t.len(),
        trim_start(t) == t.subrange(t.len() - trim_start(t).len(), t.len() as int),
        trim_start(t).len() > 0 ==> !is_white_space(trim_start(t)[0]),
        forall|i: int| 0 <= i < t.len() - trim_start(t).len() ==> is_white_space(#[trigger] t[i]),
    decreases t.len(),
{
    if t.len() > 0 && is_white_space(t[0]) {
        lemma_trim_start_shape(t.drop_first());
        assert forall|i: int| 0 <= i < t.len() - trim_start(t).len() implies is_white_space(
            #[trigger] t[i],
        ) by {
            if i > 0 {
                assert(t[i] == t.drop_first()[i - 1]);
            }
        }
        assert(t.drop_first().subrange(
            t.drop_first().len() - trim_start(t).len(),
            t.drop_first().len() as int,
        ) =~= t.subrange(t.len() - trim_start(t).len(), t.len() as int));
    } else {
        assert(t.subrange(0, t.len() as int) =~= t);
    }
}

/// What `trim_end` leaves is a prefix of its argument that does not end with white space.
pub proof fn lemma_trim_end_shape(t: Seq<char>)
    ensures
        trim_end(t).len() <= t.len(),
        trim_end(t) == t.subrange(0, trim_end(t).len() as int),
        trim_end(t).len() > 0 ==> !is_white_space(trim_end(t).last()),
        forall|i: int| trim_end(t).len() <= i < t.len() ==> is_white_space(#[trigger] t[i]),
    decreases t.len(),
{
    if t.len() > 0 && is_white_space(t.last()) {
        lemma_trim_end_shape(t.drop_last());
        assert forall|i: int| trim_end(t).len() <= i < t.len() implies is_white_space(
            #[trigger] t[i],
        ) by {
            if i < t.len() - 1 {
                assert(t[i] == t.drop_last()[i]);
            }
        }
        assert(t.drop_last().subrange(0, trim_end(t).len() as int) =~= t.subrange(
            0,
            trim_end(t).len() as int,
        ));
    } else {
        assert(t.subrange(0, t.len() as int) =~= t);
    }
}

/// `trim_end` keeps the first character when that is not white space.
proof fn lemma_trim_end_keeps_first(t: Seq<char>)
    requires
        trim_end(trim_start(t)).len() > 0,
    ensures
        trim_end(trim_start(t))[0] == trim_start(t)[0],
{
    lemma_trim_end_shape(trim_start(t));
}

/// A trimmed, non-empty text between two white-space characters trims back to itself.
pub proof fn lemma_trim_padded(c: Seq<char>, a: char, b: char)
    requires
        c.len() > 0,
        trim(c) == c,
        is_white_space(a),
        is_white_space(b),
    ensures
        trim(seq![a] + c + seq![b]) == c,
{
    lemma_trim_start_shape(c);
    lemma_trim_end_shape(trim_start(c));
    lemma_trim_end_keeps_first(c);
    assert(!is_white_space(c[0]));
    assert(!is_white_space(c.last()));
    let padded = seq![a] + c + seq![b];
    assert(padded.drop_first() =~= c + seq![b]);
    assert(trim_start(padded) == trim_start(c + seq![b]));
    assert((c + seq![b])[0] == c[0]);
    assert(trim_start(c + seq![b]) == c + seq![b]);
    assert((c + seq![b]).drop_last() =~= c);
    assert(trim_end(c + seq![b]) == trim_end(c));
    assert(trim_end(c) == c);
}

/// The bounds `[lo, hi)` of `trim(s[from..to])` inside `s`.
pub fn trimmed_bounds(s: &Vec<char>, from: usize, to: usize) -> (r: (usize, usize))
    requires
        from <= to <= s@.len(),
    ensures
        from <= r.0 <= r.1 <= to,
        s@.subrange(r.0 as int, r.1 as int) == trim(s@.subrange(from as int, to as int)),
{
    let mut lo = from;
    while lo < to && is_white_space_char(s[lo])
        invariant
            from <= lo <= to <= s@.len(),
            trim_start(s@.subrange(from as int, to as int)) == trim_start(
                s@.subrange(lo as int, to as int),
            ),
        decreases to - lo,
    {
        assert(s@.subrange(lo as int, to as int).drop_first() =~= s@.subrange(
            lo + 1,
            to as int,
        ));
        lo = lo + 1;
    }
    assert(trim_start(s@.subrange(lo as int, to as int)) == s@.subrange(lo as int, to as int));
    let mut hi = to;
    while hi > lo && is_white_space_char(s[hi - 1])
        invariant
            from <= lo <= hi <= to <= s@.len(),
            trim(s@.subrange(from as int, to as int)) == trim_end(
                s@.subrange(lo as int, hi as int),
            ),
        decreases hi - lo,
    {
        assert(s@.subrange(lo as int, hi as int).drop_last() =~= s@.subrange(
            lo as int,
            hi - 1,
        ));
        hi = hi - 1;
    }
    (lo, hi)
}


/// `pat` occurs in `s` starting at index `i`.
pub open spec fn occurs_at(s: Seq<char>, pat: Seq<char>, i: int) -> bool {
    &&& 0 <= i
    &&& i + pat.len() <= s.len()
    &&& s.subrange(i, i + pat.len()) == pat
}

/// The first index at or after `from` where `pat` occurs in `s`, as `str::find`
/// gives it on the part of `s` from `from` on (but counted from the start of `s`).
pub open spec fn find_from(s: Seq<char>, pat: Seq<char>, from: int) -> Option<int>
    decreases s.len() - from,
{
    if from < 0 || from + pat.len() > s.len() {
        None
    } else if occurs_at(s, pat, from) {
        Some(from)
    } else {
        proof {
            if pat.len() == 0 {
                assert(s.subrange(from, from) =~= pat);
            }
        }
        find_from(s, pat, from + 1)
    }
}

/// `find_from` gives the least index at or after `from` where `pat` occurs, and `None`
/// only where it occurs nowhere from there on.
pub proof fn lemma_find_from(s: Seq<char>, pat: Seq<char>, from: int)
    requires
        0 <= from,
    ensures
        match find_from(s, pat, from) {
            Some(i) => {
                &&& from <= i
                &&& i + pat.len() <= s.len()
                &&& occurs_at(s, pat, i)
                &&& forall|j: int| from <= j < i ==> !occurs_at(s, pat, j)
            },
            None => forall|j: int| from <= j ==> !occurs_at(s, pat, j),
        },
    decreases s.len() - from,
{
    if from + pat.len() > s.len() {
    } else if occurs_at(s, pat, from) {
    } else {
        if pat.len() == 0 {
            assert(s.subrange(from, from) =~= pat);
        }
        lemma_find_from(s, pat, from + 1);
    }
}

/// Decides [`occurs_at`].
pub fn occurs_at_index(s: &Vec<char>, pat: &Vec<char>, i: usize) -> (b: bool)
    ensures
        b == occurs_at(s@, pat@, i as int),
{
    if i > s.len() || pat.len() > s.len() - i {
        return false;
    }
    let n = s.len();
    let mut k: usize = 0;
    while k < pat.len()
        invariant
            n == s@.len(),
            i + pat@.len() <= s@.len(),
            k <= pat@.len(),
            forall|m: int| 0 <= m < k ==> s@[i + m] == pat@[m],
        decreases pat@.len() - k,
    {
        assert(i + k < s@.len());
        if s[i + k] != pat[k] {
            assert(s@.subrange(i as int, i + pat@.len())[k as int] != pat@[k as int]);
            return false;
        }
        k = k + 1;
    }
    assert(s@.subrange(i as int, i + pat@.len()) =~= pat@);
    true
}

/// [`find_from`], computed.
pub fn find_pattern(s: &Vec<char>, pat: &Vec<char>, from: usize) -> (r: Option<usize>)
    ensures
        match r {
            Some(i) => find_from(s@, pat@, from as int) == Some(i as int),
            None => find_from(s@, pat@, from as int) is None,
        },
{
    if pat.len() > s.len() {
        return None;
    }
    let last = s.len() - pat.len();
    if from > last {
        return None;
    }
    let mut i = from;
    loop
        invariant
            last + pat@.len() == s@.len(),
            from <= i <= last,
            find_from(s@, pat@, from as int) == find_from(s@, pat@, i as int),
        decreases last - i,
    {
        if occurs_at_index(s, pat, i) {
            return Some(i);
        }
        if i == last {
            assert(find_from(s@, pat@, i + 1) is None);
            return None;
        }
        i = i + 1;
    }
}


/// The decimal digit `d` (`0 <= d < 10`).
pub open spec fn digit_char(d: nat) -> char {
    seq!['0', '1', '2', '3', '4', '5', '6', '7', '8', '9'][d as int]
}

/// The decimal digits of `n`, most significant first, without leading zeros.
pub open spec fn decimal_digits(n: nat) -> Seq<char>
    decreases n,
{
    if n < 10 {
        seq![digit_char(n)]
    } else {
        decimal_digits(n / 10).push(digit_char(n % 10))
    }
}

/// `n` written in decimal, with a leading `-` when it is negative: what `Display`
/// prints for an integer.
pub open spec fn decimal(n: int) -> Seq<char> {
    if n < 0 {
        seq!['-'] + decimal_digits((-n) as nat)
    } else {
        decimal_digits(n as nat)
    }
}

/// A decimal digit character.
pub open spec fn is_digit(c: char) -> bool {
    '0' as u32 <= c as u32 <= '9' as u32
}

/// The value of a digit character.
pub open spec fn digit_value(c: char) -> int {
    c as u32 - '0' as u32
}

/// The number that a string of digits denotes, most significant first.
pub open spec fn digits_value(ds: Seq<char>) -> int
    decreases ds.len(),
{
    if ds.len() == 0 {
        0
    } else {
        digits_value(ds.drop_last()) * 10 + digit_value(ds.last())
    }
}

/// `digit_char` gives the digit of that value.
proof fn lemma_digit_char(d: nat)
    requires
        d < 10,
    ensures
        is_digit(digit_char(d)),
        digit_value(digit_char(d)) == d,
        d > 0 ==> digit_char(d) != '0',
{
    let ds = seq!['0', '1', '2', '3', '4', '5', '6', '7', '8', '9'];
    assert(digit_char(d) == ds[d as int]);
    if d == 0 { assert(ds[0] == '0'); }
    else if d == 1 { assert(ds[1] == '1'); }
    else if d == 2 { assert(ds[2] == '2'); }
    else if d == 3 { assert(ds[3] == '3'); }
    else if d == 4 { assert(ds[4] == '4'); }
    else if d == 5 { assert(ds[5] == '5'); }
    else if d == 6 { assert(ds[6] == '6'); }
    else if d == 7 { assert(ds[7] == '7'); }
    else if d == 8 { assert(ds[8] == '8'); }
    else { assert(ds[9] == '9'); }
}

/// The digits of `n` read back as `n`: they are all digits, there is at least one,
/// and the first is not `0` unless `n` is.
pub proof fn lemma_decimal_digits_read_back(n: nat)
    ensures
        decimal_digits(n).len() > 0,
        forall|k: int| 0 <= k < decimal_digits(n).len() ==> is_digit(#[trigger] decimal_digits(n)[k]),
        digits_value(decimal_digits(n)) == n,
        n > 0 ==> decimal_digits(n)[0] != '0',
    decreases n,
{
    let ds = decimal_digits(n);
    if n < 10 {
        lemma_digit_char(n);
        assert(ds.drop_last() =~= Seq::<char>::empty());
        assert(digits_value(ds) == digits_value(ds.drop_last()) * 10 + digit_value(ds.last()));
    } else {
        let high = decimal_digits(n / 10);
        lemma_decimal_digits_read_back(n / 10);
        lemma_digit_char(n % 10);
        assert(ds == high.push(digit_char(n % 10)));
        assert(ds.drop_last() =~= high);
        assert(forall|k: int| 0 <= k < high.len() ==> ds[k] == high[k]);
        assert(digits_value(ds) == digits_value(high) * 10 + (n % 10));
        assert((n / 10) * 10 + n % 10 == n);
    }
}

/// `decimal(n)` reads back as `n`: a `-` exactly when `n` is negative, then the digits
/// of its magnitude, without leading zeros.
pub proof fn lemma_decimal_read_back(n: int)
    ensures
        ({
            let s = decimal(n);
            let ds = if n < 0 {
                s.drop_first()
            } else {
                s
            };
            &&& (s.len() > 0 && s[0] == '-') <==> n < 0
            &&& ds.len() > 0
            &&& forall|k: int| 0 <= k < ds.len() ==> is_digit(#[trigger] ds[k])
            &&& digits_value(ds) == if n < 0 {
                -n
            } else {
                n
            }
            &&& (n != 0 ==> ds[0] != '0')
        }),
{
    if n < 0 {
        lemma_decimal_digits_read_back((-n) as nat);
        let ds = decimal_digits((-n) as nat);
        assert((seq!['-'] + ds).drop_first() =~= ds);
    } else {
        lemma_decimal_digits_read_back(n as nat);
        lemma_digit_char(0);
        let ds = decimal_digits(n as nat);
        assert(is_digit(ds[0]));
        assert('-' as u32 == 45);
    }
}

fn push_digits(out: &mut String, n: u32)
    ensures
        final(out)@ == old(out)@ + decimal_digits(n as nat),
    decreases n,
{
    if n >= 10 {
        push_digits(out, n / 10);
    }
    let d = (n % 10) as usize;
    proof {
        reveal_strlit("0123456789");
    }
    let digit = "0123456789".substring_char(d, d + 1);
    out.append(digit);
    proof {
        assert(digit@ =~= seq![digit_char(d as nat)]);
        if n >= 10 {
            assert(decimal_digits(n as nat) == decimal_digits((n / 10) as nat).push(
                digit_char((n % 10) as nat),
            ));
        } else {
            assert(decimal_digits(n as nat) == seq![digit_char(n as nat)]);
        }
    }
}

/// `n` in decimal, as `n.to_string()` writes it.
pub fn decimal_text(n: i32) -> (s: String)
    ensures
        s@ == decimal(n as int),
{
    let mut s = String::new();
    if n < 0 {
        proof {
            reveal_strlit("-");
        }
        s.append("-");
        let m: u32 = (-(n as i64)) as u32;
        push_digits(&mut s, m);
        assert(s@ =~= seq!['-'] + decimal_digits((-n) as nat));
    } else {
        push_digits(&mut s, n as u32);
        assert(s@ =~= decimal_digits(n as nat));
    }
    s
}

} // verus!
