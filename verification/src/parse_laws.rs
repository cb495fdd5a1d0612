//! Laws of reading actions out of a reply: prose without markers changes nothing, and
//! commands written in `bash` blocks come back exactly, in order.

use vstd::prelude::*;
use crate::model::{
    bash_open, fence, first_reset, lemma_marker_lengths, parse_from, parsed_actions,
    reset_keyword, reset_state_keyword, ActionView,
};
use crate::text::{find_from, is_white_space, lemma_find_from, lemma_trim_padded, occurs_at, trim};

verus! {

/// The first characters of the markers, and the opening marker in full.
pub proof fn lemma_marker_heads()
    ensures
        bash_open() == seq!['`', '`', '`', 'b', 'a', 's', 'h'],
        fence() == seq!['`', '`', '`'],
        reset_keyword()[0] == '[',
        reset_state_keyword()[0] == 'R',
{
    lemma_marker_lengths();
    reveal_strlit("```bash");
    reveal_strlit("```");
    reveal_strlit("[[RESET]]");
    reveal_strlit("RESET_AGENT_STATE");
    assert(bash_open() =~= seq!['`', '`', '`', 'b', 'a', 's', 'h']);
    assert(fence() =~= seq!['`', '`', '`']);
}

/// No marker starts at index `q` of `s`.
pub open spec fn no_marker_at(s: Seq<char>, q: int) -> bool {
    &&& !occurs_at(s, bash_open(), q)
    &&& !occurs_at(s, reset_keyword(), q)
    &&& !occurs_at(s, reset_state_keyword(), q)
}

/// A character that no marker begins with starts no marker.
proof fn lemma_no_marker_at_char(s: Seq<char>, q: int)
    requires
        0 <= q < s.len(),
        s[q] != '`',
        s[q] != '[',
        s[q] != 'R',
    ensures
        no_marker_at(s, q),
{
    lemma_marker_lengths();
    lemma_marker_heads();
    if occurs_at(s, bash_open(), q) {
        assert(s.subrange(q, q + 7)[0] == s[q]);
    }
    if occurs_at(s, reset_keyword(), q) {
        assert(s.subrange(q, q + reset_keyword().len())[0] == s[q]);
    }
    if occurs_at(s, reset_state_keyword(), q) {
        assert(s.subrange(q, q + reset_state_keyword().len())[0] == s[q]);
    }
}

/// Searching from an index where the pattern does not occur is searching from the next.
proof fn lemma_find_skip(s: Seq<char>, pat: Seq<char>, q: int)
    requires
        0 <= q,
        !occurs_at(s, pat, q),
    ensures
        find_from(s, pat, q) == find_from(s, pat, q + 1),
{
}

/// Reading from an index where no marker starts is reading from the next.
pub proof fn lemma_parse_skip(s: Seq<char>, q: int)
    requires
        0 <= q < s.len(),
        no_marker_at(s, q),
    ensures
        parse_from(s, q) == parse_from(s, q + 1),
{
    lemma_marker_lengths();
    lemma_find_skip(s, bash_open(), q);
    lemma_find_skip(s, reset_keyword(), q);
    lemma_find_skip(s, reset_state_keyword(), q);
    assert(first_reset(s, q) == first_reset(s, q + 1));
    if q + 1 >= s.len() {
        assert(find_from(s, bash_open(), q + 1) is None);
        assert(find_from(s, reset_keyword(), q + 1) is None);
        assert(find_from(s, reset_state_keyword(), q + 1) is None);
    }
}

/// A search in `t + c` from inside `c` is the search in `c`, shifted.
proof fn lemma_find_shift(t: Seq<char>, c: Seq<char>, pat: Seq<char>, q: int)
    requires
        0 <= q,
    ensures
        find_from(t + c, pat, t.len() + q) == match find_from(c, pat, q) {
            Some(i) => Some(i + t.len()),
            None => None,
        },
    decreases c.len() - q,
{
    let s = t + c;
    if q + pat.len() <= c.len() {
        assert(s.subrange(t.len() + q, t.len() + q + pat.len()) =~= c.subrange(q, q + pat.len()));
        if pat.len() == 0 {
            assert(c.subrange(q, q) =~= pat);
        }
        if !occurs_at(c, pat, q) {
            lemma_find_shift(t, c, pat, q + 1);
        }
    }
}

/// Reading `t + c` from inside `c` is reading `c`: what comes before does not matter.
pub proof fn lemma_parse_shift(t: Seq<char>, c: Seq<char>, q: int)
    requires
        0 <= q,
    ensures
        parse_from(t + c, t.len() + q) == parse_from(c, q),
    decreases c.len() - q,
{
    let s = t + c;
    let n = t.len() as int;
    if q >= c.len() {
    } else {
        lemma_marker_lengths();
        lemma_find_shift(t, c, bash_open(), q);
        lemma_find_shift(t, c, reset_keyword(), q);
        lemma_find_shift(t, c, reset_state_keyword(), q);
        lemma_find_from(c, bash_open(), q);
        lemma_find_from(c, reset_keyword(), q);
        lemma_find_from(c, reset_state_keyword(), q);
        let b = find_from(c, bash_open(), q);
        let r = first_reset(c, q);
        let reset_first = match (b, r) {
            (Some(i), Some((j, _))) => j < i,
            (None, Some(_)) => true,
            _ => false,
        };
        if b is Some && !reset_first {
            let start = b->0 + bash_open().len();
            lemma_find_shift(t, c, fence(), start);
            lemma_find_from(c, fence(), start);
            match find_from(c, fence(), start) {
                Some(e) => {
                    assert(s.subrange(n + start, n + e) =~= c.subrange(start, e));
                    lemma_parse_shift(t, c, e + fence().len());
                },
                None => {
                    lemma_parse_shift(t, c, start);
                },
            }
        } else {
            match r {
                Some((j, len)) => {
                    lemma_parse_shift(t, c, j + len);
                },
                None => {},
            }
        }
    }
}

/// Prose before a reply changes nothing, as long as no marker starts inside it.
pub proof fn lemma_prose_changes_nothing(prose: Seq<char>, reply: Seq<char>)
    requires
        forall|i: int| 0 <= i < prose.len() ==> #[trigger] no_marker_at(prose + reply, i),
    ensures
        parsed_actions(prose + reply) == parsed_actions(reply),
{
    lemma_skip_prose(prose, reply, 0);
    lemma_parse_shift(prose, reply, 0);
}

/// Reading `prose + reply` from `k` inside the prose is reading from the end of the prose.
proof fn lemma_skip_prose(prose: Seq<char>, reply: Seq<char>, k: int)
    requires
        0 <= k <= prose.len(),
        forall|i: int| 0 <= i < prose.len() ==> #[trigger] no_marker_at(prose + reply, i),
    ensures
        parse_from(prose + reply, k) == parse_from(prose + reply, prose.len() as int),
    decreases prose.len() - k,
{
    if k < prose.len() {
        assert(no_marker_at(prose + reply, k));
        lemma_parse_skip(prose + reply, k);
        lemma_skip_prose(prose, reply, k + 1);
    }
}


/// A command written in a `bash` block: the opening marker, a line break, the command,
/// a line break, the closing fence and a line break.
pub open spec fn bash_block(c: Seq<char>) -> Seq<char> {
    bash_open() + seq!['\n'] + c + seq!['\n'] + fence() + seq!['\n']
}

/// The commands, each in a `bash` block of its own, one after the other.
pub open spec fn bash_blocks(cs: Seq<Seq<char>>) -> Seq<char>
    decreases cs.len(),
{
    if cs.len() == 0 {
        Seq::empty()
    } else {
        bash_block(cs[0]) + bash_blocks(cs.drop_first())
    }
}

/// A command that a `bash` block gives back as it is: not empty, without white space
/// at either end, and without a backtick.
pub open spec fn plain_command(c: Seq<char>) -> bool {
    &&& c.len() > 0
    &&& trim(c) == c
    &&& forall|k: int| 0 <= k < c.len() ==> c[k] != '`'
}

/// Where the parts of a `bash` block stand in `bash_block(c) + rest`.
proof fn lemma_block_layout(c: Seq<char>, rest: Seq<char>)
    ensures
        ({
            let s = bash_block(c) + rest;
            let n = c.len() as int;
            &&& bash_block(c).len() == 13 + n
            &&& s.subrange(0, 7) == bash_open()
            &&& s.subrange(7, 9 + n) == seq!['\n'] + c + seq!['\n']
            &&& s.subrange(9 + n, 12 + n) == fence()
            &&& s[12 + n] == '\n'
        }),
{
    lemma_marker_lengths();
    let s = bash_block(c) + rest;
    let n = c.len() as int;
    assert(s.subrange(0, 7) =~= bash_open());
    assert(s.subrange(7, 9 + n) =~= seq!['\n'] + c + seq!['\n']);
    assert(s.subrange(9 + n, 12 + n) =~= fence());
}

/// The closing fence of a block around a plain command is the one right after it.
proof fn lemma_block_fence(c: Seq<char>, rest: Seq<char>)
    requires
        plain_command(c),
    ensures
        find_from(bash_block(c) + rest, fence(), 7) == Some(9 + c.len() as int),
{
    lemma_marker_lengths();
    lemma_marker_heads();
    lemma_block_layout(c, rest);
    let s = bash_block(c) + rest;
    let n = c.len() as int;
    let inner = s.subrange(7, 9 + n);
    assert forall|j: int| 7 <= j < 9 + n implies !occurs_at(s, fence(), j) by {
        if occurs_at(s, fence(), j) {
            assert(s.subrange(j, j + 3)[0] == s[j]);
            assert(s[j] == inner[j - 7]);
            if 8 <= j < 8 + n {
                assert(inner[j - 7] == c[j - 8]);
            }
        }
    }
    assert(occurs_at(s, fence(), 9 + n));
    lemma_find_from(s, fence(), 7);
    match find_from(s, fence(), 7) {
        Some(i) => {
            if i < 9 + n {
                assert(!occurs_at(s, fence(), i));
            }
            if i > 9 + n {
                assert(!occurs_at(s, fence(), 9 + n));
            }
        },
        None => {
            assert(!occurs_at(s, fence(), 9 + n));
        },
    }
}

/// A `bash` block gives back its command, and then the reply goes on after it.
pub proof fn lemma_bash_block_read(c: Seq<char>, rest: Seq<char>)
    requires
        plain_command(c),
    ensures
        parsed_actions(bash_block(c) + rest) == seq![ActionView::Bash(c)] + parsed_actions(rest),
{
    lemma_marker_lengths();
    lemma_block_layout(c, rest);
    lemma_block_fence(c, rest);
    let block = bash_block(c);
    let s = block + rest;
    let n = c.len() as int;
    assert(find_from(s, bash_open(), 0) == Some(0int));
    lemma_find_from(s, reset_keyword(), 0);
    lemma_find_from(s, reset_state_keyword(), 0);
    assert(is_white_space('\n'));
    lemma_trim_padded(c, '\n', '\n');
    assert(trim(s.subrange(7, 9 + n)) == c);
    lemma_no_marker_at_char(s, 12 + n);
    lemma_parse_skip(s, 12 + n);
    lemma_parse_shift(block, rest, 0);
    assert(parse_from(s, 12 + n) == parse_from(rest, 0));
}

/// Commands written in `bash` blocks come back exactly, in order, and nothing else.
pub proof fn lemma_bash_blocks_round_trip(cs: Seq<Seq<char>>)
    requires
        forall|k: int| 0 <= k < cs.len() ==> plain_command(#[trigger] cs[k]),
    ensures
        parsed_actions(bash_blocks(cs)) == cs.map_values(|c: Seq<char>| ActionView::Bash(c)),
    decreases cs.len(),
{
    if cs.len() == 0 {
        assert(cs.map_values(|c: Seq<char>| ActionView::Bash(c)) =~= Seq::<ActionView>::empty());
    } else {
        let rest = cs.drop_first();
        assert(plain_command(cs[0]));
        assert forall|k: int| 0 <= k < rest.len() implies plain_command(#[trigger] rest[k]) by {
            assert(rest[k] == cs[k + 1]);
        }
        lemma_bash_blocks_round_trip(rest);
        lemma_bash_block_read(cs[0], bash_blocks(rest));
        assert(cs.map_values(|c: Seq<char>| ActionView::Bash(c)) =~= seq![ActionView::Bash(cs[0])]
            + rest.map_values(|c: Seq<char>| ActionView::Bash(c)));
    }
}


/// The reset request that reading takes is the earliest one, of either spelling: it
/// occurs where `first_reset` says, with that keyword's length, and neither keyword
/// occurs before it; and there is none exactly when neither keyword occurs at all.
pub proof fn lemma_first_reset_earliest(s: Seq<char>, from: int)
    requires
        0 <= from,
    ensures
        match first_reset(s, from) {
            Some((j, len)) => {
                &&& from <= j
                &&& {
                    ||| len == reset_keyword().len() && occurs_at(s, reset_keyword(), j)
                    ||| len == reset_state_keyword().len() && occurs_at(
                        s,
                        reset_state_keyword(),
                        j,
                    )
                }
                &&& forall|m: int|
                    from <= m < j ==> !occurs_at(s, reset_keyword(), m) && !occurs_at(
                        s,
                        reset_state_keyword(),
                        m,
                    )
            },
            None => forall|m: int|
                from <= m ==> !occurs_at(s, reset_keyword(), m) && !occurs_at(
                    s,
                    reset_state_keyword(),
                    m,
                ),
        },
{
    lemma_find_from(s, reset_keyword(), from);
    lemma_find_from(s, reset_state_keyword(), from);
}

/// The two reset keywords never start at the same index.
proof fn lemma_keywords_apart(s: Seq<char>, j: int)
    ensures
        !(occurs_at(s, reset_keyword(), j) && occurs_at(s, reset_state_keyword(), j)),
{
    lemma_marker_lengths();
    lemma_marker_heads();
    if occurs_at(s, reset_keyword(), j) && occurs_at(s, reset_state_keyword(), j) {
        assert(s.subrange(j, j + 9)[0] == s[j]);
        assert(s.subrange(j, j + 17)[0] == s[j]);
    }
}

/// Actions come in the order of their markers: when a reset request (either spelling)
/// starts at `j`, no other reset request starts before it, and no command block opens
/// at or before it, the next action read is a reset, and reading goes on after the
/// keyword.
pub proof fn lemma_reset_read_first(s: Seq<char>, from: int, j: int, keyword: Seq<char>)
    requires
        0 <= from <= j,
        keyword == reset_keyword() || keyword == reset_state_keyword(),
        occurs_at(s, keyword, j),
        forall|m: int| from <= m <= j ==> !occurs_at(s, bash_open(), m),
        forall|m: int|
            from <= m < j ==> !occurs_at(s, reset_keyword(), m) && !occurs_at(
                s,
                reset_state_keyword(),
                m,
            ),
    ensures
        parse_from(s, from) == seq![ActionView::Reset] + parse_from(s, j + keyword.len()),
{
    lemma_marker_lengths();
    lemma_first_reset_earliest(s, from);
    lemma_keywords_apart(s, j);
    lemma_find_from(s, bash_open(), from);
    let r = first_reset(s, from);
    match r {
        Some((j2, len)) => {
            if j2 < j {
                assert(!occurs_at(s, keyword, j2));
            }
            if j2 > j {
                assert(!occurs_at(s, keyword, j));
            }
            assert(j2 == j);
            assert(len == keyword.len());
        },
        None => {
            assert(!occurs_at(s, keyword, j));
        },
    }
    match find_from(s, bash_open(), from) {
        Some(i) => {
            assert(i > j);
        },
        None => {},
    }
}


/// Actions come in the order of their markers, for command blocks too: when a block
/// opens at `b`, no reset request and no other block starts before it, and the first
/// closing fence after its opening marker is at `e`, the next action read is the
/// block's trimmed text (none if that is empty), and reading goes on after the fence.
pub proof fn lemma_block_read_first(s: Seq<char>, from: int, b: int, e: int)
    requires
        0 <= from <= b,
        occurs_at(s, bash_open(), b),
        forall|m: int| from <= m < b ==> no_marker_at(s, m),
        b + bash_open().len() <= e,
        occurs_at(s, fence(), e),
        forall|m: int| b + bash_open().len() <= m < e ==> !occurs_at(s, fence(), m),
    ensures
        ({
            let command = trim(s.subrange(b + bash_open().len(), e));
            parse_from(s, from) == (if command.len() > 0 {
                seq![ActionView::Bash(command)]
            } else {
                Seq::empty()
            }) + parse_from(s, e + fence().len())
        }),
{
    lemma_marker_lengths();
    lemma_marker_heads();
    lemma_find_from(s, bash_open(), from);
    lemma_find_from(s, fence(), b + 7);
    lemma_first_reset_earliest(s, from);
    if occurs_at(s, reset_keyword(), b) {
        assert(s.subrange(b, b + 9)[0] == s[b]);
        assert(s.subrange(b, b + 7)[0] == s[b]);
    }
    if occurs_at(s, reset_state_keyword(), b) {
        assert(s.subrange(b, b + 17)[0] == s[b]);
        assert(s.subrange(b, b + 7)[0] == s[b]);
    }
    match find_from(s, bash_open(), from) {
        Some(i) => {
            if i < b {
                assert(no_marker_at(s, i));
            }
            if i > b {
                assert(!occurs_at(s, bash_open(), b));
            }
        },
        None => {},
    }
    match first_reset(s, from) {
        Some((j, _)) => {
            if j < b {
                assert(no_marker_at(s, j));
            }
        },
        None => {},
    }
    match find_from(s, fence(), b + 7) {
        Some(i) => {
            if i < e {
                assert(!occurs_at(s, fence(), i));
            }
            if i > e {
                assert(!occurs_at(s, fence(), e));
            }
        },
        None => {
            assert(!occurs_at(s, fence(), e));
        },
    }
    let command = trim(s.subrange(b + 7, e));
    if command.len() > 0 {
    } else {
        assert(Seq::<ActionView>::empty() + parse_from(s, e + 3) =~= parse_from(s, e + 3));
    }
}

/// An opening marker without a closing fence after it gives no action: reading goes
/// on right after the marker.
pub proof fn lemma_unclosed_block_skipped(s: Seq<char>, from: int, b: int)
    requires
        0 <= from <= b,
        occurs_at(s, bash_open(), b),
        forall|m: int| from <= m < b ==> no_marker_at(s, m),
        forall|m: int| b + bash_open().len() <= m ==> !occurs_at(s, fence(), m),
    ensures
        parse_from(s, from) == parse_from(s, b + bash_open().len()),
{
    lemma_marker_lengths();
    lemma_marker_heads();
    lemma_find_from(s, bash_open(), from);
    lemma_find_from(s, fence(), b + 7);
    lemma_first_reset_earliest(s, from);
    if occurs_at(s, reset_keyword(), b) {
        assert(s.subrange(b, b + 9)[0] == s[b]);
        assert(s.subrange(b, b + 7)[0] == s[b]);
    }
    if occurs_at(s, reset_state_keyword(), b) {
        assert(s.subrange(b, b + 17)[0] == s[b]);
        assert(s.subrange(b, b + 7)[0] == s[b]);
    }
    match find_from(s, bash_open(), from) {
        Some(i) => {
            if i < b {
                assert(no_marker_at(s, i));
            }
            if i > b {
                assert(!occurs_at(s, bash_open(), b));
            }
        },
        None => {},
    }
    match first_reset(s, from) {
        Some((j, _)) => {
            if j < b {
                assert(no_marker_at(s, j));
            }
        },
        None => {},
    }
}

} // verus!
