use mini_swe_agent::text::{chars_of, decimal_text, find_pattern, is_white_space_char, trimmed_bounds};

#[test]
fn white_space_agrees_with_std() {
    for u in 0u32..=0x10FFFF {
        if let Some(c) = char::from_u32(u) {
            assert_eq!(is_white_space_char(c), c.is_whitespace(), "code point {:x}", u);
        }
    }
}

#[test]
fn trimmed_bounds_agree_with_str_trim() {
    let samples = ["", "   ", " a ", "\n\tls -la\n", "x", "\u{3000}é\u{85}", "a b  "];
    for s in samples {
        let chars = chars_of(s);
        let (lo, hi) = trimmed_bounds(&chars, 0, chars.len());
        let got: String = chars[lo..hi].iter().collect();
        assert_eq!(got, s.trim());
    }
}

#[test]
fn decimal_matches_to_string() {
    for n in [0, 7, 10, 42, -1, -10, 255, i32::MAX, i32::MIN, 1000000] {
        assert_eq!(decimal_text(n), n.to_string());
    }
}

#[test]
fn find_pattern_gives_first_occurrence() {
    let s = chars_of("ab```c```");
    let pat = chars_of("```");
    assert_eq!(find_pattern(&s, &pat, 0), Some(2));
    assert_eq!(find_pattern(&s, &pat, 3), Some(6));
    assert_eq!(find_pattern(&s, &pat, 7), None);
    assert_eq!(find_pattern(&s, &chars_of(""), 9), Some(9));
}
