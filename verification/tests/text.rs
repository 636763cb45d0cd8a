use omni::text::{
    comes_before, contains, decimal, has_prefix_ci, is_white_space, pad_left, pad_right, parse_u16,
    replace_all, same, starts_with, trim_both, trim_end, Strip,
};

#[test]
fn white_space_is_that_of_unicode() {
    for n in 0u32..=0x10ffff {
        if let Some(c) = char::from_u32(n) {
            assert_eq!(is_white_space(c), c.is_whitespace(), "U+{:04X}", n);
        }
    }
}

#[test]
fn trimming_agrees_with_std() {
    for s in ["", " ", "a", "  a b \t\n", "\u{3000}x\u{a0}", "--a-b--", "///", "https://x/y//"] {
        assert_eq!(trim_both(s, Strip::White), s.trim());
        assert_eq!(trim_both(s, Strip::Only('-')), s.trim_matches('-'));
        assert_eq!(trim_end(s, Strip::Only('/')), s.trim_end_matches('/'));
    }
}

#[test]
fn numbers_are_written_in_decimal() {
    for n in [0u64, 9, 10, 99, 100, 2201, 65535, u64::MAX] {
        assert_eq!(decimal(n), n.to_string());
    }
}

#[test]
fn numbers_are_read() {
    for s in [
        "2333", "+2333", "0", "00080", "65535", "65536", "99999999999999999999", "", "+", "-1",
        "-0", " 1", "1 ", "12a", "++1", "\u{0661}",
    ] {
        assert_eq!(parse_u16(s), s.parse::<u16>().ok(), "{:?}", s);
    }
}

#[test]
fn texts_compare_as_their_bytes() {
    let all = ["", "a", "ab", "b", "2026-01-01T00:00:00Z", "2026-01-01T00:00:01Z", "é", "\u{10000}", "\u{ffff}"];
    for a in all {
        for b in all {
            assert_eq!(comes_before(a, b), a < b);
            assert_eq!(same(a, b), a == b);
        }
    }
}

#[test]
fn searching_agrees_with_std() {
    for hay in ["", "token", "bad token!", "tokken", "aaaa", "étoken"] {
        for needle in ["", "token", "aa", "é", "a"] {
            assert_eq!(contains(hay, needle), hay.contains(needle));
            assert_eq!(starts_with(hay, needle), hay.starts_with(needle));
        }
    }
}

#[test]
fn replacing_agrees_with_std() {
    for s in ["", "__X__", "a__X__b__X__", "__X__X__", "____X__", "nothing"] {
        assert_eq!(replace_all(s, "__X__", "<v>"), s.replace("__X__", "<v>"));
        assert_eq!(replace_all(s, "_", ""), s.replace("_", ""));
    }
}

#[test]
fn columns_are_padded() {
    assert_eq!(pad_right("ab", 5), format!("{:<5}", "ab"));
    assert_eq!(pad_left("ab", 5), format!("{:>5}", "ab"));
    assert_eq!(pad_right("é", 3), format!("{:<3}", "é"));
    assert_eq!(pad_right("toolong", 3), "toolong");
    assert_eq!(pad_left("", 2), "  ");
}

#[test]
fn prefixes_match_without_ascii_case() {
    assert!(has_prefix_ci("0a1b2c", "0A1"));
    assert!(has_prefix_ci("0a1b2c", ""));
    assert!(!has_prefix_ci("0a1b2c", "0a2"));
    assert!(!has_prefix_ci("0a", "0a1"));
    assert!(!has_prefix_ci("é", "É"));
}
