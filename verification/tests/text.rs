use lancam::text::{
    append, chars, contains, copy, ends_with, equal, find, matches_at, parse_number, parse_range,
    replace, strip_prefix, text_of, trim, write_decimal,
};

#[test]
fn texts_are_searched_like_strings() {
    let texts = ["", "a", "ab", "aab", "aaab", "abab", "\u{e4}b", "b\u{e4}b"];
    for s in texts {
        for t in texts {
            assert_eq!(contains(s, t), s.contains(t), "{s} {t}");
            assert_eq!(ends_with(s, t), s.ends_with(t), "{s} {t}");
            assert_eq!(equal(s, t), s == t);
            assert_eq!(strip_prefix(s, t), s.strip_prefix(t).map(|r| r.to_string()));
        }
    }
    assert!(matches_at(&chars("xyz"), 1, &chars("yz")));
    assert!(!matches_at(&chars("xyz"), 2, &chars("yz")));
}

#[test]
fn texts_are_built() {
    let mut s = copy("a\u{4e2d}");
    append(&mut s, "b");
    assert_eq!(s, "a\u{4e2d}b");
    assert_eq!(text_of(&chars(&s), 1, 3), "\u{4e2d}b");
    assert_eq!(find(&chars("a:b:c"), 0, ':'), 1);
    assert_eq!(find(&chars("a:b:c"), 2, ':'), 3);
    assert_eq!(find(&chars("abc"), 0, ':'), 3);
    assert_eq!(replace("a_b_", '_', ' '), "a b ");
}

#[test]
fn trimming_agrees_with_std() {
    for s in ["", " ", " a b ", "\t\na\u{a0}\u{2003}", "\u{200b}a\u{200b}", "\u{85}x\u{3000}", "plain"] {
        assert_eq!(trim(s), s.trim(), "{s:?}");
    }
    for c in (0..0x1_0000u32).filter_map(char::from_u32) {
        assert_eq!(lancam::text::is_white_space(c), c.is_whitespace(), "{c:?}");
    }
}

#[test]
fn numbers_are_read_like_std() {
    for s in [
        "", "+", "-", "0", "+7", "-0", "007", "4294967295", "4294967296", "99999999999999999999", "1a",
        " 1", "1 ", "++1", "\u{661}",
    ] {
        assert_eq!(parse_number(s), s.parse::<u32>().ok(), "{s:?}");
    }
    assert_eq!(parse_range(&chars("x12y"), 1, 3), Some(12));
}

#[test]
fn written_numbers_read_back() {
    for n in [0u32, 1, 9, 10, 99, 100, 12_345, u32::MAX] {
        assert_eq!(write_decimal(n as u64), n.to_string());
        assert_eq!(parse_number(&write_decimal(n as u64)), Some(n));
    }
    assert_eq!(write_decimal(u64::MAX), u64::MAX.to_string());
}

#[test]
fn the_first_text_that_holds_a_part_is_found() {
    let hays: Vec<String> = ["brio", "obs camera", "wave cam"].iter().map(|s| s.to_string()).collect();
    assert_eq!(lancam::text::first_hit(&hays, "cam"), 1);
    assert_eq!(lancam::text::first_hit(&hays, "wave"), 2);
    assert_eq!(lancam::text::first_hit(&hays, ""), 0);
    assert_eq!(lancam::text::first_hit(&hays, "BRIO"), 3);
}
