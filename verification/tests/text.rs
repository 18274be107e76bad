use desk::text::{
    append_fixed, append_int, contains, parse_i64, replace_all, split_once, strip_prefix, to_lower, trim,
};

#[test]
fn numbers_are_written_and_read() {
    for n in [0, 7, -7, i64::MAX, i64::MIN] {
        let mut out = String::new();
        append_int(&mut out, n);
        assert_eq!(out, n.to_string());
        assert_eq!(parse_i64(&out), Some(n));
    }
    assert_eq!(parse_i64("+5"), Some(5));
    assert_eq!(parse_i64(""), None);
    assert_eq!(parse_i64("-"), None);
    assert_eq!(parse_i64("9223372036854775808"), None);
    let mut out = String::new();
    append_fixed(&mut out, 42, 8);
    assert_eq!(out, "00000042");
}

#[test]
fn texts_are_taken_apart() {
    assert_eq!(trim("  a b "), "a b");
    assert_eq!(to_lower("AbC-9"), "abc-9");
    assert_eq!(split_once("a_b_c", '_'), Some(("a".to_string(), "b_c".to_string())));
    assert_eq!(split_once("abc", '_'), None);
    assert_eq!(strip_prefix("depth.X", "depth."), Some("X".to_string()));
    assert_eq!(strip_prefix("dep", "depth."), None);
    assert!(contains("duplicate key value", "key"));
    assert!(!contains("key", "keys"));
}

#[test]
fn every_part_is_replaced() {
    assert_eq!(replace_all("a{X}b{X}", "{X}", "1"), "a1b1");
    assert_eq!(replace_all("aaaa", "aa", "b"), "bb");
    assert_eq!(replace_all("none", "{X}", "1"), "none");
    assert_eq!(replace_all("{X}", "{X}", "{X}{X}"), "{X}{X}");
}
