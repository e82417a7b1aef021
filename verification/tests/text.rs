use jellyswarrm_proxy::ids::{normalize_id, spell_id};
use jellyswarrm_proxy::text::{
    count_text, decimal_text, eq_ignoring_case, is_before, join_texts, segments_of, to_lower, trim,
    trim_end_of,
};

#[test]
fn whitespace_is_trimmed_at_both_ends() {
    assert_eq!(trim(" \t a b\u{a0}\u{3000}\n"), "a b");
    assert_eq!(trim("\u{200b}x"), "\u{200b}x");
    assert_eq!(trim("   "), "");
    assert_eq!(trim_end_of("http://a//", '/'), "http://a");
    assert_eq!(trim_end_of("//", '/'), "");
}

#[test]
fn letters_are_lowered_within_ascii() {
    assert_eq!(to_lower("MoViEs \u{c4}"), "movies \u{c4}");
    assert!(eq_ignoring_case("ITEMS", "items"));
    assert!(!eq_ignoring_case("\u{c4}", "\u{e4}"));
}

#[test]
fn texts_are_ordered_as_strings_are() {
    for (a, b) in [("a", "b"), ("", "a"), ("B", "a"), ("ab", "abc"), ("\u{ffff}", "\u{10000}")] {
        assert_eq!(is_before(a, b), a < b);
        assert_eq!(is_before(b, a), b < a);
    }
    assert!(!is_before("x", "x"));
}

#[test]
fn paths_are_split_and_lists_are_joined() {
    assert_eq!(segments_of("/a//b/"), vec!["a", "b"]);
    assert_eq!(segments_of("///"), Vec::<String>::new());
    assert_eq!(join_texts(&vec!["a".to_string(), "b".to_string()], ", "), "a, b");
    assert_eq!(join_texts(&Vec::new(), ", "), "");
}

#[test]
fn numbers_are_written_in_decimal() {
    assert_eq!(decimal_text(0), "0");
    assert_eq!(decimal_text(-120), "-120");
    assert_eq!(decimal_text(i64::MIN), "-9223372036854775808");
    assert_eq!(count_text(98765), "98765");
}

#[test]
fn identifiers_have_one_stored_spelling() {
    let simple = "550e8400e29b41d4a716446655440000";
    assert_eq!(normalize_id("550E8400-E29B-41D4-A716-446655440000"), simple);
    assert_eq!(normalize_id("{550e8400-e29b-41d4-a716-446655440000}"), simple);
    assert_eq!(normalize_id(simple), simple);
    assert_eq!(normalize_id("original-movie-123"), "original-movie-123");
    assert_eq!(normalize_id("550e8400e29b41d4a716446655440001"), "550e8400e29b41d4a716446655440001");
    assert_eq!(spell_id(Some(0xab), "x"), "000000000000000000000000000000ab");
    assert_eq!(spell_id(None, "x"), "x");
}
