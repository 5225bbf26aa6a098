use exif_attrs::text::{contains_substr, normalize_str, parse_line, split_lines, trim_str};

#[test]
fn normalization_deletes_internal_whitespace_too() {
    assert_eq!(normalize_str("  GPS  Latitude \t"), "GPSLatitude");
    assert_eq!(normalize_str(""), "");
    assert_eq!(normalize_str(" \t "), "");
}

#[test]
fn trimming_keeps_internal_whitespace() {
    assert_eq!(trim_str("  a b  "), "a b");
    assert_eq!(trim_str("ab"), "ab");
    assert_eq!(trim_str("   "), "");
}

#[test]
fn a_line_splits_at_first_and_last_colon() {
    let (tag, value) = parse_line("Modify Date  : 2021:06:12");
    assert_eq!(tag, "ModifyDate");
    assert_eq!(value, "12");
}

#[test]
fn a_line_without_colon_is_its_own_tag_and_value() {
    let (tag, value) = parse_line("  banner  ");
    assert_eq!(tag, "banner");
    assert_eq!(value, "banner");
}

#[test]
fn splitting_lines_matches_newline_boundaries() {
    let lines = split_lines("a\nb\n");
    assert_eq!(lines, vec!["a", "b", ""]);
    assert_eq!(split_lines(""), vec![""]);
}

#[test]
fn substring_search_finds_the_marker() {
    assert!(contains_substr("x Error: File not found - y", "Error: File not found -"));
    assert!(!contains_substr("everything fine", "Error: File not found -"));
    assert!(contains_substr("anything", ""));
}
