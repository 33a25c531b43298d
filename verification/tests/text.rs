use nube_sync::text::chars_of;
use nube_sync::text::contains_str;
use nube_sync::text::ensure_trailing_slash;
use nube_sync::text::followed_by;
use nube_sync::text::is_under;
use nube_sync::text::join;
use nube_sync::text::str_eq;
use nube_sync::text::suffix_from;

#[test]
fn substring_search() {
    assert!(contains_str("hello world", "o w"));
    assert!(contains_str("hello", "hello"));
    assert!(contains_str("hello", ""));
    assert!(contains_str("", ""));
    assert!(contains_str("abc", "c"));
    assert!(!contains_str("hello", "hellos"));
    assert!(!contains_str("abc", "ac"));
    assert!(!contains_str("", "a"));
    assert!(contains_str("día/niño.txt", "niño"));
}

#[test]
fn string_equality() {
    assert!(str_eq("", ""));
    assert!(str_eq("abc", "abc"));
    assert!(!str_eq("abc", "abd"));
    assert!(!str_eq("abc", "ab"));
    assert!(str_eq("ñ", "ñ"));
}

#[test]
fn characters_of_a_string() {
    assert_eq!(chars_of("añb"), vec!['a', 'ñ', 'b']);
    assert_eq!(chars_of(""), Vec::<char>::new());
}

#[test]
fn path_is_under_root_only_at_a_component_boundary() {
    assert!(is_under("/out/dir/a", "/out/dir"));
    assert!(is_under("/out/dir", "/out/dir"));
    assert!(is_under("/out/dir/a", "/out/dir/"));
    assert!(!is_under("/out/dir2/a", "/out/dir"));
    assert!(!is_under("/out/di", "/out/dir"));
    assert!(!is_under("/other/a", "/out"));
}

#[test]
fn join_puts_one_separator_between() {
    assert_eq!(join("out", "a.txt"), "out/a.txt");
    assert_eq!(join("out/", "a.txt"), "out/a.txt");
    assert_eq!(join("", "a.txt"), "a.txt");
    assert_eq!(join("out", "/abs/a.txt"), "/abs/a.txt");
    assert_eq!(join("out", ""), "out/");
    assert_eq!(join("out", "d/e f.txt"), "out/d/e f.txt");
}

#[test]
fn trailing_slash_is_added_once() {
    assert_eq!(ensure_trailing_slash("Documents"), "Documents/");
    assert_eq!(ensure_trailing_slash("Documents/"), "Documents/");
    assert_eq!(ensure_trailing_slash(""), "/");
}

#[test]
fn followed_by_appends() {
    assert_eq!(followed_by("https://h/", "d/"), "https://h/d/");
    assert_eq!(followed_by("", ""), "");
}

#[test]
fn suffix_cuts_at_a_byte_offset() {
    assert_eq!(suffix_from("/root/a.txt", 6), Some("a.txt"));
    assert_eq!(suffix_from("abc", 0), Some("abc"));
    assert_eq!(suffix_from("abc", 3), Some(""));
    assert_eq!(suffix_from("abc", 4), None);
    assert_eq!(suffix_from("añb", 1), Some("ñb"));
    assert_eq!(suffix_from("añb", 2), None);
    assert_eq!(suffix_from("añb", 3), Some("b"));
}
