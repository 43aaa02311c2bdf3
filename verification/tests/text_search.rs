use iptv_verify::text::contains_term;
use iptv_verify::text::split_lines;

#[test]
fn split_empty_body_has_no_lines() {
    assert!(split_lines("").is_empty());
}

#[test]
fn split_lone_newline_is_one_empty_line() {
    assert_eq!(split_lines("\n"), vec![String::new()]);
}

#[test]
fn split_final_line_ending_is_optional() {
    assert_eq!(split_lines("a\nb\n"), vec!["a".to_string(), "b".to_string()]);
    assert_eq!(split_lines("a\nb"), vec!["a".to_string(), "b".to_string()]);
}

#[test]
fn split_crlf_drops_carriage_return() {
    assert_eq!(split_lines("a\r\nb\r\n"), vec!["a".to_string(), "b".to_string()]);
}

#[test]
fn split_keeps_carriage_return_without_newline() {
    assert_eq!(split_lines("a\r"), vec!["a\r".to_string()]);
}

#[test]
fn split_keeps_interior_blank_lines() {
    assert_eq!(
        split_lines("a\n\nb\n"),
        vec!["a".to_string(), String::new(), "b".to_string()]
    );
}

#[test]
fn contains_is_exact_substring() {
    assert!(contains_term("world search-me", "search-me"));
    assert!(contains_term("abc", "b"));
    assert!(!contains_term("abc", "d"));
    assert!(!contains_term("ab", "abc"));
}

#[test]
fn contains_is_case_sensitive() {
    assert!(!contains_term("World", "world"));
    assert!(contains_term("world", "world"));
}

#[test]
fn contains_empty_term_always_holds() {
    assert!(contains_term("", ""));
    assert!(contains_term("abc", ""));
}
