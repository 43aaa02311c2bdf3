use iptv_verify::source::candidate_urls;

#[test]
fn empty_input_yields_no_candidates() {
    let lines: Vec<Option<String>> = vec![];
    let urls = candidate_urls(&lines);
    assert!(urls.is_empty());
}

#[test]
fn blank_lines_are_never_candidates() {
    let lines = vec![
        Some(String::new()),
        Some("http://example.test/a".to_string()),
        Some(String::new()),
        Some("http://example.test/b".to_string()),
        Some(String::new()),
    ];
    let urls = candidate_urls(&lines);
    assert_eq!(urls, vec!["http://example.test/a".to_string(), "http://example.test/b".to_string()]);
}

#[test]
fn candidate_count_ignores_blank_positions() {
    let front = vec![
        Some(String::new()),
        Some(String::new()),
        Some("a".to_string()),
        Some("b".to_string()),
        Some("c".to_string()),
    ];
    let spread = vec![
        Some("a".to_string()),
        Some(String::new()),
        Some("b".to_string()),
        Some(String::new()),
        Some("c".to_string()),
    ];
    assert_eq!(candidate_urls(&front).len(), 3);
    assert_eq!(candidate_urls(&spread).len(), 3);
    assert_eq!(candidate_urls(&front), candidate_urls(&spread));
}

#[test]
fn failed_reads_are_skipped_not_fatal() {
    let lines = vec![
        None,
        Some("http://example.test/x".to_string()),
        None,
        Some("http://example.test/y".to_string()),
    ];
    let urls = candidate_urls(&lines);
    assert_eq!(urls, vec!["http://example.test/x".to_string(), "http://example.test/y".to_string()]);
}

#[test]
fn all_blank_input_yields_no_candidates() {
    let lines = vec![Some(String::new()), None, Some(String::new())];
    assert!(candidate_urls(&lines).is_empty());
}
