use iptv_verify::pipeline::failure_count;
use iptv_verify::pipeline::matched_lines;
use iptv_verify::pipeline::run_batch;
use iptv_verify::pipeline::verify_response;
use iptv_verify::pipeline::FetchError;
use iptv_verify::source::candidate_urls;
use iptv_verify::text::split_lines;

#[test]
fn matched_lines_are_exactly_those_containing_term() {
    let body = "x\nsearch-me here\nno\nalso search-me\n";
    let found = matched_lines(body, "search-me");
    assert_eq!(
        found,
        vec!["search-me here".to_string(), "also search-me".to_string()]
    );
}

#[test]
fn absent_term_yields_zero_matches_without_error() {
    let body = "hello\nworld\n";
    assert!(matched_lines(body, "search-me").is_empty());
    let o = verify_response("http://example.test/a", Some("search-me"), &Ok(body.to_string()));
    assert_eq!(o.result, Ok(vec![]));
}

#[test]
fn no_search_term_reports_success_with_no_matches() {
    let body = "anything at all\nanything at all\n".to_string();
    let o = verify_response("http://example.test/a", None, &Ok(body));
    assert_eq!(o.url, "http://example.test/a");
    assert_eq!(o.result, Ok(vec![]));
}

#[test]
fn each_fetch_error_kind_is_reported_per_url() {
    let kinds = [
        FetchError::MalformedUrl,
        FetchError::Dns,
        FetchError::ConnectionFailed,
        FetchError::Timeout,
        FetchError::NonTextBody,
    ];
    for kind in kinds {
        let o = verify_response("http://example.test/e", Some("t"), &Err(kind));
        assert_eq!(o.url, "http://example.test/e");
        assert_eq!(o.result, Err(kind));
    }
}

#[test]
fn failed_fetch_does_not_abort_the_batch() {
    let urls = vec![
        "http://example.test/1".to_string(),
        "http://example.test/2".to_string(),
        "http://example.test/3".to_string(),
    ];
    let fetches = vec![
        Ok("t here\n".to_string()),
        Err(FetchError::ConnectionFailed),
        Ok("t again\n".to_string()),
    ];
    let outcomes = run_batch(&urls, Some("t"), &fetches);
    assert_eq!(outcomes.len(), 3);
    assert_eq!(outcomes[0].result, Ok(vec!["t here".to_string()]));
    assert_eq!(outcomes[1].result, Err(FetchError::ConnectionFailed));
    assert_eq!(outcomes[2].result, Ok(vec!["t again".to_string()]));
    assert_eq!(failure_count(&outcomes), 1);
}

#[test]
fn repeated_runs_give_identical_outcomes() {
    let urls = vec![
        "http://example.test/a".to_string(),
        "http://example.test/b".to_string(),
    ];
    let fetches = vec![
        Ok("hello\nworld search-me\n".to_string()),
        Err(FetchError::ConnectionFailed),
    ];
    let first = run_batch(&urls, Some("search-me"), &fetches);
    let second = run_batch(&urls, Some("search-me"), &fetches);
    assert_eq!(first, second);
}

#[test]
fn two_url_scenario_with_one_refused_connection() {
    let file_content = "http://example.test/a\n\nhttp://example.test/b\n";
    let read_results: Vec<Option<String>> =
        split_lines(file_content).into_iter().map(Some).collect();
    let urls = candidate_urls(&read_results);
    assert_eq!(
        urls,
        vec!["http://example.test/a".to_string(), "http://example.test/b".to_string()]
    );

    let fetches = vec![
        Ok("hello\nworld search-me\n".to_string()),
        Err(FetchError::ConnectionFailed),
    ];
    let outcomes = run_batch(&urls, Some("search-me"), &fetches);
    assert_eq!(outcomes.len(), 2);
    assert_eq!(outcomes[0].url, "http://example.test/a");
    assert_eq!(outcomes[0].result, Ok(vec!["world search-me".to_string()]));
    assert_eq!(outcomes[1].url, "http://example.test/b");
    assert_eq!(outcomes[1].result, Err(FetchError::ConnectionFailed));
}
