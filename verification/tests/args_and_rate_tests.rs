use wget::{
    filter_url_lines, parse_rate_limit, record_chunk, Args, FetchError, ThrottleDecision,
    TransferState,
};

fn plain_args() -> Args {
    Args {
        urls: vec![],
        input_file: None,
        output: None,
        path: None,
        background: false,
        rate_limit: None,
        mirror: false,
        reject: None,
        exclude: None,
        convert_links: false,
    }
}

#[test]
fn validate_needs_a_url_source() {
    let a = plain_args();
    let err = a.validate().unwrap_err();
    assert!(err.starts_with("wget: missing URL"));

    let mut b = plain_args();
    b.urls = vec!["https://a.test/x".to_string()];
    assert!(b.validate().is_ok());

    let mut c = plain_args();
    c.input_file = Some("list.txt".to_string());
    assert!(c.validate().is_ok());
}

#[test]
fn reject_and_exclude_options_split_on_commas() {
    let mut a = plain_args();
    a.reject = Some("jpg, png ,gif".to_string());
    a.exclude = Some("/private,/tmp".to_string());
    assert_eq!(a.get_rejected_extensions(), vec!["jpg", "png", "gif"]);
    assert_eq!(a.get_excluded_paths(), vec!["/private", "/tmp"]);

    let b = plain_args();
    assert!(b.get_rejected_extensions().is_empty());
    assert!(b.get_excluded_paths().is_empty());
}

#[test]
fn url_list_drops_blank_lines() {
    // the end-to-end list scenario: two URLs around an empty line give
    // exactly two fetch targets
    let lines: Vec<String> = vec![
        "https://a.test/x.bin".to_string(),
        "".to_string(),
        "https://a.test/y.bin".to_string(),
    ];
    let urls = filter_url_lines(&lines);
    assert_eq!(urls, vec!["https://a.test/x.bin", "https://a.test/y.bin"]);
}

#[test]
fn url_list_trims_whitespace() {
    let lines: Vec<String> = vec!["  https://a.test/x \t".to_string(), "   ".to_string()];
    let urls = filter_url_lines(&lines);
    assert_eq!(urls, vec!["https://a.test/x"]);
}

#[test]
fn rate_limit_parses_units() {
    assert_eq!(parse_rate_limit(&None), Ok(None));
    assert_eq!(parse_rate_limit(&Some("200k".to_string())), Ok(Some(200_000)));
    assert_eq!(parse_rate_limit(&Some("10K".to_string())), Ok(Some(10_000)));
    assert_eq!(parse_rate_limit(&Some("2M".to_string())), Ok(Some(2_000_000)));
    assert_eq!(parse_rate_limit(&Some("3m".to_string())), Ok(Some(3_000_000)));
}

#[test]
fn rate_limit_rejects_malformed_strings() {
    assert_eq!(parse_rate_limit(&Some("".to_string())), Err(FetchError::Parse));
    assert_eq!(parse_rate_limit(&Some("200".to_string())), Err(FetchError::Parse));
    assert_eq!(parse_rate_limit(&Some("k200".to_string())), Err(FetchError::Parse));
    assert_eq!(parse_rate_limit(&Some("200x".to_string())), Err(FetchError::Parse));
    assert_eq!(parse_rate_limit(&Some("200kb".to_string())), Err(FetchError::Parse));
    assert_eq!(
        parse_rate_limit(&Some("99999999999999999999k".to_string())),
        Err(FetchError::Parse)
    );
    // the number fits in 64 bits but the scaled rate does not
    assert_eq!(
        parse_rate_limit(&Some("18446744073709551615k".to_string())),
        Err(FetchError::Parse)
    );
}

#[test]
fn limiter_never_sleeps_without_a_budget() {
    // the no-budget half of the rate-limiter property
    let mut st = TransferState::new(0);
    for i in 0..100u64 {
        let d = record_chunk(&mut st, 1_000_000, None, (i * 7) % 299);
        assert!(!matches!(d, ThrottleDecision::Sleep(_)));
    }
    assert_eq!(st.downloaded, 100_000_000);
}

#[test]
fn limiter_sleeps_when_window_fills_early() {
    // budget 1000 B/s, chunks of 300 B: after the second chunk the window
    // holds 600 >= 1000 - 2*300, and only 50 ms have passed, so the
    // session must sleep the remaining 250 ms
    let mut st = TransferState::new(0);
    let d1 = record_chunk(&mut st, 300, Some(1000), 10);
    assert_eq!(d1, ThrottleDecision::Proceed);
    let d2 = record_chunk(&mut st, 300, Some(1000), 50);
    assert_eq!(d2, ThrottleDecision::Sleep(250));
    assert_eq!(st.window_bytes, 600);
}

#[test]
fn limiter_closes_window_after_interval() {
    let mut st = TransferState::new(0);
    let d1 = record_chunk(&mut st, 300, Some(1000), 10);
    assert_eq!(d1, ThrottleDecision::Proceed);
    let d2 = record_chunk(&mut st, 300, Some(1000), 320);
    assert_eq!(d2, ThrottleDecision::CloseWindow);
    assert_eq!(st.window_bytes, 0);
    assert_eq!(st.speed, 600);
    assert_eq!(st.downloaded, 600);
}

#[test]
fn window_rotates_for_display_without_budget() {
    let mut st = TransferState::new(0);
    let d1 = record_chunk(&mut st, 500, None, 100);
    assert_eq!(d1, ThrottleDecision::Proceed);
    let d2 = record_chunk(&mut st, 500, None, 400);
    assert_eq!(d2, ThrottleDecision::CloseWindow);
    assert_eq!(st.speed, 1000);
    assert_eq!(st.window_bytes, 0);
}

#[test]
fn oversized_chunks_do_not_livelock() {
    // a chunk bigger than half the budget drops the trigger threshold to
    // zero, so the window closes as soon as the interval has passed
    let mut st = TransferState::new(0);
    let d = record_chunk(&mut st, 5000, Some(1000), 300);
    assert_eq!(d, ThrottleDecision::CloseWindow);
}
