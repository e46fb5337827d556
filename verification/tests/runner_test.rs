use genai_bench_rs::metrics::{RawRequestResult, RequestError};
use genai_bench_rs::runner::{
    error_counts, error_key, filter_report, keep_spawning, more_errors_message, request_warning,
    steady_state, successful_requests,
};

fn ok(id: u64, end: u64) -> RawRequestResult {
    RawRequestResult {
        request_id: id,
        start_time_ns: 0,
        first_token_time_ns: 1,
        end_time_ns: end,
        num_input_tokens: 10,
        num_output_tokens: 10,
        reasoning_tokens: 0,
        error: None,
    }
}

fn failed(id: u64, code: u16) -> RawRequestResult {
    RawRequestResult::failed(id, 5, RequestError { code, message: "boom".into() })
}

#[test]
fn failed_record() {
    let r = failed(3, 429);
    assert_eq!(r.start_time_ns, 5);
    assert_eq!(r.end_time_ns, 0);
    assert_eq!(r.error.unwrap().code, 429);
}

#[test]
fn error_keys() {
    assert_eq!(error_key(429), "429");
    assert_eq!(error_key(0), "timeout");
}

#[test]
fn breakdown_by_code() {
    let rs = vec![failed(0, 429), ok(1, 10), failed(2, 0), failed(3, 429), failed(4, 503)];
    let counts = error_counts(&rs);
    assert_eq!(counts, vec![(429, 2), (0, 1), (503, 1)]);
    let total: usize = counts.iter().map(|(_, n)| n).sum();
    assert_eq!(total, 4);
    assert!(error_counts(&vec![ok(0, 1)]).is_empty());
}

const SEC: u64 = 1_000_000_000;

fn timed(id: u64, start: u64, end: u64) -> RawRequestResult {
    RawRequestResult { start_time_ns: start, end_time_ns: end, ..ok(id, end) }
}

#[test]
fn steady_state_selects_by_start_time() {
    // a 60 s level: starts at 1 s, 5 s, 20 s, 54.9 s, 55 s; one failure at 30 s
    let rs = vec![
        timed(0, SEC, 2 * SEC),
        timed(1, 5 * SEC, 7 * SEC),
        RawRequestResult::failed(2, 30 * SEC, RequestError { code: 500, message: "x".into() }),
        timed(3, 20 * SEC, 64 * SEC),
        timed(4, 54 * SEC + 900_000_000, 58 * SEC),
        timed(5, 55 * SEC, 56 * SEC),
    ];
    let succ = successful_requests(&rs);
    assert_eq!(succ, vec![0, 1, 3, 4, 5]);
    let s = steady_state(&rs, &succ, 60 * SEC);
    assert_eq!(s.total_success, 5);
    assert_eq!(s.selected, vec![1, 3, 4]);
    assert_eq!(s.warmup_excluded, 1);
    assert_eq!(s.cooldown_excluded, 1);
    // from the first kept start (5 s) to the last kept end (64 s)
    assert_eq!(s.window, Some((5 * SEC, 64 * SEC)));
}

#[test]
fn steady_state_early_request_is_left_out() {
    // one success, started at 1 s and ended at 2 s of a 60 s level
    let rs = vec![timed(0, SEC, 2 * SEC)];
    let succ = successful_requests(&rs);
    let s = steady_state(&rs, &succ, 60 * SEC);
    assert!(s.selected.is_empty());
    assert_eq!(s.warmup_excluded, 1);
    assert_eq!(s.cooldown_excluded, 0);
    assert_eq!(s.window, None);
}

#[test]
fn steady_state_short_level_keeps_nothing() {
    // a level of 10 s or less has no steady window at all
    let rs = vec![timed(0, 5 * SEC, 6 * SEC), timed(1, 7 * SEC, 8 * SEC)];
    let succ = successful_requests(&rs);
    let s = steady_state(&rs, &succ, 10 * SEC);
    assert!(s.selected.is_empty());
    assert_eq!(s.cooldown_excluded, 2);
    let s = steady_state(&rs, &succ, 3 * SEC);
    assert!(s.selected.is_empty());
    assert_eq!(s.cooldown_excluded, 2);
}

#[test]
fn filter_reports() {
    assert_eq!(filter_report(0, 0, 10, 10), None);
    assert_eq!(filter_report(5, 0, 0, 5), None);
    assert_eq!(
        filter_report(5, 0, 90, 95).as_deref(),
        Some("Filtered 90/95 requests (warmup: 5)")
    );
    assert_eq!(
        filter_report(1, 2, 4, 7).as_deref(),
        Some("Filtered 4/7 requests (warmup: 1, cooldown: 2)")
    );
    assert_eq!(
        filter_report(0, 3, 4, 7).as_deref(),
        Some("Filtered 4/7 requests (cooldown: 3)")
    );
}

#[test]
fn spawning_stops_at_duration_or_cancel() {
    assert!(keep_spawning(0, 60 * SEC, false));
    assert!(keep_spawning(60 * SEC - 1, 60 * SEC, false));
    assert!(!keep_spawning(60 * SEC, 60 * SEC, false));
    assert!(!keep_spawning(0, 60 * SEC, true));
}

#[test]
fn warnings() {
    let e = RequestError { code: 429, message: "Rate limited\r\nmore".into() };
    assert_eq!(request_warning(342, &e), "[WARN] Request 342: HTTP 429 Rate limited");
    let e = RequestError { code: 503, message: String::new() };
    assert_eq!(request_warning(1, &e), "[WARN] Request 1: HTTP 503 ");
    let e = RequestError { code: 0, message: "Request timeout".into() };
    assert_eq!(request_warning(2, &e), "[WARN] Request 2: Request timeout");
    assert_eq!(more_errors_message(3), None);
    assert_eq!(
        more_errors_message(10).as_deref(),
        Some("[WARN] ... and 7 more errors (10 total)")
    );
}
