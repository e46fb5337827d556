use genai_bench_rs::client::{
    completions_url, done_chunk, frame_sse_line, make_chunk, select_content,
    CompletionTokensDetails, SseChunk, SseLine, SseStream, Usage,
};

fn data_of(line: &str) -> Option<String> {
    match frame_sse_line(line) {
        SseLine::Data(d) => Some(d),
        _ => None,
    }
}

#[test]
fn sse_framing() {
    assert!(matches!(frame_sse_line(""), SseLine::Skip));
    assert!(matches!(frame_sse_line("   \r"), SseLine::Skip));
    assert!(matches!(frame_sse_line(": comment"), SseLine::Skip));
    assert!(matches!(frame_sse_line("event: ping"), SseLine::Skip));
    assert!(matches!(frame_sse_line("data:{}"), SseLine::Skip));
    assert!(matches!(frame_sse_line("data: [DONE]"), SseLine::Done));
    assert!(matches!(frame_sse_line("  data: [DONE]\r"), SseLine::Done));
    assert_eq!(data_of("data: {\"a\":1}").as_deref(), Some("{\"a\":1}"));
    assert_eq!(data_of("data: [DONE] x").as_deref(), Some("[DONE] x"));
}

#[test]
fn content_prefers_content_over_reasoning() {
    assert_eq!(
        select_content(Some("Hello".into()), Some("think".into())).as_deref(),
        Some("Hello")
    );
    assert_eq!(select_content(None, Some("think".into())).as_deref(), Some("think"));
    assert_eq!(select_content(Some(String::new()), Some("think".into())), None);
    assert_eq!(select_content(None, Some(String::new())), None);
    assert_eq!(select_content(None, None), None);
}

#[test]
fn chunks() {
    let c = make_chunk(Some("Hi".into()), None, None);
    assert_eq!(c.content.as_deref(), Some("Hi"));
    assert!(!c.done);
    let d = done_chunk();
    assert!(d.done && d.content.is_none() && d.usage.is_none());
}

#[test]
fn url() {
    assert_eq!(
        completions_url("http://localhost:8000/v1"),
        "http://localhost:8000/v1/chat/completions"
    );
}

fn usage(p: u32, c: u32, r: Option<u32>) -> Usage {
    Usage {
        prompt_tokens: p,
        completion_tokens: c,
        completion_tokens_details: Some(CompletionTokensDetails { reasoning_tokens: r }),
    }
}

#[test]
fn stream_splits_lines_across_chunks() {
    let mut s = SseStream::new();
    s.push_text("data: a");
    assert_eq!(s.next_line(), None);
    s.push_text("bc\r\ndata: x\n\n");
    assert_eq!(s.next_line().as_deref(), Some("data: abc\r"));
    assert_eq!(s.next_line().as_deref(), Some("data: x"));
    assert_eq!(s.next_line().as_deref(), Some(""));
    assert_eq!(s.next_line(), None);
}

#[test]
fn stream_records_first_token_and_last_usage() {
    let mut s = SseStream::new();
    let role_only = SseChunk { content: None, usage: None, done: false };
    assert!(s.step(role_only, 100, 7, 50).is_none());
    assert!(s.step(make_chunk(Some("a".into()), None, None), 150, 7, 50).is_none());
    assert!(s.step(make_chunk(Some("b".into()), None, None), 170, 7, 50).is_none());
    assert!(s
        .step(make_chunk(None, None, Some(usage(10, 2, None))), 180, 7, 50)
        .is_none());
    assert!(s
        .step(make_chunk(None, None, Some(usage(12, 5, Some(3)))), 190, 7, 50)
        .is_none());
    let r = s.step(done_chunk(), 200, 7, 50).unwrap();
    assert_eq!(r.request_id, 7);
    assert_eq!(r.start_time_ns, 50);
    assert_eq!(r.first_token_time_ns, 150);
    assert_eq!(r.end_time_ns, 200);
    assert_eq!(r.num_input_tokens, 12);
    assert_eq!(r.num_output_tokens, 5);
    assert_eq!(r.reasoning_tokens, 3);
    assert!(r.error.is_none());
}

#[test]
fn stream_without_tokens_defaults() {
    let s = SseStream::new();
    let r = s.finish(1, 40, 90);
    assert_eq!(r.first_token_time_ns, 40);
    assert_eq!(r.end_time_ns, 90);
    assert_eq!((r.num_input_tokens, r.num_output_tokens, r.reasoning_tokens), (0, 0, 0));
    let mut s = SseStream::new();
    let no_details = Usage { prompt_tokens: 4, completion_tokens: 1, completion_tokens_details: None };
    s.step(make_chunk(None, None, Some(no_details)), 60, 1, 40);
    let r = s.finish(1, 40, 90);
    assert_eq!((r.num_input_tokens, r.num_output_tokens, r.reasoning_tokens), (4, 1, 0));
}
