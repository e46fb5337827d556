use genai_bench_rs::client::{chunk_fields, chunk_from_json, parse_sse_chunk, read_usage};
use genai_bench_rs::json::{find_field, take_field, Json};
use serde_json::Value;

fn json_of(v: Value) -> Json {
    match v {
        Value::Null => Json::Null,
        Value::Bool(b) => Json::Bool(b),
        Value::Number(n) => Json::Number(n.to_string()),
        Value::String(s) => Json::Str(s),
        Value::Array(items) => Json::Array(items.into_iter().map(json_of).collect()),
        Value::Object(map) => Json::Object(map.into_iter().map(|(k, x)| (k, json_of(x))).collect()),
    }
}

fn parse(text: &str) -> Json {
    json_of(serde_json::from_str::<Value>(text).unwrap())
}

#[test]
fn test_parse_sse_content_chunk() {
    let line = r#"data: {"choices":[{"delta":{"content":"Hello"},"index":0}]}"#;
    let result = parse_sse_chunk(line).unwrap();
    assert_eq!(result.content, Some("Hello".to_string()));
    assert!(result.usage.is_none());
    assert!(!result.done);
}

#[test]
fn test_parse_sse_role_only_chunk() {
    let line = r#"data: {"choices":[{"delta":{"role":"assistant"},"index":0}]}"#;
    let result = parse_sse_chunk(line).unwrap();
    assert_eq!(result.content, None);
}

#[test]
fn test_parse_sse_done() {
    let line = "data: [DONE]";
    let result = parse_sse_chunk(line).unwrap();
    assert!(result.done);
}

#[test]
fn test_parse_sse_usage_chunk() {
    let line = r#"data: {"choices":[],"usage":{"prompt_tokens":100,"completion_tokens":50}}"#;
    let result = parse_sse_chunk(line).unwrap();
    let usage = result.usage.unwrap();
    assert_eq!(usage.prompt_tokens, 100);
    assert_eq!(usage.completion_tokens, 50);
}

#[test]
fn test_parse_sse_empty_line() {
    let result = parse_sse_chunk("");
    assert!(result.is_none());
}

#[test]
fn test_parse_sse_comment_line() {
    let result = parse_sse_chunk(": comment");
    assert!(result.is_none());
}

#[test]
fn bad_json_gives_no_chunk() {
    assert!(parse_sse_chunk("data: {not json").is_none());
    assert!(parse_sse_chunk("event: ping").is_none());
}

#[test]
fn reasoning_content_stands_in_for_missing_content() {
    let c = parse_sse_chunk(r#"data: {"choices":[{"delta":{"reasoning_content":"hmm"}}]}"#).unwrap();
    assert_eq!(c.content.as_deref(), Some("hmm"));
    let c = parse_sse_chunk(r#"data: {"choices":[{"delta":{"content":"","reasoning_content":"x"}}]}"#)
        .unwrap();
    assert_eq!(c.content, None);
}

#[test]
fn non_string_content_is_none() {
    let f = chunk_fields(parse(r#"{"choices":[{"delta":{"content":5}}]}"#));
    assert_eq!(f.content, None);
    let f = chunk_fields(parse(r#"{"choices":{"delta":{"content":"x"}}}"#));
    assert_eq!(f.content, None);
    let f = chunk_fields(parse(r#"[1,2]"#));
    assert_eq!(f.content, None);
    assert!(f.usage.is_none());
}

#[test]
fn only_first_choice_counts() {
    let c = chunk_from_json(parse(r#"{"choices":[{"delta":{}},{"delta":{"content":"late"}}]}"#));
    assert_eq!(c.content, None);
}

#[test]
fn usage_with_reasoning_details() {
    let line = r#"data: {"usage":{"completion_tokens":9,"prompt_tokens":3,"completion_tokens_details":{"reasoning_tokens":4},"extra":true}}"#;
    let u = parse_sse_chunk(line).unwrap().usage.unwrap();
    assert_eq!((u.prompt_tokens, u.completion_tokens), (3, 9));
    assert_eq!(u.completion_tokens_details.unwrap().reasoning_tokens, Some(4));
    let u = read_usage(&parse(r#"{"prompt_tokens":1,"completion_tokens":2,"completion_tokens_details":null}"#))
        .unwrap();
    assert!(u.completion_tokens_details.is_none());
    let u = read_usage(&parse(r#"{"prompt_tokens":1,"completion_tokens":2,"completion_tokens_details":{}}"#))
        .unwrap();
    assert_eq!(u.completion_tokens_details.unwrap().reasoning_tokens, None);
}

#[test]
fn usage_as_array() {
    let u = read_usage(&parse("[7, 8]")).unwrap();
    assert_eq!((u.prompt_tokens, u.completion_tokens), (7, 8));
    let u = read_usage(&parse("[7, 8, [5]]")).unwrap();
    assert_eq!(u.completion_tokens_details.unwrap().reasoning_tokens, Some(5));
    assert!(read_usage(&parse("[7]")).is_none());
    assert!(read_usage(&parse("[7, 8, null, 1]")).is_none());
}

#[test]
fn unreadable_usage_is_none_but_chunk_stays() {
    for u in [
        r#"{"prompt_tokens":1}"#,
        r#"{"prompt_tokens":-1,"completion_tokens":2}"#,
        r#"{"prompt_tokens":1.0,"completion_tokens":2}"#,
        r#"{"prompt_tokens":4294967296,"completion_tokens":2}"#,
        r#"{"prompt_tokens":"1","completion_tokens":2}"#,
        r#"{"prompt_tokens":1,"completion_tokens":2,"completion_tokens_details":5}"#,
        r#""usage""#,
    ] {
        let line = format!(r#"data: {{"choices":[{{"delta":{{"content":"a"}}}}],"usage":{}}}"#, u);
        let c = parse_sse_chunk(&line).unwrap();
        assert!(c.usage.is_none(), "{}", u);
        assert_eq!(c.content.as_deref(), Some("a"));
    }
    let c = parse_sse_chunk(r#"data: {"usage":{"prompt_tokens":4294967295,"completion_tokens":0}}"#)
        .unwrap();
    assert_eq!(c.usage.unwrap().prompt_tokens, u32::MAX);
}

#[test]
fn null_usage_is_none() {
    let f = chunk_fields(parse(r#"{"choices":[],"usage":null}"#));
    assert!(f.usage.is_none());
    let f = chunk_fields(parse(r#"{"usage":7}"#));
    assert!(matches!(f.usage, Some(Json::Number(ref t)) if t == "7"));
}

#[test]
fn fields_by_name() {
    let entries = vec![
        ("a".to_string(), Json::Bool(true)),
        ("b".to_string(), Json::Str("x".into())),
    ];
    assert_eq!(find_field(&entries, "b"), Some(1));
    assert_eq!(find_field(&entries, "c"), None);
    assert!(matches!(take_field(entries, "b"), Some(Json::Str(ref s)) if s == "x"));
}
