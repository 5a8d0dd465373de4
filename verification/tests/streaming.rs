use gemini_bridge::gateway::{
    extract_api_key, header_is_forwarded, route_is_chat_completions, strip_model_suffix,
};
use gemini_bridge::stream::{finish_stream, transform_google_stream_to_openai, StreamState};
use gemini_bridge::AppState;

fn fresh_state() -> StreamState {
    StreamState::new(false, false, b"chatcmpl-fixed".to_vec())
}

fn two_events() -> Vec<u8> {
    let mut bytes = Vec::new();
    bytes.extend_from_slice(
        br#"data: {"candidates":[{"content":{"parts":[{"text":"one"}]}}]}"#,
    );
    bytes.extend_from_slice(b"\n\n");
    bytes.extend_from_slice(
        br#"data: {"candidates":[{"content":{"parts":[{"text":"two"}]}}]}"#,
    );
    bytes.extend_from_slice(b"\n\n");
    bytes
}

fn feed_in_two(bytes: &[u8], k: usize) -> Vec<u8> {
    let mut st = fresh_state();
    let mut out = transform_google_stream_to_openai(&mut st, &bytes[..k]);
    out.extend_from_slice(&transform_google_stream_to_openai(&mut st, &bytes[k..]));
    out.extend_from_slice(&finish_stream(&mut st));
    out
}

#[test]
fn chunk_boundaries_do_not_matter() {
    let bytes = two_events();
    let whole = feed_in_two(&bytes, bytes.len());
    assert!(!whole.is_empty());
    for k in 0..=bytes.len() {
        assert_eq!(feed_in_two(&bytes, k), whole, "split at {k}");
    }
}

#[test]
fn two_events_come_out_in_order() {
    let bytes = two_events();
    let mut st = fresh_state();
    let out = transform_google_stream_to_openai(&mut st, &bytes);
    let text = String::from_utf8(out).unwrap();
    let events: Vec<&str> = text.split("\n\n").filter(|s| !s.is_empty()).collect();
    assert_eq!(events.len(), 2);
    let first: serde_json::Value =
        serde_json::from_str(events[0].strip_prefix("data: ").unwrap()).unwrap();
    let second: serde_json::Value =
        serde_json::from_str(events[1].strip_prefix("data: ").unwrap()).unwrap();
    assert_eq!(
        first["choices"][0]["delta"]["content"],
        serde_json::Value::String("one".to_string())
    );
    assert_eq!(
        second["choices"][0]["delta"]["content"],
        serde_json::Value::String("two".to_string())
    );
    assert_eq!(first["object"], serde_json::Value::String("chat.completion.chunk".to_string()));
}

#[test]
fn terminal_sentinel_passes_through_unchanged() {
    let mut st = fresh_state();
    let out = transform_google_stream_to_openai(&mut st, b"data: [DONE]\n\n");
    assert_eq!(out, b"data: [DONE]\n\n".to_vec());
}

#[test]
fn nothing_is_emitted_after_the_sentinel() {
    let mut bytes = b"data: [DONE]\n\n".to_vec();
    bytes.extend_from_slice(&two_events());
    let mut st = fresh_state();
    let out = transform_google_stream_to_openai(&mut st, &bytes);
    assert_eq!(out, b"data: [DONE]\n\n".to_vec());
}

#[test]
fn sentinel_without_trailing_delimiter_is_flushed_at_close() {
    let mut st = fresh_state();
    let out = transform_google_stream_to_openai(&mut st, b"data: [DONE]");
    assert!(out.is_empty());
    let out = finish_stream(&mut st);
    assert_eq!(out, b"data: [DONE]\n\n".to_vec());
}

#[test]
fn malformed_event_is_skipped_and_stream_continues() {
    let mut bytes = Vec::new();
    bytes.extend_from_slice(b"data: {not json}\n\n");
    bytes.extend_from_slice(
        br#"data: {"candidates":[{"content":{"parts":[{"text":"still here"}]}}]}"#,
    );
    bytes.extend_from_slice(b"\n\n");
    let mut st = fresh_state();
    let out = transform_google_stream_to_openai(&mut st, &bytes);
    let text = String::from_utf8(out).unwrap();
    let events: Vec<&str> = text.split("\n\n").filter(|s| !s.is_empty()).collect();
    assert_eq!(events.len(), 1);
    assert!(events[0].contains("still here"));
}

#[test]
fn fragment_without_data_prefix_is_ignored() {
    let mut st = fresh_state();
    let out = transform_google_stream_to_openai(&mut st, b": keep-alive\n\n");
    assert!(out.is_empty());
}

#[test]
fn api_key_from_bearer_header() {
    let auth = b"Bearer SECRET-REDACTED".to_vec();
    let got = extract_api_key(Some(&auth), None);
    assert_eq!(got, Some(b"SECRET-REDACTED".to_vec()));
}

#[test]
fn api_key_falls_back_to_query() {
    let query = b"key=abc".to_vec();
    assert_eq!(extract_api_key(None, Some(&query)), Some(b"abc".to_vec()));
    let auth = b"Basic xyz".to_vec();
    assert_eq!(extract_api_key(Some(&auth), Some(&query)), Some(b"abc".to_vec()));
    let empty = b"nokey".to_vec();
    assert_eq!(extract_api_key(None, Some(&empty)), None);
    assert_eq!(extract_api_key(None, None), None);
}

#[test]
fn model_suffix_disables_thought_and_is_stripped() {
    let (name, suppress) = strip_model_suffix(b"gemini-2.5-pro-no-thought-process");
    assert!(suppress);
    assert_eq!(name, b"gemini-2.5-pro".to_vec());
    let (name, suppress) = strip_model_suffix(b"gemini-2.5-pro");
    assert!(!suppress);
    assert_eq!(name, b"gemini-2.5-pro".to_vec());
}

#[test]
fn only_the_chat_completions_route_matches() {
    assert!(route_is_chat_completions(b"/v1/chat/completions"));
    assert!(route_is_chat_completions(b"/v1/chat/completions/extra"));
    assert!(!route_is_chat_completions(b"/v1/models"));
}

#[test]
fn content_encoding_header_is_not_forwarded() {
    assert!(!header_is_forwarded(b"content-encoding"));
    assert!(header_is_forwarded(b"content-type"));
    assert!(header_is_forwarded(b"date"));
}

#[test]
fn app_state_keeps_its_configuration() {
    let st = AppState::new("https://upstream.example/v1".to_string(), true);
    assert_eq!(st.upstream_url, "https://upstream.example/v1".to_string());
    assert!(st.markdown_thought);
}

#[test]
fn padded_sentinel_is_recognized_and_reemitted_canonically() {
    let mut st = fresh_state();
    let out = transform_google_stream_to_openai(&mut st, b"\ndata: [DONE]\n\n");
    assert_eq!(out, b"data: [DONE]\n\n".to_vec());
}
