use gemini_bridge::json::{dump_json, parse_json, Json};
use gemini_bridge::media::{
    decode_base64_and_get_mime_type, file_uri_of, upload_metadata, MediaError, MediaKind,
    UploadedMediaRef,
};
use gemini_bridge::reasoning::{default_rules, resolve_thinking, ThinkingConfig};
use gemini_bridge::request::{collect_media_requests, transform_openai_to_google};
use gemini_bridge::response::{new_completion_id, transform_google_to_openai};
use gemini_bridge::roles::{map_role_a_to_b, map_role_b_to_a};

fn val(j: &Json) -> serde_json::Value {
    serde_json::from_slice(&dump_json(j)).unwrap()
}

fn parse(text: &str) -> Json {
    parse_json(text.as_bytes()).unwrap()
}

fn no_thinking() -> ThinkingConfig {
    ThinkingConfig { enabled: false, budget: None }
}

#[test]
fn role_mapping_round_trips() {
    assert_eq!(map_role_a_to_b(b"assistant"), b"model".to_vec());
    assert_eq!(map_role_b_to_a(b"model"), b"assistant".to_vec());
    assert_eq!(map_role_b_to_a(&map_role_a_to_b(b"assistant")), b"assistant".to_vec());
    assert_eq!(map_role_a_to_b(&map_role_b_to_a(b"model")), b"model".to_vec());
    assert_eq!(map_role_b_to_a(&map_role_a_to_b(b"user")), b"user".to_vec());
}

fn budget_for(model: &str, effort: Option<&str>) -> i64 {
    let rules = default_rules();
    let effort_vec = effort.map(|e| e.as_bytes().to_vec());
    let cfg = resolve_thinking(&rules, model.as_bytes(), effort_vec.as_ref());
    cfg.budget.unwrap()
}

#[test]
fn budget_table_holds_for_every_effort() {
    for model in ["gemini-2.5-pro", "gemini-2.0-flash", "anything-else", ""] {
        assert_eq!(budget_for(model, Some("low")), 1024);
        assert_eq!(budget_for(model, Some("medium")), 8192);
        assert_eq!(budget_for(model, Some("high")), 24576);
        assert_eq!(budget_for(model, Some("unheard-of")), 1024);
        assert_eq!(budget_for(model, None), 1024);
    }
    assert_eq!(budget_for("gemini-2.5-pro", Some("none")), 128);
    assert_eq!(budget_for("gemini-2.5-pro-exp", Some("none")), 128);
    assert_eq!(budget_for("gemini-2.0-flash", Some("none")), 0);
    assert_eq!(budget_for("other", Some("none")), 0);
}

#[test]
fn thinking_enabled_by_fragment() {
    let rules = default_rules();
    assert!(resolve_thinking(&rules, b"gemini-2.5-flash", None).enabled);
    assert!(resolve_thinking(&rules, b"gemini-2.0-flash-thinking-exp", None).enabled);
    assert!(!resolve_thinking(&rules, b"gemini-1.5-pro", None).enabled);
}

#[test]
fn single_string_content_becomes_one_text_part() {
    let body = parse(r#"{"messages":[{"role":"user","content":"hi"}]}"#);
    let out = transform_openai_to_google(&body, &Vec::new(), &no_thinking());
    let v = val(&out);
    let parts = &v["contents"][0]["parts"];
    assert_eq!(parts.as_array().unwrap().len(), 1);
    assert_eq!(parts[0]["text"], serde_json::Value::String("hi".to_string()));
    assert_eq!(v["contents"][0]["role"], serde_json::Value::String("user".to_string()));
}

#[test]
fn assistant_role_becomes_model() {
    let body = parse(r#"{"messages":[{"role":"assistant","content":"earlier"}]}"#);
    let out = transform_openai_to_google(&body, &Vec::new(), &no_thinking());
    let v = val(&out);
    assert_eq!(v["contents"][0]["role"], serde_json::Value::String("model".to_string()));
}

#[test]
fn system_message_becomes_system_instruction() {
    let body = parse(
        r#"{"messages":[{"role":"system","content":"be terse"},{"role":"user","content":"hi"}]}"#,
    );
    let out = transform_openai_to_google(&body, &Vec::new(), &no_thinking());
    let v = val(&out);
    assert_eq!(v["contents"].as_array().unwrap().len(), 1);
    assert_eq!(
        v["systemInstruction"]["parts"][0]["text"],
        serde_json::Value::String("be terse".to_string())
    );
    assert_eq!(v["systemInstruction"]["role"], serde_json::Value::String("system".to_string()));
}

#[test]
fn sampling_defaults_are_applied() {
    let body = parse(r#"{"messages":[{"role":"user","content":"hi"}]}"#);
    let out = transform_openai_to_google(&body, &Vec::new(), &no_thinking());
    let v = val(&out);
    let gc = &v["generationConfig"];
    assert_eq!(gc["temperature"].as_f64().unwrap(), 1.0);
    assert_eq!(gc["topP"].as_f64().unwrap(), 1.0);
    assert_eq!(gc["presencePenalty"].as_f64().unwrap(), 0.0);
    assert_eq!(gc["frequencyPenalty"].as_f64().unwrap(), 0.0);
    assert_eq!(gc["maxOutputTokens"].as_i64().unwrap(), 8192);
    assert_eq!(gc["candidateCount"].as_i64().unwrap(), 1);
    assert_eq!(gc["stopSequences"].as_array().unwrap().len(), 0);
    assert!(gc.get("thinkingBudget").is_none());
}

#[test]
fn sampling_fields_pass_through() {
    let body = parse(
        r#"{"messages":[],"temperature":0.25,"top_p":0.9,"max_tokens":55,"n":2,"presence_penalty":0.5,"frequency_penalty":-0.5,"stop":["a","b"]}"#,
    );
    let out = transform_openai_to_google(&body, &Vec::new(), &no_thinking());
    let v = val(&out);
    let gc = &v["generationConfig"];
    assert_eq!(gc["temperature"].as_f64().unwrap(), 0.25);
    assert_eq!(gc["topP"].as_f64().unwrap(), 0.9);
    assert_eq!(gc["maxOutputTokens"].as_i64().unwrap(), 55);
    assert_eq!(gc["candidateCount"].as_i64().unwrap(), 2);
    assert_eq!(gc["presencePenalty"].as_f64().unwrap(), 0.5);
    assert_eq!(gc["frequencyPenalty"].as_f64().unwrap(), -0.5);
    let stops = gc["stopSequences"].as_array().unwrap();
    assert_eq!(stops.len(), 2);
    assert_eq!(stops[0], serde_json::Value::String("a".to_string()));
    assert_eq!(stops[1], serde_json::Value::String("b".to_string()));
}

#[test]
fn single_stop_string_becomes_sequence() {
    let body = parse(r#"{"messages":[],"stop":"END"}"#);
    let out = transform_openai_to_google(&body, &Vec::new(), &no_thinking());
    let v = val(&out);
    let stops = v["generationConfig"]["stopSequences"].as_array().unwrap();
    assert_eq!(stops.len(), 1);
    assert_eq!(stops[0], serde_json::Value::String("END".to_string()));
}

#[test]
fn safety_settings_are_fully_permissive() {
    let body = parse(r#"{"messages":[]}"#);
    let out = transform_openai_to_google(&body, &Vec::new(), &no_thinking());
    let v = val(&out);
    let ss = v["safetySettings"].as_array().unwrap();
    assert_eq!(ss.len(), 5);
    for s in ss {
        assert_eq!(s["threshold"], serde_json::Value::String("BLOCK_NONE".to_string()));
    }
    assert_eq!(
        ss[0]["category"],
        serde_json::Value::String("HARM_CATEGORY_HARASSMENT".to_string())
    );
}

#[test]
fn mandatory_reasoning_budget_is_attached() {
    let body = parse(
        r#"{"model":"gemini-2.5-pro","reasoning_effort":"none","messages":[{"role":"user","content":"hi"}]}"#,
    );
    let rules = default_rules();
    let effort = b"none".to_vec();
    let cfg = resolve_thinking(&rules, b"gemini-2.5-pro", Some(&effort));
    assert!(cfg.enabled);
    assert_eq!(cfg.budget, Some(128));
    let out = transform_openai_to_google(&body, &Vec::new(), &cfg);
    let v = val(&out);
    assert_eq!(v["generationConfig"]["thinkingBudget"].as_i64().unwrap(), 128);
}

#[test]
fn zero_budget_is_omitted() {
    let body = parse(
        r#"{"model":"gemini-2.5-flash","reasoning_effort":"none","messages":[{"role":"user","content":"hi"}]}"#,
    );
    let rules = default_rules();
    let effort = b"none".to_vec();
    let cfg = resolve_thinking(&rules, b"gemini-2.5-flash", Some(&effort));
    assert!(cfg.enabled);
    assert_eq!(cfg.budget, Some(0));
    let out = transform_openai_to_google(&body, &Vec::new(), &cfg);
    let v = val(&out);
    assert!(v["generationConfig"].get("thinkingBudget").is_none());
}

#[test]
fn budget_not_attached_when_disabled() {
    let body = parse(r#"{"model":"gemini-1.5-pro","messages":[]}"#);
    let rules = default_rules();
    let cfg = resolve_thinking(&rules, b"gemini-1.5-pro", None);
    assert!(!cfg.enabled);
    let out = transform_openai_to_google(&body, &Vec::new(), &cfg);
    let v = val(&out);
    assert!(v["generationConfig"].get("thinkingBudget").is_none());
}

#[test]
fn media_requests_are_collected_in_order() {
    let body = parse(
        r#"{"messages":[{"role":"user","content":[
            {"type":"text","text":"look"},
            {"type":"image_url","image_url":{"url":"data:image/png;base64,aGk="}},
            {"type":"input_audio","input_audio":{"data":"data:audio/wav;base64,aGk=","format":"wav"}}
        ]}]}"#,
    );
    let reqs = collect_media_requests(&body);
    assert_eq!(reqs.len(), 2);
    assert!(matches!(reqs[0].kind, MediaKind::Image));
    assert_eq!(reqs[0].data_uri, b"data:image/png;base64,aGk=".to_vec());
    assert!(matches!(reqs[1].kind, MediaKind::Audio));
    assert_eq!(reqs[1].data_uri, b"data:audio/wav;base64,aGk=".to_vec());
}

#[test]
fn uploaded_media_becomes_file_part_and_failure_drops_part() {
    let body = parse(
        r#"{"messages":[{"role":"user","content":[
            {"type":"image_url","image_url":{"url":"data:image/png;base64,aGk="}},
            {"type":"input_audio","input_audio":{"data":"x","format":"wav"}},
            {"type":"text","text":"after"}
        ]}]}"#,
    );
    let uploads = vec![
        Some(UploadedMediaRef { mime_type: b"image/png".to_vec(), uri: b"files/abc".to_vec() }),
        None,
    ];
    let out = transform_openai_to_google(&body, &uploads, &no_thinking());
    let v = val(&out);
    let parts = v["contents"][0]["parts"].as_array().unwrap();
    assert_eq!(parts.len(), 2);
    assert_eq!(
        parts[0]["file_data"]["mime_type"],
        serde_json::Value::String("image/png".to_string())
    );
    assert_eq!(
        parts[0]["file_data"]["file_uri"],
        serde_json::Value::String("files/abc".to_string())
    );
    assert_eq!(parts[1]["text"], serde_json::Value::String("after".to_string()));
}

#[test]
fn unknown_part_type_is_dropped() {
    let body = parse(
        r#"{"messages":[{"role":"user","content":[{"type":"video","video":{}},{"type":"text","text":"t"}]}]}"#,
    );
    let out = transform_openai_to_google(&body, &Vec::new(), &no_thinking());
    let v = val(&out);
    assert_eq!(v["contents"][0]["parts"].as_array().unwrap().len(), 1);
}

#[test]
fn whole_response_is_transcoded() {
    let body = parse(
        r#"{"candidates":[{"content":{"parts":[{"text":"ok"}],"role":"model"},"finishReason":"STOP","index":0}],
            "usageMetadata":{"promptTokenCount":3,"candidatesTokenCount":4,"totalTokenCount":7},
            "modelVersion":"gemini-test","created":1700000000}"#,
    );
    let (out, prev) = transform_google_to_openai(&body, b"chatcmpl-test", false, false, false, false);
    assert!(!prev);
    let v = val(&out.unwrap());
    assert_eq!(v["object"], serde_json::Value::String("chat.completion".to_string()));
    assert_eq!(v["id"], serde_json::Value::String("chatcmpl-test".to_string()));
    assert_eq!(v["model"], serde_json::Value::String("gemini-test".to_string()));
    assert_eq!(v["created"].as_i64().unwrap(), 1700000000);
    let choice = &v["choices"][0];
    assert_eq!(choice["message"]["content"], serde_json::Value::String("ok".to_string()));
    assert_eq!(choice["message"]["role"], serde_json::Value::String("assistant".to_string()));
    assert_eq!(choice["finish_reason"], serde_json::Value::String("stop".to_string()));
    assert_eq!(choice["index"].as_i64().unwrap(), 0);
    assert_eq!(v["usage"]["prompt_tokens"].as_i64().unwrap(), 3);
    assert_eq!(v["usage"]["completion_tokens"].as_i64().unwrap(), 4);
    assert_eq!(v["usage"]["total_tokens"].as_i64().unwrap(), 7);
}

#[test]
fn no_candidates_whole_mode_yields_nothing() {
    let body = parse(r#"{"modelVersion":"m","created":5}"#);
    let (out, prev) = transform_google_to_openai(&body, b"id", false, false, false, false);
    assert!(out.is_none());
    assert!(!prev);
}

#[test]
fn empty_candidates_whole_mode_yields_nothing() {
    let body = parse(r#"{"candidates":[]}"#);
    let (out, _) = transform_google_to_openai(&body, b"id", false, false, false, false);
    assert!(out.is_none());
}

#[test]
fn stream_mode_always_emits_an_envelope() {
    let body = parse(r#"{"candidates":[]}"#);
    let (out, _) = transform_google_to_openai(&body, b"id", true, false, false, false);
    let v = val(&out.unwrap());
    assert_eq!(v["object"], serde_json::Value::String("chat.completion.chunk".to_string()));
    assert_eq!(v["choices"].as_array().unwrap().len(), 0);
}

#[test]
fn stream_mode_uses_delta_key() {
    let body = parse(r#"{"candidates":[{"content":{"parts":[{"text":"hi"}]}}]}"#);
    let (out, _) = transform_google_to_openai(&body, b"id", true, false, false, false);
    let v = val(&out.unwrap());
    assert_eq!(v["choices"][0]["delta"]["content"], serde_json::Value::String("hi".to_string()));
}

#[test]
fn suppressed_reasoning_drops_the_choice() {
    let body = parse(
        r#"{"candidates":[{"content":{"parts":[{"text":"pondering","thought":true}]}}]}"#,
    );
    let (out, prev) = transform_google_to_openai(&body, b"id", false, true, false, false);
    assert!(out.is_none());
    assert!(!prev);
    let (out2, prev2) = transform_google_to_openai(&body, b"id", true, true, false, false);
    let v = val(&out2.unwrap());
    assert_eq!(v["choices"].as_array().unwrap().len(), 0);
    assert!(!prev2);
}

#[test]
fn markdown_wraps_reasoning_and_closes_once() {
    let thought = parse(r#"{"candidates":[{"content":{"parts":[{"text":"think","thought":true}]}}]}"#);
    let answer = parse(r#"{"candidates":[{"content":{"parts":[{"text":"answer"}]}}]}"#);
    let (o1, p1) = transform_google_to_openai(&thought, b"id", true, false, true, false);
    assert!(p1);
    let v1 = val(&o1.unwrap());
    assert_eq!(
        v1["choices"][0]["delta"]["content"],
        serde_json::Value::String("```thinking\nthink".to_string())
    );
    let (o2, p2) = transform_google_to_openai(&thought, b"id", true, false, true, p1);
    assert!(p2);
    let v2 = val(&o2.unwrap());
    assert_eq!(
        v2["choices"][0]["delta"]["content"],
        serde_json::Value::String("think".to_string())
    );
    let (o3, p3) = transform_google_to_openai(&answer, b"id", true, false, true, p2);
    assert!(!p3);
    let v3 = val(&o3.unwrap());
    assert_eq!(
        v3["choices"][0]["delta"]["content"],
        serde_json::Value::String("\n```\nanswer".to_string())
    );
    let (o4, p4) = transform_google_to_openai(&answer, b"id", true, false, true, p3);
    assert!(!p4);
    let v4 = val(&o4.unwrap());
    assert_eq!(
        v4["choices"][0]["delta"]["content"],
        serde_json::Value::String("answer".to_string())
    );
}

#[test]
fn data_uri_decodes() {
    let (mime, data) = decode_base64_and_get_mime_type(b"data:image/png;base64,aGk=").unwrap();
    assert_eq!(mime, b"image/png".to_vec());
    assert_eq!(data, b"hi".to_vec());
}

#[test]
fn malformed_data_uris_are_rejected() {
    for bad in [
        &b"image/png;base64,aGk="[..],
        b"data:image/png;base64",
        b"data:image/png,aGk=",
        b"data:image/png;binary,aGk=",
        b"data:image/png;base64,!!!",
    ] {
        let r = decode_base64_and_get_mime_type(bad);
        assert!(matches!(r, Err(MediaError::MalformedMediaReference)));
    }
}

#[test]
fn upload_metadata_names_the_kind() {
    let v = val(&upload_metadata(&MediaKind::Image));
    assert_eq!(
        v["file"]["display_name"],
        serde_json::Value::String("uploaded_image".to_string())
    );
    let v = val(&upload_metadata(&MediaKind::Audio));
    assert_eq!(
        v["file"]["display_name"],
        serde_json::Value::String("uploaded_audio".to_string())
    );
}

#[test]
fn file_uri_is_read_from_finalize_response() {
    let j = parse(r#"{"file":{"uri":"files/xyz","name":"n"}}"#);
    assert_eq!(file_uri_of(&j), Some(b"files/xyz".to_vec()));
    let j = parse(r#"{"file":{}}"#);
    assert_eq!(file_uri_of(&j), None);
    let j = parse(r#"{}"#);
    assert_eq!(file_uri_of(&j), None);
}

#[test]
fn completion_id_has_the_expected_shape() {
    let id = new_completion_id();
    assert!(id.starts_with(b"chatcmpl-"));
    assert_eq!(id.len(), "chatcmpl-".len() + 32);
    assert!(id[9..].iter().all(|b| b.is_ascii_hexdigit()));
    assert_ne!(id, new_completion_id());
}
