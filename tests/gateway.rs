use zeroclaw::gateway::{
    classify_client_frame, classify_parsed_frame, envelope_content_from_members,
    truncate_with_ellipsis,
};
use zeroclaw::json::{JsonKind, JsonMember, JsonParse};
use zeroclaw::sanitize::is_tool_shape;
use zeroclaw::{
    extract_latest_tool_output, extract_ws_bearer_token, finalize_ws_response,
    normalize_prompt_tool_results, sanitize_channel_response, sanitize_ws_response, ChatMessage,
    ClientFrame, EMPTY_WS_RESPONSE_FALLBACK, MALFORMED_TOOL_OUTPUT_NOTICE,
};

fn schedule_tools() -> Vec<String> {
    vec!["schedule".to_string()]
}

#[test]
fn extract_ws_bearer_token_prefers_authorization_header() {
    assert_eq!(
        extract_ws_bearer_token(
            Some("Bearer from-auth-header"),
            Some("zeroclaw.v1, bearer.from-protocol")
        )
        .as_deref(),
        Some("from-auth-header")
    );
}

#[test]
fn extract_ws_bearer_token_reads_websocket_protocol_token() {
    assert_eq!(
        extract_ws_bearer_token(None, Some("zeroclaw.v1, bearer.protocol-token")).as_deref(),
        Some("protocol-token")
    );
}

#[test]
fn extract_ws_bearer_token_rejects_empty_tokens() {
    assert!(extract_ws_bearer_token(Some("Bearer    "), Some("zeroclaw.v1, bearer.")).is_none());
}

#[test]
fn bearer_token_falls_back_and_trims() {
    assert_eq!(
        extract_ws_bearer_token(Some("Basic abc"), Some(" , bearer.  tok  ,bearer.second")).as_deref(),
        Some("tok")
    );
    assert_eq!(
        extract_ws_bearer_token(Some("  Bearer  spaced  "), None).as_deref(),
        Some("spaced")
    );
    assert!(extract_ws_bearer_token(None, None).is_none());
}

#[test]
fn sanitize_ws_response_removes_tool_call_tags() {
    let input = r#"Before
<tool_call>
{"name":"schedule","arguments":{"action":"create"}}
</tool_call>
After"#;

    let result = sanitize_ws_response(input, &vec![]);
    let normalized = result
        .lines()
        .filter(|line| !line.trim().is_empty())
        .collect::<Vec<_>>()
        .join("\n");
    assert_eq!(normalized, "Before\nAfter");
    assert!(!result.contains("<tool_call>"));
    assert!(!result.contains("\"name\":\"schedule\""));
}

#[test]
fn sanitize_ws_response_removes_isolated_tool_json_artifacts() {
    let tools = schedule_tools();
    let input = r#"{"name":"schedule","parameters":{"action":"create"}}
{"result":{"status":"scheduled"}}
Reminder set successfully."#;

    let result = sanitize_ws_response(input, &tools);
    assert_eq!(result, "Reminder set successfully.");
    assert!(!result.contains("\"name\":\"schedule\""));
    assert!(!result.contains("\"result\""));
}

#[test]
fn sanitize_keeps_json_of_unknown_tools_and_prose() {
    let tools = schedule_tools();
    let input = "{\"name\":\"other\",\"arguments\":{}}\nText";
    assert_eq!(
        sanitize_channel_response(input, &tools),
        "{\"name\":\"other\",\"arguments\":{}}\nText"
    );
}

#[test]
fn sanitize_collapses_blank_runs_and_strips_results() {
    let input = "A\n\n\n\nB\n<tool_result name=\"x\">\nsecret\n</tool_result>\n\nC";
    assert_eq!(sanitize_channel_response(input, &vec![]), "A\n\nB\n\nC");
}

#[test]
fn sanitize_cuts_unclosed_tool_call() {
    assert_eq!(
        sanitize_channel_response("Hi\n<tool_call>{\"name\":", &vec![]),
        "Hi"
    );
}

#[test]
fn sanitize_never_rebuilds_a_tag_across_a_block() {
    let out = sanitize_channel_response("<tool_<tool_call>x</tool_call>call>", &vec![]);
    assert!(!out.contains("<tool_call>"));
}

#[test]
fn malformed_only_output_gets_notice() {
    let out = sanitize_ws_response("<tool_call>{\"name\":\"x\"}</tool_call>", &vec![]);
    assert_eq!(out, MALFORMED_TOOL_OUTPUT_NOTICE);
    assert_eq!(sanitize_ws_response("   ", &vec![]), "");
}

#[test]
fn finalize_ws_response_uses_prompt_mode_tool_output_when_final_text_empty() {
    let tools = schedule_tools();
    let history = vec![
        ChatMessage::system("sys"),
        ChatMessage::user(
            "[Tool results]\n<tool_result name=\"schedule\">\nDisk usage: 72%\n</tool_result>",
        ),
    ];

    let result = finalize_ws_response("", &history, &tools);
    assert!(result.contains("Latest tool output:"));
    assert!(result.contains("Disk usage: 72%"));
    assert!(!result.contains("<tool_result"));
}

#[test]
fn finalize_ws_response_uses_native_tool_message_output_when_final_text_empty() {
    let tools = schedule_tools();
    let history = vec![ChatMessage {
        role: "tool".to_string(),
        content: r#"{"tool_call_id":"call_1","content":"Filesystem /dev/disk3s1: 210G free"}"#
            .to_string(),
    }];

    let result = finalize_ws_response("", &history, &tools);
    assert!(result.contains("Latest tool output:"));
    assert!(result.contains("/dev/disk3s1"));
}

#[test]
fn finalize_ws_response_uses_static_fallback_when_nothing_available() {
    let tools = schedule_tools();
    let history = vec![ChatMessage::system("sys")];

    let result = finalize_ws_response("", &history, &tools);
    assert_eq!(result, EMPTY_WS_RESPONSE_FALLBACK);
}

#[test]
fn finalize_prefers_sanitized_text() {
    let history = vec![ChatMessage::tool("{\"content\":\"x\"}")];
    assert_eq!(finalize_ws_response(" Hello ", &history, &vec![]), "Hello");
}

#[test]
fn finalize_exact_text_for_tool_output() {
    let history = vec![
        ChatMessage::tool("older"),
        ChatMessage::assistant("ignored"),
        ChatMessage::tool("  plain output  "),
    ];
    assert_eq!(
        finalize_ws_response("", &history, &vec![]),
        "Tool execution completed, but the model returned no final text response.\n\nLatest tool output:\nplain output"
    );
}

#[test]
fn extract_uses_raw_text_when_envelope_content_blank() {
    let history = vec![ChatMessage::tool("{\"tool_call_id\":\"a\",\"content\":\"   \"}")];
    assert_eq!(
        extract_latest_tool_output(&history).as_deref(),
        Some("{\"tool_call_id\":\"a\",\"content\":\"   \"}")
    );
    let nothing = vec![ChatMessage::user("hello"), ChatMessage::tool("   ")];
    assert!(extract_latest_tool_output(&nothing).is_none());
}

#[test]
fn normalize_prompt_results_drops_tags_and_blanks() {
    assert_eq!(
        normalize_prompt_tool_results("<tool_result name=\"a\">\n  one  \n\n</tool_result>\ntwo\t").as_deref(),
        Some("  one\ntwo")
    );
    assert!(normalize_prompt_tool_results("<tool_result>\n\n</tool_result>").is_none());
}

#[test]
fn truncation_adds_ellipsis() {
    assert_eq!(truncate_with_ellipsis("abcdef", 3), "abc...");
    assert_eq!(truncate_with_ellipsis("ab  cdef", 4), "ab...");
    assert_eq!(truncate_with_ellipsis("abc", 3), "abc");
    let long = "x".repeat(1300);
    let history = vec![ChatMessage::tool(&long)];
    let out = finalize_ws_response("", &history, &vec![]);
    assert!(out.ends_with(&format!("{}...", "x".repeat(1200))));
}

#[test]
fn client_frames_are_classified() {
    assert!(matches!(classify_client_frame("{not json"), ClientFrame::InvalidJson));
    assert!(matches!(classify_client_frame("[1,2]"), ClientFrame::Ignored));
    assert!(matches!(
        classify_client_frame("{\"type\":\"ping\",\"content\":\"x\"}"),
        ClientFrame::Ignored
    ));
    assert!(matches!(
        classify_client_frame("{\"type\":\"message\",\"content\":\"\"}"),
        ClientFrame::Ignored
    ));
    match classify_client_frame("{\"type\":\"message\",\"content\":\"Hello\"}") {
        ClientFrame::Message(c) => assert_eq!(c, "Hello"),
        _ => panic!("expected a message"),
    }
}

fn member(key: &str, value: JsonKind) -> JsonMember {
    JsonMember { key: key.to_string(), value }
}

#[test]
fn parsed_frames_are_classified() {
    assert!(matches!(classify_parsed_frame(&JsonParse::Invalid), ClientFrame::InvalidJson));
    assert!(matches!(classify_parsed_frame(&JsonParse::NotObject), ClientFrame::Ignored));
    let msg = JsonParse::Object(vec![
        member("content", JsonKind::Str("Hi".to_string())),
        member("type", JsonKind::Str("message".to_string())),
    ]);
    match classify_parsed_frame(&msg) {
        ClientFrame::Message(c) => assert_eq!(c, "Hi"),
        _ => panic!("expected a message"),
    }
    let other = JsonParse::Object(vec![
        member("content", JsonKind::Str("Hi".to_string())),
        member("type", JsonKind::Object),
    ]);
    assert!(matches!(classify_parsed_frame(&other), ClientFrame::Ignored));
}

#[test]
fn envelope_content_reads_trimmed_string() {
    let ms = vec![
        member("content", JsonKind::Str("  disk ok \n".to_string())),
        member("tool_call_id", JsonKind::Str("c1".to_string())),
    ];
    assert_eq!(envelope_content_from_members(&ms).as_deref(), Some("disk ok"));
    let blank = vec![member("content", JsonKind::Str("  ".to_string()))];
    assert!(envelope_content_from_members(&blank).is_none());
    let not_str = vec![member("content", JsonKind::Object)];
    assert!(envelope_content_from_members(&not_str).is_none());
}

#[test]
fn tool_shapes_are_recognized_from_members() {
    let tools = schedule_tools();
    let call = vec![
        member("name", JsonKind::Str("schedule".to_string())),
        member("parameters", JsonKind::Object),
    ];
    assert!(is_tool_shape(&call, &tools));
    let unknown = vec![
        member("arguments", JsonKind::Object),
        member("name", JsonKind::Str("other".to_string())),
    ];
    assert!(!is_tool_shape(&unknown, &tools));
    let extra = vec![
        member("arguments", JsonKind::Object),
        member("name", JsonKind::Str("schedule".to_string())),
        member("x", JsonKind::Other),
    ];
    assert!(!is_tool_shape(&extra, &tools));
    assert!(is_tool_shape(&vec![member("result", JsonKind::Object)], &tools));
    assert!(!is_tool_shape(&vec![member("result", JsonKind::Other)], &tools));
}
