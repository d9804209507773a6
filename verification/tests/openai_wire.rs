use base64::Engine;
use molo::json::{parse_json, render_json, Json, JsonMap};
use molo::message::{ContentBlock, ImageContent, Message, ToolCall};
use molo::provider::openai::stream::extract_error_message;
use molo::provider::openai::wire::{
    format_from_schema, json_object_format, request_body, tool_def, OpenAiMessage,
    StructuredOutputMode,
};
use molo::provider::openai::{
    describe_parts, extract_retry_after, finish_chat, is_success, map_network_error, map_send_error,
    map_status_error, parse_response, OpenAiProvider, ResponseBody,
};
use molo::provider::{
    ChatRequest, FinishReason, ModelOptions, ProviderError, TimeoutStage, Usage,
};
use molo::time::Span;
use molo::tool::ToolSchema;

fn json(text: &str) -> Json {
    parse_json(text).unwrap()
}

fn wire(message: &Message) -> Json {
    OpenAiMessage::from_message(message).to_json()
}

fn asking(options: ModelOptions) -> ChatRequest {
    ChatRequest {
        messages: vec![Message::user("hi")],
        tools: vec![],
        options,
    }
}

fn body_of(options: ModelOptions) -> Json {
    request_body("m", &asking(options), StructuredOutputMode::Native, false)
}

#[test]
fn status_429_quota_goes_to_api() {
    let body = r#"{"error":{"message":"You exceeded your current quota: insufficient_quota"}}"#;
    let err = map_status_error(429, None, body);
    assert!(matches!(err, ProviderError::Api { status: 429, .. }));
}

#[test]
fn status_429_rate_limited_with_retry_after() {
    let body = r#"{"error":{"message":"rate limit exceeded"}}"#;
    let err = map_status_error(429, Some("5"), body);
    assert!(matches!(
        err,
        ProviderError::RateLimited { retry_after: Some(d) } if d == Span::from_secs(5)
    ));
}

#[test]
fn status_429_without_retry_after_header() {
    let body = r#"{"error":{"message":"rate limit exceeded"}}"#;
    let err = map_status_error(429, None, body);
    assert!(matches!(
        err,
        ProviderError::RateLimited { retry_after: None }
    ));
}

#[test]
fn status_5xx_goes_to_api_with_status() {
    let body = r#"{"error":{"message":"server overloaded"}}"#;
    let err = map_status_error(503, None, body);
    assert!(matches!(err, ProviderError::Api { status: 503, .. }));
}

#[test]
fn retry_after_reads_whole_seconds_only() {
    assert_eq!(extract_retry_after(Some(" 7 ")), Some(Span::from_secs(7)));
    assert_eq!(extract_retry_after(Some("+7")), Some(Span::from_secs(7)));
    assert_eq!(extract_retry_after(Some("7.5")), None);
    assert_eq!(extract_retry_after(Some("-7")), None);
    assert_eq!(extract_retry_after(Some("")), None);
    assert_eq!(extract_retry_after(Some("18446744073709551616")), None);
    assert_eq!(
        extract_retry_after(Some("Wed, 21 Oct 2015 07:28:00 GMT")),
        None
    );
    assert_eq!(extract_retry_after(None), None);
}

#[test]
fn maps_message_to_wire() {
    assert_eq!(
        wire(&Message::user("hi")),
        json(r#"{"role": "user", "content": "hi"}"#)
    );
}

#[test]
fn maps_multi_block_user_content_to_wire_parts() {
    let message = Message::user_blocks(vec![
        ContentBlock::Text("take a look:".into()),
        ContentBlock::Text("see the attachment".into()),
    ]);
    assert_eq!(
        wire(&message),
        json(
            r#"{
            "role": "user",
            "content": [
                {"type": "text", "text": "take a look:"},
                {"type": "text", "text": "see the attachment"}
            ]
        }"#
        )
    );
}

#[test]
fn maps_image_block_to_wire_data_url() {
    let message = Message::user_blocks(vec![ContentBlock::Image(ImageContent {
        mime_type: "image/png".into(),
        data: b"fake-png-bytes".to_vec(),
    })]);
    let expected_b64 = base64::engine::general_purpose::STANDARD.encode(b"fake-png-bytes");
    assert_eq!(
        wire(&message),
        json(&format!(
            r#"{{
            "role": "user",
            "content": [{{
                "type": "image_url",
                "image_url": {{"url": "data:image/png;base64,{expected_b64}"}}
            }}]
        }}"#
        ))
    );
}

#[test]
fn maps_mixed_text_and_image_blocks() {
    let message = Message::user_blocks(vec![
        ContentBlock::Text("what is this?".into()),
        ContentBlock::Image(ImageContent {
            mime_type: "image/jpeg".into(),
            data: vec![1, 2, 3],
        }),
    ]);
    assert_eq!(
        wire(&message),
        json(
            r#"{
            "role": "user",
            "content": [
                {"type": "text", "text": "what is this?"},
                {"type": "image_url", "image_url": {"url": "data:image/jpeg;base64,AQID"}}
            ]
        }"#
        )
    );
}

#[test]
fn maps_system_and_assistant_roles() {
    assert_eq!(
        OpenAiMessage::from_message(&Message::system("s")).role,
        "system"
    );
    assert_eq!(
        OpenAiMessage::from_message(&Message::assistant("a")).role,
        "assistant"
    );
}

#[test]
fn maps_tool_call_to_wire() {
    let message = Message::Assistant {
        content: String::new(),
        reasoning: None,
        tool_calls: vec![ToolCall {
            id: "call_1".into(),
            name: "calculator".into(),
            arguments: r#"{"expression":"1+1"}"#.into(),
        }],
    };
    assert_eq!(
        wire(&message),
        json(
            r#"{
            "role": "assistant",
            "tool_calls": [{
                "id": "call_1",
                "type": "function",
                "function": {"name": "calculator", "arguments": "{\"expression\":\"1+1\"}"}
            }]
        }"#
        )
    );
}

#[test]
fn maps_tool_result_to_wire() {
    let message = Message::ToolResult {
        id: "call_1".into(),
        content: "2".into(),
    };
    assert_eq!(
        wire(&message),
        json(r#"{"role": "tool", "tool_call_id": "call_1", "content": "2"}"#)
    );
}

#[test]
fn maps_reasoning_to_wire() {
    let message = Message::assistant_with_reasoning("2", "thinking process");
    assert_eq!(
        wire(&message),
        json(
            r#"{
            "role": "assistant",
            "content": "2",
            "reasoning_content": "thinking process"
        }"#
        )
    );
}

#[test]
fn omits_empty_reasoning_in_wire() {
    assert_eq!(
        wire(&Message::assistant("2")),
        json(r#"{"role": "assistant", "content": "2"}"#)
    );
}

#[test]
fn parses_reasoning_content() {
    let body = r#"{"choices":[{"message":{"role":"assistant","content":"2","reasoning_content":"thinking process"},"finish_reason":"stop"}]}"#;
    let response = parse_response(body).unwrap();
    assert_eq!(
        response.message,
        Message::assistant_with_reasoning("2", "thinking process")
    );
}

#[test]
fn parses_reasoning_with_tool_call() {
    let body = r#"{"choices":[{"message":{"role":"assistant","content":null,"reasoning_content":"decided","tool_calls":[{"id":"call_1","type":"function","function":{"name":"calculator","arguments":"{}"}}]},"finish_reason":"tool_calls"}]}"#;
    let response = parse_response(body).unwrap();
    assert_eq!(
        response.message,
        Message::Assistant {
            content: String::new(),
            reasoning: Some("decided".into()),
            tool_calls: vec![ToolCall {
                id: "call_1".into(),
                name: "calculator".into(),
                arguments: "{}".into(),
            }],
        }
    );
}

#[test]
fn accepts_ollama_reasoning_field() {
    let body = r#"{"choices":[{"message":{"role":"assistant","content":"2","reasoning":"thinking"},"finish_reason":"stop"}]}"#;
    let response = parse_response(body).unwrap();
    assert_eq!(
        response.message,
        Message::assistant_with_reasoning("2", "thinking")
    );
}

#[test]
fn serializes_tool_defs() {
    let schema = ToolSchema::new(
        "calculator",
        "Evaluate expressions",
        json(r#"{"type": "object"}"#),
    );
    assert_eq!(
        tool_def(&schema),
        json(
            r#"{
            "type": "function",
            "function": {
                "name": "calculator",
                "description": "Evaluate expressions",
                "parameters": {"type": "object"}
            }
        }"#
        )
    );
}

#[test]
fn sends_tools_when_there_are_some() {
    let mut request = asking(ModelOptions::default());
    request.tools = vec![ToolSchema::new("t", "d", json("{}"))];
    let body = request_body("m", &request, StructuredOutputMode::Native, false);
    assert_eq!(
        body.get("tools").unwrap(),
        &json(r#"[{"type":"function","function":{"name":"t","description":"d","parameters":{}}}]"#)
    );
}

#[test]
fn omits_empty_tools_in_request() {
    assert_eq!(
        body_of(ModelOptions::default()),
        json(r#"{"model": "m", "messages": [{"role": "user", "content": "hi"}]}"#)
    );
}

#[test]
fn streaming_requests_ask_for_usage() {
    let body = request_body(
        "m",
        &asking(ModelOptions::default()),
        StructuredOutputMode::Native,
        true,
    );
    assert_eq!(
        body,
        json(
            r#"{"model": "m", "messages": [{"role": "user", "content": "hi"}], "stream": true, "stream_options": {"include_usage": true}}"#
        )
    );
}

#[test]
fn serializes_structured_output_as_response_format() {
    let options = ModelOptions {
        structured: Some(json(
            r#"{"type": "object", "properties": {"city": {"type": "string"}}, "required": ["city"]}"#,
        )),
        ..Default::default()
    };
    assert_eq!(
        body_of(options),
        json(
            r#"{
            "model": "m",
            "messages": [{"role": "user", "content": "hi"}],
            "response_format": {
                "type": "json_schema",
                "strict": true,
                "json_schema": {"name": "output", "schema": {
                    "type": "object",
                    "properties": {"city": {"type": "string"}},
                    "required": ["city"],
                    "additionalProperties": false
                }}
            }
        }"#
        )
    );
}

#[test]
fn strict_mode_skipped_when_required_incomplete() {
    let schema = r#"{"type": "object", "properties": {"city": {"type": "string"}, "country": {"type": "string"}}, "required": ["city"]}"#;
    let options = ModelOptions {
        structured: Some(json(schema)),
        ..Default::default()
    };
    assert_eq!(
        body_of(options),
        json(&format!(
            r#"{{
            "model": "m",
            "messages": [{{"role": "user", "content": "hi"}}],
            "response_format": {{
                "type": "json_schema",
                "json_schema": {{"name": "output", "schema": {schema}}}
            }}
        }}"#
        ))
    );
}

#[test]
fn strict_mode_needs_every_property_by_name() {
    let schema = json(
        r#"{"type": "object", "properties": {"a": {}, "b": {}}, "required": ["a", "other"]}"#,
    );
    assert!(format_from_schema(&schema).get("strict").is_none());
}

#[test]
fn json_object_mode_omits_schema() {
    assert_eq!(json_object_format(), json(r#"{"type": "json_object"}"#));
}

#[test]
fn response_format_mode_gating() {
    let schema = || Some(json(r#"{"type": "object"}"#));
    let kind = |format: Option<Json>| {
        format.map(|f| f.get("type").unwrap().as_str().unwrap().to_string())
    };
    let provider = OpenAiProvider::new("http://x", "k", "m");
    assert!(provider.wire_response_format(&None).is_none());
    assert_eq!(
        kind(provider.wire_response_format(&schema())).as_deref(),
        Some("json_schema")
    );

    let off = OpenAiProvider::new("http://x", "k", "m")
        .with_structured_output_mode(StructuredOutputMode::Off);
    assert!(off.wire_response_format(&schema()).is_none());

    let json_object = OpenAiProvider::new("http://x", "k", "m")
        .with_structured_output_mode(StructuredOutputMode::JsonObject);
    assert_eq!(
        kind(json_object.wire_response_format(&schema())).as_deref(),
        Some("json_object")
    );
}

#[test]
fn serializes_model_options_in_request() {
    let options = ModelOptions {
        temperature: Some(json("0.5")),
        max_tokens: Some(128),
        ..Default::default()
    };
    assert_eq!(
        body_of(options),
        json(
            r#"{
            "model": "m",
            "messages": [{"role": "user", "content": "hi"}],
            "temperature": 0.5,
            "max_tokens": 128
        }"#
        )
    );
}

#[test]
fn passes_through_extra_options() {
    let options = ModelOptions {
        extra: JsonMap::new()
            .put("top_p".to_string(), json("0.9"))
            .put(
                "response_format".to_string(),
                json(r#"{"type": "json_object"}"#),
            ),
        ..Default::default()
    };
    assert_eq!(
        body_of(options),
        json(
            r#"{
            "model": "m",
            "messages": [{"role": "user", "content": "hi"}],
            "top_p": 0.9,
            "response_format": {"type": "json_object"}
        }"#
        )
    );
}

#[test]
fn extra_keys_colliding_with_managed_fields_are_filtered() {
    let options = ModelOptions {
        temperature: Some(json("0.5")),
        extra: JsonMap::new()
            .put("temperature".to_string(), json("1.0"))
            .put("top_p".to_string(), json("0.9")),
        ..Default::default()
    };
    assert_eq!(
        body_of(options),
        json(
            r#"{
            "model": "m",
            "messages": [{"role": "user", "content": "hi"}],
            "temperature": 0.5,
            "top_p": 0.9
        }"#
        )
    );
}

#[test]
fn typed_response_format_wins_over_extra() {
    let options = ModelOptions {
        structured: Some(json(r#"{"type": "object"}"#)),
        extra: JsonMap::new().put("response_format".to_string(), json(r#"{"type": "text"}"#)),
        ..Default::default()
    };
    let body = body_of(options);
    let format = body.get("response_format").unwrap();
    assert_eq!(format.get("type").unwrap().as_str(), Some("json_schema"));
}

#[test]
fn parses_chat_response() {
    let body = r#"{"id":"chatcmpl-1","object":"chat.completion","created":1,"model":"gpt-4o-mini","choices":[{"index":0,"message":{"role":"assistant","content":"hi!"},"finish_reason":"stop"}],"usage":{"prompt_tokens":5,"completion_tokens":3,"total_tokens":8}}"#;
    let response = parse_response(body).unwrap();
    assert_eq!(response.message, Message::assistant("hi!"));
    assert_eq!(response.finish_reason, FinishReason::Stop);
    assert_eq!(response.usage, Usage::new(5, 3));
}

#[test]
fn parses_tool_call_response() {
    let body = r#"{"choices":[{"message":{"role":"assistant","content":null,"tool_calls":[{"id":"call_1","type":"function","function":{"name":"calculator","arguments":"{\"expression\": \"1+1\"}"}}]},"finish_reason":"tool_calls"}]}"#;
    let response = parse_response(body).unwrap();
    assert_eq!(
        response.message,
        Message::Assistant {
            content: String::new(),
            reasoning: None,
            tool_calls: vec![ToolCall {
                id: "call_1".into(),
                name: "calculator".into(),
                arguments: r#"{"expression": "1+1"}"#.into(),
            }],
        }
    );
    assert_eq!(response.finish_reason, FinishReason::Stop);
}

#[test]
fn parses_text_with_tool_calls() {
    let body = r#"{"choices":[{"message":{"role":"assistant","content":"let me compute","tool_calls":[{"id":"call_1","type":"function","function":{"name":"calculator","arguments":"{}"}}]},"finish_reason":"tool_calls"}]}"#;
    let response = parse_response(body).unwrap();
    assert_eq!(
        response.message,
        Message::Assistant {
            content: "let me compute".into(),
            reasoning: None,
            tool_calls: vec![ToolCall {
                id: "call_1".into(),
                name: "calculator".into(),
                arguments: "{}".into(),
            }],
        }
    );
}

#[test]
fn parses_multiple_tool_calls_in_one_message() {
    let body = r#"{"choices":[{"message":{"role":"assistant","content":null,"tool_calls":[{"id":"a","type":"function","function":{"name":"calculator","arguments":"{}"}},{"id":"b","type":"function","function":{"name":"calculator","arguments":"{}"}}]},"finish_reason":"tool_calls"}]}"#;
    let response = parse_response(body).unwrap();
    assert_eq!(
        response.message,
        Message::Assistant {
            content: String::new(),
            reasoning: None,
            tool_calls: vec![
                ToolCall {
                    id: "a".into(),
                    name: "calculator".into(),
                    arguments: "{}".into(),
                },
                ToolCall {
                    id: "b".into(),
                    name: "calculator".into(),
                    arguments: "{}".into(),
                },
            ],
        }
    );
}

#[test]
fn maps_length_finish_reason() {
    let body =
        r#"{"choices":[{"message":{"role":"assistant","content":""},"finish_reason":"length"}]}"#;
    let response = parse_response(body).unwrap();
    assert_eq!(response.message, Message::assistant(""));
    assert_eq!(response.finish_reason, FinishReason::Length);
}

#[test]
fn maps_unknown_finish_reason_to_other() {
    let body = r#"{"choices":[{"message":{"role":"assistant","content":""},"finish_reason":"content_filter"}]}"#;
    let response = parse_response(body).unwrap();
    assert_eq!(
        response.finish_reason,
        FinishReason::Other("content_filter".into())
    );
}

#[test]
fn rejects_empty_choices() {
    let body = r#"{"choices":[]}"#;
    assert!(parse_response(body).is_err());
}

#[test]
fn rejects_bodies_of_another_shape() {
    for body in ["not json", "3", r#"{"choices":3}"#, r#"{"choices":[{}]}"#] {
        assert!(matches!(
            parse_response(body),
            Err(ProviderError::Api { status: 0, .. })
        ));
    }
}

#[test]
fn missing_usage_defaults_to_zero() {
    let body =
        r#"{"choices":[{"message":{"role":"assistant","content":"hi"},"finish_reason":"stop"}]}"#;
    let response = parse_response(body).unwrap();
    assert_eq!(response.usage, Usage::default());
}

#[test]
fn extracts_error_message() {
    let body = r#"{"error":{"message":"Incorrect API key","type":"invalid_request_error"}}"#;
    assert_eq!(extract_error_message(body), "Incorrect API key");
}

#[test]
fn falls_back_to_raw_body() {
    let body = "not json";
    assert_eq!(extract_error_message(body), "not json");
}

#[test]
fn debug_masks_api_key() {
    let provider = OpenAiProvider::new("https://api.example.com", "sk-super-secret", "model");
    let debug = provider.describe();
    assert!(
        !debug.contains("sk-super-secret"),
        "Debug leaked api_key: {debug}"
    );
    assert!(
        debug.contains("\"***\""),
        "mask placeholder missing: {debug}"
    );
}

#[test]
fn openai_debug_masks_api_key() {
    let provider = OpenAiProvider::new("http://localhost", "sk-secret", "model");
    let debug = provider.describe();
    assert!(!debug.contains("sk-secret"));
    assert!(debug.contains("\"***\""));
}

#[test]
fn description_shows_everything_but_the_key() {
    let provider = OpenAiProvider::new("http://a\"b", "sk-secret", "m\n1");
    assert_eq!(
        provider.describe(),
        "OpenAiProvider { base_url: \"http://a\\\"b\", api_key: \"***\", model: \"m\\n1\", \
         request_timeout: 600s, idle_timeout: 60s, stream_timeout: 1800s, \
         structured_mode: Native, .. }"
    );
    let provider = provider
        .with_request_timeout(Span { nanos: 1_500_000_000 })
        .with_idle_timeout(Span { nanos: 250_000 })
        .with_stream_timeout(Span { nanos: u128::MAX })
        .with_structured_output_mode(StructuredOutputMode::JsonObject);
    let text = provider.describe();
    assert!(text.contains("request_timeout: 1.5s, idle_timeout: 250µs, "));
    let longest = format!("stream_timeout: {:?}, ", std::time::Duration::MAX);
    assert!(text.contains(&longest));
    assert!(text.ends_with("structured_mode: JsonObject, .. }"));
    assert_eq!(
        describe_parts("u", "m", "1s", "2s", "3s", StructuredOutputMode::Off),
        "OpenAiProvider { base_url: u, api_key: \"***\", model: m, request_timeout: 1s, \
         idle_timeout: 2s, stream_timeout: 3s, structured_mode: Off, .. }"
    );
}

#[test]
fn endpoint_url_has_one_slash_and_the_key_is_optional() {
    let provider = OpenAiProvider::new("https://api.example.com/v1/", "", "m");
    assert_eq!(
        provider.url(),
        "https://api.example.com/v1/chat/completions"
    );
    assert_eq!(provider.bearer(), None);
    assert_eq!(
        OpenAiProvider::new("http://x", "k", "m").bearer(),
        Some("k")
    );
}

#[test]
fn response_body_is_limited() {
    assert!(ResponseBody::announced(Some(16_777_217)).is_err());
    let mut body = ResponseBody::announced(Some(3)).unwrap();
    body.push(b"ab".to_vec()).unwrap();
    body.push(vec![0xff]).unwrap();
    assert_eq!(body.text(), "ab\u{fffd}");
    assert!(matches!(
        body.push(vec![0; 16_777_216]),
        Err(ProviderError::Api { status: 0, .. })
    ));
    assert_eq!(body.text(), "ab\u{fffd}");
}

#[test]
fn history_is_sent_back_as_it_came() {
    let reply = r#"{"choices":[{"message":{"role":"assistant","content":"2","reasoning_content":"why","tool_calls":[{"id":"c","type":"function","function":{"name":"f","arguments":"{}"}}]},"finish_reason":"stop"}]}"#;
    let response = parse_response(reply).unwrap();
    assert_eq!(
        render_json(&wire(&response.message)),
        r#"{"content":"2","reasoning_content":"why","role":"assistant","tool_calls":[{"function":{"arguments":"{}","name":"f"},"id":"c","type":"function"}]}"#
    );
}

#[test]
fn timeouts_have_defaults_and_are_set_one_by_one() {
    let provider = OpenAiProvider::new("http://localhost", "", "m");
    assert_eq!(provider.connect_timeout(), Span::from_secs(30));
    assert_eq!(provider.request_timeout(), Span::from_secs(600));
    assert_eq!(provider.idle_timeout(), Span::from_secs(60));
    assert_eq!(provider.stream_timeout(), Span::from_secs(1800));
    let provider = provider
        .with_connect_timeout(Span::from_secs(1))
        .with_request_timeout(Span::from_secs(2))
        .with_idle_timeout(Span::from_secs(3))
        .with_stream_timeout(Span::from_secs(4));
    assert_eq!(provider.connect_timeout(), Span::from_secs(1));
    assert_eq!(provider.request_timeout(), Span::from_secs(2));
    assert_eq!(provider.idle_timeout(), Span::from_secs(3));
    assert_eq!(provider.stream_timeout(), Span::from_secs(4));
}

#[test]
fn the_status_decides_how_a_reply_is_read() {
    let body = r#"{"choices":[{"message":{"role":"assistant","content":"hi"},"finish_reason":"stop"}]}"#;
    assert!(is_success(200) && is_success(299));
    assert!(!is_success(199) && !is_success(300));
    assert_eq!(finish_chat(200, None, body).unwrap().message, Message::assistant("hi"));
    assert_eq!(
        finish_chat(500, None, r#"{"error":{"message":"down"}}"#),
        Err(ProviderError::Api { status: 500, message: "down".to_string() })
    );
    assert_eq!(
        finish_chat(429, Some("5"), r#"{"error":{"message":"slow down"}}"#),
        Err(ProviderError::RateLimited { retry_after: Some(Span::from_secs(5)) })
    );
}

#[test]
fn failed_connections_tell_timeouts_apart() {
    assert_eq!(map_send_error(true, "late"), ProviderError::Timeout(TimeoutStage::Request));
    assert_eq!(map_network_error(true, "late"), ProviderError::Timeout(TimeoutStage::Transport));
    assert_eq!(map_send_error(false, "gone"), ProviderError::Network("gone".to_string()));
    assert_eq!(map_network_error(false, "gone"), ProviderError::Network("gone".to_string()));
}
