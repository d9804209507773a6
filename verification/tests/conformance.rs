use molo::json::{parse_json, Json};
use molo::message::{Message, ToolCall};
use molo::provider::fake::{FakeProvider, FakeReply, ProviderRequestContext};
use molo::provider::openai::lines::{step_stream, LineStep, ReadEvent, SseLines};
use molo::provider::openai::stream::ToolCallAggregator;
use molo::provider::openai::wire::StructuredOutputMode;
use molo::provider::openai::{finish_chat, OpenAiProvider};
use molo::provider::retry::{RetryPolicy, RetryRun, RetryStep};
use molo::provider::{
    ChatRequest, FinishReason, ModelOptions, ProviderError, StreamEvent, Usage,
};
use molo::run::RunContext;
use molo::skill::{FoundFile, Skill};
use molo::time::{Moment, Span};
use molo::tool::registry::ToolRegistry;
use molo::tool::ToolSchema;

const NOW: Moment = Moment { nanos: 1_000_000_000 };
const LATER: Moment = Moment { nanos: 61_000_000_000 };

fn text_request() -> ChatRequest {
    ChatRequest {
        messages: vec![Message::user("hello")],
        ..Default::default()
    }
}

fn json(text: &str) -> Json {
    parse_json(text).unwrap()
}

fn two_calls() -> Vec<ToolCall> {
    vec![
        ToolCall {
            id: "call-1".into(),
            name: "search".into(),
            arguments: r#"{"q":"one"}"#.into(),
        },
        ToolCall {
            id: "call-2".into(),
            name: "read".into(),
            arguments: r#"{"path":"src/lib.rs"}"#.into(),
        },
    ]
}

#[test]
fn fake_capabilities_match_supported_cases() {
    let capabilities = FakeProvider::new(vec![]).capabilities();
    assert!(capabilities.streaming);
    assert!(capabilities.reasoning);
    assert!(capabilities.tool_calls);
    assert!(capabilities.parallel_tool_calls);
    assert!(capabilities.structured_output);
    assert!(capabilities.usage);
    assert!(capabilities.context_cancellation);
    assert!(capabilities.context_deadline);
}

#[test]
fn fake_non_streaming_text_usage_and_finish_reason() {
    let usage = Usage::new(7, 3);
    let mut fake = FakeProvider::new(vec![FakeReply::text_with_usage("hi", usage)]);

    let response = fake.chat(text_request()).unwrap();

    assert_eq!(response.message, Message::assistant("hi"));
    assert_eq!(response.finish_reason, FinishReason::Stop);
    assert_eq!(response.usage, usage);
    assert_eq!(fake.requests(), vec![text_request()]);
}

#[test]
fn fake_streaming_text_matches_non_streaming_text() {
    let usage = Usage::new(5, 4);
    let mut fake = FakeProvider::new(vec![FakeReply::text_with_usage("streamed", usage)]);

    let mut text = String::new();
    let mut done = None;
    for event in fake.stream_chat(text_request()).unwrap() {
        match event {
            StreamEvent::Delta(delta) => text.push_str(&delta),
            StreamEvent::Done { reason, usage } => done = Some((reason, usage)),
            other => panic!("unexpected stream event: {other:?}"),
        }
    }

    assert_eq!(text, "streamed");
    assert_eq!(done, Some((FinishReason::Stop, Some(usage))));
}

#[test]
fn fake_reasoning_stream_is_separate_from_answer() {
    let mut fake = FakeProvider::new(vec![FakeReply::TextWithReasoning {
        content: "answer".into(),
        reasoning: "think".into(),
    }]);

    let mut text = String::new();
    let mut reasoning = String::new();
    for event in fake.stream_chat(text_request()).unwrap() {
        match event {
            StreamEvent::Delta(delta) => text.push_str(&delta),
            StreamEvent::Reasoning(delta) => reasoning.push_str(&delta),
            StreamEvent::Done { .. } => {}
            other => panic!("unexpected stream event: {other:?}"),
        }
    }

    assert_eq!(text, "answer");
    assert_eq!(reasoning, "think");
}

#[test]
fn fake_single_and_parallel_tool_calls_preserve_order() {
    let mut fake = FakeProvider::new(vec![FakeReply::ToolCalls {
        content: "checking".into(),
        calls: two_calls(),
    }]);

    match fake.chat(text_request()).unwrap().message {
        Message::Assistant { content, reasoning, tool_calls } => {
            assert_eq!(content, "checking");
            assert_eq!(reasoning, None);
            assert_eq!(tool_calls, two_calls());
        }
        other => panic!("expected assistant, got {other:?}"),
    }
}

#[test]
fn fake_streaming_tool_calls_preserve_order() {
    let mut fake = FakeProvider::new(vec![FakeReply::ToolCalls {
        content: String::new(),
        calls: two_calls(),
    }]);

    let mut tool_calls = Vec::new();
    for event in fake.stream_chat(text_request()).unwrap() {
        match event {
            StreamEvent::ToolCall { id, name, arguments } => {
                tool_calls.push(ToolCall { id, name, arguments });
            }
            StreamEvent::Done { .. } => {}
            other => panic!("unexpected stream event: {other:?}"),
        }
    }

    assert_eq!(tool_calls, two_calls());
}

#[test]
fn fake_records_structured_schema_and_tools_without_mutating_request() {
    let schema = json(
        r#"{"type":"object","properties":{"city":{"type":"string"}},"required":["city"]}"#,
    );
    let tool = ToolSchema::new("lookup_city", "Look up a city", json(r#"{"type":"object"}"#));
    let request = ChatRequest {
        messages: vec![Message::user("where?")],
        tools: vec![tool.clone()],
        options: ModelOptions {
            structured: Some(schema.clone()),
            ..Default::default()
        },
    };
    let mut fake = FakeProvider::new(vec![FakeReply::Text(r#"{"city":"Paris"}"#.into())]);

    fake.chat(request.clone()).unwrap();

    assert_eq!(request.tools, vec![tool]);
    assert_eq!(request.options.structured, Some(schema));
    assert_eq!(fake.requests(), vec![request]);
}

#[test]
fn fake_context_cancellation_and_deadline_are_classified() {
    let cancelled = RunContext::new("run-cancelled");
    cancelled.cancellation.cancel();
    let context = ProviderRequestContext::from_run_context("run-cancelled-model-1", &cancelled);
    let mut fake = FakeProvider::new(vec![FakeReply::Text("unused".into())]);

    let err = fake.chat_with_context(text_request(), &context, NOW).unwrap_err();
    assert_eq!(err, ProviderError::Cancelled);
    assert!(fake.requests().is_empty());

    let expired = RunContext::new("run-expired").with_deadline(Moment { nanos: 0 });
    let context = ProviderRequestContext::from_run_context("run-expired-model-1", &expired);
    let err = fake.stream_chat_with_context(text_request(), &context, NOW).unwrap_err();
    assert!(matches!(err, ProviderError::Timeout(_)));
}

#[test]
fn fake_script_exhaustion_is_protocol_error() {
    let err = FakeProvider::new(vec![]).chat(text_request()).unwrap_err();
    assert!(matches!(
        err,
        ProviderError::Protocol { message } if message.contains("script exhausted")
    ));
}

#[test]
fn openai_non_streaming_text_usage_finish_reason_and_structured_mapping() {
    let body = r#"{"choices":[{"message":{"role":"assistant","content":"{\"ok\":true}","reasoning_content":"because","tool_calls":null},"finish_reason":"stop"}],"usage":{"prompt_tokens":3,"completion_tokens":4,"total_tokens":7}}"#;
    let provider = OpenAiProvider::new("http://localhost", "sk-test-secret", "mock-model")
        .with_structured_output_mode(StructuredOutputMode::Native);
    let request = ChatRequest {
        messages: vec![Message::user("return json")],
        options: ModelOptions {
            structured: Some(json(
                r#"{"type":"object","properties":{"ok":{"type":"boolean"}},"required":["ok"]}"#,
            )),
            ..Default::default()
        },
        ..Default::default()
    };

    let response = finish_chat(200, None, body).unwrap();
    assert_eq!(response.finish_reason, FinishReason::Stop);
    assert_eq!(response.usage, Usage::new(3, 4));
    assert_eq!(
        response.message,
        Message::assistant_with_reasoning(r#"{"ok":true}"#, "because")
    );

    assert_eq!(provider.url(), "http://localhost/chat/completions");
    assert_eq!(provider.bearer(), Some("sk-test-secret"));
    let sent = molo::json::render_json(&provider.body(&request, false));
    assert!(sent.contains(r#""model":"mock-model""#));
    assert!(sent.contains(r#""response_format""#));
    assert!(sent.contains(r#""json_schema""#));
}

#[test]
fn openai_tool_calls_and_parallel_order_are_preserved() {
    let body = r#"{"choices":[{"message":{"role":"assistant","content":"checking","tool_calls":[{"id":"call-1","type":"function","function":{"name":"search","arguments":"{\"q\":\"one\"}"}},{"id":"call-2","type":"function","function":{"name":"read","arguments":"{\"path\":\"src/lib.rs\"}"}}]},"finish_reason":"tool_calls"}],"usage":{"prompt_tokens":1,"completion_tokens":2,"total_tokens":3}}"#;
    match finish_chat(200, None, body).unwrap().message {
        Message::Assistant { content, tool_calls, .. } => {
            assert_eq!(content, "checking");
            assert_eq!(tool_calls, two_calls());
        }
        other => panic!("expected assistant message, got {other:?}"),
    }
}

#[test]
fn openai_api_rate_limit_and_error_mapping() {
    let err = finish_chat(429, Some("5"), r#"{"error":{"message":"rate limit exceeded"}}"#);
    assert_eq!(
        err,
        Err(ProviderError::RateLimited { retry_after: Some(Span::from_secs(5)) })
    );

    let body = r#"{"error":{"message":"bad auth","code":"invalid_api_key"}}"#;
    assert!(matches!(
        finish_chat(401, None, body),
        Err(ProviderError::Api { status: 401, message }) if message.contains("bad auth")
    ));
}

fn events_of(reads: Vec<ReadEvent>) -> Vec<Result<StreamEvent, ProviderError>> {
    let mut lines = SseLines::new();
    let mut aggregator = ToolCallAggregator::default();
    let mut reads = reads.into_iter();
    let mut events = Vec::new();
    loop {
        let step = match lines.poll(NOW, LATER) {
            LineStep::Read => lines.feed(reads.next().unwrap_or(ReadEvent::Closed)),
            step => step,
        };
        match step {
            LineStep::Read => {}
            LineStep::Line(line) => events.extend(step_stream(Ok(line), &mut aggregator)),
            LineStep::Fail(e) => events.extend(step_stream(Err(e), &mut aggregator)),
            LineStep::End => {
                events.extend(aggregator.flush_done());
                return events;
            }
        }
    }
}

fn bytes(text: &str) -> ReadEvent {
    ReadEvent::Bytes(text.as_bytes().to_vec())
}

#[test]
fn openai_streaming_text_usage_and_malformed_stream_mapping() {
    let events = events_of(vec![
        bytes("data: {\"choices\":[{\"delta\":{\"content\":\"hel\"},\"finish_reason\":null}]}\n\n"),
        bytes("data: {\"choices\":[{\"delta\":{\"content\":\"lo\"},\"finish_reason\":\"stop\"}],\"usage\":{\"prompt_tokens\":1,\"completion_tokens\":2,\"total_tokens\":3}}\n\n"),
        bytes("data: [DONE]\n\n"),
    ]);
    assert_eq!(
        events,
        vec![
            Ok(StreamEvent::Delta("hel".into())),
            Ok(StreamEvent::Delta("lo".into())),
            Ok(StreamEvent::Done { reason: FinishReason::Stop, usage: Some(Usage::new(1, 2)) }),
        ]
    );

    let events = events_of(vec![bytes("data: not-json\n\n")]);
    assert_eq!(events.len(), 1);
    assert!(events[0].is_err());
}

#[test]
fn sse_stream_empty_stream_is_error() {
    let events = events_of(vec![bytes("\n")]);
    assert_eq!(events.len(), 1);
    assert!(matches!(
        &events[0],
        Err(ProviderError::Api { status: 0, message }) if message.contains("without finish_reason")
    ));
}

#[test]
fn sse_stream_drops_data_after_done_marker() {
    let events = events_of(vec![
        bytes("data: {\"choices\":[{\"delta\":{\"content\":\"ok\"},\"finish_reason\":\"stop\"}]}\n"),
        bytes("data: [DONE]\n"),
        bytes("data: {\"choices\":[{\"delta\":{\"content\":\"x\"}}]}\n"),
    ]);
    assert_eq!(
        events,
        vec![
            Ok(StreamEvent::Delta("ok".into())),
            Ok(StreamEvent::Done { reason: FinishReason::Stop, usage: None }),
        ]
    );
}

#[test]
fn network_error_terminates_and_drops_buffered_tail() {
    let mut lines = SseLines::new();
    assert_eq!(lines.poll(NOW, LATER), LineStep::Read);
    assert_eq!(lines.feed(bytes("data: partial")), LineStep::Read);
    assert_eq!(lines.poll(NOW, LATER), LineStep::Read);
    let failed = lines.feed(ReadEvent::Failed(ProviderError::Network("gone".into())));
    assert!(matches!(failed, LineStep::Fail(ProviderError::Network(_))));
    assert_eq!(lines.poll(NOW, LATER), LineStep::End);
}

type Predicate = fn(&ProviderError) -> bool;

fn network() -> ProviderError {
    ProviderError::Network("down".into())
}

#[test]
fn retry_after_respected_when_present() {
    let mut fake = FakeProvider::new(vec![
        FakeReply::Error(ProviderError::RateLimited { retry_after: Some(Span::from_millis(1)) }),
        FakeReply::Text("ok".into()),
    ]);
    let policy = RetryPolicy::<Predicate>::default();
    let mut run = RetryRun::new();
    let error = fake.chat(ChatRequest::default()).unwrap_err();
    assert_eq!(run.failed(&policy, &error), RetryStep::WaitFor(Span::from_millis(1)));
    fake.chat(ChatRequest::default()).unwrap();
    assert_eq!(fake.requests().len(), 2);
}

#[test]
fn stream_retries_only_before_first_event() {
    let mut fake =
        FakeProvider::new(vec![FakeReply::Error(network()), FakeReply::Text("ok".into())]);
    let policy = RetryPolicy::<Predicate>::default();
    let mut run = RetryRun::new();
    let error = fake.stream_chat(ChatRequest::default()).unwrap_err();
    assert_eq!(run.failed(&policy, &error), RetryStep::Backoff);
    let events = fake.stream_chat(ChatRequest::default()).unwrap();
    assert_eq!(events[0], StreamEvent::Delta("ok".into()));
    assert_eq!(fake.requests().len(), 2);
}

#[test]
fn stream_failure_after_max_attempts() {
    let mut fake = FakeProvider::new(vec![FakeReply::Error(network())]);
    let mut policy = RetryPolicy::<Predicate>::default();
    policy.max_attempts = 1;
    let mut run = RetryRun::new();
    let error = fake.stream_chat(ChatRequest::default()).unwrap_err();
    assert!(matches!(error, ProviderError::Network(_)));
    assert_eq!(run.failed(&policy, &error), RetryStep::GiveUp);
    assert_eq!(fake.requests().len(), 1);
}

#[test]
fn subset_shares_tool_instances() {
    let mut registry = ToolRegistry::new();
    registry.register("counter".to_string(), 7).register("other".to_string(), 8);
    let sub = registry.subset(&["counter"]).unwrap();
    assert_eq!(sub.get("counter"), registry.get("counter"));
    assert_eq!(sub.get("other"), None);
}

#[test]
fn clone_shares_tool_instances() {
    let mut registry = ToolRegistry::new();
    registry.register("counter".to_string(), 7);
    assert_eq!(registry.clone().get("counter"), Some(7));
}

#[test]
fn load_reference_allows_internal_symlink() {
    let file = FoundFile::Text("---\nname: a\ndescription: description\n---\nbody".to_string());
    let skill = Skill::from_dir("/skills/a", "a", file, vec!["references/link.md".to_string()])
        .unwrap();
    let text = skill.load_reference(
        "references/link.md",
        FoundFile::Text("internal content".to_string()),
    );
    assert_eq!(text.unwrap(), "internal content");
}
