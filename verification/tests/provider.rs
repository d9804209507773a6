use molo::message::{Message, ToolCall};
use molo::provider::fake::{
    check_context, check_limits, FakeProvider, FakeReply, ProviderRequestContext,
};
use molo::provider::retry::{
    decide_retry, jitter_bits, next_jitter, RetryPolicy, RetryRun, RetryStep, Retryable,
};
use molo::provider::{
    ChatRequest, ChatResponse, FinishReason, ProviderError, StreamEvent, TimeoutStage, Usage,
};
use molo::run::RunContext;
use molo::time::{Moment, Span};

fn asked() -> ChatRequest {
    ChatRequest::default()
}

fn done(usage: Usage) -> StreamEvent {
    StreamEvent::Done {
        reason: FinishReason::Stop,
        usage: Some(usage),
    }
}

fn add(arguments: &str) -> ToolCall {
    ToolCall {
        id: "c1".into(),
        name: "add".into(),
        arguments: arguments.into(),
    }
}

#[test]
fn chat_consumes_script_in_order() {
    let mut fake = FakeProvider::new(vec![
        FakeReply::Text("a".into()),
        FakeReply::Text("b".into()),
    ]);
    let r1 = fake.chat(asked()).unwrap();
    assert_eq!(r1.message, Message::assistant("a"));
    assert_eq!(r1.finish_reason, FinishReason::Stop);
    let r2 = fake.chat(asked()).unwrap();
    assert_eq!(r2.message, Message::assistant("b"));
}

#[test]
fn chat_returns_error_when_script_exhausted() {
    let mut fake = FakeProvider::new(vec![FakeReply::Text("only".into())]);
    fake.chat(asked()).unwrap();
    let err = fake.chat(asked()).unwrap_err();
    assert!(matches!(err, ProviderError::Protocol { message: m } if m.contains("exhausted")));
    assert_eq!(fake.requests().len(), 2);
}

#[test]
fn chat_with_text_and_reasoning() {
    let mut fake = FakeProvider::new(vec![FakeReply::TextWithReasoning {
        content: "answer".into(),
        reasoning: "think".into(),
    }]);
    let r = fake.chat(asked()).unwrap();
    assert_eq!(
        r.message,
        Message::assistant_with_reasoning("answer", "think")
    );
}

#[test]
fn chat_with_tool_calls() {
    let mut fake = FakeProvider::new(vec![FakeReply::ToolCalls {
        content: String::new(),
        calls: vec![add(r#"{"a":1,"b":2}"#)],
    }]);
    let r = fake.chat(asked()).unwrap();
    assert_eq!(
        r.message,
        Message::Assistant {
            content: String::new(),
            reasoning: None,
            tool_calls: vec![add(r#"{"a":1,"b":2}"#)],
        }
    );
}

#[test]
fn chat_with_usage_override() {
    let usage = Usage::new(7, 3);
    let mut fake = FakeProvider::new(vec![FakeReply::text_with_usage("hi", usage)]);
    let r = fake.chat(asked()).unwrap();
    assert_eq!(r.message, Message::assistant("hi"));
    assert_eq!(r.usage, usage);
}

#[test]
fn text_with_usage_wraps_once() {
    let usage = Usage::new(7, 3);
    assert_eq!(
        FakeReply::text_with_usage("hi", usage),
        FakeReply::WithUsage {
            reply: Box::new(FakeReply::Text("hi".into())),
            usage
        }
    );
}

#[test]
fn stream_with_usage_override() {
    let usage = Usage::new(7, 3);
    let mut fake = FakeProvider::new(vec![FakeReply::text_with_usage("hi", usage)]);
    let events = fake.stream_chat(asked()).unwrap();
    assert_eq!(events.last(), Some(&done(usage)));
}

#[test]
fn stream_nested_usage_override_no_panic() {
    let usage = Usage::new(7, 3);
    let mut fake = FakeProvider::new(vec![FakeReply::WithUsage {
        reply: Box::new(FakeReply::WithUsage {
            reply: Box::new(FakeReply::Text("hi".into())),
            usage: Usage::new(1, 1),
        }),
        usage,
    }]);
    let events = fake.stream_chat(asked()).unwrap();
    assert_eq!(events[0], StreamEvent::Delta("hi".into()));
    assert_eq!(events.last(), Some(&done(usage)));
}

#[test]
fn error_reply_passthrough_and_script_continues() {
    let mut fake = FakeProvider::new(vec![
        FakeReply::Error(ProviderError::RateLimited { retry_after: None }),
        FakeReply::Text("ok".into()),
    ]);
    let err = fake.chat(asked()).unwrap_err();
    assert!(matches!(err, ProviderError::RateLimited { .. }));
    let r = fake.chat(asked()).unwrap();
    assert_eq!(r.message, Message::assistant("ok"));
}

#[test]
fn stream_chat_text_reply() {
    let mut fake = FakeProvider::new(vec![FakeReply::TextWithReasoning {
        content: "hi".into(),
        reasoning: "think".into(),
    }]);
    assert_eq!(
        fake.stream_chat(asked()).unwrap(),
        vec![
            StreamEvent::Delta("hi".into()),
            StreamEvent::Reasoning("think".into()),
            done(Usage::default()),
        ]
    );
}

#[test]
fn stream_chat_tool_call_reply() {
    let mut fake = FakeProvider::new(vec![FakeReply::ToolCalls {
        content: "thinking aloud".into(),
        calls: vec![add(r#"{"a":1}"#)],
    }]);
    assert_eq!(
        fake.stream_chat(asked()).unwrap(),
        vec![
            StreamEvent::Delta("thinking aloud".into()),
            StreamEvent::ToolCall {
                id: "c1".into(),
                name: "add".into(),
                arguments: r#"{"a":1}"#.into(),
            },
            done(Usage::default()),
        ]
    );
}

#[test]
fn stream_chat_error_reply_returns_err() {
    let mut fake = FakeProvider::new(vec![FakeReply::Error(ProviderError::Api {
        status: 400,
        message: "boom".into(),
    })]);
    assert!(matches!(
        fake.stream_chat(asked()),
        Err(ProviderError::Api { status: 400, message: m }) if m == "boom"
    ));
}

#[test]
fn stream_chat_exhausted_returns_err() {
    let mut fake = FakeProvider::new(vec![FakeReply::Text("only".into())]);
    fake.stream_chat(asked()).unwrap();
    assert!(matches!(
        fake.stream_chat(asked()),
        Err(ProviderError::Protocol { message: m }) if m.contains("exhausted")
    ));
}

#[test]
fn requests_records_messages_passed() {
    let mut fake = FakeProvider::new(vec![FakeReply::Text("hi".into())]);
    let messages = || vec![Message::system("sys"), Message::user("hello")];
    fake.chat(ChatRequest {
        messages: messages(),
        ..Default::default()
    })
    .unwrap();
    let requests = fake.requests();
    assert_eq!(requests.len(), 1);
    assert_eq!(requests[0].messages, messages());
}

#[test]
fn push_appends_to_script() {
    let mut fake = FakeProvider::new(vec![FakeReply::Text("first".into())]);
    fake.push(FakeReply::Text("second".into()));
    let r1 = fake.chat(asked()).unwrap();
    assert_eq!(r1.message, Message::assistant("first"));
    let r2 = fake.chat(asked()).unwrap();
    assert_eq!(r2.message, Message::assistant("second"));
}

#[test]
fn clones_play_their_own_script() {
    let mut fake = FakeProvider::new(vec![
        FakeReply::Text("a".into()),
        FakeReply::Text("b".into()),
    ]);
    fake.chat(asked()).unwrap();
    let mut copy = fake.clone();
    assert_eq!(copy.requests().len(), 1);
    assert_eq!(copy.chat(asked()).unwrap().message, Message::assistant("b"));
    assert_eq!(fake.requests().len(), 1);
    assert_eq!(fake.chat(asked()).unwrap().message, Message::assistant("b"));
}

#[test]
fn limits_are_checked_before_the_script() {
    let now = Moment { nanos: 5 };
    let run = RunContext::new("r");
    let context = ProviderRequestContext::from_run_context("q", &run);
    assert!(!context.is_cancelled());
    assert_eq!(check_context(&context, now), Ok(()));
    run.cancellation.cancel();
    assert!(context.is_cancelled());
    assert_eq!(check_context(&context, now), Err(ProviderError::Cancelled));
    assert_eq!(check_limits(true, Some(now), now), Err(ProviderError::Cancelled));
    assert_eq!(
        check_limits(false, Some(now), now),
        Err(ProviderError::Timeout(TimeoutStage::Request))
    );
    assert_eq!(check_limits(false, None, now), Ok(()));
    let mut fake = FakeProvider::new(vec![FakeReply::Text("unused".into())]);
    assert_eq!(
        fake.chat_with_context(asked(), &context, now).unwrap_err(),
        ProviderError::Cancelled
    );
    assert!(matches!(
        fake.stream_chat_within(asked(), true, None, now),
        Err(ProviderError::Cancelled)
    ));
    assert!(fake.requests().is_empty());
    assert_eq!(
        fake.chat_within(asked(), false, None, now).unwrap().message,
        Message::assistant("unused")
    );
    let late = RunContext::new("r").with_deadline(now);
    let context = ProviderRequestContext::from_run_context("q", &late);
    assert_eq!(
        check_context(&context, now),
        Err(ProviderError::Timeout(TimeoutStage::Request))
    );
    assert_eq!(check_context(&context, Moment { nanos: 4 }), Ok(()));
}

type Predicate = fn(&ProviderError) -> bool;

fn standard() -> RetryPolicy<Predicate> {
    RetryPolicy::default()
}

fn rate_limited() -> ProviderError {
    ProviderError::RateLimited { retry_after: None }
}

fn api(status: u16) -> ProviderError {
    ProviderError::Api {
        status,
        message: "boom".into(),
    }
}

fn network() -> ProviderError {
    ProviderError::Network("connection refused".into())
}

/// A call through `fake` under `policy`, without the waiting.
fn call(
    fake: &mut FakeProvider,
    policy: &RetryPolicy<Predicate>,
) -> Result<ChatResponse, ProviderError> {
    let mut run = RetryRun::new();
    loop {
        match fake.chat(asked()) {
            Ok(response) => return Ok(response),
            Err(error) => {
                if run.failed(policy, &error) == RetryStep::GiveUp {
                    return Err(error);
                }
            }
        }
    }
}

#[test]
fn retries_then_succeeds() {
    let mut fake = FakeProvider::new(vec![
        FakeReply::Error(rate_limited()),
        FakeReply::Text("ok".into()),
    ]);
    let resp = call(&mut fake, &standard()).unwrap();
    assert_eq!(resp.message, Message::assistant("ok"));
    assert_eq!(fake.requests().len(), 2);
}

#[test]
fn gives_up_after_max_attempts() {
    let mut fake = FakeProvider::new(vec![
        FakeReply::Error(network()),
        FakeReply::Error(network()),
        FakeReply::Error(ProviderError::Network("last".into())),
    ]);
    let err = call(&mut fake, &standard()).unwrap_err();
    assert_eq!(err, ProviderError::Network("last".into()));
    assert_eq!(fake.requests().len(), 3);
}

#[test]
fn api_4xx_not_retried() {
    let mut fake = FakeProvider::new(vec![FakeReply::Error(api(400))]);
    let err = call(&mut fake, &standard()).unwrap_err();
    assert!(matches!(err, ProviderError::Api { status: 400, .. }));
    assert_eq!(fake.requests().len(), 1);
}

#[test]
fn api_5xx_retried() {
    let mut fake = FakeProvider::new(vec![
        FakeReply::Error(api(503)),
        FakeReply::Text("ok".into()),
    ]);
    call(&mut fake, &standard()).unwrap();
    assert_eq!(fake.requests().len(), 2);
}

#[test]
fn max_attempts_one_disables_retry() {
    let mut fake = FakeProvider::new(vec![FakeReply::Error(network())]);
    let policy = RetryPolicy {
        max_attempts: 1,
        ..standard()
    };
    call(&mut fake, &policy).unwrap_err();
    assert_eq!(fake.requests().len(), 1);
}

#[test]
fn retry_after_capped_at_cap() {
    let step = standard().retry_decision(
        &ProviderError::RateLimited {
            retry_after: Some(Span::from_secs(3600)),
        },
        0,
    );
    assert_eq!(step, RetryStep::WaitFor(Span::from_secs(300)));
}

#[test]
fn retry_after_delay_overrides_backoff() {
    let error = ProviderError::RateLimited {
        retry_after: Some(Span::from_millis(200)),
    };
    assert_eq!(
        standard().retry_decision(&error, 0),
        RetryStep::WaitFor(Span::from_millis(200))
    );
    assert_eq!(
        decide_retry(3, false, &error, 0, true),
        RetryStep::Backoff
    );
    assert_eq!(
        standard().retry_decision(&rate_limited(), 0),
        RetryStep::Backoff
    );
}

#[test]
fn custom_retryable_predicate() {
    let mut fake = FakeProvider::new(vec![
        FakeReply::Error(api(400)),
        FakeReply::Text("ok".into()),
    ]);
    let only_400: Predicate = |e| matches!(e, ProviderError::Api { status, .. } if *status == 400);
    let policy = RetryPolicy {
        retryable: Retryable::Custom(only_400),
        ..standard()
    };
    call(&mut fake, &policy).unwrap();
    assert_eq!(fake.requests().len(), 2);
}

#[test]
fn jitter_first_draw_is_not_the_seed() {
    let first = next_jitter(0, 1);
    assert_eq!(first, 7806831264735756412);
    assert_eq!(jitter_bits(first), 7100271);
    assert_ne!(next_jitter(first, 1), first);
}

#[test]
fn usages_add_field_by_field() {
    let mut total = Usage::new(3, 4);
    total.add_assign(Usage { prompt_tokens: 10, completion_tokens: 20, total_tokens: 31 });
    assert_eq!(total, Usage { prompt_tokens: 13, completion_tokens: 24, total_tokens: 38 });
}

#[test]
fn a_fresh_fake_has_no_script() {
    let mut fake = FakeProvider::default();
    assert!(fake.requests().is_empty());
    assert!(matches!(fake.chat(asked()), Err(ProviderError::Protocol { .. })));
}
