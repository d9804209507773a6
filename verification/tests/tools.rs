use molo::json::{parse_json, Json, JsonMap};
use molo::message::{ContentBlock, Message};
use molo::message_channel::{
    broadcast_ask, broadcast_step, received, watch_ask, watch_notified, BroadcastEvent,
    BroadcastState, BroadcastStep, ChannelError,
};
use molo::observability::{AgentEventRecord, EventSeverity, RedactionRecord};
use molo::provider::ModelOptions;
use molo::run::{Artifact, RunContext, RunMetadata, RunRequest, RunSummary, UserInput};
use molo::time::{Moment, Span};
use molo::tool::registry::{panic_message, CallOutcome, RegistryError, ToolRegistry};
use molo::tool::shared_state::{SharedState, StateStore};
use molo::effect::{DisplayFormat, DisplayOutput, EffectKind, EffectRequest};
use molo::tool::{
    ToolError, ToolMemoryPolicy, ToolNamespace, ToolNamespaceKind, ToolOutput, ToolResult, ToolSchema,
};
use std::cell::Cell;
use tokio_util::sync::CancellationToken;

const SEARCH: u64 = 1;
const CALCULATOR: u64 = 2;
const SEARCH_AGAIN: u64 = 3;

fn registry() -> ToolRegistry {
    let mut r = ToolRegistry::new();
    r.register("search".to_string(), SEARCH)
        .register("calculator".to_string(), CALCULATOR)
        .register("search".to_string(), SEARCH_AGAIN);
    r
}

fn output(text: &str) -> ToolResult {
    ToolResult::Output(ToolOutput::text(text.to_string()))
}

#[test]
fn names_in_registration_order_dedup() {
    assert_eq!(registry().names(), vec!["search", "calculator"]);
}

#[test]
fn schemas_in_registration_order() {
    let name_of = |tool: u64| if tool == CALCULATOR { "calculator" } else { "search" };
    let schemas = registry()
        .schemas(|tool| ToolSchema::new(name_of(tool), "", Json::object(JsonMap::new())));
    assert_eq!(schemas.len(), 2);
    assert_eq!(schemas[0].name, "search");
    assert_eq!(schemas[1].name, "calculator");
}

#[test]
fn register_duplicate_replaces() {
    let r = registry();
    assert_eq!(r.get("search"), Some(SEARCH_AGAIN));
    assert_eq!(r.tools(), vec![SEARCH_AGAIN, CALCULATOR]);
}

#[test]
fn get_and_remove_by_name() {
    let mut r = registry();
    assert_eq!(r.get("nope"), None);
    assert!(r.remove("search"));
    assert!(!r.remove("search"));
    assert_eq!(r.names(), vec!["calculator"]);
}

#[test]
fn cloned_registry_is_independent() {
    let mut r = registry();
    let copy = r.clone();
    r.remove("search");
    assert_eq!(copy.names(), vec!["search", "calculator"]);
    assert_eq!(copy.get("search"), Some(SEARCH_AGAIN));
}

#[test]
fn call_succeeds() {
    let (tool, arguments) = registry().prepare_call("calculator", "{}").unwrap();
    assert_eq!(tool, CALCULATOR);
    assert_eq!(arguments, Json::object(JsonMap::new()));
    let result =
        ToolRegistry::finish_call("calculator", CallOutcome::Returned(output("calculator")));
    assert_eq!(result.unwrap().message(), "calculator");
}

#[test]
fn call_unknown_tool_returns_not_found() {
    let err = registry().prepare_call("nope", "{}").unwrap_err();
    assert!(matches!(&err, RegistryError::NotFound(name) if name == "nope"));
    assert_eq!(err.message(), "tool not found: nope");
}

#[test]
fn call_invalid_json_returns_invalid_arguments() {
    let err = registry()
        .prepare_call("calculator", "not-json")
        .unwrap_err();
    assert!(matches!(err, RegistryError::InvalidArguments(_)));
    assert!(err.message().starts_with("invalid arguments:"));
}

#[test]
fn call_structural_error_returns_invalid_arguments_not_execution() {
    let outcome = CallOutcome::Failed(ToolError::InvalidArguments("missing field `a`".into()));
    let err = ToolRegistry::finish_call("strict", outcome).unwrap_err();
    assert!(matches!(&err, RegistryError::InvalidArguments(msg) if msg == "missing field `a`"));
    assert_eq!(err.message(), "invalid arguments: missing field `a`");
}

#[test]
fn call_execution_error_returns_execution_with_source() {
    let outcome = CallOutcome::Failed(ToolError::Execution("boom".into()));
    let err = ToolRegistry::finish_call("broken", outcome).unwrap_err();
    assert_eq!(
        err.message(),
        "tool error: broken failed: execution failed: boom"
    );
    assert!(matches!(
        err,
        RegistryError::Execution { source, .. } if source.message() == "execution failed: boom"
    ));
}

#[test]
fn tool_panic_is_captured_as_execution_error() {
    let outcome = CallOutcome::Panicked(Some("boom".into()));
    let err = ToolRegistry::finish_call("panic", outcome).unwrap_err();
    assert!(
        matches!(err, RegistryError::Execution { name, source: ToolError::Execution(msg) }
            if name == "panic" && msg.contains("panicked") && msg.contains("boom"))
    );
}

#[test]
fn panic_messages_are_cut() {
    assert_eq!(panic_message(Some(&"é".repeat(501))), "é".repeat(500));
    assert_eq!(panic_message(None), "unknown panic");
}

#[test]
fn retain_removes_by_prefix_in_registration_order() {
    let mut r = ToolRegistry::new();
    r.register("fs__read".to_string(), 1)
        .register("fs__write".to_string(), 2)
        .register("calc".to_string(), 3);
    let removed = r.retain(|name| !name.starts_with("fs__"));
    assert_eq!(removed, ["fs__read", "fs__write"]);
    assert_eq!(r.names(), ["calc"]);
}

#[test]
fn retain_asks_for_each_name_once_and_in_order() {
    let mut r = registry();
    let mut asked = Vec::new();
    let removed = r.retain(|name| {
        asked.push(name.to_string());
        asked.len() == 1
    });
    assert_eq!(asked, ["search", "calculator"]);
    assert_eq!(removed, ["calculator"]);
    assert_eq!(r.names(), ["search"]);
}

#[test]
fn retain_keep_all_returns_empty() {
    let mut r = registry();
    assert!(r.retain(|_| true).is_empty());
    assert_eq!(r.names(), ["search", "calculator"]);
}

#[test]
fn subset_keeps_registration_order() {
    let Ok(sub) = registry().subset(&["calculator", "search"]) else {
        panic!("all names are registered");
    };
    assert_eq!(sub.names(), vec!["search", "calculator"]);
}

#[test]
fn subset_duplicate_name_takes_latest() {
    let Ok(sub) = registry().subset(&["search"]) else {
        panic!("the name is registered");
    };
    assert_eq!(sub.get("search"), Some(SEARCH_AGAIN));
}

#[test]
fn subset_missing_names_error_with_list() {
    let Err(err) = registry().subset(&["search", "nope", "calculator", "also-nope"]) else {
        panic!("two names are not registered");
    };
    assert_eq!(err.names(), &["nope", "also-nope"]);
}

#[test]
fn tool_results_compare_with_text() {
    assert!(output("42") == *"42");
    assert!(output("42") != *"43");
}

#[derive(Debug, Clone, PartialEq)]
enum Held {
    Session { user: String },
    Counter(usize),
}

const SESSION: u64 = 1;
const COUNTER: u64 = 2;

fn alice() -> Held {
    Held::Session {
        user: "alice".into(),
    }
}

#[test]
fn insert_and_get_by_type() {
    let mut store = StateStore::new();
    let state = SharedState::new(&mut store);
    state.insert(&mut store, SESSION, alice());
    state.insert(&mut store, COUNTER, Held::Counter(3));

    assert_eq!(state.get(&store, SESSION), Some(alice()));
    assert_eq!(state.get(&store, COUNTER), Some(Held::Counter(3)));
}

#[test]
fn same_type_insert_overwrites_others_untouched() {
    let mut store = StateStore::new();
    let state = SharedState::new(&mut store);
    state.insert(&mut store, SESSION, alice());
    state.insert(&mut store, COUNTER, Held::Counter(1));
    state.insert(&mut store, COUNTER, Held::Counter(2));

    assert_eq!(state.get(&store, COUNTER), Some(Held::Counter(2)));
    assert_eq!(state.get(&store, SESSION), Some(alice()));
}

#[test]
fn get_missing_type_returns_none() {
    let mut store: StateStore<Held> = StateStore::new();
    let state = SharedState::new(&mut store);
    assert_eq!(state.get(&store, SESSION), None);
}

fn count_up(held: &mut Held) {
    if let Held::Counter(n) = held {
        *n += 1;
    }
}

#[test]
fn with_and_with_mut_lock_inner() {
    let mut store = StateStore::new();
    let state = SharedState::new(&mut store);
    state.insert(&mut store, COUNTER, Held::Counter(1));

    let called = Cell::new(false);
    assert!(!state.with(&store, SESSION, |_| called.set(true)));
    assert!(!called.get());

    assert!(state.with(&store, COUNTER, |c| {
        assert_eq!(*c, Held::Counter(1));
        called.set(true);
    }));
    assert!(called.get());
    assert!(state.with_mut(&mut store, COUNTER, count_up));
    assert!(!state.with_mut(&mut store, SESSION, count_up));
    assert_eq!(state.get(&store, COUNTER), Some(Held::Counter(2)));
}

#[test]
fn clone_shares_same_instance() {
    let mut store = StateStore::new();
    let state = SharedState::new(&mut store);
    let other = SharedState::new(&mut store);
    let tool_side = state.clone();

    state.insert(&mut store, COUNTER, Held::Counter(5));
    assert_eq!(tool_side.get(&store, COUNTER), Some(Held::Counter(5)));
    tool_side.with_mut(&mut store, COUNTER, count_up);
    assert_eq!(state.get(&store, COUNTER), Some(Held::Counter(6)));
    assert_eq!(other.get(&store, COUNTER), None);
}

#[test]
fn user_input_converts_to_message() {
    assert_eq!(UserInput::text("hi").into_message(), Message::user("hi"));
    let blocks = || vec![ContentBlock::Text("hi".into())];
    assert_eq!(
        UserInput::blocks(blocks()).into_message(),
        Message::user_blocks(blocks())
    );
}

#[test]
fn run_request_builders_set_fields() {
    let metadata = || RunMetadata::new().put("trace".to_string(), Json::text("abc".to_string()));
    let temperature = || parse_json("0.1").unwrap();
    let request = RunRequest::text("hi")
        .with_options(ModelOptions {
            temperature: Some(temperature()),
            ..Default::default()
        })
        .with_metadata(metadata());

    assert_eq!(request.input, UserInput::text("hi"));
    assert_eq!(
        request.options.as_ref().and_then(|o| o.temperature.clone()),
        Some(temperature())
    );
    assert_eq!(request.metadata, metadata());
}

#[test]
fn run_context_helpers() {
    let a = RunContext::generated(1_700_000_000, 0);
    let b = RunContext::generated(1_700_000_000, 1);
    assert_ne!(a.run_id, b.run_id);
    assert!(a.run_id.starts_with("run-"));
    assert_eq!(b.run_id, "run-1700000000-1");

    let named = RunContext::new("request-42");
    assert_eq!(named.run_id, "request-42");

    let token = CancellationToken::new();
    let cancelled = RunContext::new("cancel").with_cancellation(token.clone());
    let copy = cancelled.clone();
    assert!(!cancelled.is_cancelled());
    token.cancel();
    assert!(cancelled.is_cancelled());
    assert!(copy.is_cancelled());
    assert!(!named.is_cancelled());

    let now = Moment { nanos: 7 };
    let expired = RunContext::new("expired").with_deadline(now);
    assert!(expired.is_expired(now));
    assert_eq!(expired.remaining(now), Some(Span { nanos: 0 }));
    assert_eq!(
        expired.remaining(Moment { nanos: 2 }),
        Some(Span { nanos: 5 })
    );
    assert_eq!(named.remaining(now), None);
}

#[test]
fn event_records_are_built_up() {
    let record = AgentEventRecord::new(
        "tool",
        EventSeverity::Info,
        Json::null(),
        Moment { nanos: 9 },
    )
    .with_run_id("run-1")
    .with_sequence(4)
    .with_redactions(vec![RedactionRecord {
        field: "arguments".into(),
        reason: "raw".into(),
    }]);
    assert_eq!(record.schema_version, 1);
    assert_eq!(record.run_id.as_deref(), Some("run-1"));
    assert_eq!(record.sequence, Some(4));
    assert_eq!(record.redactions.len(), 1);
}

/// What a receiver does at each event.
fn broadcast_steps(events: Vec<BroadcastEvent>) -> Vec<BroadcastStep> {
    let mut state = BroadcastState::Following;
    let mut steps = vec![];
    for event in events {
        let (next, step) = broadcast_step(state, event);
        state = next;
        steps.push(step);
    }
    steps
}

#[test]
fn lagging_receiver_takes_the_newest_message() {
    let message = |text: &str| BroadcastEvent::Message(text.into());
    let deliver = |text: &str| BroadcastStep::Deliver(text.into());
    assert_eq!(
        broadcast_steps(vec![
            BroadcastEvent::Lagged(2),
            message("m3"),
            message("m4"),
            BroadcastEvent::Empty,
            message("m5"),
        ]),
        vec![
            BroadcastStep::Drain,
            BroadcastStep::Drain,
            BroadcastStep::Drain,
            deliver("m4"),
            deliver("m5"),
        ]
    );
    // More was missed while catching up; then the channel closed.
    assert_eq!(
        broadcast_steps(vec![
            BroadcastEvent::Lagged(2),
            message("m3"),
            BroadcastEvent::Lagged(1),
            message("m5"),
            BroadcastEvent::Closed,
            BroadcastEvent::Closed,
        ]),
        vec![
            BroadcastStep::Drain,
            BroadcastStep::Drain,
            BroadcastStep::Drain,
            BroadcastStep::Drain,
            deliver("m5"),
            BroadcastStep::Fail(ChannelError::Closed),
        ]
    );
    assert_eq!(
        broadcast_steps(vec![BroadcastEvent::Lagged(1), BroadcastEvent::Empty]),
        vec![BroadcastStep::Drain, BroadcastStep::Wait]
    );
    assert_eq!(
        broadcast_steps(vec![BroadcastEvent::Lagged(1), BroadcastEvent::Closed]),
        vec![
            BroadcastStep::Drain,
            BroadcastStep::Fail(ChannelError::Closed)
        ]
    );
}

#[test]
fn messages_come_one_by_one_without_a_lag() {
    let texts = ["m1", "m2", "m3"];
    assert_eq!(
        broadcast_steps(
            texts
                .iter()
                .map(|t| BroadcastEvent::Message(t.to_string()))
                .collect()
        ),
        texts
            .iter()
            .map(|t| BroadcastStep::Deliver(t.to_string()))
            .collect::<Vec<_>>()
    );
}

#[test]
fn channels_report_what_their_queues_say() {
    let following = || BroadcastState::Following;
    assert_eq!(
        broadcast_step(following(), BroadcastEvent::Message("start".into())),
        (following(), BroadcastStep::Deliver("start".into()))
    );
    assert_eq!(
        broadcast_step(following(), BroadcastEvent::Empty),
        (following(), BroadcastStep::Wait)
    );
    assert_eq!(
        broadcast_step(following(), BroadcastEvent::Closed),
        (following(), BroadcastStep::Fail(ChannelError::Closed))
    );
    assert_eq!(watch_notified(true), Ok(()));
    assert_eq!(watch_notified(false), Err(ChannelError::NoReceiver));
    assert_eq!(received(Some("ans".into())), Ok("ans".into()));
    assert_eq!(received(None), Err(ChannelError::Closed));
    assert!(matches!(broadcast_ask(), Err(ChannelError::NotSupported(_))));
    assert!(matches!(watch_ask(), Err(ChannelError::NotSupported(_))));
}

#[test]
fn text_becomes_input_request_and_result() {
    assert_eq!(UserInput::from("hi"), UserInput::Text("hi".to_string()));
    assert_eq!(UserInput::from("hi".to_string()), UserInput::text("hi"));
    let blocks = || vec![ContentBlock::Text("a".to_string()), ContentBlock::Text("b".to_string())];
    assert_eq!(UserInput::from(blocks()), UserInput::Blocks(blocks()));
    assert_eq!(UserInput::from("hi").as_text(), Some("hi"));
    assert_eq!(UserInput::from(blocks()).as_text(), None);
    assert_eq!(RunRequest::from("hi"), RunRequest::text("hi"));
    assert_eq!(RunRequest::from("hi".to_string()), RunRequest::text("hi"));
    assert_eq!(RunRequest::from(UserInput::blocks(blocks())), RunRequest::blocks(blocks()));
    assert_eq!(ToolOutput::from("out"), ToolOutput::text("out".to_string()));
    assert_eq!(ToolOutput::from("out".to_string()), ToolOutput::text("out".to_string()));
    assert_eq!(ToolResult::from("out"), output("out"));
    assert_eq!(ToolResult::from("out".to_string()), output("out"));
    assert_eq!(ToolResult::from(ToolOutput::from("out")), output("out"));
}

#[test]
fn results_compare_with_text() {
    let effect = || {
        let payload = Json::object(JsonMap::new());
        ToolResult::Effect(EffectRequest::new("e1", EffectKind::Command, "run tests", payload))
    };
    assert!(output("42") == "42");
    assert!(output("42") == *"42");
    assert!(output("42") == "42".to_string());
    assert!(output("42") != "43");
    assert!(effect() != "run tests");
    assert_eq!(output("42").output_content(), Some("42"));
    assert_eq!(effect().output_content(), None);
    assert_eq!(output("42").content_or_empty(), "42");
    assert_eq!(effect().content_or_empty(), "");
    assert_eq!(output("42").message(), "42");
    assert_eq!(effect().message(), "effect request: run tests (e1)");
}

#[test]
fn outputs_carry_display_and_artifacts() {
    let artifact = Artifact {
        id: "a1".to_string(),
        label: None,
        mime_type: Some("text/plain".to_string()),
        uri: None,
        metadata: RunMetadata::new(),
    };
    let out = ToolOutput::from("done")
        .with_display(DisplayOutput::new(DisplayFormat::Markdown, "**done**"))
        .with_artifacts(vec![artifact])
        .with_memory_policy(ToolMemoryPolicy::Protected);
    assert_eq!(out.content, "done");
    assert_eq!(out.display.unwrap().content, "**done**");
    assert_eq!(out.artifacts[0].id, "a1");
    assert!(out.memory_policy.is_protected());
    assert!(!ToolMemoryPolicy::default().is_protected());
}

#[test]
fn skill_layers_have_their_own_namespace() {
    let layer = ToolNamespace::skill_layer("review");
    assert_eq!(layer.kind, ToolNamespaceKind::SkillLayer);
    assert_eq!(layer.id, "review");
}

#[test]
fn a_fresh_summary_counts_nothing() {
    let summary = RunSummary::default();
    assert_eq!(summary.rounds, 0);
    assert_eq!(summary.tool_calls, 0);
    assert_eq!(summary.usage.total_tokens, 0);
    assert_eq!(summary.finish_reason, None);
    assert_eq!(summary.latency, Span { nanos: 0 });
    assert_eq!(summary.provider_model, None);
}

#[test]
fn fresh_registries_and_states_are_empty() {
    assert!(ToolRegistry::default().names().is_empty());
    let mut store: StateStore<u32> = StateStore::default();
    assert_eq!(SharedState::new(&mut store).get(&store, 0), None);
}

#[test]
fn run_ids_of_one_process_differ() {
    assert_eq!(RunContext::generated(1700, 0).run_id, "run-1700-0");
    assert_ne!(RunContext::generated(1700, 1).run_id, RunContext::generated(1700, 10).run_id);
}

#[test]
fn time_runs_out_at_the_deadline() {
    let run = RunContext::new("r").with_timeout(Moment { nanos: 100 }, Span { nanos: 50 });
    assert!(!run.is_expired(Moment { nanos: 149 }));
    assert_eq!(run.remaining(Moment { nanos: 149 }), Some(Span { nanos: 1 }));
    assert!(run.is_expired(Moment { nanos: 150 }));
    assert_eq!(run.remaining(Moment { nanos: 150 }), Some(Span { nanos: 0 }));
    assert_eq!(run.remaining(Moment { nanos: 999 }), Some(Span { nanos: 0 }));
    assert_eq!(RunContext::new("r").remaining(Moment { nanos: 999 }), None);
}
