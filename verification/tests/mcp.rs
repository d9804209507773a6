use molo::effect::{EffectKind, EffectRequest, RiskLevel};
use molo::json::{parse_json, Json, JsonMap};
use molo::mcp::client::{
    ConnectOutcome, ConnectStep, ListOutcome, McpClient, MAX_MCP_TOOLS,
};
use molo::mcp::content::{
    append_structured, content_to_text, finish_call, report, McpCallOutcome, McpContent,
    McpDirectTool, MAX_TOOL_RESULT_BYTES,
};
use molo::mcp::payload::{
    ExecutionError, McpCallPayload, McpEffectExecutor, McpEffectTool, McpToolCallOutput,
};
use molo::mcp::policy::{
    ClassifiedEffect, HarnessError, McpPermissionBridge, McpServerPolicy, NetworkPolicy,
    PolicyDecision, SandboxPolicy,
};
use molo::mcp::{
    descriptor_from_tool, schema_digest, text_digest, tool_display_name, McpError, McpServerId,
    McpToolId, McpToolInfo,
};
use molo::run::RunContext;
use molo::time::{Moment, Span};
use molo::tool::shared_state::{SharedState, StateStore};
use molo::tool::{
    SideEffectLevel, ToolContext, ToolError, ToolNamespace, ToolResult, ToolTrustLevel,
};

fn json(text: &str) -> Json {
    parse_json(text).unwrap()
}

fn object(text: &str) -> JsonMap {
    json(text).as_object().unwrap().clone()
}

fn echo() -> McpToolInfo {
    McpToolInfo {
        name: "echo".into(),
        description: Some("description".into()),
        input_schema: object(r#"{"type": "object"}"#),
        output_schema: None,
        annotations: None,
    }
}

#[test]
fn display_name_with_prefix_on() {
    assert_eq!(tool_display_name("fs", "read_file", true), "fs__read_file");
}

#[test]
fn display_name_with_prefix_off() {
    assert_eq!(tool_display_name("fs", "read_file", false), "read_file");
}

#[test]
fn content_to_text_joins_text_blocks() {
    let blocks = vec![
        McpContent::Text("first line".into()),
        McpContent::Text("second line".into()),
    ];
    assert_eq!(content_to_text(&blocks), "first line\nsecond line");
}

#[test]
fn content_to_text_placeholders_non_text() {
    let blocks = vec![
        McpContent::Text("take a look at this:".into()),
        McpContent::Image {
            mime_type: "image/png".into(),
        },
        McpContent::Audio {
            mime_type: "audio/wav".into(),
        },
    ];
    assert_eq!(
        content_to_text(&blocks),
        "take a look at this:\n[image: image/png]\n[audio: audio/wav]"
    );
    let others = [
        McpContent::Resource,
        McpContent::ResourceLink,
        McpContent::Other,
    ];
    assert_eq!(
        content_to_text(&others),
        "[resource]\n[resource link]\n[content]"
    );
}

#[test]
fn content_to_text_empty() {
    assert_eq!(content_to_text(&[]), "");
}

#[test]
fn content_to_text_is_cut_at_the_limit() {
    let fits = [McpContent::Text("x".repeat(MAX_TOOL_RESULT_BYTES))];
    assert_eq!(content_to_text(&fits).len(), MAX_TOOL_RESULT_BYTES);
    let over = [
        McpContent::Text("x".repeat(MAX_TOOL_RESULT_BYTES)),
        McpContent::Text(String::new()),
        McpContent::Text("later".into()),
    ];
    let text = content_to_text(&over);
    assert_eq!(text.len(), MAX_TOOL_RESULT_BYTES + 38);
    assert!(text.ends_with("x[truncated: result exceeds size limit]"));
}

#[test]
fn map_tool_keeps_prefix_and_passthrough() {
    let mapped = descriptor_from_tool("fs", echo(), true);
    assert_eq!(mapped.display_name, "fs__echo");
    assert_eq!(mapped.id.raw_name, "echo");
    assert_eq!(mapped.description, "description");
    assert_eq!(mapped.input_schema, json(r#"{"type": "object"}"#));
}

#[test]
fn descriptor_keeps_server_scoped_identity_and_digest() {
    let descriptor = descriptor_from_tool("fake", echo(), true);
    assert_eq!(descriptor.id.server, McpServerId::new("fake"));
    assert_eq!(descriptor.id.raw_name, "echo");
    assert_eq!(descriptor.display_name, "fake__echo");
    assert!(descriptor.schema_digest.starts_with("fnv64:"));
    assert_eq!(
        descriptor.source(ToolTrustLevel::External).namespace,
        ToolNamespace::mcp_server("fake")
    );
}

#[test]
fn digests_are_fnv_of_the_json_text() {
    assert_eq!(text_digest(""), "fnv64:cbf29ce484222325");
    assert_eq!(text_digest("a"), "fnv64:af63dc4c8601ec8c");
    assert_eq!(text_digest("foobar"), "fnv64:85944171f73967e8");
    assert_eq!(
        schema_digest(&json(r#"{ "type": "object" }"#)),
        text_digest(r#"{"type":"object"}"#)
    );
}

fn returned(text: &str, structured: Option<Json>, is_error: Option<bool>) -> McpCallOutcome {
    let content = if text.is_empty() {
        vec![]
    } else {
        vec![McpContent::Text(text.to_string())]
    };
    McpCallOutcome::Returned {
        content,
        structured,
        is_error,
    }
}

#[test]
fn structured_content_is_rendered_not_dropped() {
    let outcome = returned("hello", Some(json(r#"{"answer": 42}"#)), None);
    let text = finish_call(outcome).unwrap().message();
    assert_eq!(text, "hello\n[structured]\n{\n  \"answer\": 42\n}");
    assert_eq!(append_structured("a", "b"), "a\n[structured]\nb");
}

#[test]
fn call_outcomes_become_results() {
    assert_eq!(
        finish_call(returned("hello", None, Some(false)))
            .unwrap()
            .message(),
        "hello"
    );
    assert_eq!(
        finish_call(returned("boom", None, Some(true))),
        Err(ToolError::Execution("boom".into()))
    );
    assert_eq!(
        finish_call(returned("", None, Some(true))),
        Err(ToolError::Execution("mcp tool reported an error".into()))
    );
    assert_eq!(
        finish_call(McpCallOutcome::TimedOut),
        Err(ToolError::Execution("mcp tool call timed out".into()))
    );
    assert_eq!(
        finish_call(McpCallOutcome::Failed("reset".into())),
        Err(ToolError::Execution("mcp tool call failed: reset".into()))
    );
    assert_eq!(report("x".into(), false), Ok("x".into()));
}

#[test]
fn direct_tool_passes_object_arguments_only() {
    let tool = McpDirectTool::new(descriptor_from_tool("fake", echo(), true), Span::from_secs(3));
    let (name, arguments, limit) = tool.prepare_call(&json(r#"{"text": "hi"}"#)).unwrap();
    assert_eq!(name, "echo");
    assert_eq!(arguments, object(r#"{"text": "hi"}"#));
    assert_eq!(limit, Span::from_secs(3));
    assert!(matches!(
        tool.prepare_call(&json("[1, 2]")),
        Err(ToolError::InvalidArguments(_))
    ));
    let schema = tool.schema();
    assert_eq!(schema.name, "fake__echo");
    assert_eq!(schema.policy.side_effects, SideEffectLevel::External);
    assert_eq!(schema.policy.timeout, Some(Span::from_secs(3)));
    assert_eq!(
        schema.metadata.get("mcp_raw_tool_name").unwrap().as_str(),
        Some("echo")
    );
    assert!(schema.metadata.get("mcp_annotations").unwrap().is_null());
    assert_eq!(tool.source().trust, ToolTrustLevel::External);
}

#[test]
fn effect_tool_returns_mcp_effect_without_calling_server() {
    let descriptor = descriptor_from_tool("fake", echo(), true);
    let tool = McpEffectTool::new(descriptor.clone()).with_timeout(Span::from_secs(5));
    let run = RunContext::new("mcp-effect-test");
    let mut store: StateStore<u8> = StateStore::new();
    let state = SharedState::new(&mut store);
    let result = tool
        .call(
            json(r#"{"text": "hello"}"#),
            ToolContext::new(&run, &state, "call-1", "fake__echo"),
            "effect-1",
        )
        .unwrap();

    let ToolResult::Effect(request) = result else {
        panic!("expected effect request");
    };
    assert_eq!(request.kind, EffectKind::Mcp);
    assert_eq!(request.source.tool_call_id.as_deref(), Some("call-1"));
    assert_eq!(request.timeout, Some(Span::from_secs(5)));
    assert_eq!(request.description, "call MCP tool echo on server fake");
    let payload = McpCallPayload::from_effect(&request).unwrap();
    assert_eq!(payload.server_id, descriptor.id.server);
    assert_eq!(payload.tool_name, "echo");
    assert_eq!(payload.display_name, "fake__echo");
    assert_eq!(payload.arguments, json(r#"{"text": "hello"}"#));
    assert_eq!(
        payload.schema_digest.as_deref(),
        Some(descriptor.schema_digest.as_str())
    );

    let refused = tool.call(
        json("3"),
        ToolContext::new(&run, &state, "call-2", "fake__echo"),
        "effect-2",
    );
    assert!(matches!(refused, Err(ToolError::InvalidArguments(_))));
}

fn call_of(server: &str, tool: &str) -> EffectRequest {
    McpCallPayload::new(
        McpToolId::new(server, tool),
        &format!("{server}__{tool}"),
        json(r#"{"text": "hello"}"#),
    )
    .into_effect("effect")
    .unwrap()
}

#[test]
fn payloads_are_read_back_or_refused() {
    let request = call_of("fake", "echo");
    let payload = McpCallPayload::from_effect(&request).unwrap();
    assert_eq!(payload.to_json(), request.payload);

    let mut other = call_of("fake", "echo");
    other.kind = EffectKind::Command;
    assert_eq!(
        McpCallPayload::from_effect(&other).unwrap_err().message(),
        "invalid mcp payload: expected EffectKind::Mcp, got Command"
    );

    let mut broken = call_of("fake", "echo");
    broken.payload = json(r#"{"server_id": "fake"}"#);
    assert!(matches!(
        McpCallPayload::from_effect(&broken),
        Err(McpError::InvalidPayload(_))
    ));

    for (payload, fault) in [
        (r#"{"server_id": "fake"}"#, "missing field `tool_name`"),
        (r#"{}"#, "missing field `server_id`"),
        (
            r#"{"tool_name": 1, "server_id": 2, "metadata": [], "display_name": "d"}"#,
            "invalid type: sequence, expected a map",
        ),
        (
            r#"{"server_id": "s", "tool_name": "t", "display_name": "d", "metadata": {}}"#,
            "missing field `arguments`",
        ),
        (
            r#"{"server_id": "s", "schema_digest": -3}"#,
            "invalid type: integer `-3`, expected a string",
        ),
        (
            r#"["s", "t"]"#,
            "invalid length 2, expected struct McpCallPayload with 9 elements",
        ),
        (
            r#"["s", "t", "d", {}, null, null, null, null, {}, 1]"#,
            "invalid length 10, expected fewer elements in array",
        ),
        (
            r#"["s", false, 3]"#,
            "invalid type: boolean `false`, expected a string",
        ),
        (
            r#"7"#,
            "invalid type: integer `7`, expected struct McpCallPayload",
        ),
    ] {
        let mut broken = call_of("fake", "echo");
        broken.payload = json(payload);
        assert_eq!(
            McpCallPayload::from_effect(&broken),
            Err(McpError::InvalidPayload(fault.into())),
            "{payload}"
        );
    }

    let mut short = call_of("fake", "echo");
    short.payload = json(
        r#"{"server_id": "s", "tool_name": "t", "display_name": "d", "arguments": null, "metadata": {}}"#,
    );
    let payload = McpCallPayload::from_effect(&short).unwrap();
    assert_eq!(payload.schema_digest, None);
    assert!(payload.arguments.is_null());

    let mut listed = call_of("fake", "echo");
    listed.payload = json(r#"["s", "t", "d", {}, null, null, null, null, {}]"#);
    assert_eq!(
        McpCallPayload::from_effect(&listed).unwrap().tool_name,
        "t"
    );
}

#[test]
fn effect_executor_maps_success_and_tool_error() {
    let executor = McpEffectExecutor::new(());
    let request = call_of("fake", "echo");
    let (payload, limit) = executor
        .prepare(&request, Some(Span::from_secs(1)))
        .unwrap();
    assert_eq!(payload.tool_name, "echo");
    assert_eq!(limit, Span::from_secs(1));
    let (_, limit) = executor.prepare(&request, None).unwrap();
    assert_eq!(limit, Span::from_secs(60));

    let raw = executor.finish(Ok(McpToolCallOutput::text("hello"))).unwrap();
    assert_eq!(raw.observation_for_model, "hello");
    assert_eq!(raw.display.unwrap().content, "MCP tool call completed");

    let err = executor
        .finish(Ok(McpToolCallOutput::text("boom").into_error()))
        .unwrap_err();
    assert!(matches!(err, ExecutionError::Failed(message) if message == "boom"));
    let err = executor
        .finish(Err(McpError::CallTool {
            server: "s".into(),
            tool: "t".into(),
            message: "m".into(),
        }))
        .unwrap_err();
    assert!(matches!(
        err,
        ExecutionError::Failed(text) if text == "mcp tool call failed (server s, tool t): m"
    ));
}

fn classified(request: EffectRequest, effective_risk: RiskLevel) -> ClassifiedEffect {
    ClassifiedEffect {
        request,
        requested_risk: RiskLevel::Medium,
        effective_risk,
        reasons: Vec::new(),
        metadata: JsonMap::new(),
    }
}

fn fake_policy() -> McpServerPolicy {
    McpServerPolicy {
        server_id: McpServerId::new("fake"),
        trust: ToolTrustLevel::External,
        allowed_tools: Some(vec!["echo".to_string()]),
        denied_tools: vec!["delete".to_string()],
        default_risk: RiskLevel::Medium,
        require_approval: false,
        network: NetworkPolicy::Deny,
        sandbox: SandboxPolicy::ReadOnly,
    }
}

fn decide(bridge: &McpPermissionBridge, server: &str, tool: &str, risk: RiskLevel) -> PolicyDecision {
    bridge
        .evaluate(&classified(call_of(server, tool), risk))
        .unwrap()
}

#[test]
fn permission_bridge_denies_unknown_and_filters_tools() {
    let bridge = McpPermissionBridge::new().with_server_policy(fake_policy());
    let medium = RiskLevel::Medium;
    assert_eq!(
        decide(&bridge, "fake", "echo", medium),
        PolicyDecision::Allow
    );
    assert_eq!(
        decide(&bridge, "fake", "delete", medium),
        PolicyDecision::Deny {
            reason: "MCP tool denied: delete".into()
        }
    );
    assert_eq!(
        decide(&bridge, "fake", "other", medium),
        PolicyDecision::Deny {
            reason: "MCP tool not allowed: other".into()
        }
    );
    assert_eq!(
        decide(&bridge, "unknown", "echo", medium),
        PolicyDecision::Deny {
            reason: "unknown MCP server: unknown".into()
        }
    );
    assert!(matches!(
        decide(&bridge, "__unknown__", "echo", medium),
        PolicyDecision::Deny { .. }
    ));
}

#[test]
fn permission_bridge_asks_for_approval_of_risky_calls() {
    let bridge = McpPermissionBridge::new().with_server_policy(fake_policy());
    assert_eq!(
        decide(&bridge, "fake", "echo", RiskLevel::High),
        PolicyDecision::RequireApproval {
            reason: "MCP call requires approval: fake::echo".into()
        }
    );
    let risky = McpServerPolicy {
        default_risk: RiskLevel::Critical,
        ..fake_policy()
    };
    let bridge = bridge.with_server_policy(risky);
    assert!(matches!(
        decide(&bridge, "fake", "echo", RiskLevel::Low),
        PolicyDecision::RequireApproval { .. }
    ));
    let bridge = bridge
        .with_server_policy(McpServerPolicy::requiring_approval("ask"))
        .with_server_policy(McpServerPolicy::deny_all("never"));
    assert!(matches!(
        decide(&bridge, "ask", "anything", RiskLevel::Low),
        PolicyDecision::RequireApproval { .. }
    ));
    assert!(matches!(
        decide(&bridge, "never", "anything", RiskLevel::Low),
        PolicyDecision::Deny { .. }
    ));
}

#[test]
fn permission_bridge_leaves_other_effects_alone() {
    let bridge = McpPermissionBridge::default();
    let mut request = call_of("fake", "echo");
    request.kind = EffectKind::Network;
    assert_eq!(
        bridge.evaluate(&classified(request, RiskLevel::Critical)),
        Ok(PolicyDecision::Allow)
    );
    let mut broken = call_of("fake", "echo");
    broken.payload = Json::null();
    assert!(matches!(
        bridge.evaluate(&classified(broken, RiskLevel::Low)),
        Err(HarnessError::Policy(m)) if m.starts_with("invalid MCP payload: ")
    ));
}

#[test]
fn connect_is_idempotent() {
    let mut client = McpClient::from_command("fake", "prog", vec!["-q".into()]);
    assert_eq!(
        client.connect(),
        ConnectStep::Spawn {
            program: "prog".into(),
            args: vec!["-q".into()]
        }
    );
    client.finish_connect(ConnectOutcome::Connected).unwrap();
    assert_eq!(client.connect(), ConnectStep::Connected);
}

#[test]
fn cleanup_then_tools_reconnects() {
    let mut client = McpClient::from_url("fake", "http://x");
    client.connect();
    client.finish_connect(ConnectOutcome::Connected).unwrap();
    client.cleanup();
    assert_eq!(
        client.connect(),
        ConnectStep::Dial {
            url: "http://x".into()
        }
    );
}

#[test]
fn args_spawn_failure_restores_spec_for_retry() {
    let mut client = McpClient::from_command("ghost", "molo-no-such-program-xyz", vec![]);
    for _ in 0..2 {
        assert!(matches!(client.connect(), ConnectStep::Spawn { .. }));
        let err = client
            .finish_connect(ConnectOutcome::SpawnFailed("not found".into()))
            .unwrap_err();
        assert!(
            matches!(&err, McpError::Connect { message, .. } if message.contains("spawn failed"))
        );
    }
}

#[test]
fn configured_command_is_one_shot_and_guides_rebuild() {
    let mut client = McpClient::from_command_configured("fake");
    assert_eq!(client.connect(), ConnectStep::SpawnPrepared);
    client.finish_connect(ConnectOutcome::Connected).unwrap();
    client.cleanup();
    assert!(matches!(
        client.connect(),
        ConnectStep::Fail(McpError::Connect { message, .. })
            if message.contains("create a new McpClient")
    ));
}

#[test]
fn connect_failures_name_the_server() {
    let mut client = McpClient::from_url("nowhere", "http://127.0.0.1:1/mcp");
    client.connect();
    let err = client
        .finish_connect(ConnectOutcome::Refused("refused".into()))
        .unwrap_err();
    assert!(err
        .message()
        .starts_with("mcp connect failed (server nowhere)"));
    let err = client.finish_connect(ConnectOutcome::TimedOut).unwrap_err();
    assert!(err.message().contains("timed out"));
    let err = client
        .finish_connect(ConnectOutcome::PreparedFailed {
            program: "p".into(),
            cause: "c".into(),
        })
        .unwrap_err();
    assert!(err.message().ends_with("spawn p: c"));
}

#[test]
fn tools_are_described_in_the_servers_order() {
    let mut client = McpClient::from_url("fake", "http://x");
    client.with_call_timeout(Span::from_secs(2)).with_name_prefix(false);
    let now = Moment { nanos: 3 };
    let listed = || {
        let mut fail = echo();
        fail.name = "fail".into();
        ListOutcome::Listed(vec![echo(), fail])
    };
    let catalog = client.tool_catalog(listed(), now).unwrap();
    assert_eq!(catalog.fetched_at, now);
    assert_eq!(catalog.tools[1].display_name, "fail");
    let tools = client.tools(listed(), now).unwrap();
    assert_eq!(tools[0].schema().name, "echo");
    assert_eq!(tools[0].schema().policy.timeout, Some(Span::from_secs(2)));
    let effects = client.effect_tools(listed(), now).unwrap();
    assert_eq!(effects[1].schema().name, "fail");
    assert_eq!(effects.len(), 2);
}

#[test]
fn too_many_tools_are_refused() {
    let client = McpClient::from_url("s", "http://x");
    let many = |n: usize| ListOutcome::Listed((0..n).map(|_| echo()).collect());
    assert!(client.list_tools_raw(many(MAX_MCP_TOOLS)).is_ok());
    assert_eq!(
        client.list_tools_raw(many(513)).unwrap_err().message(),
        "mcp list tools failed (server s): server exposes too many tools (513 > 512)"
    );
    for (outcome, text) in [
        (ListOutcome::TimedOut, "list tools timed out"),
        (ListOutcome::NotConnected, "no active connection"),
        (ListOutcome::Failed("x".into()), "x"),
    ] {
        assert!(client
            .list_tools_raw(outcome)
            .unwrap_err()
            .message()
            .ends_with(text));
    }
}

#[test]
fn server_ids_come_from_text() {
    assert_eq!(McpServerId::from("fs"), McpServerId::new("fs"));
    assert_eq!(McpServerId::from("fs".to_string()).as_str(), "fs");
}

#[test]
fn timeouts_are_set_one_by_one() {
    let mut client = McpClient::from_url("s", "http://localhost/mcp");
    let (connect, call) = (client.connect_timeout(), client.call_timeout());
    client.with_list_timeout(Span::from_secs(7));
    assert_eq!(client.list_timeout(), Span::from_secs(7));
    assert_eq!(client.connect_timeout(), connect);
    assert_eq!(client.call_timeout(), call);
}
