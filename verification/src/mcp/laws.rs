//! What the model sees of a server's tools, what a harness is asked for, and
//! which calls go ahead.

use vstd::prelude::*;

use super::client::{
    connect_fault, list_fault, ConnectOutcome, ConnectStep, ListOutcome, McpClient,
};
use super::content::{
    block_text, block_texts, content_text, content_to_text, finish_call,
    law_content_is_cut_only_when_too_long, on_lines, shown, tool_metadata, McpCallOutcome,
    McpContent, McpDirectTool,
};
use super::payload::{
    effect_payload, executed, law_payload_reads_back, payload_json, CallOutputView,
    ExecutionError, McpCallPayload, McpEffectExecutor, McpEffectTool, PayloadView,
};
use super::policy::{
    policy_of, ClassifiedEffect, HarnessError, McpPermissionBridge, McpServerPolicy, NetworkPolicy,
    PolicyDecision, PolicyView, SandboxPolicy,
};
use super::{
    descriptor_from_tool, digest_text, fnv, hex, hex_digit, schema_digest, tool_display_name,
    McpError, McpErrorView, McpToolDescriptor, McpToolInfo,
};
use crate::effect::{EffectKind, EffectRequest, RiskLevel};
use crate::json::{member, pretty_json, rendered_json, Json, JsonMap, JsonView};
use crate::provider::opt_json;
use crate::text::{byte_len, views};
use crate::text_laws::{
    law_join_separates, lemma_order_concat, lemma_order_within, lemma_whole_stands,
    stand_in_order,
};
use crate::time::{Moment, Span};
use crate::tool::{
    SideEffectLevel, ToolContext, ToolError, ToolResult, ToolSchema, ToolSource, ToolTrustLevel,
};

verus! {

/// What the blocks of a result say: their texts, and the types of what is no
/// text.
pub open spec fn said_by(blocks: Seq<McpContent>) -> Seq<Seq<char>> {
    blocks.map_values(
        |b: McpContent|
            match b {
                McpContent::Text(text) => text@,
                McpContent::Image { mime_type } => mime_type@,
                McpContent::Audio { mime_type } => mime_type@,
                _ => Seq::empty(),
            },
    )
}

proof fn lemma_block(block: McpContent)
    ensures
        stand_in_order(said_by(seq![block]), block_text(block)),
{
    let text = block_text(block);
    let said = said_by(seq![block])[0];
    assert(said_by(seq![block]) =~= seq![said]);
    lemma_whole_stands(said);
    match block {
        McpContent::Text(_) => {},
        McpContent::Image { mime_type } => {
            lemma_order_within(seq![said], "[image: "@, said, "]"@);
        },
        McpContent::Audio { mime_type } => {
            lemma_order_within(seq![said], "[audio: "@, said, "]"@);
        },
        _ => {
            lemma_order_within(seq![said], Seq::empty(), said, text);
            assert(Seq::<char>::empty() + said + text =~= text);
        },
    }
}

proof fn lemma_blocks(blocks: Seq<McpContent>)
    ensures
        stand_in_order(said_by(blocks), on_lines(block_texts(blocks))),
    decreases blocks.len(),
{
    let texts = block_texts(blocks);
    let said = said_by(blocks);
    if blocks.len() > 0 {
        let rest = blocks.drop_last();
        let last = blocks.last();
        let line = block_text(last);
        lemma_blocks(rest);
        lemma_block(last);
        let one = said_by(seq![last]);
        assert(said =~= said_by(rest) + one);
        assert(texts.drop_last() =~= block_texts(rest));
        assert(texts =~= block_texts(rest).push(line));
        law_join_separates(block_texts(rest), line, "\n"@);
        if blocks.len() == 1 {
            assert(said =~= one);
            assert(texts =~= seq![line]);
        } else {
            lemma_order_within(one, "\n"@, line, Seq::empty());
            assert("\n"@ + line + Seq::<char>::empty() =~= "\n"@ + line);
            lemma_order_concat(said_by(rest), on_lines(block_texts(rest)), one, "\n"@ + line);
            assert(on_lines(block_texts(rest)) + ("\n"@ + line) =~= on_lines(texts));
        }
    }
}

/// The model sees a result in full, as long as it is no longer than 1048576
/// bytes: every text word for word, and of images and audio the type, in order.
pub proof fn law_results_are_shown_in_full(blocks: &[McpContent], text: String)
    requires
        call_ensures(content_to_text, (blocks,), text),
        byte_len(on_lines(block_texts(blocks@))) <= 1048576,
    ensures
        stand_in_order(said_by(blocks@), text@),
{
    law_content_is_cut_only_when_too_long(block_texts(blocks@));
    lemma_blocks(blocks@);
}

/// A single text is shown as it is, and blocks are shown on lines of their own.
pub proof fn law_blocks_stand_on_lines(text: String, blocks: Seq<McpContent>, last: McpContent)
    ensures
        on_lines(block_texts(seq![McpContent::Text(text)])) == text@,
        blocks.len() > 0 ==> on_lines(block_texts(blocks.push(last))) == on_lines(
            block_texts(blocks),
        ) + "\n"@ + block_text(last),
{
    assert(block_texts(seq![McpContent::Text(text)]) =~= seq![text@]);
    assert(block_texts(blocks.push(last)) =~= block_texts(blocks).push(block_text(last)));
    law_join_separates(block_texts(blocks), block_text(last), "\n"@);
}

/// A result that is too long is cut where the next part would not fit, and says
/// that it was cut.
pub proof fn law_long_results_are_cut_late(parts: Seq<Seq<char>>)
    ensures
        shown(parts) < parts.len() ==> byte_len(on_lines(parts.take((shown(parts) + 1) as int))) > 1048576
            && content_text(parts) == on_lines(parts.take(shown(parts) as int))
            + "[truncated: result exceeds size limit]"@,
    decreases parts.len(),
{
    if parts.len() > 0 && shown(parts) < parts.len() {
        let rest = parts.drop_last();
        law_long_results_are_cut_late(rest);
        if shown(rest) == parts.len() - 1 {
            assert(parts.take(parts.len() as int) =~= parts);
        } else {
            lemma_shown_bound(rest);
            assert(rest.take((shown(rest) + 1) as int) =~= parts.take((shown(parts) + 1) as int));
        }
    }
}

proof fn lemma_shown_bound(parts: Seq<Seq<char>>)
    ensures
        shown(parts) <= parts.len(),
    decreases parts.len(),
{
    if parts.len() > 0 {
        lemma_shown_bound(parts.drop_last());
    }
}

/// A call that succeeded gives the text of its result; one that the tool
/// reported as an error fails with that text; a structured part follows the
/// text. A call that failed tells why.
pub proof fn law_outcomes_of_direct_calls(
    outcome: McpCallOutcome,
    r: Result<ToolResult, ToolError>,
)
    requires
        call_ensures(finish_call, (outcome,), r),
    ensures
        match outcome {
            McpCallOutcome::Returned { content, structured: None, is_error } => {
                let text = content_text(block_texts(content@));
                if is_error != Some(true) {
                    r matches Ok(ToolResult::Output(output)) && output.content@ == text
                } else {
                    r matches Err(ToolError::Execution(why)) && (text.len() > 0 ==> why@ == text)
                        && (text.len() == 0 ==> why@ == "mcp tool reported an error"@)
                }
            },
            McpCallOutcome::Returned { content, structured: Some(json), is_error } => {
                let text = content_text(block_texts(content@));
                pretty_json(json@) matches Ok(rendered) ==> {
                    let whole = text + "\n[structured]\n"@ + rendered;
                    if is_error != Some(true) {
                        r matches Ok(ToolResult::Output(output)) && output.content@ == whole
                    } else {
                        r matches Err(ToolError::Execution(why)) && why@ == whole
                    }
                }
            },
            McpCallOutcome::Failed(cause) => r matches Err(ToolError::Execution(why)) && why@
                == "mcp tool call failed: "@ + cause@,
            McpCallOutcome::TimedOut => r matches Err(ToolError::Execution(_)),
        },
{
    reveal_strlit("\n[structured]\n");
}

/// The same holds of a call that a harness made.
pub proof fn law_outcomes_of_governed_calls(output: CallOutputView)
    ensures
        output.structured_content is None && !output.is_error ==> executed(output) == Ok::<
            Seq<char>,
            Seq<char>,
        >(output.content),
        output.structured_content is None && output.is_error && output.content.len() > 0
            ==> executed(output) == Err::<Seq<char>, Seq<char>>(output.content),
        output.structured_content is None && output.is_error && output.content.len() == 0
            ==> executed(output) is Err,
        (output.structured_content matches Some(json) && pretty_json(json) is Ok)
            && !output.is_error ==> executed(output) == Ok::<Seq<char>, Seq<char>>(
            output.content + "\n[structured]\n"@ + pretty_json(
                output.structured_content->0,
            )->Ok_0,
        ),
        (output.structured_content matches Some(json) && pretty_json(json) is Ok)
            && output.is_error ==> executed(output) is Err,
{
}

/// A listed tool is described as the server lists it: under its own name on
/// that server, with its description and its schemas.
pub proof fn law_tools_are_described_as_listed(
    server: &str,
    tool: McpToolInfo,
    prefix: bool,
    described: McpToolDescriptor,
)
    requires
        call_ensures(descriptor_from_tool, (server, tool, prefix), described),
    ensures
        described.id@.server == server@,
        described.id@.raw_name == tool.name@,
        prefix ==> described.display_name@ == server@ + "__"@ + tool.name@,
        !prefix ==> described.display_name@ == tool.name@,
        tool.description matches Some(text) ==> described.description@ == text@,
        tool.description is None ==> described.description@.len() == 0,
        described.input_schema@ == JsonView::Object(tool.input_schema@),
        tool.output_schema matches Some(schema) ==> opt_json(described.output_schema) == Some(
            JsonView::Object(schema@),
        ),
        tool.output_schema is None ==> described.output_schema is None,
        described.schema_digest@ == digest_text(
            rendered_json(JsonView::Object(tool.input_schema@)),
        ),
{
    assert(described@.input_schema == described.input_schema@);
    assert(described@.output_schema == opt_json(described.output_schema));
}

/// The name for the model is the server's, two underscores and the tool's own;
/// or the tool's own alone.
pub proof fn law_names_for_the_model(server: &str, raw: &str, prefix: bool, name: String)
    requires
        call_ensures(tool_display_name, (server, raw, prefix), name),
    ensures
        prefix ==> name@ == server@ + "__"@ + raw@,
        !prefix ==> name@ == raw@,
{
}

/// A schema's digest is that of its JSON text.
pub proof fn law_schemas_are_digested_as_text(schema: &Json, digest: String)
    requires
        call_ensures(schema_digest, (schema,), digest),
    ensures
        digest@ == digest_text(rendered_json(schema@)),
{
}

/// The digest is the FNV-1a hash of the text's bytes, in 16 hexadecimal digits.
pub proof fn law_digest_is_a_hash(text: Seq<char>, bytes: Seq<u8>, byte: u8)
    ensures
        digest_text(text) == "fnv64:"@ + hex(fnv(vstd::utf8::encode_utf8(text)) as nat, 16),
        fnv(Seq::<u8>::empty()) == 14695981039346656037,
        fnv(bytes.push(byte)) == ((fnv(bytes) ^ (byte as u64)) as int * 1099511628211)
            % 18446744073709551616,
{
    assert(bytes.push(byte).drop_last() =~= bytes);
}

/// The value of hexadecimal digits.
pub open spec fn hex_value(digits: Seq<char>) -> nat
    decreases digits.len(),
{
    if digits.len() == 0 {
        0
    } else {
        let c = digits.last() as u32;
        let digit = if c < 97 {
            c - 48
        } else {
            c - 87
        };
        (hex_value(digits.drop_last()) * 16 + digit) as nat
    }
}

/// Two hashes of 64 bits have the same digits only if they are the same.
pub proof fn law_hex_digits_tell_hashes_apart(a: u64, b: u64)
    requires
        hex(a as nat, 16) == hex(b as nat, 16),
    ensures
        a == b,
{
    reveal_with_fuel(pow16, 17);
    lemma_hex_value(a as nat, 16);
    lemma_hex_value(b as nat, 16);
    assert(pow16(16) == 18446744073709551616);
    assert(a as nat % pow16(16) == a);
    assert(b as nat % pow16(16) == b);
}

spec fn pow16(width: nat) -> nat
    decreases width,
{
    if width == 0 {
        1
    } else {
        16 * pow16((width - 1) as nat)
    }
}

#[verifier::rlimit(40)]
proof fn lemma_hex_value(n: nat, width: nat)
    ensures
        pow16(width) > 0,
        hex_value(hex(n, width)) == n % pow16(width),
    decreases width,
{
    if width > 0 {
        let rest = (width - 1) as nat;
        lemma_hex_value(n / 16, rest);
        let digits = hex(n, width);
        assert(digits.drop_last() =~= hex(n / 16, rest));
        let p = pow16(rest);
        let d = (n % 16) as int;
        assert(0 <= d < 16);
        let c = hex_digit(d) as u32;
        assert(c == if d < 10 {
            48 + d
        } else {
            87 + d
        });
        assert(n % (16 * p) == 16 * ((n / 16) % p) + n % 16) by (nonlinear_arith)
            requires
                p > 0,
        {
            let q = n / 16;
            let k = q / p;
            assert(q == k * p + q % p);
            assert(n == 16 * q + n % 16);
            assert(n == k * (16 * p) + (16 * (q % p) + n % 16));
            assert(0 <= 16 * (q % p) + n % 16 < 16 * p);
            vstd::arithmetic::div_mod::lemma_fundamental_div_mod_converse(
                n as int,
                (16 * p) as int,
                k as int,
                (16 * (q % p) + n % 16) as int,
            );
        }
    } else {
        assert(n % 1 == 0);
    }
}

/// The model sees a server's tool under its name for the model, with its
/// description and its schema; and the tool counts as external.
pub proof fn law_tools_are_shown_as_described(tool: &McpDirectTool, schema: ToolSchema)
    requires
        call_ensures(McpDirectTool::schema, (tool,), schema),
    ensures
        schema.name@ == tool.descriptor().display_name,
        schema.description@ == tool.descriptor().description,
        schema.parameters@ == tool.descriptor().input_schema,
        schema.policy.side_effects == SideEffectLevel::External,
        schema.policy.timeout == Some(tool.limit()),
{
    assert(schema@.parameters == schema.parameters@);
}

/// A call is made on the server under the tool's own name, with the arguments
/// as they are given.
pub proof fn law_direct_calls_pass_arguments(
    tool: &McpDirectTool,
    arguments: &Json,
    r: Result<(String, JsonMap, Span), ToolError>,
)
    requires
        call_ensures(McpDirectTool::prepare_call, (tool, arguments), r),
    ensures
        match arguments@ {
            JsonView::Object(members) => r matches Ok((name, sent, limit)) && name@
                == tool.descriptor().id.raw_name && sent@ == members && limit == tool.limit(),
            _ => r matches Err(ToolError::InvalidArguments(_)),
        },
{
}

/// A connection is there exactly when the attempt succeeded; any failure tells
/// its cause.
pub proof fn law_failed_connections_tell_why(cause: String, program: String)
    ensures
        connect_fault(ConnectOutcome::Connected) is None,
        connect_fault(ConnectOutcome::TimedOut) is Some,
        connect_fault(ConnectOutcome::Refused(cause)) == Some(cause@),
        connect_fault(ConnectOutcome::SpawnFailed(cause)) == Some("spawn failed: "@ + cause@),
        connect_fault(ConnectOutcome::PreparedFailed { program, cause }) == Some(
            "spawn "@ + program@ + ": "@ + cause@,
        ),
{
}

/// A list of tools is taken whole, up to 512 of them; a failure tells its cause.
pub proof fn law_lists_are_taken_whole(outcome: ListOutcome)
    ensures
        list_fault(outcome) is None <==> (outcome matches ListOutcome::Listed(tools)
            && tools@.len() <= 512),
        outcome matches ListOutcome::Failed(cause) ==> list_fault(outcome) == Some(cause@),
{
}

/// A payload is written with a member for each field, under the field's name.
#[verifier::rlimit(40)]
pub proof fn law_payload_is_written_by_name(p: PayloadView)
    ensures
        ({
            let json = payload_json(p);
            &&& member(json, "server_id"@) == Some(JsonView::Text(p.server_id))
            &&& member(json, "tool_name"@) == Some(JsonView::Text(p.tool_name))
            &&& member(json, "display_name"@) == Some(JsonView::Text(p.display_name))
            &&& member(json, "arguments"@) == Some(p.arguments)
            &&& p.schema_digest matches Some(digest) ==> member(json, "schema_digest"@) == Some(
                JsonView::Text(digest),
            )
            &&& member(json, "metadata"@) == Some(JsonView::Object(p.metadata))
        }),
{
    reveal_strlit("server_id");
    reveal_strlit("tool_name");
    reveal_strlit("display_name");
    reveal_strlit("arguments");
    reveal_strlit("schema_digest");
    reveal_strlit("protocol_version");
    reveal_strlit("input_responses");
    reveal_strlit("request_state");
    reveal_strlit("metadata");
    assert("server_id"@.len() == 9 && "server_id"@[0] == 's');
    assert("tool_name"@.len() == 9 && "tool_name"@[0] == 't');
    assert("display_name"@.len() == 12);
    assert("arguments"@.len() == 9 && "arguments"@[0] == 'a');
    assert("schema_digest"@.len() == 13 && "schema_digest"@[0] == 's');
    assert("protocol_version"@.len() == 16);
    assert("input_responses"@.len() == 15);
    assert("request_state"@.len() == 13 && "request_state"@[0] == 'r');
    assert("metadata"@.len() == 8);
}

/// A call that is turned into an effect comes back from it as it was.
pub proof fn law_effects_carry_calls(
    payload: McpCallPayload,
    id: &str,
    request: EffectRequest,
    back: Result<McpCallPayload, McpError>,
)
    requires
        payload@.input_responses != Some(JsonView::Null),
        call_ensures(
            McpCallPayload::into_effect,
            (payload, id),
            Ok::<EffectRequest, McpError>(request),
        ),
        call_ensures(McpCallPayload::from_effect, (&request,), back),
    ensures
        back matches Ok(read) && read@ == payload@,
        request.id@ == id@,
        request.kind == EffectKind::Mcp,
{
    law_payload_reads_back(id@, payload@);
}

/// A governed tool asks for exactly the call that the model made: on its own
/// server, under its own name, with the arguments as they are, and with the
/// tool's risk.
#[verifier::rlimit(40)]
pub proof fn law_governed_tools_ask_for_the_call(
    tool: &McpEffectTool,
    arguments: Json,
    context: ToolContext<'_>,
    id: &str,
    request: EffectRequest,
)
    requires
        call_ensures(
            McpEffectTool::call,
            (tool, arguments, context, id),
            Ok::<ToolResult, ToolError>(ToolResult::Effect(request)),
        ),
    ensures
        arguments@ is Object,
        request.kind == EffectKind::Mcp,
        request.id@ == id@,
        request.risk == tool@.risk,
        request.timeout == tool@.timeout,
        member(request.payload@, "server_id"@) == Some(
            JsonView::Text(tool@.descriptor.id.server),
        ),
        member(request.payload@, "tool_name"@) == Some(
            JsonView::Text(tool@.descriptor.id.raw_name),
        ),
        member(request.payload@, "arguments"@) == Some(arguments@),
        member(request.payload@, "schema_digest"@) == Some(
            JsonView::Text(tool@.descriptor.schema_digest),
        ),
{
    let p = super::payload::call_payload(
        tool@,
        arguments@,
        context.tool_call_id@,
        context.tool_name@,
    );
    law_payload_is_written_by_name(p);
    assert(request@.payload == request.payload@);
}

/// How grave a risk is.
pub open spec fn is_grave(risk: RiskLevel) -> bool {
    risk == RiskLevel::High || risk == RiskLevel::Critical
}

/// Whether a policy lets a tool be called at all.
pub open spec fn lists(policy: PolicyView, tool: Seq<char>) -> bool {
    &&& !policy.denied_tools.contains(tool)
    &&& policy.allowed_tools matches Some(allowed) ==> allowed.contains(tool)
}

/// A call on a server is denied unless the server's policy is there and lists
/// the tool; it waits for approval where the policy asks for it or the risk is
/// grave; and only otherwise it goes ahead. What is no such call goes ahead.
#[verifier::rlimit(40)]
pub proof fn law_decisions(
    bridge: &McpPermissionBridge,
    effect: &ClassifiedEffect,
    r: Result<PolicyDecision, HarnessError>,
    call: PayloadView,
)
    requires
        super::policy::keyed_by_server(bridge@),
        call_ensures(McpPermissionBridge::evaluate, (bridge, effect), r),
    ensures
        effect.request.kind != EffectKind::Mcp ==> (r matches Ok(d) && d@ is Allow),
        effect.request.kind == EffectKind::Mcp && effect_payload(effect.request@) is Err ==> r is Err,
        effect_payload(effect.request@) == Ok::<PayloadView, McpErrorView>(call) ==> {
            let known = bridge@.contains_key(call.server_id);
            let policy = bridge@[call.server_id];
            let grave = is_grave(effect.effective_risk) || is_grave(policy.default_risk);
            &&& r is Ok
            &&& r->Ok_0@ is Deny <==> !known || !lists(policy, call.tool_name)
            &&& r->Ok_0@ is RequireApproval <==> known && lists(policy, call.tool_name) && (
            policy.require_approval || grave)
            &&& r->Ok_0@ is Allow <==> known && lists(policy, call.tool_name)
                && !policy.require_approval && !grave
        },
{
    if effect_payload(effect.request@) == Ok::<PayloadView, McpErrorView>(call) {
        assert(effect.request@.kind == EffectKind::Mcp);
        if !bridge@.contains_key(call.server_id) {
            assert(policy_of(bridge@, call.server_id).allowed_tools == Some(
                Seq::<Seq<char>>::empty(),
            ));
        }
    }
}

/// A server's tools are offered as it lists them: one for each, in its order,
/// under its own name there, with its description and its schema.
pub proof fn law_listed_tools_are_offered(
    client: &McpClient,
    listed: Vec<McpToolInfo>,
    now: Moment,
    tools: Vec<McpDirectTool>,
    governed: Vec<McpEffectTool>,
    i: int,
)
    requires
        call_ensures(
            McpClient::tools,
            (client, ListOutcome::Listed(listed), now),
            Ok::<Vec<McpDirectTool>, McpError>(tools),
        ),
        call_ensures(
            McpClient::effect_tools,
            (client, ListOutcome::Listed(listed), now),
            Ok::<Vec<McpEffectTool>, McpError>(governed),
        ),
    ensures
        tools@.len() == listed@.len(),
        governed@.len() == listed@.len(),
        0 <= i < listed@.len() ==> {
            let tool = tools@[i].descriptor();
            &&& tool == governed@[i]@.descriptor
            &&& tool.id.raw_name == listed@[i].name@
            &&& tool.id.server == client@.server_name
            &&& tool.input_schema == JsonView::Object(listed@[i].input_schema@)
            &&& listed@[i].description matches Some(text) ==> tool.description == text@
            &&& client@.prefix ==> tool.display_name == client@.server_name + "__"@
                + listed@[i].name@
            &&& !client@.prefix ==> tool.display_name == listed@[i].name@
            &&& tools@[i].limit() == client@.call_timeout
            &&& governed@[i]@.risk == RiskLevel::Medium
        },
{
    if 0 <= i < listed@.len() {
        assert(tools@[i].descriptor() == super::described(
            client@.server_name,
            listed@[i]@,
            client@.prefix,
        ));
        assert(governed@[i]@.descriptor == tools@[i].descriptor());
    }
}

/// Connecting starts the program that was given, with its arguments, or dials
/// the given address; where a connection is there, nothing is done.
pub proof fn law_connecting_goes_where_it_was_told(
    server: &str,
    program: &str,
    args: Vec<String>,
    url: &str,
    started: McpClient,
    dialled: McpClient,
    step: ConnectStep,
)
    requires
        call_ensures(McpClient::from_command, (server, program, args), started),
        call_ensures(McpClient::from_url, (server, url), dialled),
    ensures
        forall|client: &mut McpClient| #[trigger]
            call_ensures(McpClient::connect, (client,), step) ==> {
                &&& client@ == started@ ==> (step matches ConnectStep::Spawn {
                    program: p,
                    args: a,
                } && p@ == program@ && views(a@) == views(args@))
                &&& client@ == dialled@ ==> (step matches ConnectStep::Dial { url: u } && u@ == url@)
                &&& client@.connected ==> step == ConnectStep::Connected
            },
{
}

/// The sentence for an error tells the server, the tool and the cause.
#[verifier::rlimit(40)]
pub proof fn law_server_errors_tell_why(error: &McpError, text: String)
    requires
        call_ensures(McpError::message, (error,), text),
    ensures
        match error@ {
            McpErrorView::Connect { server, message } => stand_in_order(
                seq![server, message],
                text@,
            ),
            McpErrorView::ListTools { server, message } => stand_in_order(
                seq![server, message],
                text@,
            ),
            McpErrorView::InvalidPayload(message) => stand_in_order(seq![message], text@),
            McpErrorView::CallTool { server, tool, message } => stand_in_order(
                seq![server, tool, message],
                text@,
            ),
        },
{
    match error@ {
        McpErrorView::Connect { server, message } => {
            lemma_two("mcp connect failed (server "@, server, "): "@, message);
        },
        McpErrorView::ListTools { server, message } => {
            lemma_two("mcp list tools failed (server "@, server, "): "@, message);
        },
        McpErrorView::InvalidPayload(message) => {
            lemma_whole_stands(message);
            lemma_order_within(seq![message], "invalid mcp payload: "@, message, Seq::empty());
            assert("invalid mcp payload: "@ + message + Seq::<char>::empty() =~= text@);
        },
        McpErrorView::CallTool { server, tool, message } => {
            let head = "mcp tool call failed (server "@;
            lemma_two(head, server, ", tool "@, tool);
            lemma_whole_stands(message);
            lemma_order_within(seq![message], "): "@, message, Seq::empty());
            lemma_order_concat(
                seq![server, tool],
                head + server + ", tool "@ + tool,
                seq![message],
                "): "@ + message + Seq::<char>::empty(),
            );
            assert(seq![server, tool] + seq![message] =~= seq![server, tool, message]);
            assert(head + server + ", tool "@ + tool + ("): "@ + message + Seq::<char>::empty())
                =~= text@);
        },
    }
}

proof fn lemma_two(head: Seq<char>, a: Seq<char>, middle: Seq<char>, b: Seq<char>)
    ensures
        stand_in_order(seq![a, b], head + a + middle + b),
{
    lemma_whole_stands(a);
    lemma_whole_stands(b);
    lemma_order_within(seq![a], head, a, middle);
    lemma_order_concat(seq![a], head + a + middle, seq![b], b);
    assert(seq![a] + seq![b] =~= seq![a, b]);
}

/// The metadata of a server's tool tells the server, the tool's name there and
/// the digest of its schema, beside what was there.
pub proof fn law_tool_metadata(
    base: Map<Seq<char>, JsonView>,
    server: Seq<char>,
    raw_name: Seq<char>,
    digest: Seq<char>,
    key: Seq<char>,
)
    ensures
        ({
            let json = JsonView::Object(tool_metadata(base, server, raw_name, digest));
            &&& member(json, "mcp_server_id"@) == Some(JsonView::Text(server))
            &&& member(json, "mcp_raw_tool_name"@) == Some(JsonView::Text(raw_name))
            &&& member(json, "mcp_schema_digest"@) == Some(JsonView::Text(digest))
            &&& key != "mcp_server_id"@ && key != "mcp_raw_tool_name"@ && key
                != "mcp_schema_digest"@ ==> member(json, key) == member(
                JsonView::Object(base),
                key,
            )
        }),
{
    reveal_strlit("mcp_server_id");
    reveal_strlit("mcp_raw_tool_name");
    reveal_strlit("mcp_schema_digest");
    assert("mcp_server_id"@.len() == 13);
    assert("mcp_raw_tool_name"@.len() == 17 && "mcp_raw_tool_name"@[4] == 'r');
    assert("mcp_schema_digest"@.len() == 17 && "mcp_schema_digest"@[4] == 's');
}

/// A tool is registered under its server, with its name there and its name for
/// the model.
pub proof fn law_tool_sources(
    tool: &McpToolDescriptor,
    trust: ToolTrustLevel,
    source: ToolSource,
)
    requires
        call_ensures(McpToolDescriptor::source, (tool, trust), source),
    ensures
        source.namespace.kind@ is McpServer,
        source.namespace.id@ == tool.id@.server,
        source.raw_name@ == tool.id@.raw_name,
        source.display_name@ == tool.display_name@,
        source.trust == trust,
{
    assert(source@.namespace == source.namespace@);
    assert(source@.raw_name == source.raw_name@);
}

/// A call that a harness makes may take as long as the policy says, or 60
/// seconds; it is the one that the effect asks for.
pub proof fn law_governed_calls_are_limited<C>(
    executor: &McpEffectExecutor<C>,
    request: &EffectRequest,
    timeout: Option<Span>,
    payload: McpCallPayload,
    limit: Span,
)
    requires
        call_ensures(
            McpEffectExecutor::<C>::prepare,
            (executor, request, timeout),
            Ok::<(McpCallPayload, Span), ExecutionError>((payload, limit)),
        ),
    ensures
        timeout matches Some(named) ==> limit == named,
        timeout is None ==> limit.nanos == 60_000_000_000,
        effect_payload(request@) == Ok::<PayloadView, McpErrorView>(payload@),
{
}

/// A new client waits 10 seconds for a connection and for a list, and 60 for a
/// call, and names tools with their server.
pub proof fn law_client_limits(server: &str, url: &str, client: McpClient)
    requires
        call_ensures(McpClient::from_url, (server, url), client),
    ensures
        client@.server_name == server@,
        client@.connect_timeout.nanos == 10_000_000_000,
        client@.list_timeout.nanos == 10_000_000_000,
        client@.call_timeout.nanos == 60_000_000_000,
        client@.prefix,
        !client@.connected,
{
}

/// A policy that asks for approval lists every tool of its server, and none may
/// be called without; one that denies lists none.
pub proof fn law_ready_made_policies(
    server: &str,
    approving: McpServerPolicy,
    denying: McpServerPolicy,
    tool: Seq<char>,
)
    requires
        call_ensures(McpServerPolicy::requiring_approval, (server,), approving),
        call_ensures(McpServerPolicy::deny_all, (server,), denying),
    ensures
        approving@.server_id == server@ && denying@.server_id == server@,
        lists(approving@, tool) && approving@.require_approval,
        !lists(denying@, tool),
        approving@.network == NetworkPolicy::Deny && approving@.sandbox == SandboxPolicy::ReadOnly,
{
    assert(!Seq::<Seq<char>>::empty().contains(tool));
}

} // verus!
