//! Calls on a server that a harness performs: how they are asked for, read
//! back and answered.

use vstd::prelude::*;

use super::content::{
    full_text, full_text_of, not_an_object, report, reported, tool_metadata, tool_metadata_of,
};
use super::{
    server_source, McpError, McpErrorView, McpServerId, McpToolDescriptor, McpToolDescriptorView,
    McpToolId,
};
use crate::effect::{
    DisplayFormat, DisplayOutput, DisplayView, EffectKind, EffectRequest, EffectRequestView,
    RiskLevel,
};
use crate::json::{json_views, member, Json, JsonMap, JsonView};
use crate::provider::opt_json;
use crate::record::{
    field_views, items_fault, members_fault, missing_fault, opt_text_at, opt_text_of, part,
    part_of, present, record_fault, record_fault_of, text_at, text_of, Shape,
};
use crate::text::{concat, concat3, opt_view};
use crate::time::Span;
use crate::tool::{
    SideEffectLevel, ToolContext, ToolError, ToolPolicy, ToolResult, ToolSchema, ToolSchemaView,
    ToolSource, ToolTrustLevel,
};

verus! {

/// A call on a server's tool, as an effect carries it.
#[derive(Debug, PartialEq)]
pub struct McpCallPayload {
    /// The server, by the id that the host gave it.
    pub server_id: McpServerId,
    /// The tool's name on the server.
    pub tool_name: String,
    /// The tool's name for the model.
    pub display_name: String,
    pub arguments: Json,
    /// The digest of the schema that the call was made for.
    pub schema_digest: Option<String>,
    pub protocol_version: Option<String>,
    pub input_responses: Option<Json>,
    pub request_state: Option<String>,
    pub metadata: JsonMap,
}

#[verifier::ext_equal]
pub struct PayloadView {
    pub server_id: Seq<char>,
    pub tool_name: Seq<char>,
    pub display_name: Seq<char>,
    pub arguments: JsonView,
    pub schema_digest: Option<Seq<char>>,
    pub protocol_version: Option<Seq<char>>,
    pub input_responses: Option<JsonView>,
    pub request_state: Option<Seq<char>>,
    pub metadata: Map<Seq<char>, JsonView>,
}

impl View for McpCallPayload {
    type V = PayloadView;

    open spec fn view(&self) -> PayloadView {
        PayloadView {
            server_id: self.server_id@,
            tool_name: self.tool_name@,
            display_name: self.display_name@,
            arguments: self.arguments@,
            schema_digest: opt_view(self.schema_digest),
            protocol_version: opt_view(self.protocol_version),
            input_responses: opt_json(self.input_responses),
            request_state: opt_view(self.request_state),
            metadata: self.metadata@,
        }
    }
}

/// A text, or `null` where there is none.
pub open spec fn text_or_null(text: Option<Seq<char>>) -> JsonView {
    match text {
        Some(text) => JsonView::Text(text),
        None => JsonView::Null,
    }
}

/// A value, or `null` where there is none.
pub open spec fn json_or_null(json: Option<JsonView>) -> JsonView {
    match json {
        Some(json) => json,
        None => JsonView::Null,
    }
}

/// The payload as JSON: an object with a member for each field.
pub open spec fn payload_json(p: PayloadView) -> JsonView {
    JsonView::Object(
        Map::<Seq<char>, JsonView>::empty().insert("server_id"@, JsonView::Text(p.server_id)).insert(
            "tool_name"@,
            JsonView::Text(p.tool_name),
        ).insert("display_name"@, JsonView::Text(p.display_name)).insert(
            "arguments"@,
            p.arguments,
        ).insert("schema_digest"@, text_or_null(p.schema_digest)).insert(
            "protocol_version"@,
            text_or_null(p.protocol_version),
        ).insert("input_responses"@, json_or_null(p.input_responses)).insert(
            "request_state"@,
            text_or_null(p.request_state),
        ).insert("metadata"@, JsonView::Object(p.metadata)),
    )
}

/// Whether a value has a payload's shape: an object, or an array with a value
/// for each field.
pub open spec fn payload_shaped(json: JsonView) -> bool {
    match json {
        JsonView::Object(_) => true,
        JsonView::Array(items) => items.len() == 9,
        _ => false,
    }
}

/// The payload that a value holds.
pub open spec fn read_payload(json: JsonView) -> Option<PayloadView> {
    if !payload_shaped(json) {
        None
    } else {
        match (
            text_at(json, 0, "server_id"@),
            text_at(json, 1, "tool_name"@),
            text_at(json, 2, "display_name"@),
            part(json, 3, "arguments"@),
            opt_text_at(json, 4, "schema_digest"@),
            opt_text_at(json, 5, "protocol_version"@),
            opt_text_at(json, 7, "request_state"@),
            part(json, 8, "metadata"@),
        ) {
            (
                Some(server_id),
                Some(tool_name),
                Some(display_name),
                Some(arguments),
                Some(schema_digest),
                Some(protocol_version),
                Some(request_state),
                Some(JsonView::Object(metadata)),
            ) => Some(
                PayloadView {
                    server_id,
                    tool_name,
                    display_name,
                    arguments,
                    schema_digest,
                    protocol_version,
                    input_responses: present(part(json, 6, "input_responses"@)),
                    request_state,
                    metadata,
                },
            ),
            _ => None,
        }
    }
}

/// A payload's fields.
pub open spec fn payload_fields() -> Seq<(Seq<char>, Shape)> {
    seq![
        ("server_id"@, Shape::Text),
        ("tool_name"@, Shape::Text),
        ("display_name"@, Shape::Text),
        ("arguments"@, Shape::Value),
        ("schema_digest"@, Shape::OptionalText),
        ("protocol_version"@, Shape::OptionalText),
        ("input_responses"@, Shape::OptionalValue),
        ("request_state"@, Shape::OptionalText),
        ("metadata"@, Shape::Members),
    ]
}

/// A payload's fields in the order of their names.
pub open spec fn payload_fields_by_name() -> Seq<(Seq<char>, Shape)> {
    seq![
        ("arguments"@, Shape::Value),
        ("display_name"@, Shape::Text),
        ("input_responses"@, Shape::OptionalValue),
        ("metadata"@, Shape::Members),
        ("protocol_version"@, Shape::OptionalText),
        ("request_state"@, Shape::OptionalText),
        ("schema_digest"@, Shape::OptionalText),
        ("server_id"@, Shape::Text),
        ("tool_name"@, Shape::Text),
    ]
}

/// What is wrong with a value that has to be a payload.
pub open spec fn payload_fault(json: JsonView) -> Option<Seq<char>> {
    record_fault("McpCallPayload"@, payload_fields(), payload_fields_by_name(), json)
}

/// A value holds a payload exactly when nothing is wrong with it.
pub proof fn law_payload_or_fault(json: JsonView)
    ensures
        read_payload(json) is None <==> payload_fault(json) is Some,
{
    let fields = payload_fields();
    let by_name = payload_fields_by_name();
    match json {
        JsonView::Array(items) => {
            reveal_with_fuel(items_fault, 10);
            assert(items_fault("McpCallPayload"@, fields, items, 0) == payload_fault(json));
        },
        JsonView::Object(_) => {
            reveal_with_fuel(members_fault, 10);
            reveal_with_fuel(missing_fault, 10);
            assert(members_fault(by_name, json, 0) is Some || missing_fault(fields, json, 0)
                == payload_fault(json));
        },
        _ => {},
    }
}

/// The effect that asks for a call.
pub open spec fn payload_effect(id: Seq<char>, p: PayloadView) -> EffectRequestView {
    EffectRequestView {
        id,
        kind: EffectKind::Mcp,
        description: "call MCP tool "@ + p.tool_name + " on server "@ + p.server_id,
        payload: payload_json(p),
        risk: RiskLevel::Medium,
        timeout: None,
        tool_call_id: None,
        tool_name: None,
        metadata: p.metadata,
    }
}

/// The payload in an effect, or what is wrong with the effect.
pub open spec fn effect_payload(request: EffectRequestView) -> Result<PayloadView, McpErrorView> {
    if request.kind != EffectKind::Mcp {
        Err(
            McpErrorView::InvalidPayload(
                "expected EffectKind::Mcp, got "@ + request.kind.label(),
            ),
        )
    } else {
        match read_payload(request.payload) {
            Some(payload) => Ok(payload),
            None => Err(McpErrorView::InvalidPayload(payload_fault(request.payload)->0)),
        }
    }
}

fn text_json(text: &Option<String>) -> (r: Json)
    ensures
        r@ == text_or_null(opt_view(*text)),
{
    match text {
        Some(text) => Json::text(text.clone()),
        None => Json::null(),
    }
}

fn shaped(json: &Json) -> (r: bool)
    ensures
        r == payload_shaped(json@),
{
    match json.as_array() {
        Some(items) => {
            assert(json_views(items@).len() == items@.len());
            items.len() == 9
        },
        None => json.as_object().is_some(),
    }
}

/// What is wrong with a value that holds no payload.
fn payload_fault_of(json: &Json) -> (r: String)
    requires
        read_payload(json@) is None,
    ensures
        payload_fault(json@) == Some(r@),
{
    let fields = [
        ("server_id", Shape::Text),
        ("tool_name", Shape::Text),
        ("display_name", Shape::Text),
        ("arguments", Shape::Value),
        ("schema_digest", Shape::OptionalText),
        ("protocol_version", Shape::OptionalText),
        ("input_responses", Shape::OptionalValue),
        ("request_state", Shape::OptionalText),
        ("metadata", Shape::Members),
    ];
    let by_name = [
        ("arguments", Shape::Value),
        ("display_name", Shape::Text),
        ("input_responses", Shape::OptionalValue),
        ("metadata", Shape::Members),
        ("protocol_version", Shape::OptionalText),
        ("request_state", Shape::OptionalText),
        ("schema_digest", Shape::OptionalText),
        ("server_id", Shape::Text),
        ("tool_name", Shape::Text),
    ];
    assert(field_views(fields@) =~= payload_fields());
    assert(field_views(by_name@) =~= payload_fields_by_name());
    proof {
        law_payload_or_fault(json@);
    }
    match record_fault_of("McpCallPayload", &fields, &by_name, json) {
        Some(fault) => fault,
        None => String::new(),
    }
}

/// The payload that a value holds, unless its shape is wrong.
pub fn payload_of_json(json: &Json) -> (r: Option<McpCallPayload>)
    ensures
        match r {
            Some(payload) => read_payload(json@) == Some(payload@),
            None => read_payload(json@) is None,
        },
{
    if !shaped(json) {
        return None;
    }
    let server_id = text_of(json, 0, "server_id")?;
    let tool_name = text_of(json, 1, "tool_name")?;
    let display_name = text_of(json, 2, "display_name")?;
    let arguments = part_of(json, 3, "arguments")?.clone();
    let schema_digest = opt_text_of(json, 4, "schema_digest")?;
    let protocol_version = opt_text_of(json, 5, "protocol_version")?;
    let input_responses: Option<Json> = match part_of(json, 6, "input_responses") {
        Some(value) => if value.is_null() {
            None
        } else {
            Some(value.clone())
        },
        None => None,
    };
    let request_state = opt_text_of(json, 7, "request_state")?;
    let metadata = part_of(json, 8, "metadata")?.as_object()?.clone();
    Some(
        McpCallPayload {
            server_id: McpServerId::new(server_id.as_str()),
            tool_name,
            display_name,
            arguments,
            schema_digest,
            protocol_version,
            input_responses,
            request_state,
            metadata,
        },
    )
}

impl McpCallPayload {
    /// A call with these arguments and nothing else.
    pub fn new(id: McpToolId, display_name: &str, arguments: Json) -> (r: McpCallPayload)
        ensures
            r@ == (PayloadView {
                server_id: id@.server,
                tool_name: id@.raw_name,
                display_name: display_name@,
                arguments: arguments@,
                schema_digest: None,
                protocol_version: None,
                input_responses: None,
                request_state: None,
                metadata: Map::empty(),
            }),
    {
        McpCallPayload {
            server_id: id.server,
            tool_name: id.raw_name,
            display_name: display_name.to_owned(),
            arguments,
            schema_digest: None,
            protocol_version: None,
            input_responses: None,
            request_state: None,
            metadata: JsonMap::new(),
        }
    }

    pub fn with_schema_digest(self, digest: &str) -> (r: McpCallPayload)
        ensures
            r@ == (PayloadView { schema_digest: Some(digest@), ..self@ }),
    {
        let mut r = self;
        r.schema_digest = Some(digest.to_owned());
        r
    }

    pub fn with_metadata(self, metadata: JsonMap) -> (r: McpCallPayload)
        ensures
            r@ == (PayloadView { metadata: metadata@, ..self@ }),
    {
        let mut r = self;
        r.metadata = metadata;
        r
    }

    /// The payload as JSON.
    pub fn to_json(&self) -> (r: Json)
        ensures
            r@ == payload_json(self@),
    {
        let input_responses = match &self.input_responses {
            Some(json) => json.clone(),
            None => Json::null(),
        };
        Json::object(
            JsonMap::new().put(
                "server_id".to_owned(),
                Json::text(self.server_id.as_str().to_owned()),
            ).put("tool_name".to_owned(), Json::text(self.tool_name.clone())).put(
                "display_name".to_owned(),
                Json::text(self.display_name.clone()),
            ).put("arguments".to_owned(), self.arguments.clone()).put(
                "schema_digest".to_owned(),
                text_json(&self.schema_digest),
            ).put("protocol_version".to_owned(), text_json(&self.protocol_version)).put(
                "input_responses".to_owned(),
                input_responses,
            ).put("request_state".to_owned(), text_json(&self.request_state)).put(
                "metadata".to_owned(),
                Json::object(self.metadata.clone()),
            ),
        )
    }

    /// The effect, under the id `id`, that asks for this call.
    pub fn into_effect(self, id: &str) -> (r: Result<EffectRequest, McpError>)
        ensures
            r matches Ok(request) && request@ == payload_effect(id@, self@),
    {
        let head = concat3("call MCP tool ", self.tool_name.as_str(), " on server ");
        let description = concat(head.as_str(), self.server_id.as_str());
        let payload = self.to_json();
        Ok(
            EffectRequest::new(id, EffectKind::Mcp, description.as_str(), payload).with_risk(
                RiskLevel::Medium,
            ).with_metadata(self.metadata),
        )
    }

    /// The call that an effect asks for.
    pub fn from_effect(request: &EffectRequest) -> (r: Result<McpCallPayload, McpError>)
        ensures
            match r {
                Ok(payload) => effect_payload(request@) == Ok::<PayloadView, McpErrorView>(
                    payload@,
                ),
                Err(e) => effect_payload(request@) == Err::<PayloadView, McpErrorView>(e@),
            },
    {
        if request.kind != EffectKind::Mcp {
            return Err(
                McpError::InvalidPayload(
                    concat("expected EffectKind::Mcp, got ", request.kind.name()),
                ),
            );
        }
        proof {
            law_payload_or_fault(request.payload@);
        }
        match payload_of_json(&request.payload) {
            Some(payload) => Ok(payload),
            None => Err(McpError::InvalidPayload(payload_fault_of(&request.payload))),
        }
    }
}

/// A tool that asks a harness to call its server.
#[derive(Debug, PartialEq)]
pub struct McpEffectTool {
    descriptor: McpToolDescriptor,
    risk: RiskLevel,
    timeout: Option<Span>,
}

pub struct EffectToolView {
    pub descriptor: McpToolDescriptorView,
    pub risk: RiskLevel,
    pub timeout: Option<Span>,
}

impl View for McpEffectTool {
    type V = EffectToolView;

    closed spec fn view(&self) -> EffectToolView {
        EffectToolView {
            descriptor: self.descriptor@,
            risk: self.risk,
            timeout: self.timeout,
        }
    }
}

/// The payload of a call of the tool.
pub open spec fn call_payload(
    tool: EffectToolView,
    arguments: JsonView,
    tool_call_id: Seq<char>,
    tool_name: Seq<char>,
) -> PayloadView {
    PayloadView {
        server_id: tool.descriptor.id.server,
        tool_name: tool.descriptor.id.raw_name,
        display_name: tool.descriptor.display_name,
        arguments,
        schema_digest: Some(tool.descriptor.schema_digest),
        protocol_version: None,
        input_responses: None,
        request_state: None,
        metadata: tool.descriptor.metadata.insert(
            "source_tool_call_id"@,
            JsonView::Text(tool_call_id),
        ).insert("source_tool_name"@, JsonView::Text(tool_name)),
    }
}

/// The effect that a call of the tool asks for.
pub open spec fn call_effect(
    tool: EffectToolView,
    arguments: JsonView,
    tool_call_id: Seq<char>,
    tool_name: Seq<char>,
    id: Seq<char>,
) -> EffectRequestView {
    EffectRequestView {
        risk: tool.risk,
        timeout: tool.timeout,
        tool_call_id: Some(tool_call_id),
        tool_name: Some(tool_name),
        ..payload_effect(id, call_payload(tool, arguments, tool_call_id, tool_name))
    }
}

impl McpEffectTool {
    /// A tool of medium risk, without a timeout.
    pub fn new(descriptor: McpToolDescriptor) -> (r: McpEffectTool)
        ensures
            r@ == (EffectToolView {
                descriptor: descriptor@,
                risk: RiskLevel::Medium,
                timeout: None,
            }),
    {
        McpEffectTool { descriptor, risk: RiskLevel::Medium, timeout: None }
    }

    pub fn with_risk(self, risk: RiskLevel) -> (r: McpEffectTool)
        ensures
            r@ == (EffectToolView { risk, ..self@ }),
    {
        let mut r = self;
        r.risk = risk;
        r
    }

    pub fn with_timeout(self, timeout: Span) -> (r: McpEffectTool)
        ensures
            r@ == (EffectToolView { timeout: Some(timeout), ..self@ }),
    {
        let mut r = self;
        r.timeout = Some(timeout);
        r
    }

    /// The source to register the tool with.
    pub fn source(&self) -> (r: ToolSource)
        ensures
            r@ == server_source(
                self@.descriptor.id.server,
                self@.descriptor.id.raw_name,
                self@.descriptor.display_name,
                ToolTrustLevel::External,
                self@.descriptor.metadata,
            ),
    {
        self.descriptor.source(ToolTrustLevel::External)
    }

    /// The tool as the model sees it.
    pub fn schema(&self) -> (r: ToolSchema)
        ensures
            r@ == (ToolSchemaView {
                name: self@.descriptor.display_name,
                description: self@.descriptor.description,
                parameters: self@.descriptor.input_schema,
                policy: ToolPolicy {
                    side_effects: SideEffectLevel::External,
                    risk: self@.risk,
                    timeout: self@.timeout,
                    ..ToolPolicy::plain()
                },
                metadata: tool_metadata(
                    self@.descriptor.metadata,
                    self@.descriptor.id.server,
                    self@.descriptor.id.raw_name,
                    self@.descriptor.schema_digest,
                ),
            }),
    {
        let metadata = tool_metadata_of(
            self.descriptor.metadata.clone(),
            self.descriptor.id.server.as_str(),
            self.descriptor.id.raw_name.as_str(),
            self.descriptor.schema_digest.as_str(),
        );
        let mut policy = ToolPolicy::default();
        policy.side_effects = SideEffectLevel::External;
        policy.risk = self.risk;
        policy.timeout = self.timeout;
        ToolSchema::new(
            self.descriptor.display_name.as_str(),
            self.descriptor.description.as_str(),
            self.descriptor.input_schema.clone(),
        ).with_policy(policy).with_metadata(metadata)
    }

    /// Asks for the call; the server is not contacted. The effect gets the id
    /// `id`.
    pub fn call(&self, arguments: Json, context: ToolContext<'_>, id: &str) -> (r: Result<
        ToolResult,
        ToolError,
    >)
        ensures
            match arguments@ {
                JsonView::Object(_) => r matches Ok(ToolResult::Effect(request)) && request@
                    == call_effect(
                    self@,
                    arguments@,
                    context.tool_call_id@,
                    context.tool_name@,
                    id@,
                ),
                _ => r matches Err(e) && e@ == not_an_object(),
            },
    {
        if arguments.as_object().is_none() {
            return Err(
                ToolError::InvalidArguments("mcp tool arguments must be a JSON object".to_owned()),
            );
        }
        let metadata = self.descriptor.metadata.clone().put(
            "source_tool_call_id".to_owned(),
            Json::text(context.tool_call_id.to_owned()),
        ).put("source_tool_name".to_owned(), Json::text(context.tool_name.to_owned()));
        let payload = McpCallPayload::new(
            self.descriptor.id.clone(),
            self.descriptor.display_name.as_str(),
            arguments,
        ).with_schema_digest(self.descriptor.schema_digest.as_str()).with_metadata(metadata);
        let request = match payload.into_effect(id) {
            Ok(request) => request.with_source(context.tool_call_id, context.tool_name).with_risk(
                self.risk,
            ),
            Err(e) => {
                return Err(ToolError::Execution(e.message()));
            },
        };
        match self.timeout {
            Some(timeout) => Ok(ToolResult::Effect(request.with_timeout(timeout))),
            None => Ok(ToolResult::Effect(request)),
        }
    }
}

/// What the host's client returns for a call.
#[derive(Debug, PartialEq)]
pub struct McpToolCallOutput {
    pub content: String,
    pub structured_content: Option<Json>,
    pub is_error: bool,
    pub metadata: JsonMap,
}

pub struct CallOutputView {
    pub content: Seq<char>,
    pub structured_content: Option<JsonView>,
    pub is_error: bool,
    pub metadata: Map<Seq<char>, JsonView>,
}

impl View for McpToolCallOutput {
    type V = CallOutputView;

    open spec fn view(&self) -> CallOutputView {
        CallOutputView {
            content: self.content@,
            structured_content: opt_json(self.structured_content),
            is_error: self.is_error,
            metadata: self.metadata@,
        }
    }
}

impl McpToolCallOutput {
    pub fn text(content: &str) -> (r: McpToolCallOutput)
        ensures
            r@ == (CallOutputView {
                content: content@,
                structured_content: None,
                is_error: false,
                metadata: Map::empty(),
            }),
    {
        McpToolCallOutput {
            content: content.to_owned(),
            structured_content: None,
            is_error: false,
            metadata: JsonMap::new(),
        }
    }

    /// The same output, as an error that the tool reported.
    pub fn into_error(self) -> (r: McpToolCallOutput)
        ensures
            r@ == (CallOutputView { is_error: true, ..self@ }),
    {
        let mut r = self;
        r.is_error = true;
        r
    }
}

/// Why an effect could not be performed.
#[derive(Debug, PartialEq, Eq)]
pub enum ExecutionError {
    Failed(String),
}

/// What an effect returns.
#[derive(Debug, PartialEq)]
pub struct RawEffectOutput {
    /// The text for the model.
    pub observation_for_model: String,
    pub display: Option<DisplayOutput>,
    pub metadata: JsonMap,
}

/// How long a call may take when the policy does not say.
pub open spec fn default_call_timeout() -> Span {
    Span { nanos: 60_000_000_000 }
}

/// What the harness gets for a client's reply.
pub open spec fn executed(output: CallOutputView) -> Result<Seq<char>, Seq<char>> {
    match full_text(output.content, output.structured_content) {
        Ok(text) => reported(text, output.is_error),
        Err(e) => Err(e),
    }
}

/// Performs calls through a client of the host.
#[derive(Debug, PartialEq, Eq)]
pub struct McpEffectExecutor<C> {
    pub clients: C,
}

impl<C> McpEffectExecutor<C> {
    pub fn new(clients: C) -> (r: McpEffectExecutor<C>)
        ensures
            r.clients == clients,
    {
        McpEffectExecutor { clients }
    }

    /// The call to make, and how long it may take.
    pub fn prepare(&self, request: &EffectRequest, timeout: Option<Span>) -> (r: Result<
        (McpCallPayload, Span),
        ExecutionError,
    >)
        ensures
            match effect_payload(request@) {
                Ok(payload) => r matches Ok((p, limit)) && p@ == payload && limit == match timeout {
                    Some(timeout) => timeout,
                    None => default_call_timeout(),
                },
                Err(e) => r matches Err(ExecutionError::Failed(s)) && s@ == e.text(),
            },
    {
        match McpCallPayload::from_effect(request) {
            Ok(payload) => {
                let limit = match timeout {
                    Some(timeout) => timeout,
                    None => Span::from_secs(60),
                };
                Ok((payload, limit))
            },
            Err(e) => Err(ExecutionError::Failed(e.message())),
        }
    }

    /// What the harness gets for the client's reply.
    pub fn finish(&self, reply: Result<McpToolCallOutput, McpError>) -> (r: Result<
        RawEffectOutput,
        ExecutionError,
    >)
        ensures
            match reply {
                Err(e) => r matches Err(ExecutionError::Failed(s)) && s@ == e@.text(),
                Ok(output) => match executed(output@) {
                    Err(message) => r matches Err(ExecutionError::Failed(s)) && s@ == message,
                    Ok(text) => r matches Ok(raw) && raw.observation_for_model@ == text && (raw.display matches Some(
                        display,
                    ) && display@ == (DisplayView {
                        format: DisplayFormat::PlainText,
                        content: "MCP tool call completed"@,
                    })) && raw.metadata@ == output@.metadata,
                },
            },
    {
        match reply {
            Err(e) => Err(ExecutionError::Failed(e.message())),
            Ok(output) => {
                let text = match full_text_of(output.content, &output.structured_content) {
                    Ok(text) => text,
                    Err(e) => {
                        return Err(ExecutionError::Failed(e));
                    },
                };
                match report(text, output.is_error) {
                    Err(message) => Err(ExecutionError::Failed(message)),
                    Ok(text) => Ok(
                        RawEffectOutput {
                            observation_for_model: text,
                            display: Some(
                                DisplayOutput::new(
                                    DisplayFormat::PlainText,
                                    "MCP tool call completed",
                                ),
                            ),
                            metadata: output.metadata,
                        },
                    ),
                }
            },
        }
    }
}

proof fn lemma_names()
    ensures
        "server_id"@.len() == 9 && "server_id"@[0] == 's',
        "tool_name"@.len() == 9 && "tool_name"@[0] == 't',
        "display_name"@.len() == 12,
        "arguments"@.len() == 9 && "arguments"@[0] == 'a',
        "schema_digest"@.len() == 13 && "schema_digest"@[0] == 's',
        "protocol_version"@.len() == 16,
        "input_responses"@.len() == 15,
        "request_state"@.len() == 13 && "request_state"@[0] == 'r',
        "metadata"@.len() == 8,
{
    reveal_strlit("server_id");
    reveal_strlit("tool_name");
    reveal_strlit("display_name");
    reveal_strlit("arguments");
    reveal_strlit("schema_digest");
    reveal_strlit("protocol_version");
    reveal_strlit("input_responses");
    reveal_strlit("request_state");
    reveal_strlit("metadata");
}

/// A call that is asked for as an effect is read back as it was. (An input
/// response of `null` is read back as none.)
pub proof fn law_payload_reads_back(id: Seq<char>, p: PayloadView)
    requires
        p.input_responses != Some(JsonView::Null),
    ensures
        effect_payload(payload_effect(id, p)) == Ok::<PayloadView, McpErrorView>(p),
{
    lemma_names();
    let json = payload_json(p);
    assert(member(json, "server_id"@) == Some(JsonView::Text(p.server_id)));
    assert(member(json, "tool_name"@) == Some(JsonView::Text(p.tool_name)));
    assert(member(json, "display_name"@) == Some(JsonView::Text(p.display_name)));
    assert(member(json, "arguments"@) == Some(p.arguments));
    assert(member(json, "schema_digest"@) == Some(text_or_null(p.schema_digest)));
    assert(member(json, "protocol_version"@) == Some(text_or_null(p.protocol_version)));
    assert(member(json, "input_responses"@) == Some(json_or_null(p.input_responses)));
    assert(member(json, "request_state"@) == Some(text_or_null(p.request_state)));
    assert(member(json, "metadata"@) == Some(JsonView::Object(p.metadata)));
}

/// A call of a governed tool reaches the harness as the model asked for it,
/// on the tool's own server.
pub proof fn law_governed_call_reaches_the_harness(
    tool: EffectToolView,
    arguments: JsonView,
    tool_call_id: Seq<char>,
    tool_name: Seq<char>,
    id: Seq<char>,
)
    ensures
        effect_payload(call_effect(tool, arguments, tool_call_id, tool_name, id)) == Ok::<
            PayloadView,
            McpErrorView,
        >(call_payload(tool, arguments, tool_call_id, tool_name)),
{
    law_payload_reads_back(id, call_payload(tool, arguments, tool_call_id, tool_name));
}

} // verus!
