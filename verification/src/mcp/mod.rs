//! Tools of MCP servers: how they are found, named and described.

use vstd::prelude::*;

use crate::json::{render_json, rendered_json, Json, JsonMap, JsonView};
use crate::provider::{clone_opt_json, opt_json};
use crate::text::{concat, concat3, opt_view, string_of};
use crate::time::Moment;
use crate::tool::{
    NamespaceKindView, NamespaceView, ToolNamespace, ToolSource, ToolSourceView, ToolTrustLevel,
};
use vstd::std_specs::convert::FromSpecImpl;

pub mod client;
pub mod content;
pub mod laws;
pub mod payload;
pub mod policy;

verus! {

/// The id that the host gives to an MCP server.
#[derive(Debug, PartialEq, Eq)]
pub struct McpServerId(String);

impl View for McpServerId {
    type V = Seq<char>;

    closed spec fn view(&self) -> Seq<char> {
        self.0@
    }
}

impl McpServerId {
    pub fn new(id: &str) -> (r: McpServerId)
        ensures
            r@ == id@,
    {
        McpServerId(id.to_owned())
    }

    pub fn as_str(&self) -> (r: &str)
        ensures
            r@ == self@,
    {
        self.0.as_str()
    }
}

impl Clone for McpServerId {
    fn clone(&self) -> (r: McpServerId)
        ensures
            r@ == self@,
    {
        McpServerId(self.0.clone())
    }
}

impl From<String> for McpServerId {
    fn from(id: String) -> (r: McpServerId)
        ensures
            r@ == id@,
    {
        McpServerId(id)
    }
}

impl FromSpecImpl<String> for McpServerId {
    open spec fn obeys_from_spec() -> bool {
        false
    }

    open spec fn from_spec(id: String) -> McpServerId {
        arbitrary()
    }
}

impl From<&str> for McpServerId {
    fn from(id: &str) -> (r: McpServerId)
        ensures
            r@ == id@,
    {
        McpServerId::new(id)
    }
}

impl FromSpecImpl<&str> for McpServerId {
    open spec fn obeys_from_spec() -> bool {
        false
    }

    open spec fn from_spec(id: &str) -> McpServerId {
        arbitrary()
    }
}

/// A tool of one server.
#[derive(Debug, PartialEq, Eq)]
pub struct McpToolId {
    pub server: McpServerId,
    /// The tool's name on the server.
    pub raw_name: String,
}

pub struct McpToolIdView {
    pub server: Seq<char>,
    pub raw_name: Seq<char>,
}

impl View for McpToolId {
    type V = McpToolIdView;

    open spec fn view(&self) -> McpToolIdView {
        McpToolIdView { server: self.server@, raw_name: self.raw_name@ }
    }
}

impl McpToolId {
    pub fn new(server: &str, raw_name: &str) -> (r: McpToolId)
        ensures
            r@ == (McpToolIdView { server: server@, raw_name: raw_name@ }),
    {
        McpToolId { server: McpServerId::new(server), raw_name: raw_name.to_owned() }
    }
}

impl Clone for McpToolId {
    fn clone(&self) -> (r: McpToolId)
        ensures
            r@ == self@,
    {
        McpToolId { server: self.server.clone(), raw_name: self.raw_name.clone() }
    }
}

/// How long a catalog may be kept.
#[derive(Debug, Clone, Copy, PartialEq, Eq, Structural)]
pub struct McpCacheHint {
    pub ttl_ms: Option<u64>,
}

/// How a tool is executed.
#[derive(Debug, Clone, Copy, PartialEq, Eq, Structural)]
pub enum McpToolMode {
    /// The tool calls the server itself.
    DirectOutput,
    /// The tool asks a harness to call the server.
    GovernedEffect,
}

/// A tool as a server lists it.
#[derive(Debug, PartialEq)]
pub struct McpToolInfo {
    pub name: String,
    pub description: Option<String>,
    pub input_schema: JsonMap,
    pub output_schema: Option<JsonMap>,
    pub annotations: Option<Json>,
}

pub struct McpToolInfoView {
    pub name: Seq<char>,
    pub description: Option<Seq<char>>,
    pub input_schema: Map<Seq<char>, JsonView>,
    pub output_schema: Option<Map<Seq<char>, JsonView>>,
    pub annotations: Option<JsonView>,
}

impl View for McpToolInfo {
    type V = McpToolInfoView;

    open spec fn view(&self) -> McpToolInfoView {
        McpToolInfoView {
            name: self.name@,
            description: opt_view(self.description),
            input_schema: self.input_schema@,
            output_schema: match self.output_schema {
                Some(schema) => Some(schema@),
                None => None,
            },
            annotations: opt_json(self.annotations),
        }
    }
}

pub open spec fn info_views(infos: Seq<McpToolInfo>) -> Seq<McpToolInfoView> {
    infos.map_values(|i: McpToolInfo| i@)
}

/// A tool as the host knows it.
#[derive(Debug, PartialEq)]
pub struct McpToolDescriptor {
    pub id: McpToolId,
    /// The name that the model sees.
    pub display_name: String,
    pub description: String,
    pub input_schema: Json,
    pub output_schema: Option<Json>,
    /// What the server says of the tool; not to be trusted.
    pub annotations: Json,
    /// A digest of the input schema, by which changes are noticed.
    pub schema_digest: String,
    pub cache: Option<McpCacheHint>,
    pub metadata: JsonMap,
}

pub struct McpToolDescriptorView {
    pub id: McpToolIdView,
    pub display_name: Seq<char>,
    pub description: Seq<char>,
    pub input_schema: JsonView,
    pub output_schema: Option<JsonView>,
    pub annotations: JsonView,
    pub schema_digest: Seq<char>,
    pub cache: Option<McpCacheHint>,
    pub metadata: Map<Seq<char>, JsonView>,
}

impl View for McpToolDescriptor {
    type V = McpToolDescriptorView;

    open spec fn view(&self) -> McpToolDescriptorView {
        McpToolDescriptorView {
            id: self.id@,
            display_name: self.display_name@,
            description: self.description@,
            input_schema: self.input_schema@,
            output_schema: opt_json(self.output_schema),
            annotations: self.annotations@,
            schema_digest: self.schema_digest@,
            cache: self.cache,
            metadata: self.metadata@,
        }
    }
}

impl Clone for McpToolDescriptor {
    fn clone(&self) -> (r: McpToolDescriptor)
        ensures
            r@ == self@,
    {
        McpToolDescriptor {
            id: self.id.clone(),
            display_name: self.display_name.clone(),
            description: self.description.clone(),
            input_schema: self.input_schema.clone(),
            output_schema: clone_opt_json(&self.output_schema),
            annotations: self.annotations.clone(),
            schema_digest: self.schema_digest.clone(),
            cache: self.cache,
            metadata: self.metadata.clone(),
        }
    }
}

/// Where a server's tool comes from, under which names.
pub open spec fn server_source(
    server: Seq<char>,
    raw_name: Seq<char>,
    display_name: Seq<char>,
    trust: ToolTrustLevel,
    metadata: Map<Seq<char>, JsonView>,
) -> ToolSourceView {
    ToolSourceView {
        namespace: NamespaceView { kind: NamespaceKindView::McpServer, id: server },
        raw_name,
        display_name,
        trust,
        metadata,
    }
}

impl McpToolDescriptor {
    /// The source to register the tool with.
    pub fn source(&self, trust: ToolTrustLevel) -> (r: ToolSource)
        ensures
            r@ == server_source(
                self@.id.server,
                self@.id.raw_name,
                self@.display_name,
                trust,
                self@.metadata,
            ),
    {
        ToolSource::new(
            ToolNamespace::mcp_server(self.id.server.as_str()),
            self.id.raw_name.as_str(),
            self.display_name.as_str(),
        ).with_trust(trust).with_metadata(self.metadata.clone())
    }
}

/// A server's tools at one time.
#[derive(Debug, PartialEq)]
pub struct McpToolCatalog {
    pub server: McpServerId,
    pub tools: Vec<McpToolDescriptor>,
    pub fetched_at: Moment,
    pub expires_at: Option<Moment>,
    pub metadata: JsonMap,
}

pub open spec fn descriptor_views(tools: Seq<McpToolDescriptor>) -> Seq<McpToolDescriptorView> {
    tools.map_values(|t: McpToolDescriptor| t@)
}

/// The name that the model sees: the server's name, two underscores and the
/// tool's name; or the tool's name alone.
pub open spec fn display_name(server: Seq<char>, raw: Seq<char>, prefix: bool) -> Seq<char> {
    if prefix {
        server + "__"@ + raw
    } else {
        raw
    }
}

/// The name that the model sees.
pub fn tool_display_name(server_name: &str, raw: &str, prefix: bool) -> (r: String)
    ensures
        r@ == display_name(server_name@, raw@, prefix),
{
    if prefix {
        concat3(server_name, "__", raw)
    } else {
        raw.to_owned()
    }
}

/// On one server, different tools have different names for the model.
pub proof fn law_display_names_are_injective(
    server: Seq<char>,
    a: Seq<char>,
    b: Seq<char>,
    prefix: bool,
)
    requires
        display_name(server, a, prefix) == display_name(server, b, prefix),
    ensures
        a == b,
{
    if prefix {
        let head = server + "__"@;
        assert((head + a).skip(head.len() as int) =~= a);
        assert((head + b).skip(head.len() as int) =~= b);
    }
}

/// The FNV-1a hash of bytes: each byte is mixed in by exclusive or, then the
/// state is multiplied modulo 2^64.
pub open spec fn fnv(bytes: Seq<u8>) -> u64
    decreases bytes.len(),
{
    if bytes.len() == 0 {
        0xcbf29ce484222325
    } else {
        (((fnv(bytes.drop_last()) ^ (bytes.last() as u64)) as int * 0x100000001b3)
            % 0x1_0000_0000_0000_0000) as u64
    }
}

/// A hexadecimal digit.
pub open spec fn hex_digit(n: int) -> char {
    if n < 10 {
        ((48 + n) as u8) as char
    } else {
        ((87 + n) as u8) as char
    }
}

/// The last `width` hexadecimal digits of `n`.
pub open spec fn hex(n: nat, width: nat) -> Seq<char>
    decreases width,
{
    if width == 0 {
        Seq::empty()
    } else {
        hex(n / 16, (width - 1) as nat).push(hex_digit((n % 16) as int))
    }
}

/// The digest of a schema: the hash of its JSON text.
pub open spec fn digest_of(schema: JsonView) -> Seq<char> {
    digest_text(rendered_json(schema))
}

/// The digest of a JSON text.
pub open spec fn digest_text(text: Seq<char>) -> Seq<char> {
    "fnv64:"@ + hex(fnv(vstd::utf8::encode_utf8(text)) as nat, 16)
}

fn fnv_of(bytes: &[u8]) -> (r: u64)
    ensures
        r == fnv(bytes@),
{
    let mut hash: u64 = 0xcbf29ce484222325;
    let mut i: usize = 0;
    assert(bytes@.take(0) =~= Seq::empty());
    while i < bytes.len()
        invariant
            i <= bytes@.len(),
            hash == fnv(bytes@.take(i as int)),
        decreases bytes@.len() - i,
    {
        assert(bytes@.take(i + 1).drop_last() =~= bytes@.take(i as int));
        assert(bytes@.take(i + 1).last() == bytes@[i as int]);
        let mixed: u64 = hash ^ (bytes[i] as u64);
        let product: u128 = mixed as u128 * 0x100000001b3;
        hash = (product % 0x1_0000_0000_0000_0000) as u64;
        i = i + 1;
    }
    assert(bytes@.take(i as int) =~= bytes@);
    hash
}

fn hex_digits(n: u64, width: usize) -> (v: Vec<char>)
    ensures
        v@ == hex(n as nat, width as nat),
    decreases width,
{
    if width == 0 {
        Vec::new()
    } else {
        let mut v = hex_digits(n / 16, width - 1);
        let d: u8 = (n % 16) as u8;
        v.push(
            if d < 10 {
                (48 + d) as char
            } else {
                (87 + d) as char
            },
        );
        v
    }
}

/// The digest of a JSON text.
pub fn text_digest(text: &str) -> (r: String)
    ensures
        r@ == digest_text(text@),
{
    let hash: u64 = fnv_of(text.as_bytes());
    let digits = hex_digits(hash, 16);
    concat("fnv64:", string_of(&digits).as_str())
}

/// The digest of a schema.
pub fn schema_digest(schema: &Json) -> (r: String)
    ensures
        r@ == digest_of(schema@),
{
    text_digest(render_json(schema).as_str())
}

/// The descriptor of a listed tool.
pub open spec fn described(
    server: Seq<char>,
    tool: McpToolInfoView,
    prefix: bool,
) -> McpToolDescriptorView {
    McpToolDescriptorView {
        id: McpToolIdView { server, raw_name: tool.name },
        display_name: display_name(server, tool.name, prefix),
        description: match tool.description {
            Some(text) => text,
            None => Seq::empty(),
        },
        input_schema: JsonView::Object(tool.input_schema),
        output_schema: match tool.output_schema {
            Some(schema) => Some(JsonView::Object(schema)),
            None => None,
        },
        annotations: match tool.annotations {
            Some(annotations) => annotations,
            None => JsonView::Null,
        },
        schema_digest: digest_of(JsonView::Object(tool.input_schema)),
        cache: None,
        metadata: Map::empty(),
    }
}

/// Describes a listed tool.
pub fn descriptor_from_tool(server_name: &str, tool: McpToolInfo, prefix: bool) -> (r:
    McpToolDescriptor)
    ensures
        r@ == described(server_name@, tool@, prefix),
{
    let input_schema = Json::object(tool.input_schema);
    McpToolDescriptor {
        id: McpToolId::new(server_name, tool.name.as_str()),
        display_name: tool_display_name(server_name, tool.name.as_str(), prefix),
        description: match tool.description {
            Some(text) => text,
            None => String::new(),
        },
        schema_digest: schema_digest(&input_schema),
        input_schema,
        output_schema: match tool.output_schema {
            Some(schema) => Some(Json::object(schema)),
            None => None,
        },
        annotations: match tool.annotations {
            Some(annotations) => annotations,
            None => Json::null(),
        },
        cache: None,
        metadata: JsonMap::new(),
    }
}

/// Why working with a server failed.
#[derive(Debug, PartialEq, Eq)]
pub enum McpError {
    Connect { server: String, message: String },
    ListTools { server: String, message: String },
    InvalidPayload(String),
    CallTool { server: String, tool: String, message: String },
}

pub enum McpErrorView {
    Connect { server: Seq<char>, message: Seq<char> },
    ListTools { server: Seq<char>, message: Seq<char> },
    InvalidPayload(Seq<char>),
    CallTool { server: Seq<char>, tool: Seq<char>, message: Seq<char> },
}

impl View for McpError {
    type V = McpErrorView;

    open spec fn view(&self) -> McpErrorView {
        match *self {
            McpError::Connect { server, message } => McpErrorView::Connect {
                server: server@,
                message: message@,
            },
            McpError::ListTools { server, message } => McpErrorView::ListTools {
                server: server@,
                message: message@,
            },
            McpError::InvalidPayload(message) => McpErrorView::InvalidPayload(message@),
            McpError::CallTool { server, tool, message } => McpErrorView::CallTool {
                server: server@,
                tool: tool@,
                message: message@,
            },
        }
    }
}

impl McpErrorView {
    /// The error as a sentence.
    pub open spec fn text(self) -> Seq<char> {
        match self {
            McpErrorView::Connect { server, message } => "mcp connect failed (server "@ + server
                + "): "@ + message,
            McpErrorView::ListTools { server, message } => "mcp list tools failed (server "@
                + server + "): "@ + message,
            McpErrorView::InvalidPayload(message) => "invalid mcp payload: "@ + message,
            McpErrorView::CallTool { server, tool, message } => "mcp tool call failed (server "@
                + server + ", tool "@ + tool + "): "@ + message,
        }
    }
}

impl McpError {
    /// The error as a sentence.
    pub fn message(&self) -> (s: String)
        ensures
            s@ == self@.text(),
    {
        match self {
            McpError::Connect { server, message } => {
                let head = concat3("mcp connect failed (server ", server.as_str(), "): ");
                concat(head.as_str(), message.as_str())
            },
            McpError::ListTools { server, message } => {
                let head = concat3("mcp list tools failed (server ", server.as_str(), "): ");
                concat(head.as_str(), message.as_str())
            },
            McpError::InvalidPayload(message) => concat("invalid mcp payload: ", message.as_str()),
            McpError::CallTool { server, tool, message } => {
                let head = concat3("mcp tool call failed (server ", server.as_str(), ", tool ");
                let head = concat3(head.as_str(), tool.as_str(), "): ");
                concat(head.as_str(), message.as_str())
            },
        }
    }
}

} // verus!
