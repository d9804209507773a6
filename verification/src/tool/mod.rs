//! Tools: their definitions, policies, outputs and errors.

use vstd::prelude::*;

use crate::effect::{DisplayOutput, DisplayView, EffectRequest, EffectRequestView, RiskLevel};
use crate::json::{Json, JsonMap, JsonView};
use crate::run::{artifact_views, Artifact, ArtifactView, RunContext};
use crate::text::{concat, concat3, str_eq};
use crate::time::Span;
use crate::tool::shared_state::SharedState;
use vstd::std_specs::cmp::PartialEqSpecImpl;
use vstd::std_specs::convert::FromSpecImpl;

pub mod laws;
pub mod registry;
pub mod shared_state;

verus! {

/// Where tools come from.
#[derive(Debug, PartialEq, Eq)]
pub enum ToolNamespaceKind {
    Local,
    McpServer,
    SkillLayer,
    SubAgent,
    Custom(String),
}

pub enum NamespaceKindView {
    Local,
    McpServer,
    SkillLayer,
    SubAgent,
    Custom(Seq<char>),
}

impl View for ToolNamespaceKind {
    type V = NamespaceKindView;

    open spec fn view(&self) -> NamespaceKindView {
        match *self {
            ToolNamespaceKind::Local => NamespaceKindView::Local,
            ToolNamespaceKind::McpServer => NamespaceKindView::McpServer,
            ToolNamespaceKind::SkillLayer => NamespaceKindView::SkillLayer,
            ToolNamespaceKind::SubAgent => NamespaceKindView::SubAgent,
            ToolNamespaceKind::Custom(name) => NamespaceKindView::Custom(name@),
        }
    }
}

/// A group of tools that share an origin.
#[derive(Debug, PartialEq, Eq)]
pub struct ToolNamespace {
    pub kind: ToolNamespaceKind,
    pub id: String,
}

pub struct NamespaceView {
    pub kind: NamespaceKindView,
    pub id: Seq<char>,
}

impl View for ToolNamespace {
    type V = NamespaceView;

    open spec fn view(&self) -> NamespaceView {
        NamespaceView { kind: self.kind@, id: self.id@ }
    }
}

impl ToolNamespace {
    pub fn new(kind: ToolNamespaceKind, id: &str) -> (r: ToolNamespace)
        ensures
            r@ == (NamespaceView { kind: kind@, id: id@ }),
    {
        ToolNamespace { kind, id: id.to_owned() }
    }

    pub fn local() -> (r: ToolNamespace)
        ensures
            r@ == (NamespaceView { kind: NamespaceKindView::Local, id: "local"@ }),
    {
        ToolNamespace::new(ToolNamespaceKind::Local, "local")
    }

    pub fn mcp_server(id: &str) -> (r: ToolNamespace)
        ensures
            r@ == (NamespaceView { kind: NamespaceKindView::McpServer, id: id@ }),
    {
        ToolNamespace::new(ToolNamespaceKind::McpServer, id)
    }

    pub fn skill_layer(id: &str) -> (r: ToolNamespace)
        ensures
            r@ == (NamespaceView { kind: NamespaceKindView::SkillLayer, id: id@ }),
    {
        ToolNamespace::new(ToolNamespaceKind::SkillLayer, id)
    }
}

/// How far a tool's origin is trusted.
#[derive(Debug, Clone, Copy, PartialEq, Eq, Structural)]
pub enum ToolTrustLevel {
    Trusted,
    Project,
    UserInstalled,
    External,
    Untrusted,
}

/// Where a registered tool comes from, under which name there and here.
#[derive(Debug, PartialEq)]
pub struct ToolSource {
    pub namespace: ToolNamespace,
    pub raw_name: String,
    pub display_name: String,
    pub trust: ToolTrustLevel,
    pub metadata: JsonMap,
}

pub struct ToolSourceView {
    pub namespace: NamespaceView,
    pub raw_name: Seq<char>,
    pub display_name: Seq<char>,
    pub trust: ToolTrustLevel,
    pub metadata: Map<Seq<char>, JsonView>,
}

impl View for ToolSource {
    type V = ToolSourceView;

    open spec fn view(&self) -> ToolSourceView {
        ToolSourceView {
            namespace: self.namespace@,
            raw_name: self.raw_name@,
            display_name: self.display_name@,
            trust: self.trust,
            metadata: self.metadata@,
        }
    }
}

impl ToolSource {
    /// A source that is external until said otherwise.
    pub fn new(namespace: ToolNamespace, raw_name: &str, display_name: &str) -> (r: ToolSource)
        ensures
            r@ == (ToolSourceView {
                namespace: namespace@,
                raw_name: raw_name@,
                display_name: display_name@,
                trust: ToolTrustLevel::External,
                metadata: Map::empty(),
            }),
    {
        ToolSource {
            namespace,
            raw_name: raw_name.to_owned(),
            display_name: display_name.to_owned(),
            trust: ToolTrustLevel::External,
            metadata: JsonMap::new(),
        }
    }

    /// A trusted tool of the application itself.
    pub fn local(name: &str) -> (r: ToolSource)
        ensures
            r@ == (ToolSourceView {
                namespace: NamespaceView { kind: NamespaceKindView::Local, id: "local"@ },
                raw_name: name@,
                display_name: name@,
                trust: ToolTrustLevel::Trusted,
                metadata: Map::empty(),
            }),
    {
        ToolSource::new(ToolNamespace::local(), name, name).with_trust(ToolTrustLevel::Trusted)
    }

    pub fn with_trust(self, trust: ToolTrustLevel) -> (r: ToolSource)
        ensures
            r@ == (ToolSourceView { trust, ..self@ }),
    {
        let mut r = self;
        r.trust = trust;
        r
    }

    pub fn with_metadata(self, metadata: JsonMap) -> (r: ToolSource)
        ensures
            r@ == (ToolSourceView { metadata: metadata@, ..self@ }),
    {
        let mut r = self;
        r.metadata = metadata;
        r
    }
}

/// What a tool does to the world.
#[derive(Debug, Clone, Copy, PartialEq, Eq, Structural)]
pub enum SideEffectLevel {
    Pure,
    ReadOnly,
    Write,
    External,
}

/// Whether a tool's output may be trimmed from memory.
#[derive(Debug, Clone, Copy, PartialEq, Eq, Structural)]
pub enum ToolMemoryPolicy {
    Normal,
    Protected,
}

impl ToolMemoryPolicy {
    pub fn is_protected(self) -> (r: bool)
        ensures
            r == (self == ToolMemoryPolicy::Protected),
    {
        match self {
            ToolMemoryPolicy::Protected => true,
            ToolMemoryPolicy::Normal => false,
        }
    }
}

impl Default for ToolMemoryPolicy {
    fn default() -> (r: ToolMemoryPolicy)
        ensures
            r == ToolMemoryPolicy::Normal,
    {
        ToolMemoryPolicy::Normal
    }
}

/// How a tool is to be governed.
#[derive(Debug, Clone, Copy, PartialEq, Eq, Structural)]
pub struct ToolPolicy {
    pub side_effects: SideEffectLevel,
    pub risk: RiskLevel,
    pub requires_confirmation: bool,
    pub timeout: Option<Span>,
    pub memory_policy: ToolMemoryPolicy,
}

impl ToolPolicy {
    /// A pure tool of low risk.
    pub open spec fn plain() -> ToolPolicy {
        ToolPolicy {
            side_effects: SideEffectLevel::Pure,
            risk: RiskLevel::Low,
            requires_confirmation: false,
            timeout: None,
            memory_policy: ToolMemoryPolicy::Normal,
        }
    }
}

impl Default for ToolPolicy {
    fn default() -> (r: ToolPolicy)
        ensures
            r == ToolPolicy::plain(),
    {
        ToolPolicy {
            side_effects: SideEffectLevel::Pure,
            risk: RiskLevel::Low,
            requires_confirmation: false,
            timeout: None,
            memory_policy: ToolMemoryPolicy::Normal,
        }
    }
}

/// A tool as the model sees it.
#[derive(Debug, PartialEq)]
pub struct ToolSchema {
    pub name: String,
    pub description: String,
    /// The JSON schema of the arguments.
    pub parameters: Json,
    pub policy: ToolPolicy,
    pub metadata: JsonMap,
}

pub struct ToolSchemaView {
    pub name: Seq<char>,
    pub description: Seq<char>,
    pub parameters: JsonView,
    pub policy: ToolPolicy,
    pub metadata: Map<Seq<char>, JsonView>,
}

impl View for ToolSchema {
    type V = ToolSchemaView;

    open spec fn view(&self) -> ToolSchemaView {
        ToolSchemaView {
            name: self.name@,
            description: self.description@,
            parameters: self.parameters@,
            policy: self.policy,
            metadata: self.metadata@,
        }
    }
}

pub open spec fn schema_views(schemas: Seq<ToolSchema>) -> Seq<ToolSchemaView> {
    schemas.map_values(|s: ToolSchema| s@)
}

impl ToolSchema {
    pub fn new(name: &str, description: &str, parameters: Json) -> (r: ToolSchema)
        ensures
            r@ == (ToolSchemaView {
                name: name@,
                description: description@,
                parameters: parameters@,
                policy: ToolPolicy::plain(),
                metadata: Map::empty(),
            }),
    {
        ToolSchema {
            name: name.to_owned(),
            description: description.to_owned(),
            parameters,
            policy: ToolPolicy::default(),
            metadata: JsonMap::new(),
        }
    }

    pub fn with_policy(self, policy: ToolPolicy) -> (r: ToolSchema)
        ensures
            r@ == (ToolSchemaView { policy, ..self@ }),
    {
        let mut r = self;
        r.policy = policy;
        r
    }

    pub fn with_metadata(self, metadata: JsonMap) -> (r: ToolSchema)
        ensures
            r@ == (ToolSchemaView { metadata: metadata@, ..self@ }),
    {
        let mut r = self;
        r.metadata = metadata;
        r
    }
}

impl Clone for ToolSchema {
    fn clone(&self) -> (r: ToolSchema)
        ensures
            r@ == self@,
    {
        ToolSchema {
            name: self.name.clone(),
            description: self.description.clone(),
            parameters: self.parameters.clone(),
            policy: self.policy,
            metadata: self.metadata.clone(),
        }
    }
}

/// What a tool returns.
#[derive(Debug, PartialEq)]
pub struct ToolOutput {
    /// The text for the model.
    pub content: String,
    pub display: Option<DisplayOutput>,
    pub artifacts: Vec<Artifact>,
    pub memory_policy: ToolMemoryPolicy,
    pub metadata: JsonMap,
}

pub struct ToolOutputView {
    pub content: Seq<char>,
    pub display: Option<DisplayView>,
    pub artifacts: Seq<ArtifactView>,
    pub memory_policy: ToolMemoryPolicy,
    pub metadata: Map<Seq<char>, JsonView>,
}

impl View for ToolOutput {
    type V = ToolOutputView;

    open spec fn view(&self) -> ToolOutputView {
        ToolOutputView {
            content: self.content@,
            display: match self.display {
                Some(display) => Some(display@),
                None => None,
            },
            artifacts: artifact_views(self.artifacts@),
            memory_policy: self.memory_policy,
            metadata: self.metadata@,
        }
    }
}

impl ToolOutputView {
    /// An output of text alone.
    pub open spec fn text(content: Seq<char>) -> ToolOutputView {
        ToolOutputView {
            content,
            display: None,
            artifacts: Seq::empty(),
            memory_policy: ToolMemoryPolicy::Normal,
            metadata: Map::empty(),
        }
    }
}

impl ToolOutput {
    pub fn text(content: String) -> (r: ToolOutput)
        ensures
            r@ == ToolOutputView::text(content@),
    {
        let artifacts: Vec<Artifact> = Vec::new();
        assert(artifact_views(artifacts@) =~= Seq::empty());
        ToolOutput {
            content,
            display: None,
            artifacts,
            memory_policy: ToolMemoryPolicy::Normal,
            metadata: JsonMap::new(),
        }
    }

    pub fn with_display(self, display: DisplayOutput) -> (r: ToolOutput)
        ensures
            r@ == (ToolOutputView { display: Some(display@), ..self@ }),
    {
        let mut r = self;
        r.display = Some(display);
        r
    }

    pub fn with_artifacts(self, artifacts: Vec<Artifact>) -> (r: ToolOutput)
        ensures
            r@ == (ToolOutputView { artifacts: artifact_views(artifacts@), ..self@ }),
    {
        let mut r = self;
        r.artifacts = artifacts;
        r
    }

    pub fn with_memory_policy(self, policy: ToolMemoryPolicy) -> (r: ToolOutput)
        ensures
            r@ == (ToolOutputView { memory_policy: policy, ..self@ }),
    {
        let mut r = self;
        r.memory_policy = policy;
        r
    }

    pub fn with_metadata(self, metadata: JsonMap) -> (r: ToolOutput)
        ensures
            r@ == (ToolOutputView { metadata: metadata@, ..self@ }),
    {
        let mut r = self;
        r.metadata = metadata;
        r
    }
}

impl From<String> for ToolOutput {
    fn from(content: String) -> (r: ToolOutput)
        ensures
            r@ == ToolOutputView::text(content@),
    {
        ToolOutput::text(content)
    }
}

impl FromSpecImpl<String> for ToolOutput {
    open spec fn obeys_from_spec() -> bool {
        false
    }

    open spec fn from_spec(content: String) -> ToolOutput {
        arbitrary()
    }
}

impl From<&str> for ToolOutput {
    fn from(content: &str) -> (r: ToolOutput)
        ensures
            r@ == ToolOutputView::text(content@),
    {
        ToolOutput::text(content.to_owned())
    }
}

impl FromSpecImpl<&str> for ToolOutput {
    open spec fn obeys_from_spec() -> bool {
        false
    }

    open spec fn from_spec(content: &str) -> ToolOutput {
        arbitrary()
    }
}

/// The outcome of a tool call: an output, or an effect for a harness.
#[derive(Debug, PartialEq)]
pub enum ToolResult {
    Output(ToolOutput),
    Effect(EffectRequest),
}

pub enum ToolResultView {
    Output(ToolOutputView),
    Effect(EffectRequestView),
}

impl View for ToolResult {
    type V = ToolResultView;

    open spec fn view(&self) -> ToolResultView {
        match *self {
            ToolResult::Output(output) => ToolResultView::Output(output@),
            ToolResult::Effect(request) => ToolResultView::Effect(request@),
        }
    }
}

impl ToolResultView {
    /// Whether the result is an output that shows the model this text.
    pub open spec fn is_text(self, text: Seq<char>) -> bool {
        match self {
            ToolResultView::Output(output) => output.content == text,
            ToolResultView::Effect(_) => false,
        }
    }

    /// The result as text: the output's content, or a notice of the effect.
    pub open spec fn text(self) -> Seq<char> {
        match self {
            ToolResultView::Output(output) => output.content,
            ToolResultView::Effect(request) => "effect request: "@ + request.description + " ("@
                + request.id + ")"@,
        }
    }
}

impl ToolResult {
    /// The text for the model, when there is an output.
    pub fn output_content(&self) -> (r: Option<&str>)
        ensures
            match self@ {
                ToolResultView::Output(output) => r matches Some(s) && s@ == output.content,
                ToolResultView::Effect(_) => r is None,
            },
    {
        match self {
            ToolResult::Output(output) => Some(output.content.as_str()),
            ToolResult::Effect(_) => None,
        }
    }

    /// The text for the model; empty for an effect.
    pub fn content_or_empty(&self) -> (r: &str)
        ensures
            r@ == match self@ {
                ToolResultView::Output(output) => output.content,
                ToolResultView::Effect(_) => Seq::empty(),
            },
    {
        proof {
            reveal_strlit("");
        }
        match self {
            ToolResult::Output(output) => output.content.as_str(),
            ToolResult::Effect(_) => {
                assert(""@ =~= Seq::<char>::empty());
                ""
            },
        }
    }

    /// The result as text.
    pub fn message(&self) -> (s: String)
        ensures
            s@ == self@.text(),
    {
        match self {
            ToolResult::Output(output) => output.content.clone(),
            ToolResult::Effect(request) => {
                let head = concat3("effect request: ", request.description.as_str(), " (");
                concat3(head.as_str(), request.id.as_str(), ")")
            },
        }
    }
}

impl From<ToolOutput> for ToolResult {
    fn from(output: ToolOutput) -> (r: ToolResult) {
        ToolResult::Output(output)
    }
}

impl FromSpecImpl<ToolOutput> for ToolResult {
    open spec fn obeys_from_spec() -> bool {
        true
    }

    open spec fn from_spec(output: ToolOutput) -> ToolResult {
        ToolResult::Output(output)
    }
}

impl From<String> for ToolResult {
    fn from(content: String) -> (r: ToolResult)
        ensures
            r@ == ToolResultView::Output(ToolOutputView::text(content@)),
    {
        ToolResult::Output(ToolOutput::text(content))
    }
}

impl FromSpecImpl<String> for ToolResult {
    open spec fn obeys_from_spec() -> bool {
        false
    }

    open spec fn from_spec(content: String) -> ToolResult {
        arbitrary()
    }
}

impl From<&str> for ToolResult {
    fn from(content: &str) -> (r: ToolResult)
        ensures
            r@ == ToolResultView::Output(ToolOutputView::text(content@)),
    {
        ToolResult::Output(ToolOutput::text(content.to_owned()))
    }
}

impl FromSpecImpl<&str> for ToolResult {
    open spec fn obeys_from_spec() -> bool {
        false
    }

    open spec fn from_spec(content: &str) -> ToolResult {
        arbitrary()
    }
}

/// What a tool sees of the call that it serves.
pub struct ToolContext<'a> {
    pub run: &'a RunContext,
    /// The state that the tools share.
    pub state: &'a SharedState,
    pub tool_call_id: &'a str,
    pub tool_name: &'a str,
}

impl<'a> ToolContext<'a> {
    pub fn new(
        run: &'a RunContext,
        state: &'a SharedState,
        tool_call_id: &'a str,
        tool_name: &'a str,
    ) -> (r: ToolContext<'a>)
        ensures
            r.run == run,
            r.state == state,
            r.tool_call_id@ == tool_call_id@,
            r.tool_name@ == tool_name@,
    {
        ToolContext { run, state, tool_call_id, tool_name }
    }
}

impl PartialEq<str> for ToolResult {
    /// An output equals the text that the model sees of it.
    fn eq(&self, other: &str) -> (r: bool) {
        match self {
            ToolResult::Output(output) => str_eq(output.content.as_str(), other),
            ToolResult::Effect(_) => false,
        }
    }
}

impl PartialEqSpecImpl<str> for ToolResult {
    open spec fn obeys_eq_spec() -> bool {
        true
    }

    open spec fn eq_spec(&self, other: &str) -> bool {
        self@.is_text(other@)
    }
}

impl PartialEq<&str> for ToolResult {
    fn eq(&self, other: &&str) -> (r: bool) {
        match self {
            ToolResult::Output(output) => str_eq(output.content.as_str(), other),
            ToolResult::Effect(_) => false,
        }
    }
}

impl PartialEqSpecImpl<&str> for ToolResult {
    open spec fn obeys_eq_spec() -> bool {
        true
    }

    open spec fn eq_spec(&self, other: &&str) -> bool {
        self@.is_text(other@)
    }
}

impl PartialEq<String> for ToolResult {
    fn eq(&self, other: &String) -> (r: bool) {
        match self {
            ToolResult::Output(output) => str_eq(output.content.as_str(), other.as_str()),
            ToolResult::Effect(_) => false,
        }
    }
}

impl PartialEqSpecImpl<String> for ToolResult {
    open spec fn obeys_eq_spec() -> bool {
        true
    }

    open spec fn eq_spec(&self, other: &String) -> bool {
        self@.is_text(other@)
    }
}

/// Why a tool call failed.
#[derive(Debug, PartialEq, Eq)]
pub enum ToolError {
    InvalidArguments(String),
    Execution(String),
}

pub enum ToolErrorView {
    InvalidArguments(Seq<char>),
    Execution(Seq<char>),
}

impl View for ToolError {
    type V = ToolErrorView;

    open spec fn view(&self) -> ToolErrorView {
        match *self {
            ToolError::InvalidArguments(m) => ToolErrorView::InvalidArguments(m@),
            ToolError::Execution(m) => ToolErrorView::Execution(m@),
        }
    }
}

impl ToolErrorView {
    /// The error as a sentence.
    pub open spec fn text(self) -> Seq<char> {
        match self {
            ToolErrorView::InvalidArguments(m) => "invalid arguments: "@ + m,
            ToolErrorView::Execution(m) => "execution failed: "@ + m,
        }
    }
}

impl ToolError {
    /// The error as a sentence.
    pub fn message(&self) -> (s: String)
        ensures
            s@ == self@.text(),
    {
        match self {
            ToolError::InvalidArguments(m) => concat("invalid arguments: ", m.as_str()),
            ToolError::Execution(m) => concat("execution failed: ", m.as_str()),
        }
    }
}

} // verus!
