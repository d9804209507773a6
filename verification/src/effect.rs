//! Side effects that a tool asks a harness to perform.

use vstd::prelude::*;

use crate::json::{Json, JsonMap, JsonView};
use crate::text::opt_view;
use crate::time::Span;

verus! {

/// How much harm an effect can do.
#[derive(Debug, Clone, Copy, PartialEq, Eq, Structural)]
pub enum RiskLevel {
    Low,
    Medium,
    High,
    Critical,
}

/// What kind of effect is asked for.
#[derive(Debug, Clone, Copy, PartialEq, Eq, Structural)]
pub enum EffectKind {
    /// Running a command.
    Command,
    /// Reading or writing files.
    FileSystem,
    /// Talking to a network endpoint.
    Network,
    /// Calling a tool of an MCP server.
    Mcp,
    /// Anything else.
    Custom,
}

impl EffectKind {
    /// The kind's name.
    pub open spec fn label(self) -> Seq<char> {
        match self {
            EffectKind::Command => "Command"@,
            EffectKind::FileSystem => "FileSystem"@,
            EffectKind::Network => "Network"@,
            EffectKind::Mcp => "Mcp"@,
            EffectKind::Custom => "Custom"@,
        }
    }

    /// The kind's name.
    pub fn name(&self) -> (r: &'static str)
        ensures
            r@ == self.label(),
    {
        match self {
            EffectKind::Command => "Command",
            EffectKind::FileSystem => "FileSystem",
            EffectKind::Network => "Network",
            EffectKind::Mcp => "Mcp",
            EffectKind::Custom => "Custom",
        }
    }
}

/// The tool call that an effect comes from.
#[derive(Debug, PartialEq)]
pub struct EffectSource {
    pub tool_call_id: Option<String>,
    pub tool_name: Option<String>,
}

/// A request to perform an effect.
#[derive(Debug, PartialEq)]
pub struct EffectRequest {
    pub id: String,
    pub kind: EffectKind,
    pub description: String,
    pub payload: Json,
    pub risk: RiskLevel,
    pub timeout: Option<Span>,
    pub source: EffectSource,
    pub metadata: JsonMap,
}

pub struct EffectRequestView {
    pub id: Seq<char>,
    pub kind: EffectKind,
    pub description: Seq<char>,
    pub payload: JsonView,
    pub risk: RiskLevel,
    pub timeout: Option<Span>,
    pub tool_call_id: Option<Seq<char>>,
    pub tool_name: Option<Seq<char>>,
    pub metadata: Map<Seq<char>, JsonView>,
}

impl View for EffectRequest {
    type V = EffectRequestView;

    open spec fn view(&self) -> EffectRequestView {
        EffectRequestView {
            id: self.id@,
            kind: self.kind,
            description: self.description@,
            payload: self.payload@,
            risk: self.risk,
            timeout: self.timeout,
            tool_call_id: opt_view(self.source.tool_call_id),
            tool_name: opt_view(self.source.tool_name),
            metadata: self.metadata@,
        }
    }
}

impl EffectRequest {
    /// A request of low risk, without source, timeout or metadata.
    pub fn new(id: &str, kind: EffectKind, description: &str, payload: Json) -> (r: EffectRequest)
        ensures
            r@ == (EffectRequestView {
                id: id@,
                kind,
                description: description@,
                payload: payload@,
                risk: RiskLevel::Low,
                timeout: None,
                tool_call_id: None,
                tool_name: None,
                metadata: Map::empty(),
            }),
    {
        EffectRequest {
            id: id.to_owned(),
            kind,
            description: description.to_owned(),
            payload,
            risk: RiskLevel::Low,
            timeout: None,
            source: EffectSource { tool_call_id: None, tool_name: None },
            metadata: JsonMap::new(),
        }
    }

    pub fn with_risk(self, risk: RiskLevel) -> (r: EffectRequest)
        ensures
            r@ == (EffectRequestView { risk, ..self@ }),
    {
        let mut r = self;
        r.risk = risk;
        r
    }

    pub fn with_timeout(self, timeout: Span) -> (r: EffectRequest)
        ensures
            r@ == (EffectRequestView { timeout: Some(timeout), ..self@ }),
    {
        let mut r = self;
        r.timeout = Some(timeout);
        r
    }

    pub fn with_source(self, tool_call_id: &str, tool_name: &str) -> (r: EffectRequest)
        ensures
            r@ == (EffectRequestView {
                tool_call_id: Some(tool_call_id@),
                tool_name: Some(tool_name@),
                ..self@
            }),
    {
        let mut r = self;
        r.source = EffectSource {
            tool_call_id: Some(tool_call_id.to_owned()),
            tool_name: Some(tool_name.to_owned()),
        };
        r
    }

    pub fn with_metadata(self, metadata: JsonMap) -> (r: EffectRequest)
        ensures
            r@ == (EffectRequestView { metadata: metadata@, ..self@ }),
    {
        let mut r = self;
        r.metadata = metadata;
        r
    }
}

/// How a display text is to be shown.
#[derive(Debug, Clone, Copy, PartialEq, Eq, Structural)]
pub enum DisplayFormat {
    PlainText,
    Markdown,
}

/// A text for the user, beside the one for the model.
#[derive(Debug, PartialEq, Eq)]
pub struct DisplayOutput {
    pub format: DisplayFormat,
    pub content: String,
}

pub struct DisplayView {
    pub format: DisplayFormat,
    pub content: Seq<char>,
}

impl View for DisplayOutput {
    type V = DisplayView;

    open spec fn view(&self) -> DisplayView {
        DisplayView { format: self.format, content: self.content@ }
    }
}

impl DisplayOutput {
    pub fn new(format: DisplayFormat, content: &str) -> (r: DisplayOutput)
        ensures
            r@ == (DisplayView { format, content: content@ }),
    {
        DisplayOutput { format, content: content.to_owned() }
    }
}

} // verus!
