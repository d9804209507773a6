//! What a server's tool returns, and what the model sees of it.

use vstd::prelude::*;

use super::{server_source, McpToolDescriptor, McpToolDescriptorView};
use crate::effect::RiskLevel;
use crate::json::{pretty_json, render_pretty, Json, JsonMap, JsonView};
use crate::provider::opt_json;
use crate::text::{byte_len, byte_len_of, concat, concat3, join, lemma_byte_len_concat};
use crate::time::Span;
use crate::tool::{
    SideEffectLevel, ToolError, ToolErrorView, ToolNamespace, ToolOutput, ToolOutputView,
    ToolPolicy, ToolResult, ToolResultView, ToolSchema, ToolSchemaView, ToolSource, ToolTrustLevel,
};

verus! {

/// The most bytes of a result that the model sees, before the notice that some
/// were left out.
pub const MAX_TOOL_RESULT_BYTES: usize = 1_048_576;

/// A block of a tool's result.
#[derive(Debug, PartialEq, Eq)]
pub enum McpContent {
    Text(String),
    Image { mime_type: String },
    Audio { mime_type: String },
    Resource,
    ResourceLink,
    /// A block of a kind that is not known.
    Other,
}

/// What the model sees of a block.
pub open spec fn block_text(block: McpContent) -> Seq<char> {
    match block {
        McpContent::Text(text) => text@,
        McpContent::Image { mime_type } => "[image: "@ + mime_type@ + "]"@,
        McpContent::Audio { mime_type } => "[audio: "@ + mime_type@ + "]"@,
        McpContent::Resource => "[resource]"@,
        McpContent::ResourceLink => "[resource link]"@,
        McpContent::Other => "[content]"@,
    }
}

pub open spec fn block_texts(blocks: Seq<McpContent>) -> Seq<Seq<char>> {
    blocks.map_values(|b: McpContent| block_text(b))
}

/// The parts on lines of their own.
pub open spec fn on_lines(parts: Seq<Seq<char>>) -> Seq<char> {
    join(parts, "\n"@)
}

/// How many parts the model sees: the longest run from the first part on that
/// fits the limit.
pub open spec fn shown(parts: Seq<Seq<char>>) -> nat
    decreases parts.len(),
{
    if parts.len() == 0 {
        0
    } else {
        let before = shown(parts.drop_last());
        if before == parts.len() - 1 && byte_len(on_lines(parts)) <= MAX_TOOL_RESULT_BYTES {
            parts.len()
        } else {
            before
        }
    }
}

/// What the model sees of the parts: those that fit the limit, each on a line
/// of its own, and a notice where some do not.
pub open spec fn content_text(parts: Seq<Seq<char>>) -> Seq<char> {
    if shown(parts) == parts.len() {
        on_lines(parts)
    } else {
        on_lines(parts.take(shown(parts) as int)) + "[truncated: result exceeds size limit]"@
    }
}

proof fn lemma_shown(parts: Seq<Seq<char>>)
    ensures
        shown(parts) <= parts.len(),
        byte_len(on_lines(parts.take(shown(parts) as int))) <= MAX_TOOL_RESULT_BYTES,
    decreases parts.len(),
{
    if parts.len() == 0 {
        assert(parts.take(0) =~= Seq::empty());
    } else {
        lemma_shown(parts.drop_last());
        let n = shown(parts.drop_last()) as int;
        if shown(parts) == parts.len() {
            assert(parts.take(parts.len() as int) =~= parts);
        } else {
            assert(parts.drop_last().take(n) =~= parts.take(n));
        }
    }
}

/// Once a part does not fit, no later one is shown.
proof fn lemma_stops(parts: Seq<Seq<char>>, n: int)
    requires
        0 <= n <= parts.len(),
        shown(parts.take(n)) < n,
    ensures
        shown(parts) == shown(parts.take(n)),
    decreases parts.len() - n,
{
    if n == parts.len() {
        assert(parts.take(n) =~= parts);
    } else {
        assert(parts.take(n + 1).drop_last() =~= parts.take(n));
        lemma_shown(parts.take(n));
        lemma_stops(parts, n + 1);
    }
}

/// The parts before some are no longer than all of them.
proof fn lemma_prefix_is_shorter(parts: Seq<Seq<char>>)
    requires
        parts.len() > 0,
    ensures
        byte_len(on_lines(parts.drop_last())) <= byte_len(on_lines(parts)),
        parts.len() > 1 ==> byte_len(on_lines(parts)) == byte_len(on_lines(parts.drop_last())) + 1
            + byte_len(parts.last()),
{
    if parts.len() > 1 {
        let head = on_lines(parts.drop_last());
        lemma_newline();
        lemma_byte_len_concat(head, "\n"@);
        lemma_byte_len_concat(head + "\n"@, parts.last());
    }
}

proof fn lemma_newline()
    ensures
        byte_len("\n"@) == 1,
{
    reveal_strlit("\n");
    let s = "\n"@;
    assert(s =~= seq!['\n']);
    reveal_with_fuel(vstd::utf8::encode_utf8, 2);
    assert(s.drop_first() =~= Seq::<char>::empty());
}

fn text_of_block(block: &McpContent) -> (s: String)
    ensures
        s@ == block_text(*block),
{
    match block {
        McpContent::Text(text) => text.clone(),
        McpContent::Image { mime_type } => concat3("[image: ", mime_type.as_str(), "]"),
        McpContent::Audio { mime_type } => concat3("[audio: ", mime_type.as_str(), "]"),
        McpContent::Resource => "[resource]".to_owned(),
        McpContent::ResourceLink => "[resource link]".to_owned(),
        McpContent::Other => "[content]".to_owned(),
    }
}

/// What the model sees of a tool's result.
pub fn content_to_text(blocks: &[McpContent]) -> (r: String)
    ensures
        r@ == content_text(block_texts(blocks@)),
{
    let ghost parts = block_texts(blocks@);
    let mut out = String::new();
    let mut i: usize = 0;
    assert(parts.take(0) =~= Seq::empty());
    while i < blocks.len()
        invariant
            i <= blocks@.len(),
            parts == block_texts(blocks@),
            shown(parts.take(i as int)) == i,
            out@ == on_lines(parts.take(i as int)),
            byte_len(out@) <= MAX_TOOL_RESULT_BYTES,
        decreases blocks@.len() - i,
    {
        let part = text_of_block(&blocks[i]);
        let ghost head = parts.take(i + 1);
        let used: usize = byte_len_of(out.as_str()) + if i > 0 {
            1
        } else {
            0
        };
        let ghost before = out@;
        let size: usize = byte_len_of(part.as_str());
        proof {
            assert(head.drop_last() =~= parts.take(i as int));
            assert(head.last() == part@);
            lemma_prefix_is_shorter(head);
            if i == 0 {
                assert(before =~= Seq::<char>::empty());
                assert(head[0] == part@);
            }
        }
        assert(byte_len(on_lines(head)) == used + size);
        if used > MAX_TOOL_RESULT_BYTES || size > MAX_TOOL_RESULT_BYTES - used {
            proof {
                lemma_stops(parts, i + 1);
            }
            out.append("[truncated: result exceeds size limit]");
            return out;
        }
        if i > 0 {
            out.append("\n");
        }
        out.append(part.as_str());
        assert(out@ =~= on_lines(head));
        i = i + 1;
    }
    assert(parts.take(i as int) =~= parts);
    out
}

/// However much a server returns, what the model sees is bounded.
pub proof fn law_content_is_bounded(parts: Seq<Seq<char>>)
    ensures
        byte_len(content_text(parts)) <= MAX_TOOL_RESULT_BYTES + 38,
{
    lemma_shown(parts);
    let n = shown(parts) as int;
    if n == parts.len() {
        assert(parts.take(n) =~= parts);
    } else {
        let notice = "[truncated: result exceeds size limit]"@;
        lemma_byte_len_concat(on_lines(parts.take(n)), notice);
        lemma_notice();
    }
}

/// A result that fits the limit is shown whole; one that does not is cut and
/// says so.
pub proof fn law_content_is_cut_only_when_too_long(parts: Seq<Seq<char>>)
    ensures
        byte_len(on_lines(parts)) <= MAX_TOOL_RESULT_BYTES ==> content_text(parts) == on_lines(parts),
        byte_len(on_lines(parts)) > MAX_TOOL_RESULT_BYTES ==> exists|n: int|
            0 <= n < parts.len() && content_text(parts) == #[trigger] on_lines(parts.take(n))
                + "[truncated: result exceeds size limit]"@,
{
    if byte_len(on_lines(parts)) <= MAX_TOOL_RESULT_BYTES {
        lemma_all_shown(parts);
    } else {
        lemma_shown(parts);
        let n = shown(parts) as int;
        if n == parts.len() {
            assert(parts.take(n) =~= parts);
        }
        assert(content_text(parts) == on_lines(parts.take(n))
            + "[truncated: result exceeds size limit]"@);
    }
}

proof fn lemma_all_shown(parts: Seq<Seq<char>>)
    requires
        byte_len(on_lines(parts)) <= MAX_TOOL_RESULT_BYTES,
    ensures
        shown(parts) == parts.len(),
    decreases parts.len(),
{
    if parts.len() > 0 {
        lemma_prefix_is_shorter(parts);
        lemma_all_shown(parts.drop_last());
    }
}

proof fn lemma_ascii_len(s: Seq<char>)
    requires
        forall|i: int| 0 <= i < s.len() ==> (#[trigger] s[i]) as u32 <= 0x7f,
    ensures
        byte_len(s) == s.len(),
    decreases s.len(),
{
    if s.len() > 0 {
        assert(s[0] as u32 <= 0x7f);
        assert forall|i: int| 0 <= i < s.drop_first().len() implies (#[trigger] s.drop_first()[i])
            as u32 <= 0x7f by {
            assert(s[i + 1] as u32 <= 0x7f);
        }
        lemma_ascii_len(s.drop_first());
    }
}

proof fn lemma_notice()
    ensures
        byte_len("[truncated: result exceeds size limit]"@) == 38,
{
    reveal_strlit("[truncated: result exceeds size limit]");
    lemma_ascii_len("[truncated: result exceeds size limit]"@);
}

/// A result's text with its structured part, which stands in a block of its
/// own behind it.
pub open spec fn with_structured(text: Seq<char>, rendered: Seq<char>) -> Seq<char> {
    text + "\n[structured]\n"@ + rendered
}

/// A result's text with its structured part, as far as there is one; or why
/// that could not be written.
pub open spec fn full_text(text: Seq<char>, structured: Option<JsonView>) -> Result<
    Seq<char>,
    Seq<char>,
> {
    match structured {
        None => Ok(text),
        Some(json) => match pretty_json(json) {
            Ok(rendered) => Ok(with_structured(text, rendered)),
            Err(e) => Err(e),
        },
    }
}

/// A result's text, as an error where the tool reported one.
pub open spec fn reported(text: Seq<char>, is_error: bool) -> Result<Seq<char>, Seq<char>> {
    if !is_error {
        Ok(text)
    } else if text.len() == 0 {
        Err("mcp tool reported an error"@)
    } else {
        Err(text)
    }
}

/// The text with a rendered structured part behind it.
pub fn append_structured(text: &str, rendered: &str) -> (r: String)
    ensures
        r@ == with_structured(text@, rendered@),
{
    concat3(text, "\n[structured]\n", rendered)
}

pub(crate) fn full_text_of(text: String, structured: &Option<Json>) -> (r: Result<String, String>)
    ensures
        match r {
            Ok(s) => full_text(text@, opt_json(*structured)) == Ok::<Seq<char>, Seq<char>>(s@),
            Err(e) => full_text(text@, opt_json(*structured)) == Err::<Seq<char>, Seq<char>>(e@),
        },
{
    match structured {
        None => Ok(text),
        Some(json) => match render_pretty(json) {
            Ok(rendered) => Ok(append_structured(text.as_str(), rendered.as_str())),
            Err(e) => Err(e),
        },
    }
}

/// The text, as an error where the tool reported one.
pub fn report(text: String, is_error: bool) -> (r: Result<String, String>)
    ensures
        match r {
            Ok(s) => reported(text@, is_error) == Ok::<Seq<char>, Seq<char>>(s@),
            Err(e) => reported(text@, is_error) == Err::<Seq<char>, Seq<char>>(e@),
        },
{
    if !is_error {
        Ok(text)
    } else if byte_len_of(text.as_str()) == 0 {
        proof {
            lemma_no_bytes(text@);
        }
        Err("mcp tool reported an error".to_owned())
    } else {
        Err(text)
    }
}

proof fn lemma_no_bytes(s: Seq<char>)
    ensures
        byte_len(s) == 0 ==> s.len() == 0,
        s.len() == 0 ==> byte_len(s) == 0,
{
    if s.len() > 0 {
        assert(byte_len(s) > 0);
    }
}

/// How a call on a server ended.
#[derive(Debug, PartialEq)]
pub enum McpCallOutcome {
    Returned { content: Vec<McpContent>, structured: Option<Json>, is_error: Option<bool> },
    Failed(String),
    TimedOut,
}

/// What the caller of a tool gets for each outcome.
pub open spec fn direct_result(outcome: McpCallOutcome) -> Result<ToolResultView, ToolErrorView> {
    match outcome {
        McpCallOutcome::TimedOut => Err(ToolErrorView::Execution("mcp tool call timed out"@)),
        McpCallOutcome::Failed(cause) => Err(
            ToolErrorView::Execution("mcp tool call failed: "@ + cause@),
        ),
        McpCallOutcome::Returned { content, structured, is_error } => match full_text(
            content_text(block_texts(content@)),
            opt_json(structured),
        ) {
            Err(e) => Err(
                ToolErrorView::Execution("structured content serialization failed: "@ + e),
            ),
            Ok(text) => match reported(text, is_error == Some(true)) {
                Ok(text) => Ok(ToolResultView::Output(ToolOutputView::text(text))),
                Err(message) => Err(ToolErrorView::Execution(message)),
            },
        },
    }
}

/// What goes into the metadata of a server's tool.
pub open spec fn tool_metadata(
    base: Map<Seq<char>, JsonView>,
    server: Seq<char>,
    raw_name: Seq<char>,
    digest: Seq<char>,
) -> Map<Seq<char>, JsonView> {
    base.insert("mcp_server_id"@, JsonView::Text(server)).insert(
        "mcp_raw_tool_name"@,
        JsonView::Text(raw_name),
    ).insert("mcp_schema_digest"@, JsonView::Text(digest))
}

pub(crate) fn tool_metadata_of(base: JsonMap, server: &str, raw_name: &str, digest: &str) -> (r:
    JsonMap)
    ensures
        r@ == tool_metadata(base@, server@, raw_name@, digest@),
{
    base.put("mcp_server_id".to_owned(), Json::text(server.to_owned())).put(
        "mcp_raw_tool_name".to_owned(),
        Json::text(raw_name.to_owned()),
    ).put("mcp_schema_digest".to_owned(), Json::text(digest.to_owned()))
}

/// The error of arguments that are no object.
pub open spec fn not_an_object() -> ToolErrorView {
    ToolErrorView::InvalidArguments("mcp tool arguments must be a JSON object"@)
}

/// A tool that calls its server itself.
#[derive(Debug, PartialEq)]
pub struct McpDirectTool {
    descriptor: McpToolDescriptor,
    call_timeout: Span,
}

/// The tool under its older name.
pub type McpTool = McpDirectTool;

impl McpDirectTool {
    pub closed spec fn descriptor(self) -> McpToolDescriptorView {
        self.descriptor@
    }

    pub closed spec fn limit(self) -> Span {
        self.call_timeout
    }

    pub fn new(descriptor: McpToolDescriptor, call_timeout: Span) -> (r: McpDirectTool)
        ensures
            r.descriptor() == descriptor@,
            r.limit() == call_timeout,
    {
        McpDirectTool { descriptor, call_timeout }
    }

    /// The source to register the tool with: external, without metadata.
    pub fn source(&self) -> (r: ToolSource)
        ensures
            r@ == server_source(
                self.descriptor().id.server,
                self.descriptor().id.raw_name,
                self.descriptor().display_name,
                ToolTrustLevel::External,
                Map::empty(),
            ),
    {
        ToolSource::new(
            ToolNamespace::mcp_server(self.descriptor.id.server.as_str()),
            self.descriptor.id.raw_name.as_str(),
            self.descriptor.display_name.as_str(),
        ).with_trust(ToolTrustLevel::External)
    }

    /// The tool as the model sees it.
    pub fn schema(&self) -> (r: ToolSchema)
        ensures
            r@ == (ToolSchemaView {
                name: self.descriptor().display_name,
                description: self.descriptor().description,
                parameters: self.descriptor().input_schema,
                policy: ToolPolicy {
                    side_effects: SideEffectLevel::External,
                    risk: RiskLevel::Medium,
                    timeout: Some(self.limit()),
                    ..ToolPolicy::plain()
                },
                metadata: tool_metadata(
                    Map::empty(),
                    self.descriptor().id.server,
                    self.descriptor().id.raw_name,
                    self.descriptor().schema_digest,
                ).insert("mcp_annotations"@, self.descriptor().annotations),
            }),
    {
        let metadata = tool_metadata_of(
            JsonMap::new(),
            self.descriptor.id.server.as_str(),
            self.descriptor.id.raw_name.as_str(),
            self.descriptor.schema_digest.as_str(),
        ).put("mcp_annotations".to_owned(), self.descriptor.annotations.clone());
        let mut policy = ToolPolicy::default();
        policy.side_effects = SideEffectLevel::External;
        policy.risk = RiskLevel::Medium;
        policy.timeout = Some(self.call_timeout);
        ToolSchema::new(
            self.descriptor.display_name.as_str(),
            self.descriptor.description.as_str(),
            self.descriptor.input_schema.clone(),
        ).with_policy(policy).with_metadata(metadata)
    }

    /// The name and the arguments to call the server with, and for how long.
    pub fn prepare_call(&self, arguments: &Json) -> (r: Result<(String, JsonMap, Span), ToolError>)
        ensures
            match arguments@ {
                JsonView::Object(members) => r matches Ok((name, args, limit)) && name@
                    == self.descriptor().id.raw_name && args@ == members && limit == self.limit(),
                _ => r matches Err(e) && e@ == not_an_object(),
            },
    {
        match arguments.as_object() {
            Some(members) => Ok(
                (self.descriptor.id.raw_name.clone(), members.clone(), self.call_timeout),
            ),
            None => Err(
                ToolError::InvalidArguments("mcp tool arguments must be a JSON object".to_owned()),
            ),
        }
    }
}

/// What the caller of a tool gets for the outcome of the call on the server.
pub fn finish_call(outcome: McpCallOutcome) -> (r: Result<ToolResult, ToolError>)
    ensures
        match r {
            Ok(result) => direct_result(outcome) == Ok::<ToolResultView, ToolErrorView>(result@),
            Err(e) => direct_result(outcome) == Err::<ToolResultView, ToolErrorView>(e@),
        },
{
    match outcome {
        McpCallOutcome::TimedOut => Err(
            ToolError::Execution("mcp tool call timed out".to_owned()),
        ),
        McpCallOutcome::Failed(cause) => Err(
            ToolError::Execution(concat("mcp tool call failed: ", cause.as_str())),
        ),
        McpCallOutcome::Returned { content, structured, is_error } => {
            let text = match full_text_of(content_to_text(content.as_slice()), &structured) {
                Ok(text) => text,
                Err(e) => {
                    return Err(
                        ToolError::Execution(
                            concat("structured content serialization failed: ", e.as_str()),
                        ),
                    );
                },
            };
            let failed = match is_error {
                Some(flag) => flag,
                None => false,
            };
            match report(text, failed) {
                Ok(text) => Ok(ToolResult::Output(ToolOutput::text(text))),
                Err(message) => Err(ToolError::Execution(message)),
            }
        },
    }
}

} // verus!
