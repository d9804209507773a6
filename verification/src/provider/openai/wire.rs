//! Requests in the wire format of OpenAI-compatible endpoints.

use vstd::prelude::*;

use crate::json::{json_views, member, Json, JsonMap, JsonView};
use crate::message::{
    block_views, call_views, message_views, BlockView, ContentBlock, Message, MessageView,
    ToolCall, ToolCallView,
};
use crate::provider::{clone_opt_json, opt_json, ChatRequest, ChatRequestView, ModelOptions};
use crate::text::{concat3, opt_view, str_eq};
use crate::tool::{schema_views, ToolSchema, ToolSchemaView};
use base64::Engine;

verus! {

/// The text in which `base64`'s standard engine encodes bytes.
pub uninterp spec fn base64_text(data: Seq<u8>) -> Seq<char>;

/// `base64::engine::general_purpose::STANDARD.encode`: the bytes in the
/// standard alphabet, padded.
#[verifier::external_body]
fn base64_of(data: &[u8]) -> (r: String)
    ensures
        r@ == base64_text(data@),
{
    base64::engine::general_purpose::STANDARD.encode(data)
}

/// The members with one more, if there is a value for it.
pub open spec fn with_member(
    map: Map<Seq<char>, JsonView>,
    key: Seq<char>,
    value: Option<JsonView>,
) -> Map<Seq<char>, JsonView> {
    match value {
        Some(value) => map.insert(key, value),
        None => map,
    }
}

pub(crate) fn put_opt(map: JsonMap, key: &str, value: Option<Json>) -> (r: JsonMap)
    ensures
        r@ == with_member(map@, key@, opt_json(value)),
{
    match value {
        Some(value) => map.put(key.to_owned(), value),
        None => map,
    }
}

pub(crate) fn put_text(map: JsonMap, key: &str, text: &str) -> (r: JsonMap)
    ensures
        r@ == map@.insert(key@, JsonView::Text(text@)),
{
    map.put(key.to_owned(), Json::text(text.to_owned()))
}

/// A JSON object of these members.
pub open spec fn object(map: Map<Seq<char>, JsonView>) -> JsonView {
    JsonView::Object(map)
}

/// An optional text as an optional JSON string.
pub open spec fn opt_text(text: Option<Seq<char>>) -> Option<JsonView> {
    match text {
        Some(text) => Some(JsonView::Text(text)),
        None => None,
    }
}

/// The data URL of an image.
pub open spec fn data_url(mime_type: Seq<char>, data: Seq<u8>) -> Seq<char> {
    "data:"@ + mime_type + ";base64,"@ + base64_text(data)
}

/// A content block on the wire.
pub open spec fn block_json(block: BlockView) -> JsonView {
    match block {
        BlockView::Text(text) => object(
            Map::empty().insert("type"@, JsonView::Text("text"@)).insert(
                "text"@,
                JsonView::Text(text),
            ),
        ),
        BlockView::Image(image) => object(
            Map::empty().insert("type"@, JsonView::Text("image_url"@)).insert(
                "image_url"@,
                object(
                    Map::empty().insert(
                        "url"@,
                        JsonView::Text(data_url(image.mime_type, image.data)),
                    ),
                ),
            ),
        ),
    }
}

/// The content of a user's message: a string for a single text block, else an
/// array of blocks, and nothing for no blocks.
pub open spec fn blocks_json(blocks: Seq<BlockView>) -> Option<JsonView> {
    if blocks.len() == 1 && blocks[0] is Text {
        Some(JsonView::Text(blocks[0]->Text_0))
    } else if blocks.len() == 0 {
        None
    } else {
        Some(JsonView::Array(blocks.map_values(|b: BlockView| block_json(b))))
    }
}

/// Puts a content block on the wire; an image becomes a base64 data URL.
pub fn content_block_wire(block: &ContentBlock) -> (r: Json)
    ensures
        r@ == block_json(block@),
{
    match block {
        ContentBlock::Text(text) => {
            let map = put_text(JsonMap::new(), "type", "text");
            Json::object(put_text(map, "text", text.as_str()))
        },
        ContentBlock::Image(image) => {
            let mut url = concat3("data:", image.mime_type.as_str(), ";base64,");
            url.append(base64_of(image.data.as_slice()).as_str());
            let inner = Json::object(put_text(JsonMap::new(), "url", url.as_str()));
            let map = put_text(JsonMap::new(), "type", "image_url");
            Json::object(map.put("image_url".to_owned(), inner))
        },
    }
}

/// The content of a user's message on the wire.
pub fn user_content(blocks: &Vec<ContentBlock>) -> (r: Option<Json>)
    ensures
        opt_json(r) == blocks_json(block_views(blocks@)),
{
    let ghost all = block_views(blocks@);
    if blocks.len() == 1 {
        if let ContentBlock::Text(text) = &blocks[0] {
            assert(all[0] == blocks@[0]@);
            return Some(Json::text(text.clone()));
        }
        assert(all[0] == blocks@[0]@);
    }
    if blocks.len() == 0 {
        return None;
    }
    let ghost parts_view = all.map_values(|b: BlockView| block_json(b));
    let mut parts: Vec<Json> = Vec::new();
    let mut i: usize = 0;
    while i < blocks.len()
        invariant
            i <= blocks@.len(),
            all == block_views(blocks@),
            parts_view == all.map_values(|b: BlockView| block_json(b)),
            json_views(parts@) =~= parts_view.take(i as int),
        decreases blocks@.len() - i,
    {
        let ghost before = parts@;
        let part = content_block_wire(&blocks[i]);
        parts.push(part);
        assert(json_views(parts@) =~= json_views(before).push(part@));
        assert(all[i as int] == blocks@[i as int]@);
        assert(parts_view[i as int] == part@);
        i = i + 1;
    }
    assert(json_views(parts@) =~= parts_view);
    Some(Json::array(parts))
}

/// A tool request on the wire.
#[derive(Debug, PartialEq)]
pub struct OpenAiToolCall {
    pub id: String,
    /// Always `function` in requests.
    pub kind: String,
    pub name: String,
    pub arguments: String,
}

pub struct WireCallView {
    pub id: Seq<char>,
    pub kind: Seq<char>,
    pub name: Seq<char>,
    pub arguments: Seq<char>,
}

impl View for OpenAiToolCall {
    type V = WireCallView;

    open spec fn view(&self) -> WireCallView {
        WireCallView {
            id: self.id@,
            kind: self.kind@,
            name: self.name@,
            arguments: self.arguments@,
        }
    }
}

pub open spec fn wire_call_views(calls: Seq<OpenAiToolCall>) -> Seq<WireCallView> {
    calls.map_values(|c: OpenAiToolCall| c@)
}

/// A message on the wire, in requests and in replies.
#[derive(Debug, PartialEq)]
pub struct OpenAiMessage {
    pub role: String,
    pub content: Option<Json>,
    pub reasoning_content: Option<String>,
    pub tool_calls: Option<Vec<OpenAiToolCall>>,
    pub tool_call_id: Option<String>,
}

pub struct WireMessageView {
    pub role: Seq<char>,
    pub content: Option<JsonView>,
    pub reasoning_content: Option<Seq<char>>,
    pub tool_calls: Option<Seq<WireCallView>>,
    pub tool_call_id: Option<Seq<char>>,
}

impl View for OpenAiMessage {
    type V = WireMessageView;

    open spec fn view(&self) -> WireMessageView {
        WireMessageView {
            role: self.role@,
            content: opt_json(self.content),
            reasoning_content: opt_view(self.reasoning_content),
            tool_calls: match self.tool_calls {
                Some(calls) => Some(wire_call_views(calls@)),
                None => None,
            },
            tool_call_id: opt_view(self.tool_call_id),
        }
    }
}

/// A tool request as it is sent back.
pub open spec fn sent_call(call: ToolCallView) -> WireCallView {
    WireCallView { id: call.id, kind: "function"@, name: call.name, arguments: call.arguments }
}

/// A conversation message on the wire. An answer without text carries no
/// content, and one without tool requests no list of them.
pub open spec fn wire_message(message: MessageView) -> WireMessageView {
    let blank = WireMessageView {
        role: Seq::empty(),
        content: None,
        reasoning_content: None,
        tool_calls: None,
        tool_call_id: None,
    };
    match message {
        MessageView::System(text) => WireMessageView {
            role: "system"@,
            content: Some(JsonView::Text(text)),
            ..blank
        },
        MessageView::User(blocks) => WireMessageView {
            role: "user"@,
            content: blocks_json(blocks),
            ..blank
        },
        MessageView::Assistant { content, reasoning, tool_calls } => WireMessageView {
            role: "assistant"@,
            content: if content.len() == 0 {
                None
            } else {
                Some(JsonView::Text(content))
            },
            reasoning_content: reasoning,
            tool_calls: if tool_calls.len() == 0 {
                None
            } else {
                Some(tool_calls.map_values(|c: ToolCallView| sent_call(c)))
            },
            ..blank
        },
        MessageView::ToolResult { id, content } => WireMessageView {
            role: "tool"@,
            content: Some(JsonView::Text(content)),
            tool_call_id: Some(id),
            ..blank
        },
    }
}

pub open spec fn call_json(call: WireCallView) -> JsonView {
    object(
        Map::empty().insert("id"@, JsonView::Text(call.id)).insert(
            "type"@,
            JsonView::Text(call.kind),
        ).insert(
            "function"@,
            object(
                Map::empty().insert("name"@, JsonView::Text(call.name)).insert(
                    "arguments"@,
                    JsonView::Text(call.arguments),
                ),
            ),
        ),
    )
}

impl WireMessageView {
    /// The message as JSON; what is absent is left out.
    pub open spec fn json(self) -> JsonView {
        let m0 = Map::<Seq<char>, JsonView>::empty().insert("role"@, JsonView::Text(self.role));
        let m1 = with_member(m0, "content"@, self.content);
        let m2 = with_member(m1, "reasoning_content"@, opt_text(self.reasoning_content));
        let m3 = with_member(
            m2,
            "tool_calls"@,
            match self.tool_calls {
                Some(calls) => Some(
                    JsonView::Array(calls.map_values(|c: WireCallView| call_json(c))),
                ),
                None => None,
            },
        );
        object(with_member(m3, "tool_call_id"@, opt_text(self.tool_call_id)))
    }
}

fn sent_calls(calls: &Vec<ToolCall>) -> (r: Vec<OpenAiToolCall>)
    ensures
        wire_call_views(r@) == call_views(calls@).map_values(|c: ToolCallView| sent_call(c)),
{
    let ghost all = call_views(calls@).map_values(|c: ToolCallView| sent_call(c));
    let mut out: Vec<OpenAiToolCall> = Vec::new();
    let mut i: usize = 0;
    while i < calls.len()
        invariant
            i <= calls@.len(),
            all == call_views(calls@).map_values(|c: ToolCallView| sent_call(c)),
            wire_call_views(out@) =~= all.take(i as int),
        decreases calls@.len() - i,
    {
        let ghost before = out@;
        let call = OpenAiToolCall {
            id: calls[i].id.clone(),
            kind: "function".to_owned(),
            name: calls[i].name.clone(),
            arguments: calls[i].arguments.clone(),
        };
        out.push(call);
        assert(wire_call_views(out@) =~= wire_call_views(before).push(call@));
        assert(call_views(calls@)[i as int] == calls@[i as int]@);
        assert(all[i as int] == call@);
        i = i + 1;
    }
    assert(wire_call_views(out@) =~= all);
    out
}

fn call_to_json(call: &OpenAiToolCall) -> (r: Json)
    ensures
        r@ == call_json(call@),
{
    let function = put_text(JsonMap::new(), "name", call.name.as_str());
    let function = put_text(function, "arguments", call.arguments.as_str());
    let map = put_text(JsonMap::new(), "id", call.id.as_str());
    let map = put_text(map, "type", call.kind.as_str());
    Json::object(map.put("function".to_owned(), Json::object(function)))
}

fn opt_text_json(text: &Option<String>) -> (r: Option<Json>)
    ensures
        opt_json(r) == opt_text(opt_view(*text)),
{
    match text {
        Some(text) => Some(Json::text(text.clone())),
        None => None,
    }
}

impl OpenAiMessage {
    /// Puts a conversation message on the wire.
    pub fn from_message(message: &Message) -> (r: OpenAiMessage)
        ensures
            r@ == wire_message(message@),
    {
        match message {
            Message::System(content) => OpenAiMessage::text("system", content.as_str()),
            Message::User(blocks) => OpenAiMessage {
                role: "user".to_owned(),
                content: user_content(blocks),
                reasoning_content: None,
                tool_calls: None,
                tool_call_id: None,
            },
            Message::Assistant { content, reasoning, tool_calls } => {
                assert(call_views(tool_calls@).len() == tool_calls@.len());
                OpenAiMessage {
                    role: "assistant".to_owned(),
                    content: if content.as_str().is_empty() {
                        None
                    } else {
                        Some(Json::text(content.clone()))
                    },
                    reasoning_content: reasoning.clone(),
                    tool_calls: if tool_calls.len() == 0 {
                        None
                    } else {
                        Some(sent_calls(tool_calls))
                    },
                    tool_call_id: None,
                }
            },
            Message::ToolResult { id, content } => {
                let r = OpenAiMessage::text("tool", content.as_str());
                OpenAiMessage {
                    role: r.role,
                    content: r.content,
                    reasoning_content: None,
                    tool_calls: None,
                    tool_call_id: Some(id.clone()),
                }
            },
        }
    }

    fn text(role: &str, content: &str) -> (r: OpenAiMessage)
        ensures
            r@ == (WireMessageView {
                role: role@,
                content: Some(JsonView::Text(content@)),
                reasoning_content: None,
                tool_calls: None,
                tool_call_id: None,
            }),
    {
        OpenAiMessage {
            role: role.to_owned(),
            content: Some(Json::text(content.to_owned())),
            reasoning_content: None,
            tool_calls: None,
            tool_call_id: None,
        }
    }

    /// The message as JSON.
    pub fn to_json(&self) -> (r: Json)
        ensures
            r@ == self@.json(),
    {
        let map = put_text(JsonMap::new(), "role", self.role.as_str());
        let map = put_opt(map, "content", clone_opt_json(&self.content));
        let map = put_opt(map, "reasoning_content", opt_text_json(&self.reasoning_content));
        let calls: Option<Json> = match &self.tool_calls {
            Some(calls) => {
                let ghost all = wire_call_views(calls@).map_values(|c: WireCallView| call_json(c));
                let mut items: Vec<Json> = Vec::new();
                let mut i: usize = 0;
                while i < calls.len()
                    invariant
                        i <= calls@.len(),
                        all == wire_call_views(calls@).map_values(|c: WireCallView| call_json(c)),
                        json_views(items@) =~= all.take(i as int),
                    decreases calls@.len() - i,
                {
                    let ghost before = items@;
                    let item = call_to_json(&calls[i]);
                    items.push(item);
                    assert(json_views(items@) =~= json_views(before).push(item@));
                    assert(wire_call_views(calls@)[i as int] == calls@[i as int]@);
                    assert(all[i as int] == item@);
                    i = i + 1;
                }
                assert(json_views(items@) =~= all);
                Some(Json::array(items))
            },
            None => None,
        };
        let map = put_opt(map, "tool_calls", calls);
        let map = put_opt(map, "tool_call_id", opt_text_json(&self.tool_call_id));
        Json::object(map)
    }
}

/// A tool definition on the wire.
pub open spec fn tool_json(schema: ToolSchemaView) -> JsonView {
    object(
        Map::empty().insert("type"@, JsonView::Text("function"@)).insert(
            "function"@,
            object(
                Map::empty().insert("name"@, JsonView::Text(schema.name)).insert(
                    "description"@,
                    JsonView::Text(schema.description),
                ).insert("parameters"@, schema.parameters),
            ),
        ),
    )
}

/// Puts a tool definition on the wire.
pub fn tool_def(schema: &ToolSchema) -> (r: Json)
    ensures
        r@ == tool_json(schema@),
{
    let function = put_text(JsonMap::new(), "name", schema.name.as_str());
    let function = put_text(function, "description", schema.description.as_str());
    let function = function.put("parameters".to_owned(), schema.parameters.clone());
    let map = put_text(JsonMap::new(), "type", "function");
    Json::object(map.put("function".to_owned(), Json::object(function)))
}

/// How the wish for structured output is sent.
#[derive(Debug, Clone, Copy, PartialEq, Eq, Structural)]
pub enum StructuredOutputMode {
    /// As a JSON schema, strict where the schema allows it.
    Native,
    /// As the wish for any JSON object.
    JsonObject,
    /// Not at all.
    Off,
}

impl Default for StructuredOutputMode {
    fn default() -> (r: StructuredOutputMode)
        ensures
            r == StructuredOutputMode::Native,
    {
        StructuredOutputMode::Native
    }
}

/// Whether a schema can be enforced strictly: an object whose `required` is a
/// list of names that covers all its properties.
pub open spec fn strict_ready(schema: JsonView) -> bool {
    &&& member(schema, "type"@) == Some(JsonView::Text("object"@))
    &&& member(schema, "properties"@) matches Some(JsonView::Object(properties))
    &&& member(schema, "required"@) matches Some(JsonView::Array(required))
    &&& forall|i: int| 0 <= i < required.len() ==> #[trigger] required[i] is Text
    &&& forall|name: Seq<char>| #[trigger]
        properties.contains_key(name) ==> required.contains(JsonView::Text(name))
}

/// The `response_format` for a schema.
pub open spec fn schema_format(schema: JsonView) -> JsonView {
    let m0 = Map::<Seq<char>, JsonView>::empty().insert("type"@, JsonView::Text("json_schema"@));
    let named = Map::<Seq<char>, JsonView>::empty().insert("name"@, JsonView::Text("output"@));
    if strict_ready(schema) {
        object(
            m0.insert("strict"@, JsonView::Bool(true)).insert(
                "json_schema"@,
                object(
                    named.insert(
                        "schema"@,
                        object(
                            schema->Object_0.insert(
                                "additionalProperties"@,
                                JsonView::Bool(false),
                            ),
                        ),
                    ),
                ),
            ),
        )
    } else {
        object(m0.insert("json_schema"@, object(named.insert("schema"@, schema))))
    }
}

pub open spec fn object_format() -> JsonView {
    object(Map::empty().insert("type"@, JsonView::Text("json_object"@)))
}

/// The `response_format` that is sent for a schema in a mode.
pub open spec fn response_format(
    mode: StructuredOutputMode,
    schema: Option<JsonView>,
) -> Option<JsonView> {
    match (mode, schema) {
        (StructuredOutputMode::Off, _) => None,
        (_, None) => None,
        (StructuredOutputMode::Native, Some(schema)) => Some(schema_format(schema)),
        (StructuredOutputMode::JsonObject, Some(_)) => Some(object_format()),
    }
}

fn text_is(json: &Json, text: &str) -> (r: bool)
    ensures
        r == (json@ == JsonView::Text(text@)),
{
    match json.as_str() {
        Some(s) => str_eq(s, text),
        None => false,
    }
}

fn lists_text(items: &Vec<Json>, text: &str) -> (r: bool)
    ensures
        r == json_views(items@).contains(JsonView::Text(text@)),
{
    let ghost all = json_views(items@);
    let mut i: usize = 0;
    while i < items.len()
        invariant
            i <= items@.len(),
            all == json_views(items@),
            forall|j: int| 0 <= j < i ==> #[trigger] all[j] != JsonView::Text(text@),
        decreases items@.len() - i,
    {
        assert(all[i as int] == items@[i as int]@);
        if text_is(&items[i], text) {
            return true;
        }
        i = i + 1;
    }
    false
}

fn is_strict_ready(schema: &Json) -> (r: bool)
    ensures
        r == strict_ready(schema@),
{
    match schema.get("type") {
        Some(kind) => if !text_is(kind, "object") {
            return false;
        },
        None => {
            return false;
        },
    }
    let properties = match schema.get("properties") {
        Some(json) => match json.as_object() {
            Some(map) => map,
            None => {
                return false;
            },
        },
        None => {
            return false;
        },
    };
    let required = match schema.get("required") {
        Some(json) => match json.as_array() {
            Some(items) => items,
            None => {
                return false;
            },
        },
        None => {
            return false;
        },
    };
    let ghost listed = json_views(required@);
    assert(member(schema@, "properties"@) == Some(JsonView::Object(properties@)));
    assert(member(schema@, "required"@) == Some(JsonView::Array(listed)));
    let mut i: usize = 0;
    while i < required.len()
        invariant
            i <= required@.len(),
            listed == json_views(required@),
            member(schema@, "required"@) == Some(JsonView::Array(listed)),
            forall|j: int| 0 <= j < i ==> #[trigger] listed[j] is Text,
        decreases required@.len() - i,
    {
        assert(listed[i as int] == required@[i as int]@);
        if required[i].as_str().is_none() {
            return false;
        }
        i = i + 1;
    }
    let entries = properties.entries();
    let mut k: usize = 0;
    while k < entries.len()
        invariant
            k <= entries@.len(),
            listed == json_views(required@),
            member(schema@, "properties"@) == Some(JsonView::Object(properties@)),
            member(schema@, "required"@) == Some(JsonView::Array(listed)),
            forall|j: int|
                0 <= j < entries@.len() ==> properties@.contains_key((#[trigger] entries@[j]).0@),
            forall|j: int|
                0 <= j < k ==> listed.contains(JsonView::Text((#[trigger] entries@[j]).0@)),
        decreases entries@.len() - k,
    {
        if !lists_text(required, entries[k].0.as_str()) {
            let ghost name = entries@[k as int].0@;
            proof {
                if strict_ready(schema@) {
                    let all = (member(schema@, "properties"@)->0)->Object_0;
                    let names = (member(schema@, "required"@)->0)->Array_0;
                    assert(all.contains_key(name));
                    assert(names.contains(JsonView::Text(name)));
                }
            }
            return false;
        }
        k = k + 1;
    }
    assert forall|name: Seq<char>| #[trigger] properties@.contains_key(name) implies listed.contains(
        JsonView::Text(name),
    ) by {
        let j = choose|j: int| 0 <= j < entries@.len() && (#[trigger] entries@[j]).0@ == name;
        assert(listed.contains(JsonView::Text(entries@[j].0@)));
    }
    true
}

/// The `response_format` that asks for a JSON schema. A schema that can be
/// enforced strictly is closed against further properties and marked so.
pub fn format_from_schema(schema: &Json) -> (r: Json)
    ensures
        r@ == schema_format(schema@),
{
    let map = put_text(JsonMap::new(), "type", "json_schema");
    let named = put_text(JsonMap::new(), "name", "output");
    if is_strict_ready(schema) {
        match schema.as_object() {
            Some(members) => {
                let closed = members.clone().put(
                    "additionalProperties".to_owned(),
                    Json::boolean(false),
                );
                let named = named.put("schema".to_owned(), Json::object(closed));
                let map = map.put("strict".to_owned(), Json::boolean(true));
                return Json::object(map.put("json_schema".to_owned(), Json::object(named)));
            },
            None => {},
        }
    }
    let named = named.put("schema".to_owned(), schema.clone());
    Json::object(map.put("json_schema".to_owned(), Json::object(named)))
}

/// The `response_format` that asks for any JSON object.
pub fn json_object_format() -> (r: Json)
    ensures
        r@ == object_format(),
{
    Json::object(put_text(JsonMap::new(), "type", "json_object"))
}

/// The `response_format` to send, if any.
pub fn wire_response_format(mode: StructuredOutputMode, schema: &Option<Json>) -> (r: Option<Json>)
    ensures
        opt_json(r) == response_format(mode, opt_json(*schema)),
{
    match schema {
        None => None,
        Some(schema) => match mode {
            StructuredOutputMode::Off => None,
            StructuredOutputMode::Native => Some(format_from_schema(schema)),
            StructuredOutputMode::JsonObject => Some(json_object_format()),
        },
    }
}

/// The request fields that no vendor parameter can replace.
pub open spec fn is_managed(key: Seq<char>) -> bool {
    ||| key == "model"@
    ||| key == "messages"@
    ||| key == "tools"@
    ||| key == "stream"@
    ||| key == "stream_options"@
    ||| key == "temperature"@
    ||| key == "max_tokens"@
}

/// The vendor parameters that are sent.
pub open spec fn vendor_members(extra: Map<Seq<char>, JsonView>) -> Map<Seq<char>, JsonView> {
    Map::new(|key: Seq<char>| extra.contains_key(key) && !is_managed(key), |key: Seq<char>| extra[key])
}

fn is_managed_key(key: &str) -> (r: bool)
    ensures
        r == is_managed(key@),
{
    str_eq(key, "model") || str_eq(key, "messages") || str_eq(key, "tools") || str_eq(key, "stream")
        || str_eq(key, "stream_options") || str_eq(key, "temperature") || str_eq(key, "max_tokens")
}

/// Drops the vendor parameters that collide with managed fields.
pub fn wire_extra(options: &ModelOptions) -> (r: JsonMap)
    ensures
        r@ == vendor_members(options@.extra),
{
    let entries = options.extra.entries();
    let ghost extra = options.extra@;
    let mut out = JsonMap::new();
    let mut i: usize = 0;
    while i < entries.len()
        invariant
            i <= entries@.len(),
            extra == options.extra@,
            forall|j: int|
                0 <= j < entries@.len() ==> extra.contains_key((#[trigger] entries@[j]).0@)
                    && extra[entries@[j].0@] == entries@[j].1@,
            forall|key: Seq<char>| #[trigger]
                out@.contains_key(key) ==> extra.contains_key(key) && !is_managed(key) && out@[key]
                    == extra[key],
            forall|j: int|
                0 <= j < i && !is_managed((#[trigger] entries@[j]).0@) ==> out@.contains_key(
                    entries@[j].0@,
                ),
        decreases entries@.len() - i,
    {
        let key = entries[i].0.as_str();
        if !is_managed_key(key) {
            out = out.put(key.to_owned(), entries[i].1.clone());
        }
        i = i + 1;
    }
    assert(out@ =~= vendor_members(extra)) by {
        assert forall|key: Seq<char>| out@.dom().contains(key) == vendor_members(
            extra,
        ).dom().contains(key) by {
            if extra.contains_key(key) && !is_managed(key) {
                let j = choose|j: int| 0 <= j < entries@.len() && (#[trigger] entries@[j]).0@ == key;
                assert(out@.contains_key(entries@[j].0@));
            }
            if out@.contains_key(key) {
                assert(extra.contains_key(key));
            }
        }
    }
    out
}

/// The members that the request itself has, apart from vendor parameters.
pub open spec fn own_members(
    model: Seq<char>,
    request: ChatRequestView,
    mode: StructuredOutputMode,
    streaming: bool,
) -> Map<Seq<char>, JsonView> {
    let m0 = Map::<Seq<char>, JsonView>::empty().insert("model"@, JsonView::Text(model)).insert(
        "messages"@,
        JsonView::Array(request.messages.map_values(|m: MessageView| wire_message(m).json())),
    );
    let m1 = if request.tools.len() == 0 {
        m0
    } else {
        m0.insert(
            "tools"@,
            JsonView::Array(request.tools.map_values(|t: ToolSchemaView| tool_json(t))),
        )
    };
    let m2 = if streaming {
        m1.insert("stream"@, JsonView::Bool(true)).insert(
            "stream_options"@,
            object(Map::empty().insert("include_usage"@, JsonView::Bool(true))),
        )
    } else {
        m1
    };
    let m3 = with_member(m2, "temperature"@, request.options.temperature);
    let m4 = with_member(
        m3,
        "max_tokens"@,
        match request.options.max_tokens {
            Some(n) => Some(JsonView::Unsigned(n as u64)),
            None => None,
        },
    );
    with_member(m4, "response_format"@, response_format(mode, request.options.structured))
}

/// The body of a request: its own members, and the vendor parameters beside
/// them.
pub open spec fn request_json(
    model: Seq<char>,
    request: ChatRequestView,
    mode: StructuredOutputMode,
    streaming: bool,
) -> JsonView {
    object(
        vendor_members(request.options.extra).union_prefer_right(
            own_members(model, request, mode, streaming),
        ),
    )
}

fn messages_json(messages: &Vec<Message>) -> (r: Json)
    ensures
        r@ == JsonView::Array(
            message_views(messages@).map_values(|m: MessageView| wire_message(m).json()),
        ),
{
    let ghost all = message_views(messages@).map_values(|m: MessageView| wire_message(m).json());
    let mut items: Vec<Json> = Vec::new();
    let mut i: usize = 0;
    while i < messages.len()
        invariant
            i <= messages@.len(),
            all == message_views(messages@).map_values(|m: MessageView| wire_message(m).json()),
            json_views(items@) =~= all.take(i as int),
        decreases messages@.len() - i,
    {
        let ghost before = items@;
        let item = OpenAiMessage::from_message(&messages[i]).to_json();
        items.push(item);
        assert(json_views(items@) =~= json_views(before).push(item@));
        assert(message_views(messages@)[i as int] == messages@[i as int]@);
        assert(all[i as int] == item@);
        i = i + 1;
    }
    assert(json_views(items@) =~= all);
    Json::array(items)
}

fn tools_json(tools: &Vec<ToolSchema>) -> (r: Json)
    ensures
        r@ == JsonView::Array(schema_views(tools@).map_values(|t: ToolSchemaView| tool_json(t))),
{
    let ghost all = schema_views(tools@).map_values(|t: ToolSchemaView| tool_json(t));
    let mut items: Vec<Json> = Vec::new();
    let mut i: usize = 0;
    while i < tools.len()
        invariant
            i <= tools@.len(),
            all == schema_views(tools@).map_values(|t: ToolSchemaView| tool_json(t)),
            json_views(items@) =~= all.take(i as int),
        decreases tools@.len() - i,
    {
        let ghost before = items@;
        let item = tool_def(&tools[i]);
        items.push(item);
        assert(json_views(items@) =~= json_views(before).push(item@));
        assert(schema_views(tools@)[i as int] == tools@[i as int]@);
        assert(all[i as int] == item@);
        i = i + 1;
    }
    assert(json_views(items@) =~= all);
    Json::array(items)
}

fn own_map(model: &str, request: &ChatRequest, mode: StructuredOutputMode, streaming: bool) -> (r:
    JsonMap)
    ensures
        r@ == own_members(model@, request@, mode, streaming),
{
    let map = put_text(JsonMap::new(), "model", model);
    let map = map.put("messages".to_owned(), messages_json(&request.messages));
    assert(schema_views(request.tools@).len() == request.tools@.len());
    let map = if request.tools.len() == 0 {
        map
    } else {
        map.put("tools".to_owned(), tools_json(&request.tools))
    };
    let map = if streaming {
        let usage = JsonMap::new().put("include_usage".to_owned(), Json::boolean(true));
        map.put("stream".to_owned(), Json::boolean(true)).put(
            "stream_options".to_owned(),
            Json::object(usage),
        )
    } else {
        map
    };
    let map = put_opt(map, "temperature", clone_opt_json(&request.options.temperature));
    let limit: Option<Json> = match request.options.max_tokens {
        Some(n) => Some(Json::unsigned(n as u64)),
        None => None,
    };
    let map = put_opt(map, "max_tokens", limit);
    put_opt(map, "response_format", wire_response_format(mode, &request.options.structured))
}

/// The body of a request. Where a vendor parameter has the name of a member
/// that the request itself has, the request's own counts.
pub fn request_body(
    model: &str,
    request: &ChatRequest,
    mode: StructuredOutputMode,
    streaming: bool,
) -> (r: Json)
    ensures
        r@ == request_json(model@, request@, mode, streaming),
{
    let own = own_map(model, request, mode, streaming);
    let entries = own.entries();
    let ghost members = own@;
    let ghost vendor = vendor_members(request@.options.extra);
    let mut map = wire_extra(&request.options);
    let mut i: usize = 0;
    while i < entries.len()
        invariant
            i <= entries@.len(),
            forall|j: int|
                0 <= j < entries@.len() ==> members.contains_key((#[trigger] entries@[j]).0@)
                    && members[entries@[j].0@] == entries@[j].1@,
            forall|key: Seq<char>| #[trigger]
                map@.contains_key(key) ==> vendor.contains_key(key) || members.contains_key(key),
            forall|key: Seq<char>| vendor.contains_key(key) ==> #[trigger] map@.contains_key(key),
            forall|key: Seq<char>| #[trigger]
                map@.contains_key(key) ==> map@[key] == vendor[key] && vendor.contains_key(key)
                    || members.contains_key(key) && map@[key] == members[key],
            forall|j: int|
                0 <= j < i ==> map@.contains_key((#[trigger] entries@[j]).0@)
                    && map@[entries@[j].0@] == members[entries@[j].0@],
        decreases entries@.len() - i,
    {
        map = map.put(entries[i].0.clone(), entries[i].1.clone());
        i = i + 1;
    }
    let ghost whole = vendor.union_prefer_right(members);
    assert(map@ =~= whole) by {
        assert forall|key: Seq<char>|
            #![trigger map@.dom().contains(key)]
            #![trigger whole.dom().contains(key)]
            #![trigger map@[key]]
            map@.dom().contains(key) == whole.dom().contains(key) && (map@.dom().contains(key)
                ==> map@[key] == whole[key]) by {
            if members.contains_key(key) {
                let j = choose|j: int| 0 <= j < entries@.len() && (#[trigger] entries@[j]).0@ == key;
                assert(map@.contains_key(entries@[j].0@));
            }
            if map@.contains_key(key) {
                assert(vendor.contains_key(key) || members.contains_key(key));
            }
            if vendor.contains_key(key) {
                assert(map@.contains_key(key));
            }
        }
    }
    Json::object(map)
}

} // verus!
