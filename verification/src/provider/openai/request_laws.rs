//! What a request puts on the wire, member by member.

use vstd::prelude::*;

use super::wire::{
    base64_text, block_json, call_json, request_json, response_format, schema_format,
    sent_call, tool_json, wire_message, OpenAiMessage, StructuredOutputMode, WireCallView,
};
use super::{OpenAiProvider, OpenAiView};
use crate::json::{member, Json, JsonView};
use crate::message::{BlockView, Message, MessageView, ToolCallView};
use crate::provider::{opt_json, ChatRequest, ChatRequestView};
use crate::time::Span;
use crate::tool::ToolSchemaView;

verus! {

/// The member `inner` of the member `outer`.
pub open spec fn inner_member(json: JsonView, outer: Seq<char>, inner: Seq<char>) -> Option<
    JsonView,
> {
    match member(json, outer) {
        Some(value) => member(value, inner),
        None => None,
    }
}

/// Who speaks in a message, as endpoints name it.
pub open spec fn role_name(message: MessageView) -> Seq<char> {
    match message {
        MessageView::System(_) => "system"@,
        MessageView::User(_) => "user"@,
        MessageView::Assistant { .. } => "assistant"@,
        MessageView::ToolResult { .. } => "tool"@,
    }
}

/// Whether a JSON object is a tool request with this id, name and arguments.
pub open spec fn says_call(json: JsonView, call: ToolCallView) -> bool {
    &&& member(json, "id"@) == Some(JsonView::Text(call.id))
    &&& member(json, "type"@) == Some(JsonView::Text("function"@))
    &&& inner_member(json, "function"@, "name"@) == Some(JsonView::Text(call.name))
    &&& inner_member(json, "function"@, "arguments"@) == Some(JsonView::Text(call.arguments))
}

/// Whether a JSON object is a block with this text or image.
pub open spec fn says_block(json: JsonView, block: BlockView) -> bool {
    match block {
        BlockView::Text(text) => {
            &&& member(json, "type"@) == Some(JsonView::Text("text"@))
            &&& member(json, "text"@) == Some(JsonView::Text(text))
        },
        BlockView::Image(image) => {
            &&& member(json, "type"@) == Some(JsonView::Text("image_url"@))
            &&& inner_member(json, "image_url"@, "url"@) == Some(
                JsonView::Text("data:"@ + image.mime_type + ";base64,"@ + base64_text(image.data)),
            )
        },
    }
}

/// Whether a JSON object says what a message says.
pub open spec fn says_message(json: JsonView, message: MessageView) -> bool {
    let content = member(json, "content"@);
    let calls = member(json, "tool_calls"@);
    &&& member(json, "role"@) == Some(JsonView::Text(role_name(message)))
    &&& match message {
        MessageView::System(text) => content == Some(JsonView::Text(text)) && calls is None,
        MessageView::User(blocks) => {
            &&& calls is None
            &&& blocks.len() == 0 ==> content is None
            &&& blocks.len() == 1 && blocks[0] is Text ==> content == Some(
                JsonView::Text(blocks[0]->Text_0),
            )
            &&& blocks.len() > 1 || blocks.len() == 1 && blocks[0] is Image ==> {
                &&& content matches Some(JsonView::Array(items))
                &&& items.len() == blocks.len()
                &&& forall|i: int|
                    0 <= i < blocks.len() ==> says_block(#[trigger] items[i], blocks[i])
            }
        },
        MessageView::Assistant { content: text, reasoning, tool_calls } => {
            &&& text.len() > 0 ==> content == Some(JsonView::Text(text))
            &&& text.len() == 0 ==> content is None
            &&& member(json, "reasoning_content"@) == match reasoning {
                Some(reasoning) => Some(JsonView::Text(reasoning)),
                None => None,
            }
            &&& tool_calls.len() == 0 ==> calls is None
            &&& tool_calls.len() > 0 ==> {
                &&& calls matches Some(JsonView::Array(items))
                &&& items.len() == tool_calls.len()
                &&& forall|i: int|
                    0 <= i < tool_calls.len() ==> says_call(#[trigger] items[i], tool_calls[i])
            }
        },
        MessageView::ToolResult { id, content: text } => {
            &&& content == Some(JsonView::Text(text))
            &&& member(json, "tool_call_id"@) == Some(JsonView::Text(id))
            &&& calls is None
        },
    }
}

proof fn lemma_keys()
    ensures
        "role"@.len() == 4,
        "content"@.len() == 7,
        "reasoning_content"@.len() == 17,
        "tool_calls"@.len() == 10,
        "tool_call_id"@.len() == 12,
        "id"@.len() == 2,
        "type"@.len() == 4,
        "text"@.len() == 4,
        "type"@[1] != "text"@[1],
        "image_url"@.len() == 9,
        "function"@.len() == 8,
        "name"@.len() == 4,
        "arguments"@.len() == 9,
        "description"@.len() == 11,
        "parameters"@.len() == 10,
        "system"@.len() == 6,
        "user"@.len() == 4,
        "assistant"@.len() == 9,
        "tool"@.len() == 4,
        "user"@[0] != "tool"@[0],
        "model"@.len() == 5,
        "tools"@.len() == 5,
        "model"@[0] != "tools"@[0],
        "messages"@.len() == 8,
        "stream"@.len() == 6,
        "stream_options"@.len() == 14,
        "temperature"@.len() == 11,
        "max_tokens"@.len() == 10,
        "response_format"@.len() == 15,
        "strict"@.len() == 6,
        "json_schema"@.len() == 11,
        "schema"@.len() == 6,
        "additionalProperties"@.len() == 20,
{
    reveal_strlit("role");
    reveal_strlit("content");
    reveal_strlit("reasoning_content");
    reveal_strlit("tool_calls");
    reveal_strlit("tool_call_id");
    reveal_strlit("id");
    reveal_strlit("type");
    reveal_strlit("text");
    reveal_strlit("image_url");
    reveal_strlit("function");
    reveal_strlit("name");
    reveal_strlit("arguments");
    reveal_strlit("description");
    reveal_strlit("parameters");
    reveal_strlit("system");
    reveal_strlit("user");
    reveal_strlit("assistant");
    reveal_strlit("tool");
    reveal_strlit("model");
    reveal_strlit("tools");
    reveal_strlit("messages");
    reveal_strlit("stream");
    reveal_strlit("stream_options");
    reveal_strlit("temperature");
    reveal_strlit("max_tokens");
    reveal_strlit("response_format");
    reveal_strlit("strict");
    reveal_strlit("json_schema");
    reveal_strlit("schema");
    reveal_strlit("additionalProperties");
}

/// A message is sent with its role and with everything that it says: its text,
/// its images, its reasoning, its tool requests, and the id that a tool's
/// result answers.
#[verifier::rlimit(40)]
pub proof fn law_messages_are_sent_in_full(message: MessageView)
    ensures
        says_message(wire_message(message).json(), message),
{
    lemma_keys();
    let json = wire_message(message).json();
    match message {
        MessageView::System(_) => {},
        MessageView::User(blocks) => {
            if blocks.len() > 1 || blocks.len() == 1 && blocks[0] is Image {
                let items = blocks.map_values(|b: BlockView| block_json(b));
                assert(member(json, "content"@) == Some(JsonView::Array(items)));
                assert forall|i: int| 0 <= i < blocks.len() implies says_block(
                    #[trigger] items[i],
                    blocks[i],
                ) by {
                    assert(items[i] == block_json(blocks[i]));
                }
            }
        },
        MessageView::Assistant { content, reasoning, tool_calls } => {
            if tool_calls.len() > 0 {
                let sent = tool_calls.map_values(|c: ToolCallView| sent_call(c));
                let items = sent.map_values(|c: WireCallView| call_json(c));
                assert(member(json, "tool_calls"@) == Some(JsonView::Array(items)));
                assert forall|i: int| 0 <= i < tool_calls.len() implies says_call(
                    #[trigger] items[i],
                    tool_calls[i],
                ) by {
                    assert(items[i] == call_json(sent_call(tool_calls[i])));
                }
            }
        },
        MessageView::ToolResult { id, content } => {},
    }
}

/// Whether a message holds no image.
pub open spec fn has_no_image(message: MessageView) -> bool {
    message matches MessageView::User(blocks) ==> forall|i: int|
        0 <= i < blocks.len() ==> #[trigger] blocks[i] is Text
}

/// Different messages look different on the wire, so nothing of a message is
/// lost there. (Images are sent as data URLs, which tell their types and bytes
/// apart only as far as the encoding does.)
#[verifier::rlimit(40)]
pub proof fn law_different_messages_are_sent_differently(a: MessageView, b: MessageView)
    requires
        has_no_image(a),
        has_no_image(b),
        wire_message(a).json() == wire_message(b).json(),
    ensures
        a == b,
{
    lemma_keys();
    let json = wire_message(a).json();
    law_messages_are_sent_in_full(a);
    law_messages_are_sent_in_full(b);
    assert(member(json, "role"@) == Some(JsonView::Text(role_name(a))));
    assert(member(json, "role"@) == Some(JsonView::Text(role_name(b))));
    assert(role_name(a) == role_name(b));
    match (a, b) {
        (MessageView::User(x), MessageView::User(y)) => {
            lemma_same_blocks(x, y, json);
            assert(x =~= y);
        },
        (
            MessageView::Assistant { content: s, reasoning: p, tool_calls: x },
            MessageView::Assistant { content: t, reasoning: q, tool_calls: y },
        ) => {
            assert(s =~= t);
            assert(p == q);
            if x.len() > 0 && y.len() > 0 {
                let items = (member(json, "tool_calls"@)->0)->Array_0;
                assert forall|i: int| 0 <= i < x.len() implies x[i] == y[i] by {
                    assert(says_call(items[i], x[i]));
                    assert(says_call(items[i], y[i]));
                }
            }
            assert(x =~= y);
        },
        _ => {},
    }
}

proof fn lemma_same_blocks(x: Seq<BlockView>, y: Seq<BlockView>, json: JsonView)
    requires
        says_message(json, MessageView::User(x)),
        says_message(json, MessageView::User(y)),
        has_no_image(MessageView::User(x)),
        has_no_image(MessageView::User(y)),
    ensures
        x =~= y,
{
    if x.len() > 1 && y.len() > 1 {
        let items = (member(json, "content"@)->0)->Array_0;
        assert forall|i: int| 0 <= i < x.len() implies x[i] == y[i] by {
            assert(says_block(items[i], x[i]));
            assert(says_block(items[i], y[i]));
            assert(x[i] is Text && y[i] is Text);
        }
    } else if x.len() == 1 && y.len() == 1 {
        assert(x[0] is Text && y[0] is Text);
    } else if x.len() == 1 {
        assert(x[0] is Text);
    } else if y.len() == 1 {
        assert(y[0] is Text);
    }
}

/// Whether a JSON object defines a tool.
pub open spec fn says_tool(json: JsonView, tool: ToolSchemaView) -> bool {
    &&& member(json, "type"@) == Some(JsonView::Text("function"@))
    &&& inner_member(json, "function"@, "name"@) == Some(JsonView::Text(tool.name))
    &&& inner_member(json, "function"@, "description"@) == Some(JsonView::Text(tool.description))
    &&& inner_member(json, "function"@, "parameters"@) == Some(tool.parameters)
}

/// Whether a body says what a request says, to a model.
pub open spec fn says_request(
    body: JsonView,
    model: Seq<char>,
    request: ChatRequestView,
    streaming: bool,
) -> bool {
    &&& member(body, "model"@) == Some(JsonView::Text(model))
    &&& member(body, "messages"@) matches Some(JsonView::Array(items)) && items.len()
        == request.messages.len() && forall|i: int|
        0 <= i < items.len() ==> says_message(#[trigger] items[i], request.messages[i])
    &&& request.tools.len() == 0 ==> member(body, "tools"@) is None
    &&& request.tools.len() > 0 ==> (member(body, "tools"@) matches Some(JsonView::Array(items))
        && items.len() == request.tools.len() && forall|i: int|
        0 <= i < items.len() ==> says_tool(#[trigger] items[i], request.tools[i]))
    &&& streaming ==> member(body, "stream"@) == Some(JsonView::Bool(true)) && inner_member(
        body,
        "stream_options"@,
        "include_usage"@,
    ) == Some(JsonView::Bool(true))
    &&& !streaming ==> member(body, "stream"@) is None && member(body, "stream_options"@) is None
    &&& member(body, "temperature"@) == request.options.temperature
    &&& member(body, "max_tokens"@) == match request.options.max_tokens {
        Some(n) => Some(JsonView::Unsigned(n as u64)),
        None => None,
    }
}

/// A request's body carries the model, the conversation message by message, the
/// tools one by one, and the options that are set; a streamed reply is asked
/// for with its usage.
#[verifier::rlimit(40)]
pub proof fn law_body_carries_the_request(
    model: Seq<char>,
    request: ChatRequestView,
    mode: StructuredOutputMode,
    streaming: bool,
)
    ensures
        says_request(request_json(model, request, mode, streaming), model, request, streaming),
{
    lemma_keys();
    let body = request_json(model, request, mode, streaming);
    let sent = request.messages.map_values(|m: MessageView| wire_message(m).json());
    assert(member(body, "messages"@) == Some(JsonView::Array(sent)));
    assert forall|i: int| 0 <= i < sent.len() implies says_message(
        #[trigger] sent[i],
        request.messages[i],
    ) by {
        law_messages_are_sent_in_full(request.messages[i]);
    }
    let tools = request.tools.map_values(|t: ToolSchemaView| tool_json(t));
    if request.tools.len() > 0 {
        assert(member(body, "tools"@) == Some(JsonView::Array(tools)));
        assert forall|i: int| 0 <= i < tools.len() implies says_tool(
            #[trigger] tools[i],
            request.tools[i],
        ) by {
            assert(tools[i] == tool_json(request.tools[i]));
        }
    }
}

/// Vendor parameters reach the endpoint as they are, unless they bear the name
/// of a field that the request itself decides.
pub proof fn law_vendor_parameters_are_sent(
    model: Seq<char>,
    request: ChatRequestView,
    mode: StructuredOutputMode,
    streaming: bool,
    key: Seq<char>,
)
    requires
        key != "model"@ && key != "messages"@ && key != "tools"@ && key != "stream"@,
        key != "stream_options"@ && key != "temperature"@ && key != "max_tokens"@,
        key != "response_format"@,
    ensures
        member(request_json(model, request, mode, streaming), key)
            == if request.options.extra.contains_key(key) {
            Some(request.options.extra[key])
        } else {
            None
        },
{
}

/// Whether a schema is one of an object whose properties are all required.
pub open spec fn requires_all(schema: JsonView) -> bool {
    &&& member(schema, "type"@) == Some(JsonView::Text("object"@))
    &&& member(schema, "properties"@) matches Some(JsonView::Object(properties))
    &&& member(schema, "required"@) matches Some(JsonView::Array(required))
    &&& (forall|i: int| 0 <= i < required.len() ==> #[trigger] required[i] is Text) && (forall|
        name: Seq<char>,
    | #[trigger]
        properties.contains_key(name) ==> required.contains(JsonView::Text(name)))
}

/// Whether a format asks for answers by a schema; `key` is any member of it.
pub open spec fn asks_for(format: JsonView, schema: JsonView, key: Seq<char>) -> bool {
    let sent = inner_member(format, "json_schema"@, "schema"@);
    &&& member(format, "type"@) == Some(JsonView::Text("json_schema"@))
    &&& inner_member(format, "json_schema"@, "name"@) is Some
    &&& sent is Some
    &&& requires_all(schema) ==> member(format, "strict"@) == Some(JsonView::Bool(true)) && member(
        sent->0,
        "additionalProperties"@,
    ) == Some(JsonView::Bool(false))
    &&& !requires_all(schema) ==> sent == Some(schema) && member(format, "strict"@) is None
    &&& key != "additionalProperties"@ ==> member(sent->0, key) == member(schema, key)
}

/// The wish for structured output is sent as its mode says: with the schema
/// itself, strictly and closed against further properties exactly where all
/// properties are required; as the wish for any object; or not at all.
#[verifier::rlimit(40)]
pub proof fn law_structured_output_follows_the_mode(
    schema: JsonView,
    mode: StructuredOutputMode,
    key: Seq<char>,
)
    ensures
        response_format(mode, None) is None,
        mode == StructuredOutputMode::Off ==> response_format(mode, Some(schema)) is None,
        mode == StructuredOutputMode::JsonObject ==> (response_format(mode, Some(schema)) matches Some(
            format,
        ) && member(format, "type"@) == Some(JsonView::Text("json_object"@)) && member(
            format,
            "json_schema"@,
        ) is None),
        mode == StructuredOutputMode::Native ==> (response_format(mode, Some(schema)) matches Some(
            format,
        ) && asks_for(format, schema, key)),
{
    lemma_keys();
    assert(requires_all(schema) == super::wire::strict_ready(schema));
    let format = schema_format(schema);
    assert(member(format, "json_schema"@) is Some);
}

/// Putting a message on the wire and writing it as JSON says all of it.
pub proof fn law_sent_messages_say_all(message: &Message, wire: OpenAiMessage, json: Json)
    requires
        call_ensures(OpenAiMessage::from_message, (message,), wire),
        call_ensures(OpenAiMessage::to_json, (&wire,), json),
    ensures
        says_message(json@, message@),
{
    law_messages_are_sent_in_full(message@);
}

/// The text of a system message is sent as it is, under the role `system`; so
/// is a tool's result, under the role `tool` and with the id that it answers.
pub proof fn law_texts_are_sent_as_they_are(
    system: String,
    id: String,
    content: String,
    first: OpenAiMessage,
    second: OpenAiMessage,
    one: Json,
    two: Json,
)
    requires
        call_ensures(OpenAiMessage::from_message, (&Message::System(system),), first),
        call_ensures(OpenAiMessage::to_json, (&first,), one),
        call_ensures(
            OpenAiMessage::from_message,
            (&Message::ToolResult { id, content },),
            second,
        ),
        call_ensures(OpenAiMessage::to_json, (&second,), two),
    ensures
        member(one@, "role"@) == Some(JsonView::Text("system"@)),
        member(one@, "content"@) == Some(JsonView::Text(system@)),
        member(two@, "role"@) == Some(JsonView::Text("tool"@)),
        member(two@, "content"@) == Some(JsonView::Text(content@)),
        member(two@, "tool_call_id"@) == Some(JsonView::Text(id@)),
{
    law_messages_are_sent_in_full(MessageView::System(system@));
    law_messages_are_sent_in_full(MessageView::ToolResult { id: id@, content: content@ });
}

/// A provider sends the request that it is given, to the model that it was made
/// for.
pub proof fn law_provider_sends_the_request(
    base_url: &str,
    api_key: &str,
    model: &str,
    provider: OpenAiProvider,
    request: &ChatRequest,
    streaming: bool,
    body: Json,
)
    requires
        call_ensures(OpenAiProvider::new, (base_url, api_key, model), provider),
        call_ensures(OpenAiProvider::body, (&provider, request, streaming), body),
    ensures
        says_request(body@, model@, request@, streaming),
        request@.options.structured matches Some(schema) ==> (member(
            body@,
            "response_format"@,
        ) matches Some(format) && asks_for(format, schema, "type"@)),
{
    law_body_carries_the_request(model@, request@, StructuredOutputMode::Native, streaming);
    if let Some(schema) = request@.options.structured {
        law_structured_output_follows_the_mode(schema, StructuredOutputMode::Native, "type"@);
    }
}

/// What a message, a request and its options hold for the wire is what they
/// hold: their texts, tools and numbers as they stand.
pub proof fn law_requests_are_what_they_hold(request: ChatRequest, i: int)
    ensures
        request@.messages.len() == request.messages@.len(),
        request@.tools.len() == request.tools@.len(),
        0 <= i < request.messages@.len() ==> request@.messages[i] == request.messages@[i]@,
        0 <= i < request.tools@.len() ==> request@.tools[i].name == request.tools@[i].name@
            && request@.tools[i].description == request.tools@[i].description@
            && request@.tools[i].parameters == request.tools@[i].parameters@,
        request@.options.temperature == opt_json(request.options.temperature),
        request@.options.max_tokens == request.options.max_tokens,
        request@.options.structured == opt_json(request.options.structured),
        request@.options.extra == request.options.extra@,
{
}

/// A message on the wire has the members of a message, and no others.
pub proof fn law_messages_have_no_other_members(message: MessageView, key: Seq<char>)
    ensures
        member(wire_message(message).json(), key) is Some ==> key == "role"@ || key == "content"@
            || key == "reasoning_content"@ || key == "tool_calls"@ || key == "tool_call_id"@,
        !(message is Assistant) ==> member(
            wire_message(message).json(),
            "reasoning_content"@,
        ) is None,
        !(message is ToolResult) ==> member(wire_message(message).json(), "tool_call_id"@) is None,
{
    lemma_keys();
}

/// The wish for structured output stands in the body where there is one and the
/// mode sends it; otherwise the body has only what the vendor parameters say of
/// it.
pub proof fn law_body_carries_the_format(
    model: Seq<char>,
    request: ChatRequestView,
    mode: StructuredOutputMode,
    streaming: bool,
)
    ensures
        ({
            let body = request_json(model, request, mode, streaming);
            let extra = request.options.extra;
            match response_format(mode, request.options.structured) {
                Some(format) => member(body, "response_format"@) == Some(format),
                None => member(body, "response_format"@) == if extra.contains_key(
                    "response_format"@,
                ) {
                    Some(extra["response_format"@])
                } else {
                    None
                },
            }
        }),
{
    lemma_keys();
}

/// A new provider waits 30 seconds for a connection, 600 for a reply, 60 for
/// the next piece of a stream and 1800 for a whole stream; each limit that is
/// set counts instead.
pub proof fn law_provider_limits(
    base_url: &str,
    api_key: &str,
    model: &str,
    provider: OpenAiProvider,
    limit: Span,
    a: OpenAiProvider,
    b: OpenAiProvider,
    c: OpenAiProvider,
    d: OpenAiProvider,
)
    requires
        call_ensures(OpenAiProvider::new, (base_url, api_key, model), provider),
        call_ensures(OpenAiProvider::with_connect_timeout, (provider, limit), a),
        call_ensures(OpenAiProvider::with_request_timeout, (provider, limit), b),
        call_ensures(OpenAiProvider::with_idle_timeout, (provider, limit), c),
        call_ensures(OpenAiProvider::with_stream_timeout, (provider, limit), d),
    ensures
        provider@.connect_timeout.nanos == 30_000_000_000,
        provider@.request_timeout.nanos == 600_000_000_000,
        provider@.idle_timeout.nanos == 60_000_000_000,
        provider@.stream_timeout.nanos == 1_800_000_000_000,
        provider@.structured_mode == StructuredOutputMode::Native,
        a@ == (OpenAiView { connect_timeout: limit, ..provider@ }),
        b@ == (OpenAiView { request_timeout: limit, ..provider@ }),
        c@ == (OpenAiView { idle_timeout: limit, ..provider@ }),
        d@ == (OpenAiView { stream_timeout: limit, ..provider@ }),
{
}

} // verus!
