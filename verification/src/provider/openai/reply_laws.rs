//! What a whole reply says, in terms of the status and the body that the
//! endpoint sends.

use vstd::prelude::*;

use super::decode::{read_call, read_calls, read_choice, read_message, read_response};
use super::request_laws::inner_member;
use super::stream::{error_message, extract_error_message, finish_of};
use super::stream_laws::{
    first_choice, is_absent, is_usage, law_usage_is_read_from_its_members, may_be_text,
    may_be_usage, text_member,
};
use super::{
    answer_in, finish_chat, mode_name, network_fault, parse_response, retry_after, status_error,
    without_slashes, OpenAiProvider, OpenAiView, ResponseBody,
};
use crate::json::{member, parsed_json, rendered_json, JsonView};
use crate::message::{MessageView, ToolCallView};
use crate::provider::{
    ChatResponse, ChatResponseView, ProviderError, ProviderErrorView, TimeoutStage, Usage,
};
use crate::record::law_each_item_is_read;
use crate::text::{decimal, occurs_in, opt_str_view, quoted_text};
use crate::text_laws::{
    is_blank, law_trim_takes_white_space_only, law_written_numbers_read_back,
    lemma_decimal_digits, lemma_order_concat, lemma_order_within, lemma_whole_stands,
    stand_in_order,
};

verus! {

/// The message of the first choice in a reply.
pub open spec fn first_message(json: JsonView) -> Option<JsonView> {
    match first_choice(json) {
        Some(choice) => member(choice, "message"@),
        None => None,
    }
}

/// Whether a reply is written with named members.
pub open spec fn is_named_reply(json: JsonView) -> bool {
    &&& json is Object
    &&& first_choice(json) matches Some(choice) ==> choice is Object
    &&& first_message(json) matches Some(message) ==> message is Object
}

/// The text of a reply's content: a string word for word, nothing where there
/// is none, and any other value as JSON text.
pub open spec fn says_content(content: Option<JsonView>, text: Seq<char>) -> bool {
    match content {
        None => text.len() == 0,
        Some(JsonView::Null) => text.len() == 0,
        Some(JsonView::Text(sent)) => text == sent,
        Some(other) => text == rendered_json(other),
    }
}

/// Whether a JSON object is a tool request with this id, name and arguments.
pub open spec fn asks_for_tool(json: JsonView, call: ToolCallView) -> bool {
    &&& member(json, "id"@) == Some(JsonView::Text(call.id))
    &&& inner_member(json, "function"@, "name"@) == Some(JsonView::Text(call.name))
    &&& inner_member(json, "function"@, "arguments"@) == Some(JsonView::Text(call.arguments))
}

/// Whether a list of tool requests in a reply, which may be absent, is this one.
pub open spec fn says_calls(json: Option<JsonView>, calls: Seq<ToolCallView>) -> bool {
    match json {
        Some(JsonView::Array(items)) => calls.len() == items.len() && forall|i: int|
            0 <= i < items.len() && (#[trigger] items[i]) is Object && (member(
                items[i],
                "function"@,
            ) matches Some(function) && function is Object) ==> asks_for_tool(items[i], calls[i]),
        _ => calls.len() == 0,
    }
}

/// Whether an answer says what the first choice of a reply says, with the usage
/// of the reply.
pub open spec fn says_reply(json: JsonView, answer: ChatResponseView) -> bool {
    let message = first_message(json);
    &&& first_choice(json) is Some
    &&& message is Some
    &&& answer.message matches MessageView::Assistant { content, reasoning, tool_calls }
        && says_content(member(message->0, "content"@), content) && reasoning == match text_member(
        message,
        "reasoning_content"@,
    ) {
        Some(text) => Some(text),
        None => text_member(message, "reasoning"@),
    } && says_calls(member(message->0, "tool_calls"@), tool_calls)
    &&& text_member(first_choice(json), "finish_reason"@) is Some
    &&& answer.finish_reason == finish_of(text_member(first_choice(json), "finish_reason"@)->0)
    &&& match member(json, "usage"@) {
        Some(JsonView::Object(members)) => is_usage(JsonView::Object(members), answer.usage),
        None => answer.usage == (Usage {
            prompt_tokens: 0,
            completion_tokens: 0,
            total_tokens: 0,
        }),
        Some(JsonView::Null) => answer.usage == (Usage {
            prompt_tokens: 0,
            completion_tokens: 0,
            total_tokens: 0,
        }),
        _ => true,
    }
}

proof fn lemma_calls(message: JsonView)
    requires
        message is Object,
        read_calls(message) is Some,
    ensures
        match read_calls(message)->0 {
            Some(calls) => member(message, "tool_calls"@) matches Some(JsonView::Array(items))
                && calls.len() == items.len() && forall|i: int|
                0 <= i < items.len() ==> read_call(#[trigger] items[i]) == Some(calls[i]),
            None => !(member(message, "tool_calls"@) matches Some(JsonView::Array(_))),
        },
{
    if let Some(JsonView::Array(items)) = member(message, "tool_calls"@) {
        let read = |j: JsonView| read_call(j);
        law_each_item_is_read(items, read);
        let calls = (read_calls(message)->0)->0;
        assert forall|i: int| 0 <= i < items.len() implies read_call(#[trigger] items[i]) == Some(
            calls[i],
        ) by {
            assert(read(items[i]) == Some(calls[i]));
        }
    }
}

/// An answer says what the endpoint sent: the text, the reasoning and the tool
/// requests of the first choice, word for word and in order, why the model
/// stopped, and what it took.
#[verifier::rlimit(40)]
pub proof fn law_answer_says_what_was_sent(body: Seq<char>, json: JsonView)
    requires
        parsed_json(body) == Ok::<JsonView, Seq<char>>(json),
        is_named_reply(json),
    ensures
        answer_in(body) matches Ok(answer) ==> says_reply(json, answer),
{
    if answer_in(body) is Ok {
        let answer = answer_in(body)->Ok_0;
        let response = read_response(json)->0;
        let items = (member(json, "choices"@)->0)->Array_0;
        let read = |j: JsonView| read_choice(j);
        law_each_item_is_read(items, read);
        assert(read(items[0]) == Some(response.choices[0]));
        let message = first_message(json)->0;
        let wire = response.choices[0].message;
        assert(read_message(message) == Some(wire));
        lemma_calls(message);
        let calls = answer.message->Assistant_tool_calls;
        match member(message, "tool_calls"@) {
            Some(JsonView::Array(items)) => {
                let sent = wire.tool_calls->0;
                assert forall|i: int|
                    0 <= i < items.len() && (#[trigger] items[i]) is Object && (member(
                        items[i],
                        "function"@,
                    ) matches Some(function) && function is Object) implies asks_for_tool(
                    items[i],
                    calls[i],
                ) by {
                    assert(read_call(items[i]) == Some(sent[i]));
                    assert(calls[i] == super::received_call(sent[i]));
                }
            },
            _ => {},
        }
        match member(json, "usage"@) {
            Some(JsonView::Object(members)) => {
                law_usage_is_read_from_its_members(JsonView::Object(members), answer.usage);
            },
            _ => {},
        }
    }
}

/// A plain reply is an answer: one choice with a message, whose content and
/// reasoning are texts or absent, and a reason to finish.
#[verifier::rlimit(40)]
pub proof fn law_plain_replies_are_answers(
    body: Seq<char>,
    json: JsonView,
    choice: JsonView,
    message: JsonView,
)
    requires
        parsed_json(body) == Ok::<JsonView, Seq<char>>(json),
        json is Object && choice is Object && message is Object,
        member(json, "choices"@) == Some(JsonView::Array(seq![choice])),
        is_absent(member(json, "usage"@)),
        member(choice, "message"@) == Some(message),
        member(choice, "finish_reason"@) matches Some(JsonView::Text(_)),
        member(message, "role"@) matches Some(JsonView::Text(_)),
        may_be_text(member(message, "content"@)),
        may_be_text(member(message, "reasoning_content"@)),
        member(message, "reasoning"@) is None,
        is_absent(member(message, "tool_calls"@)),
        may_be_text(member(message, "tool_call_id"@)),
    ensures
        answer_in(body) matches Ok(answer) && says_reply(json, answer),
{
    let read = |j: JsonView| read_choice(j);
    let items = seq![choice];
    assert(read_calls(message) is Some);
    assert(read_message(message) is Some);
    assert(read_choice(choice) is Some);
    assert forall|i: int| 0 <= i < items.len() implies read(#[trigger] items[i]) is Some by {}
    law_each_item_is_read(items, read);
    assert(read_response(json) is Some);
    let response = read_response(json)->0;
    assert(read(items[0]) == Some(response.choices[0]));
    law_answer_says_what_was_sent(body, json);
}

/// Reading the body of a reply gives the answer that was sent.
pub proof fn law_replies_are_read(body: &str, json: JsonView, answer: ChatResponse)
    requires
        parsed_json(body@) == Ok::<JsonView, Seq<char>>(json),
        is_named_reply(json),
        call_ensures(parse_response, (body,), Ok::<ChatResponse, ProviderError>(answer)),
    ensures
        says_reply(json, answer@),
{
    law_answer_says_what_was_sent(body@, json);
}

/// A reply is an answer only with a status from 200 to 299, and then what its
/// body says.
pub proof fn law_only_success_is_an_answer(
    status: u16,
    header: Option<&str>,
    body: &str,
    r: Result<ChatResponse, ProviderError>,
)
    requires
        call_ensures(finish_chat, (status, header, body), r),
    ensures
        200 <= status <= 299 ==> match r {
            Ok(answer) => answer_in(body@) == Ok::<ChatResponseView, ProviderErrorView>(answer@),
            Err(e) => answer_in(body@) == Err::<ChatResponseView, ProviderErrorView>(e@),
        },
        !(200 <= status <= 299) ==> (r matches Err(e) && e@ == status_error(
            status,
            opt_str_view(header),
            body@,
        )),
{
}

/// The message of an error body is the one in it, word for word; a body that is
/// none comes whole.
pub proof fn law_error_messages_come_through(body: Seq<char>, json: JsonView, message: Seq<char>)
    requires
        parsed_json(body) == Ok::<JsonView, Seq<char>>(json),
        json is Object,
    ensures
        (member(json, "error"@) matches Some(error) && error is Object) && inner_member(
            json,
            "error"@,
            "message"@,
        ) == Some(JsonView::Text(message)) ==> error_message(body) == message,
        is_absent(member(json, "error"@)) ==> error_message(body) == body,
{
}

/// A body that is no JSON is its own message.
pub proof fn law_other_bodies_come_whole(body: &str, message: String)
    requires
        parsed_json(body@) is Err,
        call_ensures(extract_error_message, (body,), message),
    ensures
        message@ == body@,
{
}

/// A failed request keeps its status and its message, with one exception: a
/// rate limit, which may be retried. An exhausted quota has the same status and
/// is none.
pub proof fn law_failures_keep_status_and_message(
    status: u16,
    header: Option<Seq<char>>,
    body: Seq<char>,
)
    ensures
        status != 429 ==> status_error(status, header, body) == (ProviderErrorView::Api {
            status,
            message: error_message(body),
        }),
        status == 429 && occurs_in("insufficient_quota"@, error_message(body)) ==> status_error(
            status,
            header,
            body,
        ) == (ProviderErrorView::Api { status, message: error_message(body) }),
        status == 429 && !occurs_in("insufficient_quota"@, error_message(body)) ==> status_error(
            status,
            header,
            body,
        ) == (ProviderErrorView::RateLimited { retry_after: retry_after(header) }),
{
}

/// The wait that is asked for is the number in the header, in seconds; white
/// space around it does not matter.
pub proof fn law_named_waits_are_seconds(left: Seq<char>, secs: u64, right: Seq<char>)
    requires
        is_blank(left),
        is_blank(right),
    ensures
        retry_after(Some(left + decimal(secs as nat) + right)) matches Some(wait) && wait.nanos
            == secs * 1_000_000_000,
        retry_after(None) is None,
{
    let digits = decimal(secs as nat);
    lemma_decimal_digits(secs as nat);
    assert('0' <= digits[0] <= '9');
    assert('0' <= digits[digits.len() - 1] <= '9');
    law_trim_takes_white_space_only(left, digits, right);
    law_written_numbers_read_back(secs);
}

/// A connection that broke off tells its cause, and one that took too long
/// where it did.
pub proof fn law_broken_connections(stage: TimeoutStage, cause: Seq<char>)
    ensures
        network_fault(true, stage, cause) == ProviderErrorView::Timeout(stage),
        network_fault(false, stage, cause) == ProviderErrorView::Network(cause),
{
}

/// Slashes at the end of an address are dropped, and nothing else.
pub proof fn law_slashes_at_the_end_are_dropped(base: Seq<char>, slashes: Seq<char>)
    requires
        base.len() > 0 ==> base.last() != '/',
        forall|i: int| 0 <= i < slashes.len() ==> #[trigger] slashes[i] == '/',
    ensures
        without_slashes(base + slashes) == base,
    decreases slashes.len(),
{
    if slashes.len() == 0 {
        assert(base + slashes =~= base);
    } else {
        let rest = slashes.drop_last();
        assert(slashes[slashes.len() - 1] == '/');
        assert((base + slashes).drop_last() =~= base + rest);
        assert forall|i: int| 0 <= i < rest.len() implies #[trigger] rest[i] == '/' by {
            assert(slashes[i] == '/');
        }
        law_slashes_at_the_end_are_dropped(base, rest);
    }
}

/// Requests go to the endpoint's address for chats, however many slashes end
/// the given address, and carry the given key.
pub proof fn law_requests_go_to_the_endpoint(
    base_url: &str,
    api_key: &str,
    model: &str,
    provider: OpenAiProvider,
    url: String,
    key: Option<&str>,
    base: Seq<char>,
    slashes: Seq<char>,
)
    requires
        call_ensures(OpenAiProvider::new, (base_url, api_key, model), provider),
        call_ensures(OpenAiProvider::url, (&provider,), url),
        call_ensures(OpenAiProvider::bearer, (&provider,), key),
        base_url@ == base + slashes,
        base.len() > 0 ==> base.last() != '/',
        forall|i: int| 0 <= i < slashes.len() ==> #[trigger] slashes[i] == '/',
    ensures
        url@ == base + "/chat/completions"@,
        api_key@.len() > 0 ==> (key matches Some(sent) && sent@ == api_key@),
        api_key@.len() == 0 ==> key is None,
{
    law_slashes_at_the_end_are_dropped(base, slashes);
}

/// A provider shows where it asks, which model, for how long and in which mode,
/// in this order.
#[verifier::rlimit(40)]
pub proof fn law_provider_shows_its_settings(provider: OpenAiView)
    ensures
        stand_in_order(
            seq![
                quoted_text(provider.base_url),
                quoted_text(provider.model),
                provider.request_timeout.shown(),
                provider.idle_timeout.shown(),
                provider.stream_timeout.shown(),
                mode_name(provider.structured_mode),
            ],
            provider.shown(),
        ),
{
    let a = quoted_text(provider.base_url);
    let b = quoted_text(provider.model);
    let c = provider.request_timeout.shown();
    let d = provider.idle_timeout.shown();
    let e = provider.stream_timeout.shown();
    let f = mode_name(provider.structured_mode);
    let none = Seq::<char>::empty();
    let t1 = "OpenAiProvider { base_url: "@ + a;
    let t2 = ", api_key: \"***\", model: "@ + b;
    let t3 = ", request_timeout: "@ + c;
    let t4 = ", idle_timeout: "@ + d;
    let t5 = ", stream_timeout: "@ + e;
    let t6 = ", structured_mode: "@ + f + ", .. }"@;
    lemma_behind(a, "OpenAiProvider { base_url: "@);
    lemma_behind(b, ", api_key: \"***\", model: "@);
    lemma_behind(c, ", request_timeout: "@);
    lemma_behind(d, ", idle_timeout: "@);
    lemma_behind(e, ", stream_timeout: "@);
    lemma_whole_stands(f);
    lemma_order_within(seq![f], ", structured_mode: "@, f, ", .. }"@);
    lemma_order_concat(seq![a], t1, seq![b], t2);
    lemma_order_concat(seq![a] + seq![b], t1 + t2, seq![c], t3);
    lemma_order_concat(seq![a] + seq![b] + seq![c], t1 + t2 + t3, seq![d], t4);
    lemma_order_concat(seq![a] + seq![b] + seq![c] + seq![d], t1 + t2 + t3 + t4, seq![e], t5);
    lemma_order_concat(
        seq![a] + seq![b] + seq![c] + seq![d] + seq![e],
        t1 + t2 + t3 + t4 + t5,
        seq![f],
        t6,
    );
    assert(seq![a] + seq![b] + seq![c] + seq![d] + seq![e] + seq![f] =~= seq![a, b, c, d, e, f]);
    assert(t1 + t2 + t3 + t4 + t5 + t6 =~= provider.shown());
}

proof fn lemma_behind(piece: Seq<char>, head: Seq<char>)
    ensures
        stand_in_order(seq![piece], head + piece),
{
    lemma_whole_stands(piece);
    lemma_order_within(seq![piece], head, piece, Seq::empty());
    assert(head + piece + Seq::<char>::empty() =~= head + piece);
}

/// The body of a reply is all its pieces, in order, up to 16777216 bytes.
pub proof fn law_bodies_are_collected(chunk: Vec<u8>, r: Result<(), ProviderError>)
    ensures
        forall|body: &mut ResponseBody| #[trigger]
            call_ensures(ResponseBody::push, (body, chunk), r) ==> {
                &&& r is Ok <==> body@.len() + chunk@.len() <= 16777216
                &&& r is Ok ==> final(body)@ == body@ + chunk@
                &&& r is Err ==> final(body)@ == body@
            },
{
}

/// Whether a value is a tool request.
pub open spec fn is_call(json: JsonView) -> bool {
    &&& json is Object
    &&& member(json, "id"@) matches Some(JsonView::Text(_))
    &&& member(json, "type"@) matches Some(JsonView::Text(_))
    &&& member(json, "function"@) matches Some(function) && function is Object && (member(
        function,
        "name"@,
    ) matches Some(JsonView::Text(_))) && (member(function, "arguments"@) matches Some(
        JsonView::Text(_),
    ))
}

/// Whether a value is a choice of a whole reply.
pub open spec fn is_whole_choice(json: JsonView) -> bool {
    &&& json is Object
    &&& member(json, "finish_reason"@) matches Some(JsonView::Text(_))
    &&& member(json, "message"@) matches Some(message) && is_whole_message(message)
}

/// Whether a value is a message of a whole reply. Its content may be anything.
pub open spec fn is_whole_message(json: JsonView) -> bool {
    &&& json is Object
    &&& member(json, "role"@) matches Some(JsonView::Text(_))
    &&& may_be_text(member(json, "reasoning_content"@))
    &&& may_be_text(member(json, "reasoning"@))
    &&& member(json, "reasoning"@) is None || member(json, "reasoning_content"@) is None
    &&& may_be_text(member(json, "tool_call_id"@))
    &&& is_absent(member(json, "tool_calls"@)) || (member(json, "tool_calls"@) matches Some(
        JsonView::Array(items),
    ) && items.len() <= 64 && forall|i: int| 0 <= i < items.len() ==> is_call(#[trigger] items[i]))
}

/// Every reply with a choice, and with 64 tool requests at most, is an answer.
pub proof fn law_replies_are_answers(body: Seq<char>, json: JsonView, items: Seq<JsonView>)
    requires
        parsed_json(body) == Ok::<JsonView, Seq<char>>(json),
        json is Object,
        member(json, "choices"@) == Some(JsonView::Array(items)),
        items.len() > 0,
        forall|i: int| 0 <= i < items.len() ==> is_whole_choice(#[trigger] items[i]),
        may_be_usage(member(json, "usage"@)),
    ensures
        answer_in(body) matches Ok(answer) && says_reply(json, answer),
{
    let read = |j: JsonView| read_choice(j);
    assert forall|i: int| 0 <= i < items.len() implies read(#[trigger] items[i]) is Some by {
        assert(is_whole_choice(items[i]));
        lemma_message_is_read(member(items[i], "message"@)->0);
        assert(read_choice(items[i]) is Some);
    }
    law_each_item_is_read(items, read);
    if !is_absent(member(json, "usage"@)) {
        let value = member(json, "usage"@)->0;
        let usage = choose|usage: Usage| is_usage(value, usage);
        law_usage_is_read_from_its_members(value, usage);
    }
    assert(read_response(json) is Some);
    let response = read_response(json)->0;
    assert(is_whole_choice(items[0]));
    assert(read(items[0]) == Some(response.choices[0]));
    let message = member(items[0], "message"@)->0;
    assert(read_message(message) == Some(response.choices[0].message));
    lemma_calls(message);
    law_answer_says_what_was_sent(body, json);
}

proof fn lemma_message_is_read(json: JsonView)
    requires
        is_whole_message(json),
    ensures
        read_message(json) is Some,
{
    if let Some(JsonView::Array(items)) = member(json, "tool_calls"@) {
        let read = |j: JsonView| read_call(j);
        assert forall|i: int| 0 <= i < items.len() implies read(#[trigger] items[i]) is Some by {
            assert(is_call(items[i]));
            assert(read_call(items[i]) is Some);
        }
        law_each_item_is_read(items, read);
    }
    assert(read_calls(json) is Some);
}

} // verus!
