//! What holds of requests, replies and streams together.

use vstd::prelude::*;

use super::decode::{
    read_call, read_calls, read_message, reasoning_at, CallChunkView, ChoiceView, WireResponseView,
};
use super::stream::{
    finish_of, first_given, lemma_place_of, or_none, place_of, AggregatorView,
    MAX_ACCUMULATED_TEXT, MAX_TOOL_CALLS,
};
use super::wire::{
    call_json, is_managed, object, own_members, request_json, sent_call, wire_message,
    StructuredOutputMode, WireCallView, WireMessageView,
};
use super::{answer_of, received_call};
use crate::json::{member, JsonView};
use crate::message::{MessageView, ToolCallView};
use crate::provider::{ChatRequestView, Usage};
use crate::record::{is_record, opt_text_at, part, present, read_all, text_at};
use crate::text::{byte_len, lemma_byte_len_concat};

verus! {

proof fn lemma_lengths()
    ensures
        "role"@.len() == 4,
        "content"@.len() == 7,
        "reasoning"@.len() == 9,
        "reasoning_content"@.len() == 17,
        "tool_calls"@.len() == 10,
        "tool_call_id"@.len() == 12,
        "id"@.len() == 2,
        "type"@.len() == 4,
        "function"@.len() == 8,
        "name"@.len() == 4,
        "arguments"@.len() == 9,
{
    reveal_strlit("role");
    reveal_strlit("content");
    reveal_strlit("reasoning");
    reveal_strlit("reasoning_content");
    reveal_strlit("tool_calls");
    reveal_strlit("tool_call_id");
    reveal_strlit("id");
    reveal_strlit("type");
    reveal_strlit("function");
    reveal_strlit("name");
    reveal_strlit("arguments");
}

proof fn lemma_call_reads_back(call: WireCallView)
    ensures
        read_call(call_json(call)) == Some(call),
{
    lemma_lengths();
    let json = call_json(call);
    let function = member(json, "function"@)->0;
    assert(member(json, "function"@) is Some);
    assert(text_at(json, 0, "id"@) == Some(call.id));
    assert(text_at(json, 1, "type"@) == Some(call.kind));
    assert(text_at(function, 0, "name"@) == Some(call.name));
    assert(text_at(function, 1, "arguments"@) == Some(call.arguments));
}

proof fn lemma_calls_read_back(calls: Seq<WireCallView>)
    ensures
        read_all(
            calls.map_values(|c: WireCallView| call_json(c)),
            |j: JsonView| read_call(j),
        ) == Some(calls),
    decreases calls.len(),
{
    let items = calls.map_values(|c: WireCallView| call_json(c));
    if calls.len() == 0 {
        assert(calls =~= Seq::empty());
    } else {
        let rest = calls.drop_last();
        lemma_calls_read_back(rest);
        lemma_call_reads_back(calls.last());
        assert(items.drop_last() =~= rest.map_values(|c: WireCallView| call_json(c)));
        assert(items.last() == call_json(calls.last()));
        assert(calls =~= rest.push(calls.last()));
    }
}

/// A message that is sent reads back as it is, member by member.
pub proof fn law_wire_message_reads_back(message: WireMessageView)
    requires
        message.content != Some(JsonView::Null),
    ensures
        read_message(message.json()) == Some(message),
{
    lemma_lengths();
    let json = message.json();
    if let Some(calls) = message.tool_calls {
        lemma_calls_read_back(calls);
    }
    assert(is_record(json, 5));
    assert(text_at(json, 0, "role"@) == Some(message.role));
    assert(present(part(json, 1, "content"@)) == message.content);
    assert(member(json, "reasoning"@) is None);
    assert(reasoning_at(json, 2) == Some(message.reasoning_content));
    assert(read_calls(json) == Some(message.tool_calls));
    assert(opt_text_at(json, 4, "tool_call_id"@) == Some(message.tool_call_id));
}

/// An assistant's message survives the wire: put into a reply, it comes out as
/// one message with the same text, reasoning and tool requests.
pub proof fn law_answer_comes_back_verbatim(
    content: Seq<char>,
    reasoning: Option<Seq<char>>,
    tool_calls: Seq<ToolCallView>,
    finish_reason: Seq<char>,
    usage: Option<Usage>,
)
    requires
        tool_calls.len() <= MAX_TOOL_CALLS,
    ensures
        ({
            let message = MessageView::Assistant { content, reasoning, tool_calls };
            let reply = WireResponseView {
                choices: seq![ChoiceView { message: wire_message(message), finish_reason }],
                usage,
            };
            answer_of(reply) matches Ok(answer) && answer.message == message
                && answer.finish_reason == finish_of(finish_reason)
        }),
{
    let message = MessageView::Assistant { content, reasoning, tool_calls };
    let sent = tool_calls.map_values(|c: ToolCallView| sent_call(c));
    let back = sent.map_values(|c: WireCallView| received_call(c));
    assert(back =~= tool_calls);
    if tool_calls.len() == 0 {
        assert(Seq::<WireCallView>::empty().map_values(|c: WireCallView| received_call(c))
            =~= tool_calls);
    }
    if content.len() == 0 {
        assert(content =~= Seq::empty());
    }
}

/// No vendor parameter can replace the model, the conversation, the tools or
/// any other managed field of a request, and all others are sent as they are.
pub proof fn law_managed_fields_win(
    model: Seq<char>,
    request: ChatRequestView,
    mode: StructuredOutputMode,
    streaming: bool,
    key: Seq<char>,
)
    ensures
        is_managed(key) ==> member(request_json(model, request, mode, streaming), key) == member(
            object(own_members(model, request, mode, streaming)),
            key,
        ),
        !is_managed(key) && request.options.extra.contains_key(key) && !own_members(
            model,
            request,
            mode,
            streaming,
        ).contains_key(key) ==> member(request_json(model, request, mode, streaming), key) == Some(
            request.options.extra[key],
        ),
{
}

/// What holds of the tool requests that are collected: they are few, their
/// arguments are short, and no two have the same index.
pub open spec fn is_bounded(agg: AggregatorView) -> bool {
    &&& agg.calls.len() <= MAX_TOOL_CALLS
    &&& forall|i: int|
        0 <= i < agg.calls.len() ==> byte_len((#[trigger] agg.calls[i]).arguments)
            <= MAX_ACCUMULATED_TEXT
    &&& forall|i: int, j: int|
        0 <= i < j < agg.calls.len() ==> (#[trigger] agg.calls[i]).index != (
        #[trigger] agg.calls[j]).index
}

/// Collecting pieces of tool requests keeps the bounds, whatever arrives.
pub proof fn law_collected_calls_stay_bounded(agg: AggregatorView, chunk: CallChunkView)
    requires
        is_bounded(agg),
    ensures
        is_bounded(agg.pushed(chunk).0),
{
    lemma_place_of(agg.calls, chunk.index);
    let at = place_of(agg.calls, chunk.index);
    let after = agg.pushed(chunk).0;
    if at < agg.calls.len() {
        lemma_byte_len_concat(agg.calls[at].arguments, or_none(chunk.arguments));
    }
    assert forall|i: int| 0 <= i < after.calls.len() implies byte_len(
        (#[trigger] after.calls[i]).arguments,
    ) <= MAX_ACCUMULATED_TEXT by {
        if i < agg.calls.len() && i != at {
            assert(after.calls[i] == agg.calls[i]);
        } else if i < agg.calls.len() {
            assert(byte_len(agg.calls[i].arguments) <= MAX_ACCUMULATED_TEXT);
        }
    }
    assert forall|i: int, j: int| 0 <= i < j < after.calls.len() implies (
    #[trigger] after.calls[i]).index != (#[trigger] after.calls[j]).index by {
        assert(agg.calls[i].index == after.calls[i].index);
        if j < agg.calls.len() {
            assert(agg.calls[j].index == after.calls[j].index);
        }
    }
}

/// Arguments that come in two pieces are the same as in one, as long as they
/// fit.
pub proof fn law_pieces_join(agg: AggregatorView, first: CallChunkView, more: Seq<char>)
    requires
        is_bounded(agg),
        agg.pushed(first).1 is None,
        agg.pushed(
            CallChunkView { arguments: Some(or_none(first.arguments) + more), ..first },
        ).1 is None,
    ensures
        agg.pushed(first).0.pushed(
            CallChunkView { index: first.index, id: None, name: None, arguments: Some(more) },
        ) == agg.pushed(
            CallChunkView { arguments: Some(or_none(first.arguments) + more), ..first },
        ),
{
    let second = CallChunkView { index: first.index, id: None, name: None, arguments: Some(more) };
    let whole = CallChunkView { arguments: Some(or_none(first.arguments) + more), ..first };
    lemma_place_of(agg.calls, first.index);
    let at = place_of(agg.calls, first.index);
    let mid = agg.pushed(first).0;
    lemma_place_of(mid.calls, first.index);
    assert(mid.calls[at].index == first.index);
    assert(place_of(mid.calls, first.index) == at) by {
        let k = place_of(mid.calls, first.index);
        if k < at {
            assert(mid.calls[k].index == agg.calls[k].index);
        }
        if at < k {
            assert(mid.calls[at].index != first.index);
        }
    }
    let a = or_none(first.arguments);
    lemma_byte_len_concat(a, more);
    if at < agg.calls.len() {
        let held = agg.calls[at].arguments;
        lemma_byte_len_concat(held, a);
        assert(held + a + more =~= held + (a + more));
        let call = mid.calls[at];
        assert(first_given(call.id, Seq::empty()) =~= call.id);
        assert(first_given(call.name, Seq::empty()) =~= call.name);
        assert(mid.pushed(second).0.calls =~= agg.pushed(whole).0.calls);
    } else {
        let call = mid.calls[at];
        assert(first_given(call.id, Seq::empty()) =~= call.id);
        assert(first_given(call.name, Seq::empty()) =~= call.name);
        assert(mid.pushed(second).0.calls =~= agg.pushed(whole).0.calls);
    }
}

} // verus!
