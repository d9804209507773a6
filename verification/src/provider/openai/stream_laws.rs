//! What a streamed reply says, in terms of the data that the endpoint sends.

use vstd::prelude::*;

use super::decode::{
    read_call_chunk, read_chunks, read_delta, read_stream_choice, read_stream_chunk,
    read_stream_choices, read_usage, CallChunkView,
};
use super::lines::{step_stream, stream_events, LineItem};
use super::stream::{
    call_to_event, finish_of, lemma_place_of, lemma_pushed_keeps_flags, line_chunk, line_view,
    or_none, parse_sse_line, place_of, result_view, result_views, text_events, AccumulatedView,
    AggregatorView, LineView, ToolCallAggregator,
};
use crate::json::{member, parsed_json, JsonView};
use crate::provider::{
    EventView, FinishView, ProviderError, ProviderErrorView, StreamEvent, Usage,
};
use crate::record::law_each_item_is_read;
use crate::text::{byte_len, is_white, trim_start};

verus! {

/// An event of a stream, or an error.
pub type Event = Result<EventView, ProviderErrorView>;

/// The pieces of text among events, in order.
pub open spec fn deltas(events: Seq<Event>) -> Seq<Seq<char>>
    decreases events.len(),
{
    if events.len() == 0 {
        Seq::empty()
    } else {
        match events.last() {
            Ok(EventView::Delta(text)) => deltas(events.drop_last()).push(text),
            _ => deltas(events.drop_last()),
        }
    }
}

/// The pieces of reasoning among events, in order.
pub open spec fn reasonings(events: Seq<Event>) -> Seq<Seq<char>>
    decreases events.len(),
{
    if events.len() == 0 {
        Seq::empty()
    } else {
        match events.last() {
            Ok(EventView::Reasoning(text)) => reasonings(events.drop_last()).push(text),
            _ => reasonings(events.drop_last()),
        }
    }
}

/// Whether no event is an error.
pub open spec fn all_well(events: Seq<Event>) -> bool {
    forall|i: int| 0 <= i < events.len() ==> #[trigger] events[i] is Ok
}

/// Texts, one after the other.
pub open spec fn joined(texts: Seq<Seq<char>>) -> Seq<char>
    decreases texts.len(),
{
    if texts.len() == 0 {
        Seq::empty()
    } else {
        joined(texts.drop_last()) + texts.last()
    }
}

/// The first choice in the JSON of a chunk.
pub open spec fn first_choice(json: JsonView) -> Option<JsonView> {
    match member(json, "choices"@) {
        Some(JsonView::Array(items)) => if items.len() > 0 {
            Some(items[0])
        } else {
            None
        },
        _ => None,
    }
}

/// What the first choice of a chunk adds to the reply.
pub open spec fn first_delta(json: JsonView) -> Option<JsonView> {
    match first_choice(json) {
        Some(choice) => member(choice, "delta"@),
        None => None,
    }
}

/// A text in a JSON object, when it is there.
pub open spec fn text_member(json: Option<JsonView>, name: Seq<char>) -> Option<Seq<char>> {
    match json {
        Some(json) => match member(json, name) {
            Some(JsonView::Text(text)) => Some(text),
            _ => None,
        },
        None => None,
    }
}

/// Whether a chunk is written with named members.
pub open spec fn is_named(json: JsonView) -> bool {
    &&& json is Object
    &&& first_choice(json) matches Some(choice) ==> choice is Object
    &&& first_delta(json) matches Some(delta) ==> delta is Object
}

/// A text that may be there, as a list.
pub open spec fn as_list(text: Option<Seq<char>>) -> Seq<Seq<char>> {
    match text {
        Some(text) => seq![text],
        None => Seq::empty(),
    }
}

/// The reasoning in a chunk, under either of its names.
pub open spec fn reasoning_text(json: JsonView) -> Option<Seq<char>> {
    match text_member(first_delta(json), "reasoning_content"@) {
        Some(text) => Some(text),
        None => text_member(first_delta(json), "reasoning"@),
    }
}

proof fn lemma_deltas_concat(a: Seq<Event>, b: Seq<Event>)
    ensures
        deltas(a + b) == deltas(a) + deltas(b),
        reasonings(a + b) == reasonings(a) + reasonings(b),
    decreases b.len(),
{
    if b.len() == 0 {
        assert(a + b =~= a);
        assert(deltas(a) + deltas(b) =~= deltas(a));
        assert(reasonings(a) + reasonings(b) =~= reasonings(a));
    } else {
        lemma_deltas_concat(a, b.drop_last());
        assert((a + b).drop_last() =~= a + b.drop_last());
        assert((a + b).last() == b.last());
        assert(deltas(a + b) =~= deltas(a) + deltas(b));
        assert(reasonings(a + b) =~= reasonings(a) + reasonings(b));
    }
}

proof fn lemma_call_events(calls: Seq<AccumulatedView>)
    ensures
        deltas(calls.map_values(|c: AccumulatedView| call_to_event(c))) == Seq::<Seq<char>>::empty(),
        reasonings(calls.map_values(|c: AccumulatedView| call_to_event(c))) == Seq::<
            Seq<char>,
        >::empty(),
    decreases calls.len(),
{
    let events = calls.map_values(|c: AccumulatedView| call_to_event(c));
    if calls.len() > 0 {
        lemma_call_events(calls.drop_last());
        assert(events.drop_last() =~= calls.drop_last().map_values(
            |c: AccumulatedView| call_to_event(c),
        ));
        assert(events.last() == call_to_event(calls.last()));
    }
}

/// What the JSON of a chunk says of its first choice, when it can be read.
proof fn lemma_read_chunk(json: JsonView)
    requires
        is_named(json),
        read_stream_chunk(json) is Some,
    ensures
        ({
            let chunk = read_stream_chunk(json)->0;
            &&& first_choice(json) is Some <==> chunk.choices.len() > 0
            &&& chunk.choices.len() > 0 ==> {
                let delta = chunk.choices[0].delta;
                &&& delta.content == text_member(first_delta(json), "content"@)
                &&& delta.reasoning_content == reasoning_text(json)
                &&& chunk.choices[0].finish_reason == text_member(
                    first_choice(json),
                    "finish_reason"@,
                )
                &&& first_delta(json) is Some
                &&& read_chunks(first_delta(json)->0) == Some(delta.tool_calls)
            }
        }),
{
    match member(json, "choices"@) {
        Some(JsonView::Array(items)) => {
            let read = |j: JsonView| read_stream_choice(j);
            law_each_item_is_read(items, read);
            let choices = read_stream_choices(json)->0;
            if items.len() > 0 {
                assert(read(items[0]) == Some(choices[0]));
                assert(read_stream_choice(items[0]) == Some(choices[0]));
                assert(read_delta(first_delta(json)->0) is Some);
            }
        },
        _ => {},
    }
}

/// The text of a chunk comes out word for word: a line whose data has a content
/// in its first choice gives exactly one piece of text, that content, and one
/// without gives none. The same holds of the reasoning.
pub proof fn law_content_comes_out_word_for_word(
    agg: AggregatorView,
    line: Seq<char>,
    data: Seq<char>,
    json: JsonView,
)
    requires
        !agg.errored,
        line_view(line) == LineView::Data(data),
        parsed_json(data) == Ok::<JsonView, Seq<char>>(json),
        is_named(json),
        all_well(agg.lined(line, line_chunk(line)).1),
    ensures
        ({
            let events = agg.lined(line, line_chunk(line)).1;
            &&& deltas(events) == as_list(text_member(first_delta(json), "content"@))
            &&& reasonings(events) == as_list(reasoning_text(json))
        }),
{
    let events = agg.lined(line, line_chunk(line)).1;
    if line_chunk(line) is None {
        assert(events[0] is Err);
    } else {
        let chunk = line_chunk(line)->0;
        lemma_read_chunk(json);
        if chunk.error is Some {
            assert(events[0] is Err);
        } else if chunk.choices.len() > 0 {
            let choice = chunk.choices[0];
            let counted = match chunk.usage {
                Some(usage) => agg.with_usage(usage),
                None => agg,
            };
            lemma_chosen_texts(counted, choice);
        } else {
            assert(first_choice(json) is None);
        }
    }
}

proof fn lemma_text_events(choice: super::decode::StreamChoiceView)
    ensures
        deltas(text_events(choice)) == as_list(choice.delta.content),
        reasonings(text_events(choice)) == as_list(choice.delta.reasoning_content),
{
    let events = text_events(choice);
    reveal_with_fuel(deltas, 3);
    reveal_with_fuel(reasonings, 3);
    assert(deltas(events) =~= as_list(choice.delta.content));
    assert(reasonings(events) =~= as_list(choice.delta.reasoning_content));
}

proof fn lemma_chosen_texts(agg: AggregatorView, choice: super::decode::StreamChoiceView)
    requires
        !agg.errored,
        all_well(agg.chosen(choice).1),
    ensures
        deltas(agg.chosen(choice).1) == as_list(choice.delta.content),
        reasonings(agg.chosen(choice).1) == as_list(choice.delta.reasoning_content),
{
    let spoken = text_events(choice);
    lemma_text_events(choice);
    let (held, fault) = match choice.delta.tool_calls {
        Some(chunks) => agg.pushed_all(chunks),
        None => (agg, None),
    };
    if let Some(chunks) = choice.delta.tool_calls {
        lemma_pushed_keeps_flags(agg, chunks);
    }
    if fault is Some {
        assert(agg.chosen(choice).1[0] is Err);
    } else if choice.finish_reason is Some {
        let calls = held.calls.map_values(|c: AccumulatedView| call_to_event(c));
        lemma_deltas_concat(spoken, calls);
        lemma_call_events(held.calls);
        assert(deltas(spoken) + deltas(calls) =~= deltas(spoken));
        assert(reasonings(spoken) + reasonings(calls) =~= reasonings(spoken));
    }
}

/// A text that may be absent or `null`.
pub open spec fn may_be_text(json: Option<JsonView>) -> bool {
    match json {
        None => true,
        Some(JsonView::Null) => true,
        Some(JsonView::Text(_)) => true,
        _ => false,
    }
}

/// What is absent or `null`.
pub open spec fn is_absent(json: Option<JsonView>) -> bool {
    json is None || json == Some(JsonView::Null)
}

/// A chunk of text is no error: data with one choice, whose content and
/// reasoning are texts or absent, is read, whatever further members it has.
#[verifier::rlimit(40)]
pub proof fn law_text_chunks_are_read(
    agg: AggregatorView,
    line: Seq<char>,
    data: Seq<char>,
    json: JsonView,
    choice: JsonView,
    delta: JsonView,
)
    requires
        !agg.errored,
        line_view(line) == LineView::Data(data),
        parsed_json(data) == Ok::<JsonView, Seq<char>>(json),
        json is Object && choice is Object && delta is Object,
        member(json, "choices"@) == Some(JsonView::Array(seq![choice])),
        is_absent(member(json, "error"@)),
        is_absent(member(json, "usage"@)),
        member(choice, "delta"@) == Some(delta),
        may_be_text(member(choice, "finish_reason"@)),
        may_be_text(member(delta, "content"@)),
        may_be_text(member(delta, "reasoning_content"@)),
        member(delta, "reasoning"@) is None,
        is_absent(member(delta, "tool_calls"@)),
    ensures
        all_well(agg.lined(line, line_chunk(line)).1),
        deltas(agg.lined(line, line_chunk(line)).1) == as_list(
            text_member(Some(delta), "content"@),
        ),
{
    let read = |j: JsonView| read_stream_choice(j);
    let items = seq![choice];
    assert(first_choice(json) == Some(choice));
    assert(read_chunks(delta) is Some);
    assert(read_delta(delta) is Some);
    assert(read_stream_choice(choice) is Some);
    assert forall|i: int| 0 <= i < items.len() implies read(#[trigger] items[i]) is Some by {}
    law_each_item_is_read(items, read);
    assert(read_stream_choices(json) is Some);
    assert(read_stream_chunk(json) is Some);
    lemma_read_chunk(json);
    let events = agg.lined(line, line_chunk(line)).1;
    let held = agg.calls.map_values(|c: AccumulatedView| call_to_event(c));
    assert(all_well(events)) by {
        let chunk = read_stream_chunk(json)->0;
        assert(line_chunk(line) == Some(chunk));
        assert(chunk.choices[0].delta.tool_calls is None);
        let spoken = text_events(chunk.choices[0]);
        assert(events == spoken || events == spoken + held);
    }
    law_content_comes_out_word_for_word(agg, line, data, json);
}

/// A line that begins with `data:` carries what stands behind it and behind
/// the white space there, up to its end; `[DONE]` is the end marker. Any other
/// line carries nothing.
pub proof fn law_data_stands_behind_the_prefix(space: Seq<char>, data: Seq<char>, other: Seq<char>)
    requires
        forall|i: int| 0 <= i < space.len() ==> is_white(#[trigger] space[i]),
        data.len() > 0 ==> !is_white(data[0]),
        other.len() < 5 || other.take(5) != "data:"@,
    ensures
        data != "[DONE]"@ ==> line_view("data:"@ + space + data) == LineView::Data(data),
        data == "[DONE]"@ ==> line_view("data:"@ + space + data) is End,
        line_view(other) is Skip,
{
    reveal_strlit("data:");
    let line = "data:"@ + space + data;
    assert(line.take(5) =~= "data:"@);
    assert(line.skip(5) =~= space + data);
    lemma_trim_start_of(space, data);
}

proof fn lemma_trim_start_of(space: Seq<char>, data: Seq<char>)
    requires
        forall|i: int| 0 <= i < space.len() ==> is_white(#[trigger] space[i]),
        data.len() > 0 ==> !is_white(data[0]),
    ensures
        trim_start(space + data) == data,
    decreases space.len(),
{
    if space.len() == 0 {
        assert(space + data =~= data);
    } else {
        assert(is_white(space[0]));
        assert((space + data).drop_first() =~= space.drop_first() + data);
        assert forall|i: int| 0 <= i < space.drop_first().len() implies is_white(
            #[trigger] space.drop_first()[i],
        ) by {
            assert(is_white(space[i + 1]));
        }
        lemma_trim_start_of(space.drop_first(), data);
    }
}

/// The JSON of a line's data.
pub open spec fn data_json(line: Seq<char>) -> Option<JsonView> {
    match line_view(line) {
        LineView::Data(data) => match parsed_json(data) {
            Ok(json) => Some(json),
            Err(_) => None,
        },
        _ => None,
    }
}

/// Whether lines are those of a reply: without the end marker, and with chunks
/// that are written with named members.
pub open spec fn is_reply(lines: Seq<Seq<char>>) -> bool {
    forall|i: int|
        0 <= i < lines.len() ==> !(line_view(#[trigger] lines[i]) is End) && (data_json(
            lines[i],
        ) matches Some(json) ==> is_named(json))
}

/// Lines that all arrived.
pub open spec fn arrived(lines: Seq<Seq<char>>) -> Seq<LineItem> {
    lines.map_values(|line: Seq<char>| Ok::<Seq<char>, ProviderErrorView>(line))
}

/// The contents in the lines of a reply.
pub open spec fn contents(lines: Seq<Seq<char>>) -> Seq<Seq<char>>
    decreases lines.len(),
{
    if lines.len() == 0 {
        Seq::empty()
    } else {
        contents(lines.drop_last()) + match data_json(lines.last()) {
            Some(json) => as_list(text_member(first_delta(json), "content"@)),
            None => Seq::empty(),
        }
    }
}

/// The pieces of reasoning in the lines of a reply.
pub open spec fn reasoning_contents(lines: Seq<Seq<char>>) -> Seq<Seq<char>>
    decreases lines.len(),
{
    if lines.len() == 0 {
        Seq::empty()
    } else {
        reasoning_contents(lines.drop_last()) + match data_json(lines.last()) {
            Some(json) => as_list(reasoning_text(json)),
            None => Seq::empty(),
        }
    }
}

/// The last reason to finish in the lines of a reply.
pub open spec fn last_reason(lines: Seq<Seq<char>>) -> Option<Seq<char>>
    decreases lines.len(),
{
    if lines.len() == 0 {
        None
    } else {
        match data_json(lines.last()) {
            Some(json) => match text_member(first_choice(json), "finish_reason"@) {
                Some(reason) => Some(reason),
                None => last_reason(lines.drop_last()),
            },
            None => last_reason(lines.drop_last()),
        }
    }
}

/// The usage in a JSON object: its three numbers.
pub open spec fn is_usage(json: JsonView, usage: Usage) -> bool {
    &&& member(json, "prompt_tokens"@) == Some(JsonView::Unsigned(usage.prompt_tokens as u64))
    &&& member(json, "completion_tokens"@) == Some(
        JsonView::Unsigned(usage.completion_tokens as u64),
    )
    &&& member(json, "total_tokens"@) == Some(JsonView::Unsigned(usage.total_tokens as u64))
}

/// The last usage that the lines of a reply report, as JSON.
pub open spec fn last_usage(lines: Seq<Seq<char>>) -> Option<JsonView>
    decreases lines.len(),
{
    if lines.len() == 0 {
        None
    } else {
        match data_json(lines.last()) {
            Some(json) => if is_absent(member(json, "usage"@)) {
                last_usage(lines.drop_last())
            } else {
                member(json, "usage"@)
            },
            None => last_usage(lines.drop_last()),
        }
    }
}

/// A usage is read from the members of that name.
pub proof fn law_usage_is_read_from_its_members(json: JsonView, usage: Usage)
    requires
        json is Object,
    ensures
        read_usage(json) == Some(usage) <==> is_usage(json, usage),
{
}

/// A piece of a tool request is read from the members of that name.
pub proof fn law_piece_is_read_from_its_members(json: JsonView)
    requires
        json is Object,
        member(json, "function"@) matches Some(function) ==> function is Object,
    ensures
        read_call_chunk(json) matches Some(piece) ==> {
            &&& member(json, "index"@) == Some(JsonView::Unsigned(piece.index as u64))
            &&& piece.id == text_member(Some(json), "id"@)
            &&& piece.name == text_member(member(json, "function"@), "name"@)
            &&& piece.arguments == text_member(member(json, "function"@), "arguments"@)
        },
{
}

/// The pieces of tool requests in a line.
pub open spec fn line_pieces(line: Seq<char>) -> Seq<CallChunkView> {
    match data_json(line) {
        Some(json) => match first_delta(json) {
            Some(delta) => match member(delta, "tool_calls"@) {
                Some(JsonView::Array(items)) => items.map_values(
                    |j: JsonView| read_call_chunk(j)->0,
                ),
                _ => Seq::empty(),
            },
            None => Seq::empty(),
        },
        None => Seq::empty(),
    }
}

/// Whether a line says why the reply finished.
pub open spec fn finishes(line: Seq<char>) -> bool {
    data_json(line) matches Some(json) && text_member(
        first_choice(json),
        "finish_reason"@,
    ) is Some
}

/// The pieces of tool requests since the last line that finished a reply.
pub open spec fn open_pieces(lines: Seq<Seq<char>>) -> Seq<CallChunkView>
    decreases lines.len(),
{
    if lines.len() == 0 || finishes(lines.last()) {
        Seq::empty()
    } else {
        open_pieces(lines.drop_last()) + line_pieces(lines.last())
    }
}

/// The arguments in the pieces of one request, one after the other.
pub open spec fn piece_arguments(pieces: Seq<CallChunkView>, index: usize) -> Seq<char>
    decreases pieces.len(),
{
    if pieces.len() == 0 {
        Seq::empty()
    } else {
        let earlier = piece_arguments(pieces.drop_last(), index);
        match pieces.last().arguments {
            Some(text) => if pieces.last().index == index {
                earlier + text
            } else {
                earlier
            },
            None => earlier,
        }
    }
}

/// The first id, not empty, in the pieces of one request.
pub open spec fn piece_id(pieces: Seq<CallChunkView>, index: usize) -> Seq<char>
    decreases pieces.len(),
{
    if pieces.len() == 0 {
        Seq::empty()
    } else {
        let earlier = piece_id(pieces.drop_last(), index);
        match pieces.last().id {
            Some(text) => if pieces.last().index == index && earlier.len() == 0 {
                text
            } else {
                earlier
            },
            None => earlier,
        }
    }
}

/// The first name, not empty, in the pieces of one request.
pub open spec fn piece_name(pieces: Seq<CallChunkView>, index: usize) -> Seq<char>
    decreases pieces.len(),
{
    if pieces.len() == 0 {
        Seq::empty()
    } else {
        let earlier = piece_name(pieces.drop_last(), index);
        match pieces.last().name {
            Some(text) => if pieces.last().index == index && earlier.len() == 0 {
                text
            } else {
                earlier
            },
            None => earlier,
        }
    }
}

/// The indexes of the requests that pieces belong to, in the order of their
/// first pieces.
pub open spec fn indexes(pieces: Seq<CallChunkView>) -> Seq<usize>
    decreases pieces.len(),
{
    if pieces.len() == 0 {
        Seq::empty()
    } else {
        let earlier = indexes(pieces.drop_last());
        if earlier.contains(pieces.last().index) {
            earlier
        } else {
            earlier.push(pieces.last().index)
        }
    }
}

/// The requests that pieces make up: each whole, its arguments joined.
#[verifier::rlimit(40)]
pub proof fn law_pieces_make_up_whole_requests(agg: AggregatorView, pieces: Seq<CallChunkView>)
    requires
        agg.calls.len() == 0,
        agg.pushed_all(pieces).1 is None,
    ensures
        ({
            let calls = agg.pushed_all(pieces).0.calls;
            &&& calls.len() == indexes(pieces).len()
            &&& forall|k: int|
                0 <= k < calls.len() ==> {
                    &&& (#[trigger] calls[k]).index == indexes(pieces)[k]
                    &&& calls[k].id == piece_id(pieces, calls[k].index)
                    &&& calls[k].name == piece_name(pieces, calls[k].index)
                    &&& calls[k].arguments == piece_arguments(pieces, calls[k].index)
                }
        }),
    decreases pieces.len(),
{
    let calls = agg.pushed_all(pieces).0.calls;
    if pieces.len() > 0 {
        let rest = pieces.drop_last();
        let piece = pieces.last();
        law_pieces_make_up_whole_requests(agg, rest);
        let before = agg.pushed_all(rest).0;
        let at = place_of(before.calls, piece.index);
        lemma_place_of(before.calls, piece.index);
        let known = indexes(rest);
        lemma_no_piece(rest, piece.index);
        lemma_indexes_distinct(rest);
        if at < before.calls.len() {
            assert(known[at] == piece.index);
            assert(known.contains(piece.index));
            assert forall|k: int| 0 <= k < calls.len() implies {
                &&& (#[trigger] calls[k]).index == indexes(pieces)[k]
                &&& calls[k].id == piece_id(pieces, calls[k].index)
                &&& calls[k].name == piece_name(pieces, calls[k].index)
                &&& calls[k].arguments == piece_arguments(pieces, calls[k].index)
            } by {
                assert(before.calls[k].index == known[k]);
                if k != at {
                    assert(calls[k] == before.calls[k]);
                    assert(known[k] != known[at]);
                } else {
                    assert(calls[k].arguments =~= piece_arguments(pieces, calls[k].index));
                    if before.calls[k].id.len() == 0 {
                        assert(before.calls[k].id =~= Seq::empty());
                    }
                    if before.calls[k].name.len() == 0 {
                        assert(before.calls[k].name =~= Seq::empty());
                    }
                }
            }
        } else {
            if known.contains(piece.index) {
                let k = choose|k: int| 0 <= k < known.len() && known[k] == piece.index;
                assert(before.calls[k].index == piece.index);
            }
            assert forall|k: int| 0 <= k < calls.len() implies {
                &&& (#[trigger] calls[k]).index == indexes(pieces)[k]
                &&& calls[k].id == piece_id(pieces, calls[k].index)
                &&& calls[k].name == piece_name(pieces, calls[k].index)
                &&& calls[k].arguments == piece_arguments(pieces, calls[k].index)
            } by {
                if k < before.calls.len() {
                    assert(calls[k] == before.calls[k]);
                    assert(before.calls[k].index == known[k]);
                    assert(known.contains(known[k]));
                } else {
                    assert(calls[k].index == piece.index);
                    assert(calls[k].arguments =~= piece_arguments(pieces, calls[k].index));
                }
            }
        }
    }
}

proof fn lemma_no_piece(pieces: Seq<CallChunkView>, index: usize)
    ensures
        !indexes(pieces).contains(index) ==> piece_arguments(pieces, index).len() == 0 && piece_id(
            pieces,
            index,
        ).len() == 0 && piece_name(pieces, index).len() == 0,
    decreases pieces.len(),
{
    if pieces.len() > 0 {
        let rest = pieces.drop_last();
        lemma_no_piece(rest, index);
        let earlier = indexes(rest);
        let all = indexes(pieces);
        if !all.contains(index) {
            if earlier.contains(index) {
                let k = choose|k: int| 0 <= k < earlier.len() && earlier[k] == index;
                assert(all[k] == index);
            }
            if pieces.last().index == index {
                assert(all[all.len() - 1] == index);
            }
        }
    }
}

proof fn lemma_indexes_distinct(pieces: Seq<CallChunkView>)
    ensures
        forall|i: int, j: int|
            0 <= i < j < indexes(pieces).len() ==> indexes(pieces)[i] != indexes(pieces)[j],
    decreases pieces.len(),
{
    if pieces.len() > 0 {
        lemma_indexes_distinct(pieces.drop_last());
        let earlier = indexes(pieces.drop_last());
        assert forall|i: int, j: int| 0 <= i < j < indexes(pieces).len() implies indexes(pieces)[i]
            != indexes(pieces)[j] by {
            if j == earlier.len() {
                assert(earlier.contains(earlier[i]));
            }
        }
    }
}

/// The tool requests among events, in order.
pub open spec fn requests(events: Seq<Event>) -> Seq<EventView>
    decreases events.len(),
{
    if events.len() == 0 {
        Seq::empty()
    } else {
        match events.last() {
            Ok(EventView::ToolCall { id, name, arguments }) => requests(events.drop_last()).push(
                EventView::ToolCall { id, name, arguments },
            ),
            _ => requests(events.drop_last()),
        }
    }
}

/// The tool requests that pieces make up.
pub open spec fn whole_requests(pieces: Seq<CallChunkView>) -> Seq<EventView> {
    indexes(pieces).map_values(
        |index: usize|
            EventView::ToolCall {
                id: piece_id(pieces, index),
                name: piece_name(pieces, index),
                arguments: piece_arguments(pieces, index),
            },
    )
}

proof fn lemma_pushed_concat(
    agg: AggregatorView,
    first: Seq<CallChunkView>,
    second: Seq<CallChunkView>,
)
    requires
        agg.pushed_all(first).1 is None,
    ensures
        agg.pushed_all(first + second) == agg.pushed_all(first).0.pushed_all(second),
    decreases second.len(),
{
    if second.len() == 0 {
        assert(first + second =~= first);
    } else {
        lemma_pushed_concat(agg, first, second.drop_last());
        assert((first + second).drop_last() =~= first + second.drop_last());
        assert((first + second).last() == second.last());
    }
}

proof fn lemma_pushed_by_calls(a: AggregatorView, b: AggregatorView, pieces: Seq<CallChunkView>)
    requires
        a.calls == b.calls,
    ensures
        a.pushed_all(pieces).0.calls == b.pushed_all(pieces).0.calls,
        a.pushed_all(pieces).1 == b.pushed_all(pieces).1,
    decreases pieces.len(),
{
    if pieces.len() > 0 {
        lemma_pushed_by_calls(a, b, pieces.drop_last());
    }
}

/// What one line of a reply does to a stream without errors.
#[verifier::rlimit(40)]
proof fn lemma_line(agg: AggregatorView, line: Seq<char>)
    requires
        !agg.errored,
        !agg.finished,
        !(line_view(line) is End),
        data_json(line) matches Some(json) ==> is_named(json),
        all_well(agg.stepped(Ok(line)).1),
    ensures
        ({
            let (after, events) = agg.stepped(Ok(line));
            let collected = agg.pushed_all(line_pieces(line));
            &&& !after.errored
            &&& !after.finished
            &&& deltas(events) == match data_json(line) {
                Some(json) => as_list(text_member(first_delta(json), "content"@)),
                None => Seq::empty(),
            }
            &&& reasonings(events) == match data_json(line) {
                Some(json) => as_list(reasoning_text(json)),
                None => Seq::empty(),
            }
            &&& collected.1 is None
            &&& finishes(line) ==> after.calls.len() == 0 && data_json(line) is Some
                && after.done_reason == Some(
                finish_of(text_member(first_choice(data_json(line)->0), "finish_reason"@)->0),
            ) && requests(events) == collected.0.calls.map_values(
                |c: AccumulatedView|
                    EventView::ToolCall { id: c.id, name: c.name, arguments: c.arguments },
            )
            &&& !finishes(line) ==> after.calls == collected.0.calls && after.done_reason
                == agg.done_reason && requests(events).len() == 0
            &&& match data_json(line) {
                Some(json) => if is_absent(member(json, "usage"@)) {
                    after.usage == agg.usage
                } else {
                    after.usage is Some && after.usage == read_usage(member(json, "usage"@)->0)
                },
                None => after.usage == agg.usage,
            }
        }),
{
    let (after, events) = agg.stepped(Ok(line));
    match line_view(line) {
        LineView::Data(data) => {
            if line_chunk(line) is None {
                assert(events[0] is Err);
            } else {
                let json = data_json(line)->0;
                let chunk = line_chunk(line)->0;
                if chunk.error is Some {
                    assert(events[0] is Err);
                }
                law_content_comes_out_word_for_word(agg, line, data, json);
                lemma_read_chunk(json);
                let counted = match chunk.usage {
                    Some(usage) => agg.with_usage(usage),
                    None => agg,
                };
                if chunk.choices.len() > 0 {
                    let choice = chunk.choices[0];
                    lemma_line_pieces(json, line);
                    let pieces = line_pieces(line);
                    lemma_pushed_keeps_flags(counted, pieces);
                    lemma_pushed_by_calls(counted, agg, pieces);
                    if counted.pushed_all(pieces).1 is Some {
                        assert(choice.delta.tool_calls is Some);
                        assert(events[0] is Err);
                    }
                    lemma_chosen_requests(counted, choice, pieces);
                } else {
                    assert(line_pieces(line) =~= Seq::empty());
                }
            }
        },
        _ => {
            assert(line_pieces(line) =~= Seq::empty());
        },
    }
}

proof fn lemma_line_pieces(json: JsonView, line: Seq<char>)
    requires
        data_json(line) == Some(json),
        is_named(json),
        read_stream_chunk(json) is Some,
        read_stream_chunk(json)->0.choices.len() > 0,
    ensures
        ({
            let calls = read_stream_chunk(json)->0.choices[0].delta.tool_calls;
            line_pieces(line) == match calls {
                Some(chunks) => chunks,
                None => Seq::empty(),
            }
        }),
{
    lemma_read_chunk(json);
    let delta = first_delta(json)->0;
    let calls = read_stream_chunk(json)->0.choices[0].delta.tool_calls;
    assert(read_chunks(delta) == Some(calls));
    match member(delta, "tool_calls"@) {
        Some(JsonView::Array(items)) => {
            let read = |j: JsonView| read_call_chunk(j);
            law_each_item_is_read(items, read);
            let chunks = calls->0;
            assert forall|i: int| 0 <= i < items.len() implies #[trigger] line_pieces(line)[i]
                == chunks[i] by {
                assert(read(items[i]) == Some(chunks[i]));
            }
            assert(line_pieces(line) =~= chunks);
        },
        _ => {
            assert(line_pieces(line) =~= Seq::empty());
        },
    }
}

proof fn lemma_requests_concat(a: Seq<Event>, b: Seq<Event>)
    ensures
        requests(a + b) == requests(a) + requests(b),
    decreases b.len(),
{
    if b.len() == 0 {
        assert(a + b =~= a);
        assert(requests(a) + requests(b) =~= requests(a));
    } else {
        lemma_requests_concat(a, b.drop_last());
        assert((a + b).drop_last() =~= a + b.drop_last());
        assert((a + b).last() == b.last());
        assert(requests(a + b) =~= requests(a) + requests(b));
    }
}

proof fn lemma_requests_of_calls(calls: Seq<AccumulatedView>)
    ensures
        requests(calls.map_values(|c: AccumulatedView| call_to_event(c))) == calls.map_values(
            |c: AccumulatedView|
                EventView::ToolCall { id: c.id, name: c.name, arguments: c.arguments },
        ),
    decreases calls.len(),
{
    let events = calls.map_values(|c: AccumulatedView| call_to_event(c));
    let whole = calls.map_values(
        |c: AccumulatedView|
            EventView::ToolCall { id: c.id, name: c.name, arguments: c.arguments },
    );
    if calls.len() > 0 {
        lemma_requests_of_calls(calls.drop_last());
        assert(events.drop_last() =~= calls.drop_last().map_values(
            |c: AccumulatedView| call_to_event(c),
        ));
        assert(events.last() == call_to_event(calls.last()));
        assert(whole =~= requests(events));
    } else {
        assert(whole =~= Seq::empty());
    }
}

proof fn lemma_chosen_requests(
    agg: AggregatorView,
    choice: super::decode::StreamChoiceView,
    pieces: Seq<CallChunkView>,
)
    requires
        !agg.errored,
        agg.pushed_all(pieces).1 is None,
        pieces == match choice.delta.tool_calls {
            Some(chunks) => chunks,
            None => Seq::empty(),
        },
    ensures
        ({
            let events = agg.chosen(choice).1;
            let calls = agg.pushed_all(pieces).0.calls;
            &&& choice.finish_reason is Some ==> requests(events) == calls.map_values(
                |c: AccumulatedView|
                    EventView::ToolCall { id: c.id, name: c.name, arguments: c.arguments },
            )
            &&& choice.finish_reason is None ==> requests(events).len() == 0
        }),
{
    let spoken = text_events(choice);
    reveal_with_fuel(requests, 3);
    assert(requests(spoken).len() == 0);
    lemma_pushed_keeps_flags(agg, pieces);
    let held = agg.pushed_all(pieces).0;
    let calls = held.calls.map_values(|c: AccumulatedView| call_to_event(c));
    lemma_requests_concat(spoken, calls);
    lemma_requests_of_calls(held.calls);
    assert(requests(spoken) + requests(calls) =~= requests(calls));
}

/// What is known after the lines of a reply.
#[verifier::rlimit(40)]
proof fn lemma_reply(lines: Seq<Seq<char>>)
    requires
        is_reply(lines),
        all_well(AggregatorView::fresh().ran(arrived(lines)).1),
    ensures
        ({
            let (after, events) = AggregatorView::fresh().ran(arrived(lines));
            let collected = AggregatorView::fresh().pushed_all(open_pieces(lines));
            &&& !after.errored
            &&& !after.finished
            &&& deltas(events) == contents(lines)
            &&& reasonings(events) == reasoning_contents(lines)
            &&& collected.1 is None
            &&& after.calls == collected.0.calls
            &&& after.done_reason == match last_reason(lines) {
                Some(reason) => Some(finish_of(reason)),
                None => None,
            }
            &&& match last_usage(lines) {
                Some(json) => after.usage is Some && after.usage == read_usage(json),
                None => after.usage is None,
            }
        }),
    decreases lines.len(),
{
    let items = arrived(lines);
    if lines.len() > 0 {
        let rest = lines.drop_last();
        let line = lines.last();
        assert(items.drop_last() =~= arrived(rest));
        assert(items.last() == Ok::<Seq<char>, ProviderErrorView>(line));
        let (before, events) = AggregatorView::fresh().ran(arrived(rest));
        let more = before.stepped(Ok(line)).1;
        assert forall|i: int| 0 <= i < events.len() implies #[trigger] events[i] is Ok by {
            assert((events + more)[i] is Ok);
        }
        assert forall|i: int| 0 <= i < more.len() implies #[trigger] more[i] is Ok by {
            assert((events + more)[events.len() + i] is Ok);
        }
        assert forall|i: int| 0 <= i < rest.len() implies !(line_view(#[trigger] rest[i]) is End)
            && (data_json(rest[i]) matches Some(json) ==> is_named(json)) by {
            assert(rest[i] == lines[i]);
        }
        assert(lines[lines.len() - 1] == line);
        lemma_reply(rest);
        lemma_line(before, line);
        lemma_deltas_concat(events, more);
        let fresh = AggregatorView::fresh();
        let pieces = line_pieces(line);
        let known = open_pieces(rest);
        lemma_pushed_by_calls(before, fresh.pushed_all(known).0, pieces);
        lemma_pushed_concat(fresh, known, pieces);
        if finishes(line) {
            let after = fresh.ran(items).0;
            assert(after.calls =~= Seq::empty());
        }
    }
}

/// A streamed reply says what the endpoint sent: its text is the contents of
/// the data lines, one after the other and unchanged, its reasoning likewise;
/// and where it comes to its end, it tells the last reason to finish and the
/// last usage that were sent.
#[verifier::rlimit(40)]
pub proof fn law_streamed_reply_says_what_was_sent(
    lines: Seq<Seq<char>>,
    end: Seq<char>,
    marked: bool,
)
    requires
        is_reply(lines),
        line_view(end) is End,
        all_well(
            stream_events(
                if marked {
                    arrived(lines.push(end))
                } else {
                    arrived(lines)
                },
            ),
        ),
    ensures
        ({
            let events = stream_events(
                if marked {
                    arrived(lines.push(end))
                } else {
                    arrived(lines)
                },
            );
            &&& deltas(events) == contents(lines)
            &&& joined(deltas(events)) == joined(contents(lines))
            &&& reasonings(events) == reasoning_contents(lines)
            &&& events.len() > 0
            &&& last_reason(lines) is Some
            &&& events.last() matches Ok(EventView::Done { reason, usage }) && reason == finish_of(
                last_reason(lines)->0,
            ) && match last_usage(lines) {
                Some(json) => usage is Some && (json is Object ==> is_usage(json, usage->0)),
                None => usage is None,
            }
        }),
{
    let fresh = AggregatorView::fresh();
    let (after, events) = fresh.ran(arrived(lines));
    let all = stream_events(
        if marked {
            arrived(lines.push(end))
        } else {
            arrived(lines)
        },
    );
    let closing = after.flushed().1;
    if marked {
        let items = arrived(lines.push(end));
        assert(items.drop_last() =~= arrived(lines));
        assert(items.last() == Ok::<Seq<char>, ProviderErrorView>(end));
        let (last, more) = fresh.ran(items);
        if after.finished {
            assert(more =~= events);
        } else {
            assert(more == events + closing);
        }
        assert(last.flushed().1 =~= Seq::empty());
        assert(all =~= more);
    }
    assert forall|i: int| 0 <= i < events.len() implies #[trigger] events[i] is Ok by {
        assert(all[i] is Ok);
    }
    lemma_reply(lines);
    assert(all =~= events + closing);
    if after.done_reason is None {
        assert(all[events.len() as int] is Err);
    }
    lemma_deltas_concat(events, closing);
    reveal_with_fuel(deltas, 2);
    reveal_with_fuel(reasonings, 2);
    assert(deltas(closing) =~= Seq::empty());
    assert(reasonings(closing) =~= Seq::empty());
    assert(deltas(all) =~= contents(lines));
    assert(reasonings(all) =~= reasoning_contents(lines));
    assert(all.last() == closing[0]);
    if let Some(json) = last_usage(lines) {
        if json is Object {
            law_usage_is_read_from_its_members(json, after.usage->0);
        }
    }
}

/// Tool requests come out whole, when the reply finishes: one for each index,
/// in the order of their first pieces, with the arguments of all its pieces
/// joined. Before that, none comes out.
#[verifier::rlimit(40)]
pub proof fn law_streamed_requests_come_out_whole(lines: Seq<Seq<char>>, line: Seq<char>)
    requires
        is_reply(lines.push(line)),
        all_well(AggregatorView::fresh().ran(arrived(lines.push(line))).1),
    ensures
        ({
            let events = AggregatorView::fresh().ran(arrived(lines)).0.stepped(Ok(line)).1;
            requests(events) == if finishes(line) {
                whole_requests(open_pieces(lines) + line_pieces(line))
            } else {
                Seq::empty()
            }
        }),
{
    let fresh = AggregatorView::fresh();
    let all = lines.push(line);
    let items = arrived(all);
    assert(items.drop_last() =~= arrived(lines));
    assert(items.last() == Ok::<Seq<char>, ProviderErrorView>(line));
    let (before, events) = fresh.ran(arrived(lines));
    let more = before.stepped(Ok(line)).1;
    assert(fresh.ran(items).1 == events + more);
    assert forall|i: int| 0 <= i < events.len() implies #[trigger] events[i] is Ok by {
        assert((events + more)[i] is Ok);
    }
    assert forall|i: int| 0 <= i < more.len() implies #[trigger] more[i] is Ok by {
        assert((events + more)[events.len() + i] is Ok);
    }
    assert forall|i: int| 0 <= i < lines.len() implies !(line_view(#[trigger] lines[i]) is End)
        && (data_json(lines[i]) matches Some(json) ==> is_named(json)) by {
        assert(lines[i] == all[i]);
    }
    assert(all[lines.len() as int] == line);
    lemma_reply(lines);
    lemma_line(before, line);
    let known = open_pieces(lines);
    let pieces = known + line_pieces(line);
    lemma_pushed_by_calls(before, fresh.pushed_all(known).0, line_pieces(line));
    lemma_pushed_concat(fresh, known, line_pieces(line));
    law_pieces_make_up_whole_requests(fresh, pieces);
    if finishes(line) {
        let calls = fresh.pushed_all(pieces).0.calls;
        assert forall|k: int| 0 <= k < calls.len() implies #[trigger] requests(more)[k]
            == whole_requests(pieces)[k] by {
            assert(calls[k].index == indexes(pieces)[k]);
        }
        assert(requests(more) =~= whole_requests(pieces));
    } else {
        assert(requests(more) =~= Seq::empty());
    }
}

/// Asking for tools is a stop like any other, running into the length limit is
/// told apart, and a vendor's own reason is kept word for word.
pub proof fn law_reasons_to_finish(reason: Seq<char>)
    ensures
        finish_of(reason) is Stop <==> reason == "stop"@ || reason == "tool_calls"@,
        finish_of(reason) is Length <==> reason == "length"@,
        finish_of(reason) matches FinishView::Other(kept) ==> kept == reason,
{
    reveal_strlit("stop");
    reveal_strlit("tool_calls");
    reveal_strlit("length");
    assert("stop"@.len() == 4 && "tool_calls"@.len() == 10 && "length"@.len() == 6);
}

proof fn lemma_no_delta(events: Seq<Event>)
    requires
        deltas(events).len() == 0,
    ensures
        forall|i: int|
            0 <= i < events.len() ==> !(#[trigger] events[i] matches Ok(EventView::Delta(_))),
    decreases events.len(),
{
    if events.len() > 0 {
        lemma_no_delta(events.drop_last());
        assert forall|i: int| 0 <= i < events.len() implies !(
        #[trigger] events[i] matches Ok(EventView::Delta(_))) by {
            if i < events.len() - 1 {
                assert(events[i] == events.drop_last()[i]);
            }
        }
    }
}

proof fn lemma_one_delta(events: Seq<Event>, text: Seq<char>) -> (at: int)
    requires
        deltas(events) == seq![text],
    ensures
        0 <= at < events.len(),
        events[at] == Ok::<EventView, ProviderErrorView>(EventView::Delta(text)),
        forall|i: int|
            0 <= i < events.len() && i != at ==> !(#[trigger] events[i] matches Ok(
                EventView::Delta(_),
            )),
    decreases events.len(),
{
    let n = events.len() - 1;
    let rest = events.drop_last();
    assert(deltas(events).len() == 1);
    assert(events.len() > 0);
    if let Ok(EventView::Delta(last)) = events.last() {
        assert(deltas(events).drop_last() =~= deltas(rest));
        assert(deltas(rest).len() == 0);
        assert(deltas(events).last() == last);
        lemma_no_delta(rest);
        assert forall|i: int| 0 <= i < events.len() && i != n implies !(
        #[trigger] events[i] matches Ok(EventView::Delta(_))) by {
            assert(events[i] == rest[i]);
        }
        n
    } else {
        let at = lemma_one_delta(rest, text);
        assert forall|i: int| 0 <= i < events.len() && i != at implies !(
        #[trigger] events[i] matches Ok(EventView::Delta(_))) by {
            if i < n {
                assert(events[i] == rest[i]);
            }
        }
        at
    }
}

/// Whether exactly one event is a piece of text, and it is this text.
pub open spec fn is_the_only_delta(
    events: Seq<Result<StreamEvent, ProviderError>>,
    text: Seq<char>,
    at: int,
) -> bool {
    &&& 0 <= at < events.len()
    &&& events[at] matches Ok(StreamEvent::Delta(said)) && said@ == text
    &&& forall|i: int|
        0 <= i < events.len() && i != at ==> !(#[trigger] events[i] matches Ok(
            StreamEvent::Delta(_),
        ))
}

/// Parsing a line whose data has a content gives, unless it fails, exactly one
/// piece of text: that content, character by character.
pub proof fn law_parsed_lines_give_their_content(
    line: &str,
    data: Seq<char>,
    json: JsonView,
    content: Seq<char>,
    events: Vec<Result<StreamEvent, ProviderError>>,
)
    requires
        line_view(line@) == LineView::Data(data),
        parsed_json(data) == Ok::<JsonView, Seq<char>>(json),
        is_named(json),
        text_member(first_delta(json), "content"@) == Some(content),
        forall|i: int| 0 <= i < events@.len() ==> #[trigger] events@[i] is Ok,
    ensures
        forall|agg: &mut ToolCallAggregator|
            !agg@.errored && #[trigger] call_ensures(parse_sse_line, (line, agg), events)
                ==> exists|at: int| is_the_only_delta(events@, content, at),
{
    assert forall|agg: &mut ToolCallAggregator|
        !agg@.errored && #[trigger] call_ensures(parse_sse_line, (line, agg), events) implies exists|
        at: int,
    | is_the_only_delta(events@, content, at) by {
        let views = result_views(events@);
        assert(views == agg@.lined(line@, line_chunk(line@)).1);
        assert forall|i: int| 0 <= i < views.len() implies #[trigger] views[i] is Ok by {
            assert(events@[i] is Ok);
        }
        law_content_comes_out_word_for_word(agg@, line@, data, json);
        lemma_only_delta(events@, content);
    }
}

/// An error that the endpoint reports in a stream is told with its message, and
/// nothing else of the line is.
pub proof fn law_reported_errors_are_told(
    agg: AggregatorView,
    line: Seq<char>,
    data: Seq<char>,
    json: JsonView,
    message: Seq<char>,
)
    requires
        line_view(line) == LineView::Data(data),
        parsed_json(data) == Ok::<JsonView, Seq<char>>(json),
        json is Object,
        member(json, "choices"@) is None,
        is_absent(member(json, "usage"@)),
        member(json, "error"@) matches Some(error) && error is Object && member(error, "message"@)
            == Some(JsonView::Text(message)),
    ensures
        agg.lined(line, line_chunk(line)).0.errored,
        agg.lined(line, line_chunk(line)).1 == seq![
            Err::<EventView, ProviderErrorView>(
                ProviderErrorView::Api {
                    status: 0,
                    message: "provider stream error: "@ + message,
                },
            ),
        ],
{
}

/// Data that is no JSON is reported, with the data itself.
pub proof fn law_broken_data_is_reported(agg: AggregatorView, line: Seq<char>, data: Seq<char>)
    requires
        line_view(line) == LineView::Data(data),
        parsed_json(data) is Err,
    ensures
        agg.lined(line, line_chunk(line)).0.errored,
        agg.lined(line, line_chunk(line)).1 == seq![
            Err::<EventView, ProviderErrorView>(
                ProviderErrorView::Api { status: 0, message: "invalid stream event: "@ + data },
            ),
        ],
{
}

/// Pieces of tool requests are refused only where the requests are more than
/// 64 or the arguments of one are longer than 1048576 bytes.
pub proof fn law_pieces_within_the_limits_are_taken(agg: AggregatorView, piece: CallChunkView)
    ensures
        ({
            let at = place_of(agg.calls, piece.index);
            let held = if at < agg.calls.len() {
                byte_len(agg.calls[at].arguments)
            } else {
                0
            };
            let fits = held + byte_len(or_none(piece.arguments)) <= 1048576;
            agg.pushed(piece).1 is None <==> fits && (at < agg.calls.len() || agg.calls.len() < 64)
        }),
        agg.pushed(piece).1 matches Some(e) ==> e is Api,
{
    lemma_place_of(agg.calls, piece.index);
}

/// A line of a stream that is under way gives its content, as parsing it does;
/// an error of the transport is told as it is, and ends the reply.
pub proof fn law_steps_give_content_or_error(
    line: String,
    data: Seq<char>,
    json: JsonView,
    content: Seq<char>,
    events: Vec<Result<StreamEvent, ProviderError>>,
    e: ProviderError,
)
    requires
        line_view(line@) == LineView::Data(data),
        parsed_json(data) == Ok::<JsonView, Seq<char>>(json),
        is_named(json),
        text_member(first_delta(json), "content"@) == Some(content),
    ensures
        forall|agg: &mut ToolCallAggregator|
            !agg@.errored && !agg@.finished && (forall|i: int|
                0 <= i < events@.len() ==> #[trigger] events@[i] is Ok) && #[trigger] call_ensures(
                step_stream,
                (Ok::<String, ProviderError>(line), agg),
                events,
            ) ==> exists|at: int| is_the_only_delta(events@, content, at),
        forall|agg: &mut ToolCallAggregator|
            !agg@.finished && #[trigger] call_ensures(
                step_stream,
                (Err::<String, ProviderError>(e), agg),
                events,
            ) ==> events@.len() == 1 && (events@[0] matches Err(told) && told@ == e@)
                && final(agg)@.errored,
{
    assert forall|agg: &mut ToolCallAggregator|
        !agg@.errored && !agg@.finished && (forall|i: int|
            0 <= i < events@.len() ==> #[trigger] events@[i] is Ok) && #[trigger] call_ensures(
            step_stream,
            (Ok::<String, ProviderError>(line), agg),
            events,
        ) implies exists|at: int| is_the_only_delta(events@, content, at) by {
        let views = result_views(events@);
        assert(views == agg@.stepped(Ok(line@)).1);
        assert forall|i: int| 0 <= i < views.len() implies #[trigger] views[i] is Ok by {
            assert(events@[i] is Ok);
        }
        law_content_comes_out_word_for_word(agg@, line@, data, json);
        lemma_only_delta(events@, content);
    }
    assert forall|agg: &mut ToolCallAggregator|
        !agg@.finished && #[trigger] call_ensures(
            step_stream,
            (Err::<String, ProviderError>(e), agg),
            events,
        ) implies events@.len() == 1 && (events@[0] matches Err(told) && told@ == e@)
        && final(agg)@.errored by {
        let views = result_views(events@);
        assert(views == seq![Err::<EventView, ProviderErrorView>(e@)]);
        assert(views.len() == 1);
        assert(views[0] == result_view(events@[0]));
    }
}

proof fn lemma_only_delta(events: Seq<Result<StreamEvent, ProviderError>>, content: Seq<char>)
    requires
        deltas(result_views(events)) == seq![content],
    ensures
        exists|at: int| is_the_only_delta(events, content, at),
{
    let views = result_views(events);
    let at = lemma_one_delta(views, content);
    assert(views[at] == result_view(events[at]));
    assert forall|i: int| 0 <= i < events.len() && i != at implies !(#[trigger] events[i] matches Ok(
        StreamEvent::Delta(_),
    )) by {
        assert(views[i] == result_view(events[i]));
    }
    assert(is_the_only_delta(events, content, at));
}

/// Whether a value is a piece of a tool request.
pub open spec fn is_piece(json: JsonView) -> bool {
    &&& json is Object
    &&& member(json, "index"@) matches Some(JsonView::Unsigned(n)) && n <= usize::MAX
    &&& may_be_text(member(json, "id"@))
    &&& is_absent(member(json, "function"@)) || (member(json, "function"@) matches Some(function)
        && function is Object && may_be_text(member(function, "name"@)) && may_be_text(
        member(function, "arguments"@),
    ))
}

/// Whether a value is what a choice adds to a reply.
pub open spec fn is_delta(json: JsonView) -> bool {
    &&& json is Object
    &&& may_be_text(member(json, "content"@))
    &&& may_be_text(member(json, "reasoning_content"@))
    &&& may_be_text(member(json, "reasoning"@))
    &&& member(json, "reasoning"@) is None || member(json, "reasoning_content"@) is None
    &&& is_absent(member(json, "tool_calls"@)) || (member(json, "tool_calls"@) matches Some(
        JsonView::Array(items),
    ) && forall|i: int| 0 <= i < items.len() ==> is_piece(#[trigger] items[i]))
}

/// Whether a value is a choice of a streamed reply.
pub open spec fn is_choice(json: JsonView) -> bool {
    &&& json is Object
    &&& member(json, "delta"@) matches Some(delta) && is_delta(delta)
    &&& may_be_text(member(json, "finish_reason"@))
}

/// Whether a usage is absent or has its three numbers.
pub open spec fn may_be_usage(json: Option<JsonView>) -> bool {
    is_absent(json) || (json matches Some(value) && value is Object && exists|usage: Usage|
        is_usage(value, usage))
}

/// Whether a value is a chunk of a streamed reply.
pub open spec fn is_chunk(json: JsonView) -> bool {
    &&& json is Object
    &&& member(json, "choices"@) is None || (member(json, "choices"@) matches Some(
        JsonView::Array(items),
    ) && forall|i: int| 0 <= i < items.len() ==> is_choice(#[trigger] items[i]))
    &&& may_be_usage(member(json, "usage"@))
    &&& is_absent(member(json, "error"@))
}

proof fn lemma_delta_is_read(json: JsonView)
    requires
        is_delta(json),
    ensures
        read_delta(json) is Some,
{
    if let Some(JsonView::Array(items)) = member(json, "tool_calls"@) {
        let read = |j: JsonView| read_call_chunk(j);
        assert forall|i: int| 0 <= i < items.len() implies read(#[trigger] items[i]) is Some by {
            assert(is_piece(items[i]));
            assert(read_call_chunk(items[i]) is Some);
        }
        law_each_item_is_read(items, read);
    }
    assert(read_chunks(json) is Some);
}

/// Every chunk of a reply is read, whatever it says: it is an error only where
/// the tool requests go over their limits.
pub proof fn law_chunks_are_read(
    agg: AggregatorView,
    line: Seq<char>,
    data: Seq<char>,
    json: JsonView,
)
    requires
        !agg.errored,
        line_view(line) == LineView::Data(data),
        parsed_json(data) == Ok::<JsonView, Seq<char>>(json),
        is_chunk(json),
    ensures
        is_named(json),
        line_chunk(line) is Some,
        agg.pushed_all(line_pieces(line)).1 is None ==> all_well(
            agg.lined(line, line_chunk(line)).1,
        ),
{
    if let Some(JsonView::Array(items)) = member(json, "choices"@) {
        let read = |j: JsonView| read_stream_choice(j);
        assert forall|i: int| 0 <= i < items.len() implies read(#[trigger] items[i]) is Some by {
            assert(is_choice(items[i]));
            lemma_delta_is_read(member(items[i], "delta"@)->0);
            assert(read_stream_choice(items[i]) is Some);
        }
        law_each_item_is_read(items, read);
        if items.len() > 0 {
            assert(is_choice(items[0]));
        }
    }
    assert(read_stream_choices(json) is Some);
    if !is_absent(member(json, "usage"@)) {
        let value = member(json, "usage"@)->0;
        let usage = choose|usage: Usage| is_usage(value, usage);
        law_usage_is_read_from_its_members(value, usage);
    }
    assert(read_stream_chunk(json) is Some);
    let chunk = read_stream_chunk(json)->0;
    assert(line_chunk(line) == Some(chunk));
    let events = agg.lined(line, line_chunk(line)).1;
    if agg.pushed_all(line_pieces(line)).1 is None && chunk.choices.len() > 0 {
        let choice = chunk.choices[0];
        lemma_line_pieces(json, line);
        let counted = match chunk.usage {
            Some(usage) => agg.with_usage(usage),
            None => agg,
        };
        lemma_pushed_by_calls(counted, agg, line_pieces(line));
        lemma_pushed_keeps_flags(counted, line_pieces(line));
        let spoken = text_events(choice);
        let held = match choice.delta.tool_calls {
            Some(chunks) => counted.pushed_all(chunks).0,
            None => counted,
        };
        let calls = held.calls.map_values(|c: AccumulatedView| call_to_event(c));
        assert(events == spoken || events == spoken + calls);
    }
}

} // verus!
