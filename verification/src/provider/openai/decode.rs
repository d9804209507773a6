//! Replies in the wire format of OpenAI-compatible endpoints, read from JSON.

use vstd::prelude::*;

use super::wire::{
    wire_call_views, OpenAiMessage, OpenAiToolCall, WireCallView, WireMessageView,
};
use crate::json::{json_views, member, Json, JsonView};
use crate::provider::Usage;
use crate::record::{
    count_at, count_of, is_record, is_record_of, lemma_unreadable, opt_opt_view, opt_text_at,
    opt_text_of, part, part_of, present, read_all, text_at, text_of,
};
use crate::text::opt_view;

verus! {

/// The reasoning, which some endpoints send under a shorter name. Both names
/// at once are refused.
pub open spec fn reasoning_at(json: JsonView, index: int) -> Option<Option<Seq<char>>> {
    if member(json, "reasoning"@) is None {
        opt_text_at(json, index, "reasoning_content"@)
    } else if member(json, "reasoning_content"@) is None {
        opt_text_at(json, index, "reasoning"@)
    } else {
        None
    }
}

fn reasoning_of(json: &Json, index: usize) -> (r: Option<Option<String>>)
    ensures
        opt_opt_view(r) == reasoning_at(json@, index as int),
{
    if json.get("reasoning").is_none() {
        opt_text_of(json, index, "reasoning_content")
    } else if json.get("reasoning_content").is_none() {
        opt_text_of(json, index, "reasoning")
    } else {
        None
    }
}

/// The usage in a record of three numbers.
pub open spec fn read_usage(json: JsonView) -> Option<Usage> {
    if !is_record(json, 3) {
        None
    } else {
        match (
            count_at(json, 0, "prompt_tokens"@),
            count_at(json, 1, "completion_tokens"@),
            count_at(json, 2, "total_tokens"@),
        ) {
            (Some(prompt_tokens), Some(completion_tokens), Some(total_tokens)) => Some(
                Usage { prompt_tokens, completion_tokens, total_tokens },
            ),
            _ => None,
        }
    }
}

/// A usage that may be absent.
pub open spec fn opt_usage_at(json: JsonView, index: int) -> Option<Option<Usage>> {
    match part(json, index, "usage"@) {
        None => Some(None),
        Some(JsonView::Null) => Some(None),
        Some(value) => match read_usage(value) {
            Some(usage) => Some(Some(usage)),
            None => None,
        },
    }
}

fn usage_of_json(json: &Json) -> (r: Option<Usage>)
    ensures
        r == read_usage(json@),
{
    if !is_record_of(json, 3) {
        return None;
    }
    let prompt_tokens = match count_of(json, 0, "prompt_tokens") {
        Some(n) => n,
        None => {
            return None;
        },
    };
    let completion_tokens = match count_of(json, 1, "completion_tokens") {
        Some(n) => n,
        None => {
            return None;
        },
    };
    match count_of(json, 2, "total_tokens") {
        Some(total_tokens) => Some(Usage { prompt_tokens, completion_tokens, total_tokens }),
        None => None,
    }
}

fn opt_usage_of(json: &Json, index: usize) -> (r: Option<Option<Usage>>)
    ensures
        r == opt_usage_at(json@, index as int),
{
    match part_of(json, index, "usage") {
        None => Some(None),
        Some(value) => if value.is_null() {
            Some(None)
        } else {
            match usage_of_json(value) {
                Some(usage) => Some(Some(usage)),
                None => None,
            }
        },
    }
}

/// A piece of a tool request in a stream.
#[derive(Debug, PartialEq, Eq)]
pub struct OpenAiToolCallChunk {
    /// Which request the piece belongs to.
    pub index: usize,
    pub id: Option<String>,
    pub name: Option<String>,
    pub arguments: Option<String>,
}

pub struct CallChunkView {
    pub index: usize,
    pub id: Option<Seq<char>>,
    pub name: Option<Seq<char>>,
    pub arguments: Option<Seq<char>>,
}

impl View for OpenAiToolCallChunk {
    type V = CallChunkView;

    open spec fn view(&self) -> CallChunkView {
        CallChunkView {
            index: self.index,
            id: opt_view(self.id),
            name: opt_view(self.name),
            arguments: opt_view(self.arguments),
        }
    }
}

pub open spec fn chunk_views(chunks: Seq<OpenAiToolCallChunk>) -> Seq<CallChunkView> {
    chunks.map_values(|c: OpenAiToolCallChunk| c@)
}

/// The name and the arguments in the function part of a piece.
pub open spec fn read_function(json: JsonView) -> Option<(Option<Seq<char>>, Option<Seq<char>>)> {
    match part(json, 2, "function"@) {
        None => Some((None, None)),
        Some(JsonView::Null) => Some((None, None)),
        Some(function) => if !is_record(function, 2) {
            None
        } else {
            match (
                opt_text_at(function, 0, "name"@),
                opt_text_at(function, 1, "arguments"@),
            ) {
                (Some(name), Some(arguments)) => Some((name, arguments)),
                _ => None,
            }
        },
    }
}

/// A piece of a tool request.
pub open spec fn read_call_chunk(json: JsonView) -> Option<CallChunkView> {
    if !is_record(json, 3) {
        None
    } else {
        match (part(json, 0, "index"@), opt_text_at(json, 1, "id"@), read_function(json)) {
            (Some(JsonView::Unsigned(n)), Some(id), Some((name, arguments))) => if n <= usize::MAX {
                Some(CallChunkView { index: n as usize, id, name, arguments })
            } else {
                None
            },
            _ => None,
        }
    }
}

fn function_of(json: &Json) -> (r: Option<(Option<String>, Option<String>)>)
    ensures
        match r {
            Some((name, arguments)) => read_function(json@) == Some(
                (opt_view(name), opt_view(arguments)),
            ),
            None => read_function(json@) is None,
        },
{
    match part_of(json, 2, "function") {
        None => Some((None, None)),
        Some(function) => {
            if function.is_null() {
                return Some((None, None));
            }
            if !is_record_of(function, 2) {
                return None;
            }
            let name = match opt_text_of(function, 0, "name") {
                Some(name) => name,
                None => {
                    return None;
                },
            };
            match opt_text_of(function, 1, "arguments") {
                Some(arguments) => Some((name, arguments)),
                None => None,
            }
        },
    }
}

fn call_chunk_of(json: &Json) -> (r: Option<OpenAiToolCallChunk>)
    ensures
        match r {
            Some(chunk) => read_call_chunk(json@) == Some(chunk@),
            None => read_call_chunk(json@) is None,
        },
{
    if !is_record_of(json, 3) {
        return None;
    }
    let index: usize = match part_of(json, 0, "index") {
        Some(value) => match value.as_u64() {
            Some(n) => {
                if n > usize::MAX as u64 {
                    return None;
                }
                n as usize
            },
            None => {
                return None;
            },
        },
        None => {
            return None;
        },
    };
    let id = match opt_text_of(json, 1, "id") {
        Some(id) => id,
        None => {
            return None;
        },
    };
    match function_of(json) {
        Some((name, arguments)) => Some(OpenAiToolCallChunk { index, id, name, arguments }),
        None => None,
    }
}

fn call_chunks_of(items: &Vec<Json>) -> (r: Option<Vec<OpenAiToolCallChunk>>)
    ensures
        match r {
            Some(chunks) => read_all(json_views(items@), |j: JsonView| read_call_chunk(j)) == Some(
                chunk_views(chunks@),
            ),
            None => read_all(json_views(items@), |j: JsonView| read_call_chunk(j)) is None,
        },
{
    let ghost all = json_views(items@);
    let ghost read = |j: JsonView| read_call_chunk(j);
    let mut out: Vec<OpenAiToolCallChunk> = Vec::new();
    let mut i: usize = 0;
    assert(all.take(0) =~= Seq::empty());
    assert(chunk_views(out@) =~= Seq::empty());
    while i < items.len()
        invariant
            i <= items@.len(),
            all == json_views(items@),
            read == (|j: JsonView| read_call_chunk(j)),
            read_all(all.take(i as int), read) == Some(chunk_views(out@)),
        decreases items@.len() - i,
    {
        let ghost head = all.take(i + 1);
        assert(head.drop_last() =~= all.take(i as int));
        assert(head.last() == items@[i as int]@);
        match call_chunk_of(&items[i]) {
            Some(chunk) => {
                let ghost before = out@;
                out.push(chunk);
                assert(chunk_views(out@) =~= chunk_views(before).push(chunk@));
            },
            None => {
                proof {
                    lemma_unreadable(all, read, i + 1);
                }
                return None;
            },
        }
        i = i + 1;
    }
    assert(all.take(i as int) =~= all);
    Some(out)
}

/// What a chunk adds to a reply.
#[derive(Debug, PartialEq, Eq)]
pub struct OpenAiStreamDelta {
    pub content: Option<String>,
    pub reasoning_content: Option<String>,
    pub tool_calls: Option<Vec<OpenAiToolCallChunk>>,
}

pub struct DeltaView {
    pub content: Option<Seq<char>>,
    pub reasoning_content: Option<Seq<char>>,
    pub tool_calls: Option<Seq<CallChunkView>>,
}

impl View for OpenAiStreamDelta {
    type V = DeltaView;

    open spec fn view(&self) -> DeltaView {
        DeltaView {
            content: opt_view(self.content),
            reasoning_content: opt_view(self.reasoning_content),
            tool_calls: match self.tool_calls {
                Some(chunks) => Some(chunk_views(chunks@)),
                None => None,
            },
        }
    }
}

/// A list of tool request pieces that may be absent.
pub open spec fn read_chunks(json: JsonView) -> Option<Option<Seq<CallChunkView>>> {
    match part(json, 2, "tool_calls"@) {
        None => Some(None),
        Some(JsonView::Null) => Some(None),
        Some(JsonView::Array(items)) => match read_all(items, |j: JsonView| read_call_chunk(j)) {
            Some(chunks) => Some(Some(chunks)),
            None => None,
        },
        _ => None,
    }
}

pub open spec fn read_delta(json: JsonView) -> Option<DeltaView> {
    if !is_record(json, 3) {
        None
    } else {
        match (opt_text_at(json, 0, "content"@), reasoning_at(json, 1), read_chunks(json)) {
            (Some(content), Some(reasoning_content), Some(tool_calls)) => Some(
                DeltaView { content, reasoning_content, tool_calls },
            ),
            _ => None,
        }
    }
}

fn delta_of(json: &Json) -> (r: Option<OpenAiStreamDelta>)
    ensures
        match r {
            Some(delta) => read_delta(json@) == Some(delta@),
            None => read_delta(json@) is None,
        },
{
    if !is_record_of(json, 3) {
        return None;
    }
    let content = match opt_text_of(json, 0, "content") {
        Some(content) => content,
        None => {
            return None;
        },
    };
    let reasoning_content = match reasoning_of(json, 1) {
        Some(reasoning) => reasoning,
        None => {
            return None;
        },
    };
    let tool_calls: Option<Vec<OpenAiToolCallChunk>> = match part_of(json, 2, "tool_calls") {
        None => None,
        Some(value) => if value.is_null() {
            None
        } else {
            match value.as_array() {
                Some(items) => match call_chunks_of(items) {
                    Some(chunks) => Some(chunks),
                    None => {
                        return None;
                    },
                },
                None => {
                    return None;
                },
            }
        },
    };
    Some(OpenAiStreamDelta { content, reasoning_content, tool_calls })
}

/// One alternative of a streamed reply.
#[derive(Debug, PartialEq, Eq)]
pub struct OpenAiStreamChoice {
    pub delta: OpenAiStreamDelta,
    pub finish_reason: Option<String>,
}

pub struct StreamChoiceView {
    pub delta: DeltaView,
    pub finish_reason: Option<Seq<char>>,
}

impl View for OpenAiStreamChoice {
    type V = StreamChoiceView;

    open spec fn view(&self) -> StreamChoiceView {
        StreamChoiceView { delta: self.delta@, finish_reason: opt_view(self.finish_reason) }
    }
}

pub open spec fn stream_choice_views(choices: Seq<OpenAiStreamChoice>) -> Seq<StreamChoiceView> {
    choices.map_values(|c: OpenAiStreamChoice| c@)
}

pub open spec fn read_stream_choice(json: JsonView) -> Option<StreamChoiceView> {
    if !is_record(json, 2) {
        None
    } else {
        match part(json, 0, "delta"@) {
            None => None,
            Some(value) => match (read_delta(value), opt_text_at(json, 1, "finish_reason"@)) {
                (Some(delta), Some(finish_reason)) => Some(
                    StreamChoiceView { delta, finish_reason },
                ),
                _ => None,
            },
        }
    }
}

fn stream_choice_of(json: &Json) -> (r: Option<OpenAiStreamChoice>)
    ensures
        match r {
            Some(choice) => read_stream_choice(json@) == Some(choice@),
            None => read_stream_choice(json@) is None,
        },
{
    if !is_record_of(json, 2) {
        return None;
    }
    let delta = match part_of(json, 0, "delta") {
        Some(value) => match delta_of(value) {
            Some(delta) => delta,
            None => {
                return None;
            },
        },
        None => {
            return None;
        },
    };
    match opt_text_of(json, 1, "finish_reason") {
        Some(finish_reason) => Some(OpenAiStreamChoice { delta, finish_reason }),
        None => None,
    }
}

fn stream_choices_of(items: &Vec<Json>) -> (r: Option<Vec<OpenAiStreamChoice>>)
    ensures
        match r {
            Some(choices) => read_all(json_views(items@), |j: JsonView| read_stream_choice(j))
                == Some(stream_choice_views(choices@)),
            None => read_all(json_views(items@), |j: JsonView| read_stream_choice(j)) is None,
        },
{
    let ghost all = json_views(items@);
    let ghost read = |j: JsonView| read_stream_choice(j);
    let mut out: Vec<OpenAiStreamChoice> = Vec::new();
    let mut i: usize = 0;
    assert(all.take(0) =~= Seq::empty());
    assert(stream_choice_views(out@) =~= Seq::empty());
    while i < items.len()
        invariant
            i <= items@.len(),
            all == json_views(items@),
            read == (|j: JsonView| read_stream_choice(j)),
            read_all(all.take(i as int), read) == Some(stream_choice_views(out@)),
        decreases items@.len() - i,
    {
        let ghost head = all.take(i + 1);
        assert(head.drop_last() =~= all.take(i as int));
        assert(head.last() == items@[i as int]@);
        match stream_choice_of(&items[i]) {
            Some(choice) => {
                let ghost before = out@;
                out.push(choice);
                assert(stream_choice_views(out@) =~= stream_choice_views(before).push(choice@));
            },
            None => {
                proof {
                    lemma_unreadable(all, read, i + 1);
                }
                return None;
            },
        }
        i = i + 1;
    }
    assert(all.take(i as int) =~= all);
    Some(out)
}

/// One chunk of a streamed reply.
#[derive(Debug, PartialEq, Eq)]
pub struct OpenAiStreamChunk {
    pub choices: Vec<OpenAiStreamChoice>,
    pub usage: Option<Usage>,
    /// The message of an error that the endpoint reports.
    pub error: Option<String>,
}

pub struct StreamChunkView {
    pub choices: Seq<StreamChoiceView>,
    pub usage: Option<Usage>,
    pub error: Option<Seq<char>>,
}

impl View for OpenAiStreamChunk {
    type V = StreamChunkView;

    open spec fn view(&self) -> StreamChunkView {
        StreamChunkView {
            choices: stream_choice_views(self.choices@),
            usage: self.usage,
            error: opt_view(self.error),
        }
    }
}

/// The message in an error record.
pub open spec fn read_error(json: JsonView) -> Option<Seq<char>> {
    if is_record(json, 1) {
        text_at(json, 0, "message"@)
    } else {
        None
    }
}

/// An error record that may be absent.
pub open spec fn opt_error_at(json: JsonView, index: int) -> Option<Option<Seq<char>>> {
    match part(json, index, "error"@) {
        None => Some(None),
        Some(JsonView::Null) => Some(None),
        Some(value) => match read_error(value) {
            Some(message) => Some(Some(message)),
            None => None,
        },
    }
}

fn error_of(json: &Json) -> (r: Option<String>)
    ensures
        opt_view(r) == read_error(json@),
{
    if is_record_of(json, 1) {
        text_of(json, 0, "message")
    } else {
        None
    }
}

fn opt_error_of(json: &Json, index: usize) -> (r: Option<Option<String>>)
    ensures
        opt_opt_view(r) == opt_error_at(json@, index as int),
{
    match part_of(json, index, "error") {
        None => Some(None),
        Some(value) => if value.is_null() {
            Some(None)
        } else {
            match error_of(value) {
                Some(message) => Some(Some(message)),
                None => None,
            }
        },
    }
}

/// The choices of a chunk; none when the member is absent.
pub open spec fn read_stream_choices(json: JsonView) -> Option<Seq<StreamChoiceView>> {
    match part(json, 0, "choices"@) {
        None => Some(Seq::empty()),
        Some(JsonView::Array(items)) => read_all(items, |j: JsonView| read_stream_choice(j)),
        _ => None,
    }
}

pub open spec fn read_stream_chunk(json: JsonView) -> Option<StreamChunkView> {
    if !is_record(json, 3) {
        None
    } else {
        match (read_stream_choices(json), opt_usage_at(json, 1), opt_error_at(json, 2)) {
            (Some(choices), Some(usage), Some(error)) => Some(
                StreamChunkView { choices, usage, error },
            ),
            _ => None,
        }
    }
}

/// Reads a chunk of a streamed reply.
pub fn stream_chunk_of(json: &Json) -> (r: Option<OpenAiStreamChunk>)
    ensures
        match r {
            Some(chunk) => read_stream_chunk(json@) == Some(chunk@),
            None => read_stream_chunk(json@) is None,
        },
{
    if !is_record_of(json, 3) {
        return None;
    }
    let choices: Vec<OpenAiStreamChoice> = match part_of(json, 0, "choices") {
        None => {
            let none: Vec<OpenAiStreamChoice> = Vec::new();
            assert(stream_choice_views(none@) =~= Seq::empty());
            none
        },
        Some(value) => match value.as_array() {
            Some(items) => match stream_choices_of(items) {
                Some(choices) => choices,
                None => {
                    return None;
                },
            },
            None => {
                return None;
            },
        },
    };
    let usage = match opt_usage_of(json, 1) {
        Some(usage) => usage,
        None => {
            return None;
        },
    };
    match opt_error_of(json, 2) {
        Some(error) => Some(OpenAiStreamChunk { choices, usage, error }),
        None => None,
    }
}

/// The message in the body of an error reply.
pub open spec fn read_error_body(json: JsonView) -> Option<Seq<char>> {
    if is_record(json, 1) {
        match opt_error_at(json, 0) {
            Some(message) => message,
            None => None,
        }
    } else {
        None
    }
}

/// Reads the message in the body of an error reply.
pub fn error_body_of(json: &Json) -> (r: Option<String>)
    ensures
        opt_view(r) == read_error_body(json@),
{
    if is_record_of(json, 1) {
        match opt_error_of(json, 0) {
            Some(message) => message,
            None => None,
        }
    } else {
        None
    }
}

pub open spec fn read_call(json: JsonView) -> Option<WireCallView> {
    if !is_record(json, 3) {
        None
    } else {
        match part(json, 2, "function"@) {
            None => None,
            Some(function) => if !is_record(function, 2) {
                None
            } else {
                match (
                    text_at(json, 0, "id"@),
                    text_at(json, 1, "type"@),
                    text_at(function, 0, "name"@),
                    text_at(function, 1, "arguments"@),
                ) {
                    (Some(id), Some(kind), Some(name), Some(arguments)) => Some(
                        WireCallView { id, kind, name, arguments },
                    ),
                    _ => None,
                }
            },
        }
    }
}

fn call_of(json: &Json) -> (r: Option<OpenAiToolCall>)
    ensures
        match r {
            Some(call) => read_call(json@) == Some(call@),
            None => read_call(json@) is None,
        },
{
    if !is_record_of(json, 3) {
        return None;
    }
    let function = match part_of(json, 2, "function") {
        Some(function) => function,
        None => {
            return None;
        },
    };
    if !is_record_of(function, 2) {
        return None;
    }
    let id = match text_of(json, 0, "id") {
        Some(id) => id,
        None => {
            return None;
        },
    };
    let kind = match text_of(json, 1, "type") {
        Some(kind) => kind,
        None => {
            return None;
        },
    };
    let name = match text_of(function, 0, "name") {
        Some(name) => name,
        None => {
            return None;
        },
    };
    match text_of(function, 1, "arguments") {
        Some(arguments) => Some(OpenAiToolCall { id, kind, name, arguments }),
        None => None,
    }
}

fn calls_of(items: &Vec<Json>) -> (r: Option<Vec<OpenAiToolCall>>)
    ensures
        match r {
            Some(calls) => read_all(json_views(items@), |j: JsonView| read_call(j)) == Some(
                wire_call_views(calls@),
            ),
            None => read_all(json_views(items@), |j: JsonView| read_call(j)) is None,
        },
{
    let ghost all = json_views(items@);
    let ghost read = |j: JsonView| read_call(j);
    let mut out: Vec<OpenAiToolCall> = Vec::new();
    let mut i: usize = 0;
    assert(all.take(0) =~= Seq::empty());
    assert(wire_call_views(out@) =~= Seq::empty());
    while i < items.len()
        invariant
            i <= items@.len(),
            all == json_views(items@),
            read == (|j: JsonView| read_call(j)),
            read_all(all.take(i as int), read) == Some(wire_call_views(out@)),
        decreases items@.len() - i,
    {
        let ghost head = all.take(i + 1);
        assert(head.drop_last() =~= all.take(i as int));
        assert(head.last() == items@[i as int]@);
        match call_of(&items[i]) {
            Some(call) => {
                let ghost before = out@;
                out.push(call);
                assert(wire_call_views(out@) =~= wire_call_views(before).push(call@));
            },
            None => {
                proof {
                    lemma_unreadable(all, read, i + 1);
                }
                return None;
            },
        }
        i = i + 1;
    }
    assert(all.take(i as int) =~= all);
    Some(out)
}

/// A list of tool requests that may be absent.
pub open spec fn read_calls(json: JsonView) -> Option<Option<Seq<WireCallView>>> {
    match part(json, 3, "tool_calls"@) {
        None => Some(None),
        Some(JsonView::Null) => Some(None),
        Some(JsonView::Array(items)) => match read_all(items, |j: JsonView| read_call(j)) {
            Some(calls) => Some(Some(calls)),
            None => None,
        },
        _ => None,
    }
}

/// A message in a reply.
pub open spec fn read_message(json: JsonView) -> Option<WireMessageView> {
    if !is_record(json, 5) {
        None
    } else {
        match (
            text_at(json, 0, "role"@),
            reasoning_at(json, 2),
            read_calls(json),
            opt_text_at(json, 4, "tool_call_id"@),
        ) {
            (Some(role), Some(reasoning_content), Some(tool_calls), Some(tool_call_id)) => Some(
                WireMessageView {
                    role,
                    content: present(part(json, 1, "content"@)),
                    reasoning_content,
                    tool_calls,
                    tool_call_id,
                },
            ),
            _ => None,
        }
    }
}

fn message_of_json(json: &Json) -> (r: Option<OpenAiMessage>)
    ensures
        match r {
            Some(message) => read_message(json@) == Some(message@),
            None => read_message(json@) is None,
        },
{
    if !is_record_of(json, 5) {
        return None;
    }
    let role = match text_of(json, 0, "role") {
        Some(role) => role,
        None => {
            return None;
        },
    };
    let content: Option<Json> = match part_of(json, 1, "content") {
        Some(value) => if value.is_null() {
            None
        } else {
            Some(value.clone())
        },
        None => None,
    };
    let reasoning_content = match reasoning_of(json, 2) {
        Some(reasoning) => reasoning,
        None => {
            return None;
        },
    };
    let tool_calls: Option<Vec<OpenAiToolCall>> = match part_of(json, 3, "tool_calls") {
        None => None,
        Some(value) => if value.is_null() {
            None
        } else {
            match value.as_array() {
                Some(items) => match calls_of(items) {
                    Some(calls) => Some(calls),
                    None => {
                        return None;
                    },
                },
                None => {
                    return None;
                },
            }
        },
    };
    match opt_text_of(json, 4, "tool_call_id") {
        Some(tool_call_id) => Some(
            OpenAiMessage { role, content, reasoning_content, tool_calls, tool_call_id },
        ),
        None => None,
    }
}

/// One alternative of a reply.
#[derive(Debug, PartialEq)]
pub struct OpenAiChoice {
    pub message: OpenAiMessage,
    pub finish_reason: String,
}

pub struct ChoiceView {
    pub message: WireMessageView,
    pub finish_reason: Seq<char>,
}

impl View for OpenAiChoice {
    type V = ChoiceView;

    open spec fn view(&self) -> ChoiceView {
        ChoiceView { message: self.message@, finish_reason: self.finish_reason@ }
    }
}

pub open spec fn choice_views(choices: Seq<OpenAiChoice>) -> Seq<ChoiceView> {
    choices.map_values(|c: OpenAiChoice| c@)
}

pub open spec fn read_choice(json: JsonView) -> Option<ChoiceView> {
    if !is_record(json, 2) {
        None
    } else {
        match part(json, 0, "message"@) {
            None => None,
            Some(value) => match (read_message(value), text_at(json, 1, "finish_reason"@)) {
                (Some(message), Some(finish_reason)) => Some(ChoiceView { message, finish_reason }),
                _ => None,
            },
        }
    }
}

fn choice_of(json: &Json) -> (r: Option<OpenAiChoice>)
    ensures
        match r {
            Some(choice) => read_choice(json@) == Some(choice@),
            None => read_choice(json@) is None,
        },
{
    if !is_record_of(json, 2) {
        return None;
    }
    let message = match part_of(json, 0, "message") {
        Some(value) => match message_of_json(value) {
            Some(message) => message,
            None => {
                return None;
            },
        },
        None => {
            return None;
        },
    };
    match text_of(json, 1, "finish_reason") {
        Some(finish_reason) => Some(OpenAiChoice { message, finish_reason }),
        None => None,
    }
}

fn choices_of(items: &Vec<Json>) -> (r: Option<Vec<OpenAiChoice>>)
    ensures
        match r {
            Some(choices) => read_all(json_views(items@), |j: JsonView| read_choice(j)) == Some(
                choice_views(choices@),
            ),
            None => read_all(json_views(items@), |j: JsonView| read_choice(j)) is None,
        },
{
    let ghost all = json_views(items@);
    let ghost read = |j: JsonView| read_choice(j);
    let mut out: Vec<OpenAiChoice> = Vec::new();
    let mut i: usize = 0;
    assert(all.take(0) =~= Seq::empty());
    assert(choice_views(out@) =~= Seq::empty());
    while i < items.len()
        invariant
            i <= items@.len(),
            all == json_views(items@),
            read == (|j: JsonView| read_choice(j)),
            read_all(all.take(i as int), read) == Some(choice_views(out@)),
        decreases items@.len() - i,
    {
        let ghost head = all.take(i + 1);
        assert(head.drop_last() =~= all.take(i as int));
        assert(head.last() == items@[i as int]@);
        match choice_of(&items[i]) {
            Some(choice) => {
                let ghost before = out@;
                out.push(choice);
                assert(choice_views(out@) =~= choice_views(before).push(choice@));
            },
            None => {
                proof {
                    lemma_unreadable(all, read, i + 1);
                }
                return None;
            },
        }
        i = i + 1;
    }
    assert(all.take(i as int) =~= all);
    Some(out)
}

/// A reply without streaming.
#[derive(Debug, PartialEq)]
pub struct OpenAiChatResponse {
    pub choices: Vec<OpenAiChoice>,
    pub usage: Option<Usage>,
}

pub struct WireResponseView {
    pub choices: Seq<ChoiceView>,
    pub usage: Option<Usage>,
}

impl View for OpenAiChatResponse {
    type V = WireResponseView;

    open spec fn view(&self) -> WireResponseView {
        WireResponseView { choices: choice_views(self.choices@), usage: self.usage }
    }
}

pub open spec fn read_response(json: JsonView) -> Option<WireResponseView> {
    if !is_record(json, 2) {
        None
    } else {
        match part(json, 0, "choices"@) {
            Some(JsonView::Array(items)) => match (
                read_all(items, |j: JsonView| read_choice(j)),
                opt_usage_at(json, 1),
            ) {
                (Some(choices), Some(usage)) => Some(WireResponseView { choices, usage }),
                _ => None,
            },
            _ => None,
        }
    }
}

/// Reads a reply without streaming.
pub fn response_of_json(json: &Json) -> (r: Option<OpenAiChatResponse>)
    ensures
        match r {
            Some(response) => read_response(json@) == Some(response@),
            None => read_response(json@) is None,
        },
{
    if !is_record_of(json, 2) {
        return None;
    }
    let choices = match part_of(json, 0, "choices") {
        Some(value) => match value.as_array() {
            Some(items) => match choices_of(items) {
                Some(choices) => choices,
                None => {
                    return None;
                },
            },
            None => {
                return None;
            },
        },
        None => {
            return None;
        },
    };
    match opt_usage_of(json, 1) {
        Some(usage) => Some(OpenAiChatResponse { choices, usage }),
        None => None,
    }
}

} // verus!
