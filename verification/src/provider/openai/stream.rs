//! Streamed replies: lines become events.

use vstd::prelude::*;

use super::decode::{
    chunk_views, error_body_of, read_error_body, read_stream_chunk, stream_choice_views,
    stream_chunk_of, CallChunkView, OpenAiStreamChunk, OpenAiToolCallChunk, StreamChoiceView,
    StreamChunkView,
};
use crate::json::{parse_json, parsed_json};
use crate::provider::{
    EventView, FinishReason, FinishView, ProviderError, ProviderErrorView, StreamEvent, Usage,
};
use crate::text::{
    byte_len, byte_len_of, chars_of, concat, opt_view, starts_with, starts_with_of, str_eq,
    string_of, trim_start, trim_start_of,
};
use vstd::slice::slice_subrange;

verus! {

/// The most bytes that wait for the end of a line.
pub const MAX_SSE_LINE: usize = 1048576;

/// The most tool requests in one reply.
pub const MAX_TOOL_CALLS: usize = 64;

/// The most bytes of arguments in one tool request.
pub const MAX_ACCUMULATED_TEXT: usize = 1048576;

/// An error that does not come from an HTTP status.
pub open spec fn plain_error(message: Seq<char>) -> ProviderErrorView {
    ProviderErrorView::Api { status: 0, message }
}

/// An error that does not come from an HTTP status.
pub fn limit_error(message: &str) -> (r: ProviderError)
    ensures
        r@ == plain_error(message@),
{
    ProviderError::Api { status: 0, message: message.to_owned() }
}

/// Why the model stopped, from the endpoint's word for it.
pub open spec fn finish_of(reason: Seq<char>) -> FinishView {
    if reason == "stop"@ || reason == "tool_calls"@ {
        FinishView::Stop
    } else if reason == "length"@ {
        FinishView::Length
    } else {
        FinishView::Other(reason)
    }
}

/// Why the model stopped. Asking for tools is a stop, and a vendor's own word
/// is kept as it is.
pub fn map_finish_reason(reason: &str) -> (r: FinishReason)
    ensures
        r@ == finish_of(reason@),
{
    if str_eq(reason, "stop") || str_eq(reason, "tool_calls") {
        FinishReason::Stop
    } else if str_eq(reason, "length") {
        FinishReason::Length
    } else {
        FinishReason::Other(reason.to_owned())
    }
}

/// A tool request as far as it has arrived.
#[derive(Debug, PartialEq, Eq)]
pub struct AccumulatedCall {
    pub index: usize,
    pub id: String,
    pub name: String,
    pub arguments: String,
}

pub struct AccumulatedView {
    pub index: usize,
    pub id: Seq<char>,
    pub name: Seq<char>,
    pub arguments: Seq<char>,
}

impl View for AccumulatedCall {
    type V = AccumulatedView;

    open spec fn view(&self) -> AccumulatedView {
        AccumulatedView {
            index: self.index,
            id: self.id@,
            name: self.name@,
            arguments: self.arguments@,
        }
    }
}

pub open spec fn accumulated_views(calls: Seq<AccumulatedCall>) -> Seq<AccumulatedView> {
    calls.map_values(|c: AccumulatedCall| c@)
}

/// What is known of a streamed reply so far.
pub struct ToolCallAggregator {
    calls: Vec<AccumulatedCall>,
    done_reason: Option<FinishReason>,
    usage: Option<Usage>,
    errored: bool,
    finished: bool,
}

/// What a [`ToolCallAggregator`] holds: the tool requests in the order of their
/// first pieces, the end that is still to be reported, whether an error was
/// reported, and whether the stream's end marker was seen.
pub struct AggregatorView {
    pub calls: Seq<AccumulatedView>,
    pub done_reason: Option<FinishView>,
    pub usage: Option<Usage>,
    pub errored: bool,
    pub finished: bool,
}

pub open spec fn or_none(text: Option<Seq<char>>) -> Seq<char> {
    match text {
        Some(text) => text,
        None => Seq::empty(),
    }
}

/// The first of two texts that is not empty.
pub open spec fn first_given(text: Seq<char>, other: Seq<char>) -> Seq<char> {
    if text.len() == 0 {
        other
    } else {
        text
    }
}

/// The place of the request that a piece belongs to, or the number of requests
/// when it opens a new one.
pub open spec fn place_of(calls: Seq<AccumulatedView>, index: usize) -> int
    decreases calls.len(),
{
    if calls.len() == 0 {
        0
    } else if calls[0].index == index {
        0
    } else {
        1 + place_of(calls.drop_first(), index)
    }
}

impl AggregatorView {
    pub open spec fn fresh() -> AggregatorView {
        AggregatorView {
            calls: Seq::empty(),
            done_reason: None,
            usage: None,
            errored: false,
            finished: false,
        }
    }

    /// The state after a piece of a tool request, and the limit that it breaks,
    /// if any. A piece without room still names a request that had no name.
    pub open spec fn pushed(self, chunk: CallChunkView) -> (
        AggregatorView,
        Option<ProviderErrorView>,
    ) {
        let at = place_of(self.calls, chunk.index);
        let arguments = or_none(chunk.arguments);
        if at < self.calls.len() {
            let call = self.calls[at];
            let named = AccumulatedView {
                id: first_given(call.id, or_none(chunk.id)),
                name: first_given(call.name, or_none(chunk.name)),
                ..call
            };
            if byte_len(call.arguments) + byte_len(arguments) > MAX_ACCUMULATED_TEXT {
                (
                    AggregatorView { calls: self.calls.update(at, named), ..self },
                    Some(plain_error("tool arguments exceed size limit"@)),
                )
            } else {
                (
                    AggregatorView {
                        calls: self.calls.update(
                            at,
                            AccumulatedView { arguments: call.arguments + arguments, ..named },
                        ),
                        ..self
                    },
                    None,
                )
            }
        } else if self.calls.len() >= MAX_TOOL_CALLS {
            (self, Some(plain_error("tool call count exceeds limit"@)))
        } else if byte_len(arguments) > MAX_ACCUMULATED_TEXT {
            (self, Some(plain_error("tool arguments exceed size limit"@)))
        } else {
            (
                AggregatorView {
                    calls: self.calls.push(
                        AccumulatedView {
                            index: chunk.index,
                            id: or_none(chunk.id),
                            name: or_none(chunk.name),
                            arguments,
                        },
                    ),
                    ..self
                },
                None,
            )
        }
    }

    /// The state after several pieces; it stops at the first broken limit.
    pub open spec fn pushed_all(self, chunks: Seq<CallChunkView>) -> (
        AggregatorView,
        Option<ProviderErrorView>,
    )
        decreases chunks.len(),
    {
        if chunks.len() == 0 {
            (self, None)
        } else {
            let (before, fault) = self.pushed_all(chunks.drop_last());
            if fault is Some {
                (before, fault)
            } else {
                before.pushed(chunks.last())
            }
        }
    }

    /// The state after an error was reported: the end is forgotten.
    pub open spec fn with_error(self) -> AggregatorView {
        AggregatorView { errored: true, done_reason: None, ..self }
    }

    pub open spec fn with_usage(self, usage: Usage) -> AggregatorView {
        if self.errored {
            self
        } else {
            AggregatorView { usage: Some(usage), ..self }
        }
    }

    pub open spec fn with_reason(self, reason: FinishView) -> AggregatorView {
        if self.errored {
            self
        } else {
            AggregatorView { done_reason: Some(reason), ..self }
        }
    }

    /// The closing event of a stream: nothing after an error or after the end
    /// marker; the stored end, with the usage; or the complaint that there was
    /// none.
    pub open spec fn flushed(self) -> (
        AggregatorView,
        Seq<Result<EventView, ProviderErrorView>>,
    ) {
        if self.errored || self.finished {
            (self, Seq::empty())
        } else {
            match self.done_reason {
                None => (
                    self,
                    seq![Err(plain_error("stream ended without finish_reason"@))],
                ),
                Some(reason) => (
                    AggregatorView { done_reason: None, usage: None, ..self },
                    seq![Ok(EventView::Done { reason, usage: self.usage })],
                ),
            }
        }
    }
}

pub open spec fn result_view(event: Result<StreamEvent, ProviderError>) -> Result<
    EventView,
    ProviderErrorView,
> {
    match event {
        Ok(event) => Ok(event@),
        Err(e) => Err(e@),
    }
}

pub open spec fn result_views(events: Seq<Result<StreamEvent, ProviderError>>) -> Seq<
    Result<EventView, ProviderErrorView>,
> {
    events.map_values(|e: Result<StreamEvent, ProviderError>| result_view(e))
}

impl View for ToolCallAggregator {
    type V = AggregatorView;

    closed spec fn view(&self) -> AggregatorView {
        AggregatorView {
            calls: accumulated_views(self.calls@),
            done_reason: match self.done_reason {
                Some(reason) => Some(reason@),
                None => None,
            },
            usage: self.usage,
            errored: self.errored,
            finished: self.finished,
        }
    }
}

fn text_or_empty(text: &Option<String>) -> (r: String)
    ensures
        r@ == or_none(opt_view(*text)),
{
    match text {
        Some(text) => text.clone(),
        None => String::new(),
    }
}

pub proof fn lemma_place_of(calls: Seq<AccumulatedView>, index: usize)
    ensures
        0 <= place_of(calls, index) <= calls.len(),
        place_of(calls, index) < calls.len() ==> calls[place_of(calls, index)].index == index,
        forall|i: int| 0 <= i < place_of(calls, index) ==> (#[trigger] calls[i]).index != index,
    decreases calls.len(),
{
    if calls.len() > 0 && calls[0].index != index {
        lemma_place_of(calls.drop_first(), index);
        assert forall|i: int| 0 <= i < place_of(calls, index) implies (
        #[trigger] calls[i]).index != index by {
            if i > 0 {
                assert(calls[i] == calls.drop_first()[i - 1]);
            }
        }
    }
}

impl Default for ToolCallAggregator {
    fn default() -> (r: ToolCallAggregator)
        ensures
            r@ == AggregatorView::fresh(),
    {
        let calls: Vec<AccumulatedCall> = Vec::new();
        assert(accumulated_views(calls@) =~= Seq::empty());
        ToolCallAggregator {
            calls,
            done_reason: None,
            usage: None,
            errored: false,
            finished: false,
        }
    }
}

impl ToolCallAggregator {
    fn place(&self, index: usize) -> (r: usize)
        ensures
            r == place_of(self@.calls, index),
            r <= self@.calls.len(),
    {
        let ghost all = self@.calls;
        let mut i: usize = 0;
        assert(all.skip(0) =~= all);
        while i < self.calls.len()
            invariant
                i <= self.calls@.len(),
                all == self@.calls,
                place_of(all, index) == i + place_of(all.skip(i as int), index),
            decreases self.calls@.len() - i,
        {
            assert(all[i as int] == self.calls@[i as int]@);
            if self.calls[i].index == index {
                return i;
            }
            assert(all.skip(i as int).drop_first() =~= all.skip(i + 1));
            i = i + 1;
        }
        i
    }

    /// Takes a piece of a tool request. Pieces with the same index belong
    /// together, and their arguments are joined as they come.
    pub fn push_chunk(&mut self, chunk: OpenAiToolCallChunk) -> (r: Result<(), ProviderError>)
        ensures
            final(self)@ == old(self)@.pushed(chunk@).0,
            match r {
                Ok(_) => old(self)@.pushed(chunk@).1 is None,
                Err(e) => old(self)@.pushed(chunk@).1 == Some(e@),
            },
    {
        let arguments = text_or_empty(&chunk.arguments);
        let size: usize = byte_len_of(arguments.as_str());
        let at: usize = self.place(chunk.index);
        let ghost before = self@;
        let ghost calls_before = self.calls@;
        if at < self.calls.len() {
            assert(before.calls[at as int] == calls_before[at as int]@);
            let id = if self.calls[at].id.as_str().is_empty() {
                text_or_empty(&chunk.id)
            } else {
                self.calls[at].id.clone()
            };
            let name = if self.calls[at].name.as_str().is_empty() {
                text_or_empty(&chunk.name)
            } else {
                self.calls[at].name.clone()
            };
            let held: usize = byte_len_of(self.calls[at].arguments.as_str());
            let fits = held <= MAX_ACCUMULATED_TEXT && size <= MAX_ACCUMULATED_TEXT - held;
            let mut joined = self.calls[at].arguments.clone();
            if fits {
                joined.append(arguments.as_str());
            }
            let call = AccumulatedCall { index: self.calls[at].index, id, name, arguments: joined };
            self.calls.set(at, call);
            assert(self@.calls =~= before.calls.update(at as int, call@));
            if !fits {
                return Err(limit_error("tool arguments exceed size limit"));
            }
        } else {
            assert(before.calls.len() == calls_before.len());
            if self.calls.len() >= MAX_TOOL_CALLS {
                return Err(limit_error("tool call count exceeds limit"));
            }
            if size > MAX_ACCUMULATED_TEXT {
                return Err(limit_error("tool arguments exceed size limit"));
            }
            let call = AccumulatedCall {
                index: chunk.index,
                id: text_or_empty(&chunk.id),
                name: text_or_empty(&chunk.name),
                arguments,
            };
            self.calls.push(call);
            assert(self@.calls =~= before.calls.push(call@));
        }
        Ok(())
    }

    /// Hands the tool requests out and forgets them.
    pub fn take_all(&mut self) -> (r: Vec<AccumulatedCall>)
        ensures
            accumulated_views(r@) == old(self)@.calls,
            final(self)@ == (AggregatorView { calls: Seq::empty(), ..old(self)@ }),
    {
        let mut out: Vec<AccumulatedCall> = Vec::new();
        std::mem::swap(&mut out, &mut self.calls);
        assert(self@.calls =~= Seq::empty());
        out
    }

    /// Stores the end of the reply, unless an error was reported.
    pub fn set_done_reason(&mut self, reason: FinishReason)
        ensures
            final(self)@ == old(self)@.with_reason(reason@),
    {
        if !self.errored {
            self.done_reason = Some(reason);
        }
    }

    /// Stores the usage, unless an error was reported; a later one counts.
    pub fn push_usage(&mut self, usage: Usage)
        ensures
            final(self)@ == old(self)@.with_usage(usage),
    {
        if !self.errored {
            self.usage = Some(usage);
        }
    }

    /// The closing event, when the stream ends.
    pub fn flush_done(&mut self) -> (r: Vec<Result<StreamEvent, ProviderError>>)
        ensures
            final(self)@ == old(self)@.flushed().0,
            result_views(r@) == old(self)@.flushed().1,
    {
        let mut events: Vec<Result<StreamEvent, ProviderError>> = Vec::new();
        let ghost before = self@;
        if self.errored || self.finished {
            assert(result_views(events@) =~= before.flushed().1);
            return events;
        }
        match self.done_reason.take() {
            None => {
                events.push(Err(limit_error("stream ended without finish_reason")));
            },
            Some(reason) => {
                let usage = self.usage;
                self.usage = None;
                events.push(Ok(StreamEvent::Done { reason, usage }));
            },
        }
        assert(result_views(events@) =~= before.flushed().1);
        events
    }

    /// Remembers that an error was reported and forgets the end.
    pub fn set_errored(&mut self)
        ensures
            final(self)@ == old(self)@.with_error(),
    {
        self.errored = true;
        self.done_reason = None;
    }

    pub fn is_errored(&self) -> (r: bool)
        ensures
            r == self@.errored,
    {
        self.errored
    }

    pub fn is_finished(&self) -> (r: bool)
        ensures
            r == self@.finished,
    {
        self.finished
    }
}

/// Reports an error in a line.
pub fn line_error(aggregator: &mut ToolCallAggregator, e: ProviderError) -> (r: Vec<
    Result<StreamEvent, ProviderError>,
>)
    ensures
        final(aggregator)@ == old(aggregator)@.with_error(),
        result_views(r@) == seq![Err::<EventView, ProviderErrorView>(e@)],
{
    aggregator.set_errored();
    let mut events: Vec<Result<StreamEvent, ProviderError>> = Vec::new();
    events.push(Err(e));
    assert(result_views(events@) =~= seq![Err::<EventView, ProviderErrorView>(e@)]);
    events
}

/// The message of an error body, or the whole body when it has none.
pub open spec fn error_message(body: Seq<char>) -> Seq<char> {
    match parsed_json(body) {
        Ok(json) => match read_error_body(json) {
            Some(message) => message,
            None => body,
        },
        Err(_) => body,
    }
}

/// The message in an error body; a body without one is returned whole.
pub fn extract_error_message(body: &str) -> (r: String)
    ensures
        r@ == error_message(body@),
{
    match parse_json(body) {
        Ok(json) => match error_body_of(&json) {
            Some(message) => message,
            None => body.to_owned(),
        },
        Err(_) => body.to_owned(),
    }
}

/// What a line of the stream is.
pub enum LineView {
    /// A line without data.
    Skip,
    /// The end marker.
    End,
    /// The data of an event.
    Data(Seq<char>),
}

pub open spec fn line_view(line: Seq<char>) -> LineView {
    if !starts_with(line, "data:"@) {
        LineView::Skip
    } else {
        let data = trim_start(line.skip(5));
        if data == "[DONE]"@ {
            LineView::End
        } else {
            LineView::Data(data)
        }
    }
}

pub open spec fn call_to_event(call: AccumulatedView) -> Result<EventView, ProviderErrorView> {
    Ok(EventView::ToolCall { id: call.id, name: call.name, arguments: call.arguments })
}

/// The text and the reasoning of a chunk, as events.
pub open spec fn text_events(choice: StreamChoiceView) -> Seq<
    Result<EventView, ProviderErrorView>,
> {
    let deltas: Seq<Result<EventView, ProviderErrorView>> = match choice.delta.content {
        Some(content) => seq![Ok(EventView::Delta(content))],
        None => Seq::empty(),
    };
    match choice.delta.reasoning_content {
        Some(reasoning) => deltas.push(Ok(EventView::Reasoning(reasoning))),
        None => deltas,
    }
}

impl AggregatorView {
    /// The events of a chunk's first choice. After an error there are none;
    /// when the reply ends, the tool requests come out whole.
    pub open spec fn chosen(self, choice: StreamChoiceView) -> (
        AggregatorView,
        Seq<Result<EventView, ProviderErrorView>>,
    ) {
        let spoken = if self.errored {
            Seq::empty()
        } else {
            text_events(choice)
        };
        let (held, fault) = match choice.delta.tool_calls {
            Some(chunks) => self.pushed_all(chunks),
            None => (self, None),
        };
        match fault {
            Some(e) => (held.with_error(), seq![Err(e)]),
            None => match choice.finish_reason {
                None => (held, spoken),
                Some(reason) => if held.errored {
                    (held, spoken)
                } else {
                    (
                        AggregatorView {
                            calls: Seq::empty(),
                            done_reason: Some(finish_of(reason)),
                            ..held
                        },
                        spoken + held.calls.map_values(|c: AccumulatedView| call_to_event(c)),
                    )
                },
            },
        }
    }

    /// The events of a chunk.
    pub open spec fn chunked(self, chunk: StreamChunkView) -> (
        AggregatorView,
        Seq<Result<EventView, ProviderErrorView>>,
    ) {
        match chunk.error {
            Some(message) => (
                self.with_error(),
                seq![Err(plain_error("provider stream error: "@ + message))],
            ),
            None => {
                let counted = match chunk.usage {
                    Some(usage) => self.with_usage(usage),
                    None => self,
                };
                if chunk.choices.len() == 0 {
                    (counted, Seq::empty())
                } else {
                    counted.chosen(chunk.choices[0])
                }
            },
        }
    }

    /// The events of a line, given what its data was read as.
    pub open spec fn lined(self, line: Seq<char>, chunk: Option<StreamChunkView>) -> (
        AggregatorView,
        Seq<Result<EventView, ProviderErrorView>>,
    ) {
        match line_view(line) {
            LineView::Skip => (self, Seq::empty()),
            LineView::End => (
                AggregatorView { finished: true, ..self.flushed().0 },
                self.flushed().1,
            ),
            LineView::Data(data) => match chunk {
                Some(chunk) => self.chunked(chunk),
                None => (
                    self.with_error(),
                    seq![Err(plain_error("invalid stream event: "@ + error_message(data)))],
                ),
            },
        }
    }
}

/// What the data of a line reads as.
pub open spec fn line_chunk(line: Seq<char>) -> Option<StreamChunkView> {
    match line_view(line) {
        LineView::Data(data) => match parsed_json(data) {
            Ok(json) => read_stream_chunk(json),
            Err(_) => None,
        },
        _ => None,
    }
}

proof fn lemma_pushed_all_fault(
    agg: AggregatorView,
    chunks: Seq<CallChunkView>,
    n: int,
)
    requires
        0 <= n <= chunks.len(),
        agg.pushed_all(chunks.take(n)).1 is Some,
    ensures
        agg.pushed_all(chunks) == agg.pushed_all(chunks.take(n)),
    decreases chunks.len() - n,
{
    if n == chunks.len() {
        assert(chunks.take(n) =~= chunks);
    } else {
        assert(chunks.take(n + 1).drop_last() =~= chunks.take(n));
        lemma_pushed_all_fault(agg, chunks, n + 1);
    }
}

pub proof fn lemma_pushed_keeps_flags(agg: AggregatorView, chunks: Seq<CallChunkView>)
    ensures
        agg.pushed_all(chunks).0.errored == agg.errored,
        agg.pushed_all(chunks).0.finished == agg.finished,
        agg.pushed_all(chunks).0.done_reason == agg.done_reason,
        agg.pushed_all(chunks).0.usage == agg.usage,
    decreases chunks.len(),
{
    if chunks.len() > 0 {
        lemma_pushed_keeps_flags(agg, chunks.drop_last());
    }
}

fn push_chunks(aggregator: &mut ToolCallAggregator, chunks: Vec<OpenAiToolCallChunk>) -> (r: Result<
    (),
    ProviderError,
>)
    ensures
        final(aggregator)@ == old(aggregator)@.pushed_all(chunk_views(chunks@)).0,
        match r {
            Ok(_) => old(aggregator)@.pushed_all(chunk_views(chunks@)).1 is None,
            Err(e) => old(aggregator)@.pushed_all(chunk_views(chunks@)).1 == Some(e@),
        },
{
    let ghost all = chunk_views(chunks@);
    let ghost start = aggregator@;
    let ghost given = chunks@;
    let mut rest = chunks;
    let mut i: Ghost<int> = Ghost(0);
    assert(all.take(0) =~= Seq::empty());
    assert(given.skip(0) =~= given);
    while rest.len() > 0
        invariant
            0 <= i@ <= given.len(),
            given == chunks@,
            start == old(aggregator)@,
            all == chunk_views(given),
            rest@ == given.skip(i@),
            aggregator@ == start.pushed_all(all.take(i@)).0,
            start.pushed_all(all.take(i@)).1 is None,
        decreases rest@.len(),
    {
        let chunk = rest.remove(0);
        assert(chunk == given[i@]);
        assert(all.take(i@ + 1).drop_last() =~= all.take(i@));
        assert(all.take(i@ + 1).last() == chunk@);
        match aggregator.push_chunk(chunk) {
            Ok(_) => {},
            Err(e) => {
                proof {
                    lemma_pushed_all_fault(start, all, i@ + 1);
                }
                return Err(e);
            },
        }
        proof {
            i@ = i@ + 1;
        }
        assert(rest@ =~= given.skip(i@));
    }
    assert(all.take(i@) =~= all);
    Ok(())
}

fn apply_choice(aggregator: &mut ToolCallAggregator, choice: super::decode::OpenAiStreamChoice) -> (r:
    Vec<Result<StreamEvent, ProviderError>>)
    ensures
        final(aggregator)@ == old(aggregator)@.chosen(choice@).0,
        result_views(r@) == old(aggregator)@.chosen(choice@).1,
{
    let ghost start = aggregator@;
    let ghost spoken = if start.errored {
        Seq::empty()
    } else {
        text_events(choice@)
    };
    let mut events: Vec<Result<StreamEvent, ProviderError>> = Vec::new();
    let errored = aggregator.is_errored();
    if let Some(content) = choice.delta.content {
        if !errored {
            events.push(Ok(StreamEvent::Delta(content)));
        }
    }
    if let Some(reasoning) = choice.delta.reasoning_content {
        if !errored {
            events.push(Ok(StreamEvent::Reasoning(reasoning)));
        }
    }
    assert(result_views(events@) =~= spoken);
    if let Some(chunks) = choice.delta.tool_calls {
        proof {
            lemma_pushed_keeps_flags(start, chunk_views(chunks@));
        }
        match push_chunks(aggregator, chunks) {
            Ok(_) => {},
            Err(e) => {
                return line_error(aggregator, e);
            },
        }
    }
    if let Some(reason) = choice.finish_reason {
        if !aggregator.is_errored() {
            let ghost held = aggregator@;
            let calls = aggregator.take_all();
            let ghost requests = held.calls.map_values(|c: AccumulatedView| call_to_event(c));
            let mut i: usize = 0;
            while i < calls.len()
                invariant
                    i <= calls@.len(),
                    accumulated_views(calls@) == held.calls,
                    requests == held.calls.map_values(|c: AccumulatedView| call_to_event(c)),
                    result_views(events@) =~= spoken + requests.take(i as int),
                decreases calls@.len() - i,
            {
                let ghost before = events@;
                let event: Result<StreamEvent, ProviderError> = Ok(
                    StreamEvent::ToolCall {
                        id: calls[i].id.clone(),
                        name: calls[i].name.clone(),
                        arguments: calls[i].arguments.clone(),
                    },
                );
                events.push(event);
                assert(result_views(events@) =~= result_views(before).push(result_view(event)));
                assert(accumulated_views(calls@)[i as int] == calls@[i as int]@);
                assert(requests[i as int] == result_view(event));
                i = i + 1;
            }
            assert(accumulated_views(calls@).len() == calls@.len());
            assert(requests.take(i as int) =~= requests);
        }
        aggregator.set_done_reason(map_finish_reason(reason.as_str()));
    }
    events
}

/// Takes a chunk that was read, and returns its events.
pub fn apply_chunk(aggregator: &mut ToolCallAggregator, chunk: OpenAiStreamChunk) -> (r: Vec<
    Result<StreamEvent, ProviderError>,
>)
    ensures
        final(aggregator)@ == old(aggregator)@.chunked(chunk@).0,
        result_views(r@) == old(aggregator)@.chunked(chunk@).1,
{
    if let Some(message) = chunk.error {
        let text = concat("provider stream error: ", message.as_str());
        return line_error(aggregator, limit_error(text.as_str()));
    }
    if let Some(usage) = chunk.usage {
        aggregator.push_usage(usage);
    }
    let mut choices = chunk.choices;
    assert(stream_choice_views(choices@).len() == choices@.len());
    if choices.len() == 0 {
        let none: Vec<Result<StreamEvent, ProviderError>> = Vec::new();
        assert(result_views(none@) =~= Seq::empty());
        return none;
    }
    let ghost first = stream_choice_views(choices@)[0];
    let choice = choices.remove(0);
    assert(first == choice@);
    apply_choice(aggregator, choice)
}

/// Takes a line with what its data was read as (nothing, where it could not be
/// read), and returns its events.
pub fn apply_line(
    line: &str,
    chunk: Option<OpenAiStreamChunk>,
    aggregator: &mut ToolCallAggregator,
) -> (r: Vec<Result<StreamEvent, ProviderError>>)
    ensures
        ({
            let read = match chunk {
                Some(chunk) => Some(chunk@),
                None => None,
            };
            &&& final(aggregator)@ == old(aggregator)@.lined(line@, read).0
            &&& result_views(r@) == old(aggregator)@.lined(line@, read).1
        }),
{
    match data_of(line) {
        None => {
            let none: Vec<Result<StreamEvent, ProviderError>> = Vec::new();
            assert(result_views(none@) =~= Seq::empty());
            none
        },
        Some(data) => {
            if str_eq(data.as_str(), "[DONE]") {
                let events = aggregator.flush_done();
                aggregator.finished = true;
                return events;
            }
            match chunk {
                Some(chunk) => apply_chunk(aggregator, chunk),
                None => {
                    let text = concat(
                        "invalid stream event: ",
                        extract_error_message(data.as_str()).as_str(),
                    );
                    line_error(aggregator, limit_error(text.as_str()))
                },
            }
        },
    }
}

/// The data of a line, the end marker included.
fn data_of(line: &str) -> (r: Option<String>)
    ensures
        match r {
            None => line_view(line@) is Skip,
            Some(data) => if data@ == "[DONE]"@ {
                line_view(line@) is End
            } else {
                line_view(line@) == LineView::Data(data@)
            },
        },
{
    let chars = chars_of(line);
    let prefix = chars_of("data:");
    proof {
        reveal_strlit("data:");
    }
    if !starts_with_of(&chars, &prefix) {
        return None;
    }
    let rest = slice_subrange(&chars, 5, chars.len());
    assert(rest@ =~= line@.skip(5));
    Some(string_of(trim_start_of(rest)))
}

/// Reads one line of a stream and returns its events. Lines without data are
/// skipped; the end marker closes the reply; data that is no chunk is reported
/// as an error.
pub fn parse_sse_line(line: &str, aggregator: &mut ToolCallAggregator) -> (r: Vec<
    Result<StreamEvent, ProviderError>,
>)
    ensures
        final(aggregator)@ == old(aggregator)@.lined(line@, line_chunk(line@)).0,
        result_views(r@) == old(aggregator)@.lined(line@, line_chunk(line@)).1,
{
    let chunk = match data_of(line) {
        None => None,
        Some(data) => match parse_json(data.as_str()) {
            Ok(json) => stream_chunk_of(&json),
            Err(_) => None,
        },
    };
    apply_line(line, chunk, aggregator)
}

} // verus!
