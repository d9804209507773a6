//! The lines of a stream: bytes arrive in chunks of any size, lines come out
//! whole.

use vstd::prelude::*;

use super::stream::{
    limit_error, parse_sse_line, plain_error, result_views, AggregatorView, line_chunk,
    ToolCallAggregator, MAX_SSE_LINE,
};
use crate::provider::{
    EventView, ProviderError, ProviderErrorView, StreamEvent, TimeoutStage,
};
use crate::text::{lossy_text, lossy_text_of};
use crate::time::Moment;
use vstd::slice::slice_subrange;

verus! {

/// The index of the first line feed, or the number of bytes when there is none.
pub open spec fn newline_at(bytes: Seq<u8>) -> int
    decreases bytes.len(),
{
    if bytes.len() == 0 || bytes[0] == 10 {
        0
    } else {
        1 + newline_at(bytes.drop_first())
    }
}

/// The first line feed stands where `newline_at` says, and none before it.
pub proof fn lemma_newline_at(bytes: Seq<u8>)
    ensures
        0 <= newline_at(bytes) <= bytes.len(),
        newline_at(bytes) < bytes.len() ==> bytes[newline_at(bytes)] == 10,
        forall|i: int| 0 <= i < newline_at(bytes) ==> #[trigger] bytes[i] != 10,
    decreases bytes.len(),
{
    if bytes.len() > 0 && bytes[0] != 10 {
        let rest = bytes.drop_first();
        lemma_newline_at(rest);
        assert forall|i: int| 0 <= i < newline_at(bytes) implies #[trigger] bytes[i] != 10 by {
            if i > 0 {
                assert(rest[i - 1] == bytes[i]);
            }
        }
    }
}

/// Whether no line, with an end or without, is longer than the limit.
pub open spec fn lines_fit(bytes: Seq<u8>) -> bool
    decreases bytes.len(),
{
    let at = newline_at(bytes);
    proof {
        lemma_newline_at(bytes);
    }
    &&& at <= MAX_SSE_LINE
    &&& at < bytes.len() ==> lines_fit(bytes.skip(at + 1))
}

/// Goes on counting the bytes of a line: `run` of them stand before `bytes`.
/// Returns how many stand at the end, or none when a line is too long.
fn count_lines(bytes: &Vec<u8>, run: usize, Ghost(before): Ghost<Seq<u8>>) -> (r: Option<usize>)
    requires
        run <= MAX_SSE_LINE,
        run <= before.len(),
        forall|k: int| before.len() - run <= k < before.len() ==> #[trigger] before[k] != 10,
    ensures
        match r {
            Some(end) => {
                let all = before + bytes@;
                &&& end <= MAX_SSE_LINE
                &&& end <= all.len()
                &&& forall|k: int| all.len() - end <= k < all.len() ==> #[trigger] all[k] != 10
                &&& forall|rest: Seq<u8>|
                    lines_fit((before + bytes@ + rest).skip(before.len() - run)) == #[trigger] lines_fit(
                        (all + rest).skip(all.len() - end),
                    )
            },
            None => forall|rest: Seq<u8>|
                !lines_fit(#[trigger] (before + bytes@ + rest).skip(before.len() - run)),
        },
{
    let ghost all = before + bytes@;
    let mut open: usize = run;
    let ghost start = before.len() - run;
    let ghost mut from = start;
    let mut i: usize = 0;
    while i < bytes.len()
        invariant
            i <= bytes@.len(),
            all == before + bytes@,
            start == before.len() - run,
            0 <= start,
            from == before.len() + i - open,
            open <= MAX_SSE_LINE,
            open <= before.len() + i,
            forall|k: int|
                before.len() + i - open <= k < before.len() + i ==> #[trigger] all[k] != 10,
            forall|rest: Seq<u8>|
                lines_fit((all + rest).skip(start)) == #[trigger] lines_fit(
                    (all + rest).skip(from),
                ),
        decreases bytes@.len() - i,
    {
        let ghost at = before.len() + i;
        assert(all[at as int] == bytes@[i as int]);
        if bytes[i] == 10 {
            assert forall|rest: Seq<u8>|
                lines_fit((all + rest).skip(start)) == #[trigger] lines_fit(
                    (all + rest).skip(at + 1),
                ) by {
                let tail = (all + rest).skip(from);
                assert(lines_fit((all + rest).skip(start)) == lines_fit(tail));
                lemma_run_before_end(tail, open as int);
                assert(tail.skip(open + 1) =~= (all + rest).skip(at + 1));
            }
            open = 0;
            proof {
                from = at + 1;
            }
        } else if open >= MAX_SSE_LINE {
            assert forall|rest: Seq<u8>|
                !lines_fit(#[trigger] (before + bytes@ + rest).skip(start)) by {
                let tail = (all + rest).skip(from);
                assert(lines_fit((all + rest).skip(start)) == lines_fit(tail));
                lemma_newline_at(tail);
                if newline_at(tail) <= open {
                    assert(all[at - open + newline_at(tail)] != 10);
                }
            }
            return None;
        } else {
            open = open + 1;
        }
        i = i + 1;
    }
    Some(open)
}

/// The first line feed, when only other bytes stand before it.
proof fn lemma_run_before_end(bytes: Seq<u8>, run: int)
    requires
        0 <= run < bytes.len(),
        run <= MAX_SSE_LINE,
        bytes[run] == 10,
        forall|k: int| 0 <= k < run ==> #[trigger] bytes[k] != 10,
    ensures
        newline_at(bytes) == run,
        lines_fit(bytes) == lines_fit(bytes.skip(run + 1)),
{
    lemma_newline_at(bytes);
    if newline_at(bytes) < run {
        assert(bytes[newline_at(bytes)] != 10);
    }
}

/// Whether the lines of a text in two pieces fit the limit.
fn pieces_fit(first: &Vec<u8>, second: &Vec<u8>) -> (r: bool)
    ensures
        r == lines_fit(first@ + second@),
{
    let ghost none = Seq::<u8>::empty();
    let ghost all = first@ + second@;
    assert(none + first@ =~= first@);
    match count_lines(first, 0, Ghost(none)) {
        None => {
            assert((none + first@ + second@).skip(0) =~= all);
            false
        },
        Some(run) => {
            assert((none + first@ + second@).skip(0) =~= all);
            assert(lines_fit(all) == lines_fit((first@ + second@).skip(first@.len() - run)));
            match count_lines(second, run, Ghost(first@)) {
                None => {
                    assert((first@ + second@ + none) =~= all);
                    assert(!lines_fit((first@ + second@ + none).skip(first@.len() - run)));
                    false
                },
                Some(end) => {
                    assert(all + none =~= all);
                    let ghost tail = (all + none).skip(all.len() - end);
                    proof {
                        assert(lines_fit((first@ + second@ + none).skip(first@.len() - run))
                            == lines_fit(tail));
                        lemma_newline_at(tail);
                        if newline_at(tail) < tail.len() {
                            assert(all[all.len() - end + newline_at(tail)] != 10);
                        }
                    }
                    true
                },
            }
        },
    }
}

/// The bytes without the carriage returns and line feeds at their end.
pub open spec fn without_terminator(bytes: Seq<u8>) -> Seq<u8>
    decreases bytes.len(),
{
    if bytes.len() > 0 && (bytes.last() == 13 || bytes.last() == 10) {
        without_terminator(bytes.drop_last())
    } else {
        bytes
    }
}

/// The text of a line, without its terminator.
pub open spec fn line_text(bytes: Seq<u8>) -> Seq<char> {
    lossy_text(without_terminator(bytes))
}

/// The text of a line, without its terminator.
pub fn to_line(bytes: Vec<u8>) -> (r: String)
    ensures
        r@ == line_text(bytes@),
{
    let ghost all = bytes@;
    let mut n: usize = bytes.len();
    assert(all.take(n as int) =~= all);
    while n > 0 && (bytes[n - 1] == 13 || bytes[n - 1] == 10)
        invariant
            n <= bytes@.len(),
            bytes@ == all,
            without_terminator(all) == without_terminator(all.take(n as int)),
        decreases n,
    {
        assert(all.take(n as int).drop_last() =~= all.take(n - 1));
        n = n - 1;
    }
    let line = slice_subrange(bytes.as_slice(), 0, n);
    assert(line@ =~= all.take(n as int));
    lossy_text_of(line)
}

/// Takes the first line from the buffer, when it is complete.
pub fn pop_line(buf: &mut Vec<u8>) -> (r: Option<String>)
    ensures
        match r {
            Some(line) => {
                &&& newline_at(old(buf)@) < old(buf)@.len()
                &&& line@ == line_text(old(buf)@.take(newline_at(old(buf)@) + 1))
                &&& final(buf)@ == old(buf)@.skip(newline_at(old(buf)@) + 1)
            },
            None => newline_at(old(buf)@) == old(buf)@.len() && final(buf)@ == old(buf)@,
        },
{
    let ghost all = buf@;
    let mut at: usize = 0;
    assert(all.skip(0) =~= all);
    while at < buf.len() && buf[at] != 10
        invariant
            at <= buf@.len(),
            buf@ == all,
            newline_at(all) == at + newline_at(all.skip(at as int)),
        decreases buf@.len() - at,
    {
        assert(all.skip(at as int).drop_first() =~= all.skip(at + 1));
        at = at + 1;
    }
    if at == buf.len() {
        return None;
    }
    let mut rest = buf.split_off(at + 1);
    std::mem::swap(buf, &mut rest);
    assert(rest@ =~= all.take(at + 1));
    Some(to_line(rest))
}

/// The bytes of a stream that wait to become lines.
pub struct SseLines {
    buf: Vec<u8>,
    terminated: bool,
}

/// What the connection delivers when it is read.
#[derive(Debug, PartialEq, Eq)]
pub enum ReadEvent {
    Bytes(Vec<u8>),
    /// Nothing came for too long.
    Idle,
    /// The connection failed.
    Failed(ProviderError),
    /// The connection was closed.
    Closed,
}

/// What a reader of lines has to report.
#[derive(Debug, PartialEq, Eq)]
pub enum LineStep {
    Line(String),
    /// The stream is over with an error; nothing follows.
    Fail(ProviderError),
    /// The stream is over.
    End,
    /// The connection has to be read.
    Read,
}

pub enum LineStepView {
    Line(Seq<char>),
    Fail(ProviderErrorView),
    End,
    Read,
}

impl View for LineStep {
    type V = LineStepView;

    open spec fn view(&self) -> LineStepView {
        match *self {
            LineStep::Line(line) => LineStepView::Line(line@),
            LineStep::Fail(e) => LineStepView::Fail(e@),
            LineStep::End => LineStepView::End,
            LineStep::Read => LineStepView::Read,
        }
    }
}

/// What a reader of lines holds: the bytes that wait, and whether the stream
/// is over with an error.
pub struct LinesView {
    pub buf: Seq<u8>,
    pub terminated: bool,
}

impl View for SseLines {
    type V = LinesView;

    closed spec fn view(&self) -> LinesView {
        LinesView { buf: self.buf@, terminated: self.terminated }
    }
}

impl LinesView {
    /// The next step: a line that is complete comes first, then the deadline,
    /// and only then is the connection read.
    pub open spec fn polled(self, expired: bool) -> (LinesView, LineStepView) {
        let at = newline_at(self.buf);
        if self.terminated {
            (self, LineStepView::End)
        } else if at < self.buf.len() {
            (
                LinesView { buf: self.buf.skip(at + 1), ..self },
                LineStepView::Line(line_text(self.buf.take(at + 1))),
            )
        } else if expired {
            (
                LinesView { terminated: true, ..self },
                LineStepView::Fail(ProviderErrorView::Timeout(TimeoutStage::StreamTotal)),
            )
        } else {
            (self, LineStepView::Read)
        }
    }

    /// What follows from reading the connection. Bytes are added, unless they
    /// make a line, with an end or without, that is longer than the limit; a
    /// failure ends the stream and drops what waits; at the end, what waits is
    /// the last line.
    pub open spec fn fed(self, event: ReadEvent) -> (LinesView, LineStepView) {
        match event {
            ReadEvent::Bytes(bytes) => if !lines_fit(self.buf + bytes@) {
                (
                    LinesView { terminated: true, ..self },
                    LineStepView::Fail(
                        plain_error("stream line exceeds size limit (1048576 bytes)"@),
                    ),
                )
            } else {
                (LinesView { buf: self.buf + bytes@, ..self }, LineStepView::Read)
            },
            ReadEvent::Idle => (
                LinesView { terminated: true, ..self },
                LineStepView::Fail(ProviderErrorView::Timeout(TimeoutStage::Idle)),
            ),
            ReadEvent::Failed(e) => (
                LinesView { terminated: true, ..self },
                LineStepView::Fail(e@),
            ),
            ReadEvent::Closed => if self.buf.len() == 0 {
                (self, LineStepView::End)
            } else {
                (
                    LinesView { buf: Seq::empty(), ..self },
                    LineStepView::Line(line_text(self.buf)),
                )
            },
        }
    }
}

impl SseLines {
    pub fn new() -> (r: SseLines)
        ensures
            r@ == (LinesView { buf: Seq::empty(), terminated: false }),
    {
        SseLines { buf: Vec::new(), terminated: false }
    }

    /// The next step; `deadline` is the end of the time that the whole stream
    /// may take.
    pub fn poll(&mut self, now: Moment, deadline: Moment) -> (r: LineStep)
        ensures
            final(self)@ == old(self)@.polled(now.nanos >= deadline.nanos).0,
            r@ == old(self)@.polled(now.nanos >= deadline.nanos).1,
    {
        if self.terminated {
            return LineStep::End;
        }
        match pop_line(&mut self.buf) {
            Some(line) => LineStep::Line(line),
            None => if now.nanos >= deadline.nanos {
                self.terminated = true;
                LineStep::Fail(ProviderError::Timeout(TimeoutStage::StreamTotal))
            } else {
                LineStep::Read
            },
        }
    }

    /// Takes what reading the connection gave. `Read` asks to be polled again.
    pub fn feed(&mut self, event: ReadEvent) -> (r: LineStep)
        ensures
            final(self)@ == old(self)@.fed(event).0,
            r@ == old(self)@.fed(event).1,
    {
        match event {
            ReadEvent::Bytes(bytes) => {
                if !pieces_fit(&self.buf, &bytes) {
                    self.terminated = true;
                    return LineStep::Fail(
                        limit_error("stream line exceeds size limit (1048576 bytes)"),
                    );
                }
                let mut bytes = bytes;
                self.buf.append(&mut bytes);
                LineStep::Read
            },
            ReadEvent::Idle => {
                self.terminated = true;
                LineStep::Fail(ProviderError::Timeout(TimeoutStage::Idle))
            },
            ReadEvent::Failed(e) => {
                self.terminated = true;
                LineStep::Fail(e)
            },
            ReadEvent::Closed => {
                if self.buf.len() == 0 {
                    return LineStep::End;
                }
                let mut rest: Vec<u8> = Vec::new();
                std::mem::swap(&mut rest, &mut self.buf);
                assert(self.buf@ =~= Seq::empty());
                LineStep::Line(to_line(rest))
            },
        }
    }
}

/// A line of the stream, or the error that ends it.
pub type LineItem = Result<Seq<char>, ProviderErrorView>;

impl AggregatorView {
    /// The events of a line or of an error in the transport. After the end
    /// marker there are none.
    pub open spec fn stepped(self, item: LineItem) -> (
        AggregatorView,
        Seq<Result<EventView, ProviderErrorView>>,
    ) {
        if self.finished {
            (self, Seq::empty())
        } else {
            match item {
                Ok(line) => self.lined(line, line_chunk(line)),
                Err(e) => (self.with_error(), seq![Err(e)]),
            }
        }
    }

    /// The state and the events after several lines.
    pub open spec fn ran(self, items: Seq<LineItem>) -> (
        AggregatorView,
        Seq<Result<EventView, ProviderErrorView>>,
    )
        decreases items.len(),
    {
        if items.len() == 0 {
            (self, Seq::empty())
        } else {
            let (before, events) = self.ran(items.drop_last());
            let (after, more) = before.stepped(items.last());
            (after, events + more)
        }
    }
}

/// All events of a stream: those of its lines, and the closing one.
pub open spec fn stream_events(items: Seq<LineItem>) -> Seq<Result<EventView, ProviderErrorView>> {
    let (after, events) = AggregatorView::fresh().ran(items);
    events + after.flushed().1
}

/// Turns a line, or an error in the transport, into events.
pub fn step_stream(item: Result<String, ProviderError>, aggregator: &mut ToolCallAggregator) -> (r:
    Vec<Result<StreamEvent, ProviderError>>)
    ensures
        ({
            let line: LineItem = match item {
                Ok(line) => Ok(line@),
                Err(e) => Err(e@),
            };
            &&& final(aggregator)@ == old(aggregator)@.stepped(line).0
            &&& result_views(r@) == old(aggregator)@.stepped(line).1
        }),
{
    if aggregator.is_finished() {
        let none: Vec<Result<StreamEvent, ProviderError>> = Vec::new();
        assert(result_views(none@) =~= Seq::empty());
        return none;
    }
    match item {
        Ok(line) => parse_sse_line(line.as_str(), aggregator),
        Err(e) => super::stream::line_error(aggregator, e),
    }
}

/// Whether an event ends a reply.
pub open spec fn is_done(event: Result<EventView, ProviderErrorView>) -> bool {
    event matches Ok(EventView::Done { .. })
}

/// What one line can do to a stream: after an error it adds no event but
/// errors; after the end marker it adds nothing; an error is alone, and from
/// then on the stream is marked; and so is the end of the reply.
pub proof fn lemma_step(agg: AggregatorView, item: LineItem)
    ensures
        ({
            let (after, events) = agg.stepped(item);
            &&& agg.finished ==> after.finished && events.len() == 0
            &&& agg.errored ==> after.errored && forall|i: int|
                0 <= i < events.len() ==> #[trigger] events[i] is Err
            &&& forall|i: int|
                0 <= i < events.len() ==> (#[trigger] events[i] is Err ==> events.len() == 1 && (
                after.errored || after.finished))
            &&& forall|i: int|
                0 <= i < events.len() ==> (is_done(#[trigger] events[i]) ==> events.len() == 1
                    && after.finished)
        }),
{
    if !agg.finished {
        if let Ok(line) = item {
            match line_view_of(line) {
                super::stream::LineView::Data(data) => {
                    if let Some(chunk) = line_chunk(line) {
                        if chunk.error is None && chunk.choices.len() > 0 {
                            let counted = match chunk.usage {
                                Some(usage) => agg.with_usage(usage),
                                None => agg,
                            };
                            lemma_choice(counted, chunk.choices[0]);
                        }
                    }
                },
                _ => {},
            }
        }
    }
}

spec fn line_view_of(line: Seq<char>) -> super::stream::LineView {
    super::stream::line_view(line)
}

proof fn lemma_choice(agg: AggregatorView, choice: super::decode::StreamChoiceView)
    ensures
        ({
            let (after, events) = agg.chosen(choice);
            &&& agg.errored ==> after.errored && forall|i: int|
                0 <= i < events.len() ==> #[trigger] events[i] is Err
            &&& forall|i: int|
                0 <= i < events.len() ==> (#[trigger] events[i] is Err ==> events.len() == 1
                    && after.errored)
            &&& forall|i: int| 0 <= i < events.len() ==> !is_done(#[trigger] events[i])
        }),
{
    if let Some(chunks) = choice.delta.tool_calls {
        super::stream::lemma_pushed_keeps_flags(agg, chunks);
    }
}

proof fn lemma_run(agg: AggregatorView, items: Seq<LineItem>)
    requires
        !agg.errored,
        !agg.finished,
    ensures
        ({
            let (after, events) = agg.ran(items);
            &&& forall|i: int, j: int|
                0 <= i < j < events.len() ==> (#[trigger] events[i] is Err ==> #[trigger] events[j] is Err)
            &&& forall|i: int|
                0 <= i < events.len() ==> (#[trigger] events[i] is Err ==> after.errored
                    || after.finished)
            &&& forall|i: int|
                0 <= i < events.len() ==> (is_done(#[trigger] events[i]) ==> i == events.len() - 1
                    && after.finished)
        }),
    decreases items.len(),
{
    if items.len() > 0 {
        lemma_run(agg, items.drop_last());
        let (before, events) = agg.ran(items.drop_last());
        lemma_step(before, items.last());
        let (after, more) = before.stepped(items.last());
        let all = events + more;
        assert forall|i: int, j: int| 0 <= i < j < all.len() && #[trigger] all[i] is Err implies (
        #[trigger] all[j] is Err) by {
            if i < events.len() {
                assert(events[i] is Err);
                if j < events.len() {
                    assert(events[j] is Err);
                } else {
                    assert(more[j - events.len()] is Err);
                }
            } else {
                assert(more[i - events.len()] is Err);
            }
        }
        assert forall|i: int| 0 <= i < all.len() && #[trigger] all[i] is Err implies (after.errored
            || after.finished) by {
            if i < events.len() {
                assert(events[i] is Err);
            } else {
                assert(more[i - events.len()] is Err);
            }
        }
        assert forall|i: int| 0 <= i < all.len() && is_done(#[trigger] all[i]) implies i == all.len()
            - 1 && after.finished by {
            if i < events.len() {
                assert(is_done(events[i]));
            } else {
                assert(is_done(more[i - events.len()]));
            }
        }
    }
}

/// After an error a stream reports nothing but errors: no text, no tool
/// request, and no end that would make the reply look complete.
pub proof fn law_no_success_after_error(items: Seq<LineItem>)
    ensures
        forall|i: int, j: int|
            0 <= i < j < stream_events(items).len() ==> (#[trigger] stream_events(items)[i] is Err
                ==> #[trigger] stream_events(items)[j] is Err),
{
    let agg = AggregatorView::fresh();
    lemma_run(agg, items);
    let (after, events) = agg.ran(items);
    let all = stream_events(items);
    assert forall|i: int, j: int| 0 <= i < j < all.len() && #[trigger] all[i] is Err implies (
    #[trigger] all[j] is Err) by {
        if i < events.len() {
            assert(events[i] is Err);
            if j < events.len() {
                assert(events[j] is Err);
            }
        }
    }
}

/// The end of the reply is the last event of its stream, whatever the endpoint
/// sends after it.
pub proof fn law_done_is_the_last_event(items: Seq<LineItem>)
    ensures
        forall|i: int|
            0 <= i < stream_events(items).len() ==> (is_done(#[trigger] stream_events(items)[i])
                ==> i == stream_events(items).len() - 1),
{
    let agg = AggregatorView::fresh();
    lemma_run(agg, items);
    let (after, events) = agg.ran(items);
    let all = stream_events(items);
    assert forall|i: int| 0 <= i < all.len() && is_done(#[trigger] all[i]) implies i == all.len()
        - 1 by {
        if i < events.len() {
            assert(is_done(events[i]));
        }
    }
}

/// A stream is never silent: it ends with the end of a reply or with an error.
pub proof fn law_stream_ends_with_done_or_error(items: Seq<LineItem>)
    ensures
        stream_events(items).len() > 0,
        is_done(stream_events(items).last()) || stream_events(items).last() is Err,
{
    lemma_closed(items);
    let (after, events) = AggregatorView::fresh().ran(items);
    let all = stream_events(items);
    if after.errored || after.finished {
        assert(all =~= events);
    } else {
        assert(all.last() == after.flushed().1.last());
    }
}

proof fn lemma_closed(items: Seq<LineItem>)
    ensures
        ({
            let (after, events) = AggregatorView::fresh().ran(items);
            after.errored || after.finished ==> events.len() > 0 && (is_done(events.last())
                || events.last() is Err)
        }),
    decreases items.len(),
{
    if items.len() > 0 {
        let agg = AggregatorView::fresh();
        lemma_closed(items.drop_last());
        let (before, events) = agg.ran(items.drop_last());
        let (after, more) = before.stepped(items.last());
        lemma_step(before, items.last());
        if before.errored || before.finished {
            if more.len() > 0 {
                assert((events + more).last() == more.last());
                assert(more[more.len() - 1] is Err);
            } else {
                assert(events + more =~= events);
            }
        } else if after.errored || after.finished {
            lemma_closing_step(before, items.last());
            assert((events + more).last() == more.last());
        }
    }
}

proof fn lemma_closing_step(agg: AggregatorView, item: LineItem)
    requires
        !agg.errored,
        !agg.finished,
        agg.stepped(item).0.errored || agg.stepped(item).0.finished,
    ensures
        agg.stepped(item).1.len() == 1,
        is_done(agg.stepped(item).1[0]) || agg.stepped(item).1[0] is Err,
{
    if let Ok(line) = item {
        match line_view_of(line) {
            super::stream::LineView::Data(data) => {
                if let Some(chunk) = line_chunk(line) {
                    if chunk.error is None && chunk.choices.len() > 0 {
                        let counted = match chunk.usage {
                            Some(usage) => agg.with_usage(usage),
                            None => agg,
                        };
                        if let Some(chunks) = chunk.choices[0].delta.tool_calls {
                            super::stream::lemma_pushed_keeps_flags(counted, chunks);
                        }
                    }
                }
            },
            _ => {},
        }
    }
}

/// Once a stream of lines has failed, it is over: nothing that waits comes out.
pub proof fn law_failed_lines_are_over(lines: LinesView, event: ReadEvent, expired: bool)
    ensures
        lines.fed(event).1 is Fail ==> lines.fed(event).0.terminated,
        lines.polled(expired).1 is Fail ==> lines.polled(expired).0.terminated,
        lines.terminated ==> lines.polled(expired) == (lines, LineStepView::End),
{
}

/// The lines of a text: one for each line feed, and the rest behind the last
/// one when there is a rest.
pub open spec fn lines_in(bytes: Seq<u8>) -> Seq<LineItem>
    decreases bytes.len(),
{
    let at = newline_at(bytes);
    proof {
        lemma_newline_at(bytes);
    }
    if bytes.len() == 0 {
        Seq::empty()
    } else if at < bytes.len() {
        seq![Ok(line_text(bytes.take(at + 1)))] + lines_in(bytes.skip(at + 1))
    } else {
        seq![Ok(line_text(bytes))]
    }
}

/// The bytes that a connection delivers, all together.
pub open spec fn bytes_in(events: Seq<ReadEvent>) -> Seq<u8>
    decreases events.len(),
{
    if events.len() == 0 {
        Seq::empty()
    } else {
        match events[0] {
            ReadEvent::Bytes(bytes) => bytes@ + bytes_in(events.skip(1)),
            _ => bytes_in(events.skip(1)),
        }
    }
}

/// Whether a connection delivers bytes, in any number of chunks, and is then
/// closed.
pub open spec fn delivers(events: Seq<ReadEvent>) -> bool {
    &&& events.len() > 0
    &&& events.last() is Closed
    &&& forall|i: int| 0 <= i < events.len() - 1 ==> #[trigger] events[i] is Bytes
}

impl LinesView {
    /// Nothing waits, and nothing has failed.
    pub open spec fn fresh() -> LinesView {
        LinesView { buf: Seq::empty(), terminated: false }
    }

    /// What comes out of a reader in time: it is polled, and where it asks for
    /// more, the connection's next event is fed to it. A closed connection
    /// stays closed.
    pub open spec fn read(self, events: Seq<ReadEvent>) -> Seq<LineItem>
        decreases events.len(), self.buf.len(),
    {
        proof {
            lemma_newline_at(self.buf);
        }
        match self.polled(false) {
            (next, LineStepView::Line(line)) => seq![Ok(line)] + next.read(events),
            (next, LineStepView::Fail(e)) => seq![Err(e)],
            (next, LineStepView::End) => Seq::empty(),
            (next, LineStepView::Read) => if events.len() == 0 {
                Seq::empty()
            } else {
                match next.fed(events[0]) {
                    (after, LineStepView::Line(line)) => seq![Ok(line)] + after.read(events),
                    (after, LineStepView::Fail(e)) => seq![Err(e)],
                    (after, LineStepView::End) => Seq::empty(),
                    (after, LineStepView::Read) => after.read(events.skip(1)),
                }
            },
        }
    }
}

/// The first line feed of a text in two pieces is that of the first piece, when
/// it has one; else it does not stand in the first piece.
proof fn lemma_newline_in_first(first: Seq<u8>, second: Seq<u8>)
    ensures
        newline_at(first) < first.len() ==> newline_at(first + second) == newline_at(first),
        newline_at(first) == first.len() ==> newline_at(first + second) >= first.len(),
    decreases first.len(),
{
    let both = first + second;
    lemma_newline_at(both);
    if first.len() > 0 && first[0] != 10 {
        assert(both[0] == first[0]);
        lemma_newline_in_first(first.drop_first(), second);
        assert(both.drop_first() =~= first.drop_first() + second);
    }
}

/// Where the lines of a text fit the limit, so do those of its beginning.
proof fn lemma_beginning_fits(first: Seq<u8>, second: Seq<u8>)
    requires
        lines_fit(first + second),
    ensures
        lines_fit(first),
    decreases first.len(),
{
    let both = first + second;
    let at = newline_at(first);
    lemma_newline_at(first);
    lemma_newline_in_first(first, second);
    if at < first.len() {
        assert(both.skip(at + 1) =~= first.skip(at + 1) + second);
        lemma_beginning_fits(first.skip(at + 1), second);
    }
}

proof fn lemma_read(lines: LinesView, events: Seq<ReadEvent>)
    requires
        !lines.terminated,
        delivers(events),
        lines_fit(lines.buf + bytes_in(events)),
    ensures
        lines.read(events) == lines_in(lines.buf + bytes_in(events)),
    decreases events.len(), lines.buf.len(),
{
    let buf = lines.buf;
    let more = bytes_in(events);
    let at = newline_at(buf);
    lemma_newline_at(buf);
    lemma_newline_in_first(buf, more);
    if at < buf.len() {
        let next = LinesView { buf: buf.skip(at + 1), ..lines };
        assert((buf + more).skip(at + 1) =~= next.buf + more);
        assert((buf + more).take(at + 1) =~= buf.take(at + 1));
        lemma_read(next, events);
    } else {
        let rest = events.skip(1);
        match events[0] {
            ReadEvent::Bytes(bytes) => {
                let after = LinesView { buf: buf + bytes@, ..lines };
                assert(buf + more =~= after.buf + bytes_in(rest));
                lemma_beginning_fits(after.buf, bytes_in(rest));
                assert(rest.last() == events.last());
                lemma_read(after, rest);
            },
            _ => {
                assert(events.len() == 1);
                assert(rest =~= Seq::empty());
                assert(more =~= Seq::empty());
                assert(buf + more =~= buf);
                if buf.len() > 0 {
                    let after = LinesView { buf: Seq::empty(), ..lines };
                    assert(after.read(events) =~= Seq::empty());
                    assert(lines.read(events) =~= seq![Ok(line_text(buf))]);
                }
            },
        }
    }
}

/// A stream whose lines are within the limit gives back exactly its lines, in
/// order and without their ends, and then the rest without an end, if there is
/// one.
pub proof fn law_stream_gives_its_lines(events: Seq<ReadEvent>)
    requires
        delivers(events),
        lines_fit(bytes_in(events)),
    ensures
        LinesView::fresh().read(events) == lines_in(bytes_in(events)),
{
    assert(Seq::<u8>::empty() + bytes_in(events) =~= bytes_in(events));
    lemma_read(LinesView::fresh(), events);
}

/// Lines are joined across chunks: the same bytes, however they are divided,
/// leave the reader as the same lines.
pub proof fn law_chunk_boundaries_do_not_matter(one: Seq<ReadEvent>, other: Seq<ReadEvent>)
    requires
        delivers(one),
        delivers(other),
        bytes_in(one) == bytes_in(other),
        lines_fit(bytes_in(one)),
    ensures
        LinesView::fresh().read(one) == LinesView::fresh().read(other),
{
    law_stream_gives_its_lines(one);
    law_stream_gives_its_lines(other);
}

/// A line that is complete is delivered even when the time is up.
pub proof fn law_complete_lines_beat_the_deadline(lines: LinesView)
    requires
        !lines.terminated,
        newline_at(lines.buf) < lines.buf.len(),
    ensures
        lines.polled(true) == lines.polled(false),
        lines.polled(true).1 is Line,
{
}

/// A line ends at its line feed: its text is what stands before it, without a
/// carriage return at its end, and the lines behind it follow.
pub proof fn law_lines_end_at_line_feeds(line: Seq<u8>, rest: Seq<u8>)
    requires
        forall|i: int| 0 <= i < line.len() ==> #[trigger] line[i] != 10,
        line.len() > 0 ==> line.last() != 13,
    ensures
        lines_in(line + seq![10u8] + rest) == seq![
            Ok::<Seq<char>, ProviderErrorView>(lossy_text(line)),
        ] + lines_in(rest),
        lines_in(line + seq![13u8, 10u8] + rest) == seq![
            Ok::<Seq<char>, ProviderErrorView>(lossy_text(line)),
        ] + lines_in(rest),
        line.len() > 0 ==> lines_in(line) == seq![
            Ok::<Seq<char>, ProviderErrorView>(lossy_text(line)),
        ],
{
    let n = line.len() as int;
    let a = line + seq![10u8] + rest;
    let b = line + seq![13u8, 10u8] + rest;
    lemma_first_feed(a, n);
    lemma_first_feed(b, n + 1);
    assert(a.take(n + 1) =~= line + seq![10u8]);
    assert(a.skip(n + 1) =~= rest);
    assert(b.take(n + 2) =~= line + seq![13u8, 10u8]);
    assert(b.skip(n + 2) =~= rest);
    lemma_terminators(line);
    lemma_newline_at(line);
    if newline_at(line) < line.len() {
        assert(line[newline_at(line)] == 10);
    }
}

proof fn lemma_terminators(line: Seq<u8>)
    requires
        line.len() > 0 ==> line.last() != 13 && line.last() != 10,
    ensures
        without_terminator(line) == line,
        without_terminator(line + seq![10u8]) == line,
        without_terminator(line + seq![13u8, 10u8]) == line,
{
    let a = line + seq![10u8];
    let b = line + seq![13u8, 10u8];
    let c = line + seq![13u8];
    assert(a.drop_last() =~= line);
    assert(b.drop_last() =~= c);
    assert(c.drop_last() =~= line);
    assert(without_terminator(c) == without_terminator(line));
}

proof fn lemma_first_feed(bytes: Seq<u8>, at: int)
    requires
        0 <= at < bytes.len(),
        bytes[at] == 10,
        forall|i: int| 0 <= i < at ==> #[trigger] bytes[i] != 10,
    ensures
        newline_at(bytes) == at,
{
    lemma_newline_at(bytes);
    let p = newline_at(bytes);
    if p < at {
        assert(bytes[p] != 10);
    }
    if at < p {
        assert(bytes[at] != 10);
    }
}

/// Lines of up to 1048576 bytes are within the limit, and longer ones are not,
/// whether they have an end or not.
pub proof fn law_line_limit(line: Seq<u8>, rest: Seq<u8>)
    requires
        forall|i: int| 0 <= i < line.len() ==> #[trigger] line[i] != 10,
    ensures
        lines_fit(line) <==> line.len() <= 1048576,
        lines_fit(line + seq![10u8] + rest) <==> line.len() <= 1048576 && lines_fit(rest),
{
    let n = line.len() as int;
    let a = line + seq![10u8] + rest;
    lemma_first_feed(a, n);
    assert(a.skip(n + 1) =~= rest);
    lemma_newline_at(line);
    if newline_at(line) < line.len() {
        assert(line[newline_at(line)] == 10);
    }
}

/// A line that has arrived is the next step, as text without its end, also when
/// the time is up; what stands behind it waits.
pub proof fn law_polled_lines_come_in_order(
    line: Seq<u8>,
    rest: Seq<u8>,
    now: Moment,
    deadline: Moment,
    step: LineStep,
)
    requires
        forall|i: int| 0 <= i < line.len() ==> #[trigger] line[i] != 10,
        line.len() > 0 ==> line.last() != 13,
    ensures
        forall|lines: &mut SseLines|
            !lines@.terminated && lines@.buf == line + seq![10u8] + rest
                && #[trigger] call_ensures(SseLines::poll, (lines, now, deadline), step) ==> (
            step matches LineStep::Line(text) && text@ == lossy_text(line))
                && final(lines)@.buf == rest && !final(lines)@.terminated,
{
    let n = line.len() as int;
    let a = line + seq![10u8] + rest;
    lemma_first_feed(a, n);
    assert(a.take(n + 1) =~= line + seq![10u8]);
    assert(a.skip(n + 1) =~= rest);
    lemma_terminators(line);
}

/// Bytes are kept, in order, as long as no line is too long; at the end of the
/// connection what waits is the last line.
pub proof fn law_fed_bytes_are_kept(bytes: Vec<u8>, step: LineStep)
    ensures
        forall|lines: &mut SseLines|
            lines_fit(lines@.buf + bytes@) && #[trigger] call_ensures(
                SseLines::feed,
                (lines, ReadEvent::Bytes(bytes)),
                step,
            ) ==> step@ is Read && final(lines)@.buf == lines@.buf + bytes@
                && final(lines)@.terminated == lines@.terminated,
        forall|lines: &mut SseLines|
            !lines_fit(lines@.buf + bytes@) && #[trigger] call_ensures(
                SseLines::feed,
                (lines, ReadEvent::Bytes(bytes)),
                step,
            ) ==> step@ is Fail && final(lines)@.terminated,
        forall|lines: &mut SseLines|
            lines@.buf.len() > 0 && #[trigger] call_ensures(
                SseLines::feed,
                (lines, ReadEvent::Closed),
                step,
            ) ==> (step matches LineStep::Line(text) && text@ == lossy_text(
                without_terminator(lines@.buf),
            )) && final(lines)@.buf.len() == 0,
{
}

/// A failure of the connection is told as it is, and a silence as one.
pub proof fn law_failures_of_the_connection_are_told(e: ProviderError, step: LineStep)
    ensures
        forall|lines: &mut SseLines| #[trigger]
            call_ensures(SseLines::feed, (lines, ReadEvent::Failed(e)), step) ==> (
            step matches LineStep::Fail(told) && told@ == e@) && final(lines)@.terminated,
        forall|lines: &mut SseLines| #[trigger]
            call_ensures(SseLines::feed, (lines, ReadEvent::Idle), step) ==> (
            step matches LineStep::Fail(told) && told@ == ProviderErrorView::Timeout(
                TimeoutStage::Idle,
            )) && final(lines)@.terminated,
{
}

} // verus!
