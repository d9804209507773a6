//! A provider that plays a script: one reply per request, and a record of the
//! requests.

use vstd::prelude::*;

use super::{
    ChatRequest, ChatRequestView, ChatResponse, ChatResponseView, EventView, FinishReason,
    FinishView, ProviderError, ProviderErrorView, StreamEvent, TimeoutStage, Usage,
};
use crate::message::{call_views, clone_calls, Message, MessageView, ToolCall, ToolCallView};
use crate::run::{clone_token, expired, token_cancelled, RunContext};
use crate::time::Moment;
use std::collections::VecDeque;
use tokio_util::sync::CancellationToken;

verus! {

/// One scripted reply.
#[derive(Debug, PartialEq, Eq)]
pub enum FakeReply {
    Text(String),
    TextWithReasoning { content: String, reasoning: String },
    ToolCalls { content: String, calls: Vec<ToolCall> },
    /// A reply with a given usage in place of zero.
    WithUsage { reply: Box<FakeReply>, usage: Usage },
    /// The request fails.
    Error(ProviderError),
}

impl FakeReply {
    pub fn text_with_usage(content: &str, usage: Usage) -> (r: FakeReply)
        ensures
            r matches FakeReply::WithUsage { reply, usage: given } && (*reply matches FakeReply::Text(
                text,
            ) && text@ == content@) && given == usage,
    {
        FakeReply::WithUsage { reply: Box::new(FakeReply::Text(content.to_owned())), usage }
    }
}

/// The reply inside all usage wrappers.
pub open spec fn base_reply(reply: FakeReply) -> FakeReply
    decreases reply,
{
    match reply {
        FakeReply::WithUsage { reply, usage } => base_reply(*reply),
        _ => reply,
    }
}

/// The usage that the outermost wrapper gives.
pub open spec fn given_usage(reply: FakeReply) -> Option<Usage> {
    match reply {
        FakeReply::WithUsage { reply, usage } => Some(usage),
        _ => None,
    }
}

/// The usage of a reply: the one given, or zero.
pub open spec fn usage_of(reply: FakeReply) -> Usage {
    match given_usage(reply) {
        Some(usage) => usage,
        None => Usage { prompt_tokens: 0, completion_tokens: 0, total_tokens: 0 },
    }
}

/// The error of a reply that still has its wrapper.
pub open spec fn unwrapped_late() -> ProviderErrorView {
    ProviderErrorView::Protocol {
        message: "internal error: WithUsage must be unwrapped before stream_events"@,
    }
}

/// The message that a reply stands for, or its error.
pub open spec fn message_of(reply: FakeReply) -> Result<MessageView, ProviderErrorView> {
    match base_reply(reply) {
        FakeReply::Text(content) => Ok(MessageView::assistant(content@)),
        FakeReply::TextWithReasoning { content, reasoning } => Ok(
            MessageView::Assistant {
                content: content@,
                reasoning: Some(reasoning@),
                tool_calls: Seq::empty(),
            },
        ),
        FakeReply::ToolCalls { content, calls } => Ok(
            MessageView::Assistant {
                content: content@,
                reasoning: None,
                tool_calls: call_views(calls@),
            },
        ),
        FakeReply::Error(e) => Err(e@),
        FakeReply::WithUsage { .. } => Err(unwrapped_late()),
    }
}

/// The answer to a request without streaming.
pub open spec fn response_of(reply: FakeReply) -> Result<ChatResponseView, ProviderErrorView> {
    match message_of(reply) {
        Ok(message) => Ok(
            ChatResponseView { message, finish_reason: FinishView::Stop, usage: usage_of(reply) },
        ),
        Err(e) => Err(e),
    }
}

pub open spec fn call_event(call: ToolCallView) -> EventView {
    EventView::ToolCall { id: call.id, name: call.name, arguments: call.arguments }
}

/// The streamed events of a reply, before its usage is put into the last one:
/// text, then reasoning, then tool requests, then the end.
pub open spec fn body_events(reply: FakeReply) -> Result<Seq<EventView>, ProviderErrorView> {
    match reply {
        FakeReply::Text(content) => Ok(seq![EventView::Delta(content@)]),
        FakeReply::TextWithReasoning { content, reasoning } => Ok(
            seq![EventView::Delta(content@), EventView::Reasoning(reasoning@)],
        ),
        FakeReply::ToolCalls { content, calls } => Ok(
            (if content@.len() == 0 {
                Seq::<EventView>::empty()
            } else {
                seq![EventView::Delta(content@)]
            }) + call_views(calls@).map_values(|c: ToolCallView| call_event(c)),
        ),
        FakeReply::Error(e) => Err(e@),
        FakeReply::WithUsage { .. } => Err(unwrapped_late()),
    }
}

pub open spec fn done_event(usage: Usage) -> EventView {
    EventView::Done { reason: FinishView::Stop, usage: Some(usage) }
}

/// The answer to a request with streaming.
pub open spec fn stream_of(reply: FakeReply) -> Result<Seq<EventView>, ProviderErrorView> {
    match body_events(base_reply(reply)) {
        Ok(events) => Ok(events.push(done_event(usage_of(reply)))),
        Err(e) => Err(e),
    }
}

pub open spec fn event_views(events: Seq<StreamEvent>) -> Seq<EventView> {
    events.map_values(|e: StreamEvent| e@)
}

proof fn lemma_base_reply(reply: FakeReply)
    ensures
        !(base_reply(reply) is WithUsage),
        base_reply(base_reply(reply)) == base_reply(reply),
    decreases reply,
{
    match reply {
        FakeReply::WithUsage { reply, usage } => {
            lemma_base_reply(*reply);
        },
        _ => {},
    }
}

/// Converts a reply into an answer without streaming.
pub fn chat_response(reply: FakeReply) -> (r: Result<ChatResponse, ProviderError>)
    ensures
        match r {
            Ok(response) => response_of(reply) == Ok::<ChatResponseView, ProviderErrorView>(
                response@,
            ),
            Err(e) => response_of(reply) == Err::<ChatResponseView, ProviderErrorView>(e@),
        },
    decreases reply,
{
    match reply {
        FakeReply::Error(e) => Err(e),
        FakeReply::WithUsage { reply, usage } => {
            match chat_response(*reply) {
                Ok(response) => Ok(
                    ChatResponse {
                        message: response.message,
                        finish_reason: response.finish_reason,
                        usage,
                    },
                ),
                Err(e) => Err(e),
            }
        },
        FakeReply::Text(content) => Ok(
            ChatResponse {
                message: Message::assistant(content.as_str()),
                finish_reason: FinishReason::Stop,
                usage: Usage::default(),
            },
        ),
        FakeReply::TextWithReasoning { content, reasoning } => Ok(
            ChatResponse {
                message: Message::assistant_with_reasoning(content.as_str(), reasoning.as_str()),
                finish_reason: FinishReason::Stop,
                usage: Usage::default(),
            },
        ),
        FakeReply::ToolCalls { content, calls } => Ok(
            ChatResponse {
                message: Message::Assistant { content, reasoning: None, tool_calls: calls },
                finish_reason: FinishReason::Stop,
                usage: Usage::default(),
            },
        ),
    }
}

/// Takes the usage wrappers off; the outermost usage counts.
pub fn unwrap_usage(reply: FakeReply) -> (r: (FakeReply, Option<Usage>))
    ensures
        r.0 == base_reply(reply),
        r.1 == given_usage(reply),
    decreases reply,
{
    match reply {
        FakeReply::WithUsage { reply, usage } => {
            let (inner, _) = unwrap_usage(*reply);
            (inner, Some(usage))
        },
        other => (other, None),
    }
}

/// The events of a reply without wrappers, with the usage for the last one.
pub fn stream_events(reply: FakeReply, usage: Usage) -> (r: Result<Vec<StreamEvent>, ProviderError>)
    ensures
        match r {
            Ok(events) => body_events(reply) matches Ok(body) && event_views(events@) == body.push(
                done_event(usage),
            ),
            Err(e) => body_events(reply) == Err::<Seq<EventView>, ProviderErrorView>(e@),
        },
{
    let mut events: Vec<StreamEvent> = Vec::new();
    match reply {
        FakeReply::Error(e) => {
            return Err(e);
        },
        FakeReply::Text(content) => {
            events.push(StreamEvent::Delta(content));
        },
        FakeReply::TextWithReasoning { content, reasoning } => {
            events.push(StreamEvent::Delta(content));
            events.push(StreamEvent::Reasoning(reasoning));
        },
        FakeReply::ToolCalls { content, calls } => {
            let ghost requests = call_views(calls@).map_values(|c: ToolCallView| call_event(c));
            if !content.as_str().is_empty() {
                events.push(StreamEvent::Delta(content));
            }
            let ghost head = event_views(events@);
            let mut i: usize = 0;
            while i < calls.len()
                invariant
                    i <= calls@.len(),
                    requests == call_views(calls@).map_values(|c: ToolCallView| call_event(c)),
                    event_views(events@) =~= head + requests.take(i as int),
                decreases calls@.len() - i,
            {
                let ghost before = events@;
                let event = StreamEvent::ToolCall {
                    id: calls[i].id.clone(),
                    name: calls[i].name.clone(),
                    arguments: calls[i].arguments.clone(),
                };
                events.push(event);
                assert(event_views(events@) =~= event_views(before).push(event@));
                assert(call_views(calls@)[i as int] == calls@[i as int]@);
                assert(requests[i as int] == event@);
                i = i + 1;
            }
            assert(requests.take(i as int) =~= requests);
        },
        FakeReply::WithUsage { reply: _, usage: _ } => {
            return Err(
                ProviderError::Protocol {
                    message: "internal error: WithUsage must be unwrapped before stream_events".to_owned(),
                },
            );
        },
    }
    let ghost body = body_events(reply)->Ok_0;
    assert(event_views(events@) =~= body);
    events.push(StreamEvent::Done { reason: FinishReason::Stop, usage: Some(usage) });
    assert(event_views(events@) =~= body.push(done_event(usage)));
    Ok(events)
}

/// What a provider can do.
#[derive(Debug, Clone, Copy, PartialEq, Eq, Structural)]
pub struct ProviderCapabilities {
    pub streaming: bool,
    pub reasoning: bool,
    pub tool_calls: bool,
    pub parallel_tool_calls: bool,
    pub structured_output: bool,
    pub usage: bool,
    pub context_cancellation: bool,
    pub context_deadline: bool,
}

/// The limits under which one request is made.
#[derive(Debug, PartialEq)]
pub struct ProviderRequestContext {
    pub request_id: String,
    /// The token by which the request's run is cancelled.
    pub cancellation: CancellationToken,
    pub deadline: Option<Moment>,
}

impl ProviderRequestContext {
    /// A request under the limits of its run.
    pub fn from_run_context(request_id: &str, run: &RunContext) -> (r: ProviderRequestContext)
        ensures
            r.request_id@ == request_id@,
            r.cancellation == run.cancellation,
            r.deadline == run.deadline,
    {
        ProviderRequestContext {
            request_id: request_id.to_owned(),
            cancellation: clone_token(&run.cancellation),
            deadline: run.deadline,
        }
    }

    /// Whether the request's run is cancelled by now. The token is asked each
    /// time, so the answer depends on what its other holders did until then.
    pub fn is_cancelled(&self) -> (r: bool) {
        token_cancelled(&self.cancellation)
    }

    /// Whether the deadline has come.
    pub fn is_expired(&self, now: Moment) -> (r: bool)
        ensures
            r == expired(self.deadline, now),
    {
        match self.deadline {
            Some(deadline) => now.nanos >= deadline.nanos,
            None => false,
        }
    }
}

/// Why a request must not be made now, if so: its run is cancelled, or its
/// deadline has come.
pub open spec fn context_fault(
    cancelled: bool,
    deadline: Option<Moment>,
    now: Moment,
) -> Option<ProviderErrorView> {
    if cancelled {
        Some(ProviderErrorView::Cancelled)
    } else if expired(deadline, now) {
        Some(ProviderErrorView::Timeout(TimeoutStage::Request))
    } else {
        None
    }
}

/// Checks a request's limits, once it is known whether its run is cancelled.
pub fn check_limits(cancelled: bool, deadline: Option<Moment>, now: Moment) -> (r: Result<
    (),
    ProviderError,
>)
    ensures
        match r {
            Ok(_) => context_fault(cancelled, deadline, now) is None,
            Err(e) => context_fault(cancelled, deadline, now) == Some(e@),
        },
{
    if cancelled {
        return Err(ProviderError::Cancelled);
    }
    match deadline {
        Some(deadline) => if now.nanos >= deadline.nanos {
            Err(ProviderError::Timeout(TimeoutStage::Request))
        } else {
            Ok(())
        },
        None => Ok(()),
    }
}

/// Checks a request's limits, by what its token says now.
pub fn check_context(context: &ProviderRequestContext, now: Moment) -> (r: Result<
    (),
    ProviderError,
>)
    ensures
        exists|cancelled: bool|
            match r {
                Ok(_) => #[trigger] context_fault(cancelled, context.deadline, now) is None,
                Err(e) => context_fault(cancelled, context.deadline, now) == Some(e@),
            },
{
    let cancelled = context.is_cancelled();
    let r = check_limits(cancelled, context.deadline, now);
    assert(match r {
        Ok(_) => context_fault(cancelled, context.deadline, now) is None,
        Err(e) => context_fault(cancelled, context.deadline, now) == Some(e@),
    });
    r
}

pub open spec fn exhausted() -> ProviderErrorView {
    ProviderErrorView::Protocol { message: "fake provider: script exhausted"@ }
}

pub open spec fn request_views(requests: Seq<ChatRequest>) -> Seq<ChatRequestView> {
    requests.map_values(|r: ChatRequest| r@)
}

/// Whether two replies say the same.
pub open spec fn alike(a: FakeReply, b: FakeReply) -> bool
    decreases a,
{
    match (a, b) {
        (FakeReply::Text(x), FakeReply::Text(y)) => x@ == y@,
        (
            FakeReply::TextWithReasoning { content: x, reasoning: p },
            FakeReply::TextWithReasoning { content: y, reasoning: q },
        ) => x@ == y@ && p@ == q@,
        (
            FakeReply::ToolCalls { content: x, calls: p },
            FakeReply::ToolCalls { content: y, calls: q },
        ) => x@ == y@ && call_views(p@) == call_views(q@),
        (
            FakeReply::WithUsage { reply: x, usage: p },
            FakeReply::WithUsage { reply: y, usage: q },
        ) => p == q && alike(*x, *y),
        (FakeReply::Error(x), FakeReply::Error(y)) => x@ == y@,
        _ => false,
    }
}

fn copy_reply(reply: &FakeReply) -> (r: FakeReply)
    ensures
        alike(*reply, r),
    decreases *reply,
{
    match reply {
        FakeReply::Text(content) => FakeReply::Text(content.clone()),
        FakeReply::TextWithReasoning { content, reasoning } => FakeReply::TextWithReasoning {
            content: content.clone(),
            reasoning: reasoning.clone(),
        },
        FakeReply::ToolCalls { content, calls } => FakeReply::ToolCalls {
            content: content.clone(),
            calls: clone_calls(calls),
        },
        FakeReply::WithUsage { reply, usage } => FakeReply::WithUsage {
            reply: Box::new(copy_reply(reply)),
            usage: *usage,
        },
        FakeReply::Error(error) => FakeReply::Error(error.clone()),
    }
}

impl Clone for FakeReply {
    fn clone(&self) -> (r: FakeReply)
        ensures
            alike(*self, r),
    {
        copy_reply(self)
    }
}

/// Plays its script: each request takes the next reply, and every request is
/// recorded, also when the script is at its end.
#[derive(Debug)]
pub struct FakeProvider {
    replies: VecDeque<FakeReply>,
    requests: Vec<ChatRequest>,
}

impl Default for FakeProvider {
    fn default() -> (r: FakeProvider)
        ensures
            r.script() == Seq::<FakeReply>::empty(),
            r.seen() == Seq::<ChatRequestView>::empty(),
    {
        FakeProvider::new(Vec::new())
    }
}

impl Clone for FakeProvider {
    /// A provider of its own, with a copy of what is left of the script and of
    /// the requests so far.
    fn clone(&self) -> (r: FakeProvider)
        ensures
            r.script().len() == self.script().len(),
            forall|i: int|
                0 <= i < r.script().len() ==> alike(self.script()[i], #[trigger] r.script()[i]),
            r.seen() == self.seen(),
    {
        let mut replies: VecDeque<FakeReply> = VecDeque::new();
        let mut i: usize = 0;
        while i < self.replies.len()
            invariant
                i <= self.replies@.len(),
                replies@.len() == i,
                forall|j: int| 0 <= j < i ==> alike(self.replies@[j], #[trigger] replies@[j]),
            decreases self.replies@.len() - i,
        {
            replies.push_back(self.replies[i].clone());
            i = i + 1;
        }
        FakeProvider { replies, requests: self.requests() }
    }
}

impl FakeProvider {
    /// The replies that are left.
    pub closed spec fn script(&self) -> Seq<FakeReply> {
        self.replies@
    }

    /// The requests so far.
    pub closed spec fn seen(&self) -> Seq<ChatRequestView> {
        request_views(self.requests@)
    }

    pub fn new(replies: Vec<FakeReply>) -> (r: FakeProvider)
        ensures
            r.script() == replies@,
            r.seen() == Seq::<ChatRequestView>::empty(),
    {
        let mut script: VecDeque<FakeReply> = VecDeque::new();
        let ghost all = replies@;
        let mut rest = replies;
        while rest.len() > 0
            invariant
                rest@.len() <= all.len(),
                script@ == all.take(all.len() - rest@.len()),
                rest@ == all.skip(all.len() - rest@.len()),
            decreases rest@.len(),
        {
            let reply = rest.remove(0);
            script.push_back(reply);
            assert(script@ =~= all.take(all.len() - rest@.len()));
            assert(rest@ =~= all.skip(all.len() - rest@.len()));
        }
        assert(script@ =~= all);
        let requests: Vec<ChatRequest> = Vec::new();
        assert(request_views(requests@) =~= Seq::empty());
        FakeProvider { replies: script, requests }
    }

    /// Appends a reply to the script.
    pub fn push(&mut self, reply: FakeReply)
        ensures
            final(self).script() == old(self).script().push(reply),
            final(self).seen() == old(self).seen(),
    {
        self.replies.push_back(reply);
    }

    /// Copies of the requests so far.
    pub fn requests(&self) -> (r: Vec<ChatRequest>)
        ensures
            request_views(r@) == self.seen(),
    {
        let r = self.requests.clone();
        assert(request_views(r@) =~= request_views(self.requests@));
        r
    }

    pub fn capabilities(&self) -> (r: ProviderCapabilities)
        ensures
            r == (ProviderCapabilities {
                streaming: true,
                reasoning: true,
                tool_calls: true,
                parallel_tool_calls: true,
                structured_output: true,
                usage: true,
                context_cancellation: true,
                context_deadline: true,
            }),
    {
        ProviderCapabilities {
            streaming: true,
            reasoning: true,
            tool_calls: true,
            parallel_tool_calls: true,
            structured_output: true,
            usage: true,
            context_cancellation: true,
            context_deadline: true,
        }
    }

    fn next_reply(&mut self, request: ChatRequest) -> (r: Option<FakeReply>)
        ensures
            final(self).seen() == old(self).seen().push(request@),
            match r {
                Some(reply) => old(self).script().len() > 0 && reply == old(self).script()[0]
                    && final(self).script() == old(self).script().skip(1),
                None => old(self).script().len() == 0 && final(self).script()
                    == old(self).script(),
            },
    {
        let ghost before = self.requests@;
        self.requests.push(request);
        assert(request_views(self.requests@) =~= request_views(before).push(request@));
        let ghost script = self.replies@;
        let reply = self.replies.pop_front();
        assert(reply is Some ==> self.replies@ =~= script.skip(1));
        reply
    }

    /// Answers a request with the next reply.
    pub fn chat(&mut self, request: ChatRequest) -> (r: Result<ChatResponse, ProviderError>)
        ensures
            final(self).seen() == old(self).seen().push(request@),
            old(self).script().len() == 0 ==> (r matches Err(e) && e@ == exhausted())
                && final(self).script() == old(self).script(),
            old(self).script().len() > 0 ==> final(self).script() == old(self).script().skip(1)
                && match r {
                Ok(response) => response_of(old(self).script()[0]) == Ok::<
                    ChatResponseView,
                    ProviderErrorView,
                >(response@),
                Err(e) => response_of(old(self).script()[0]) == Err::<
                    ChatResponseView,
                    ProviderErrorView,
                >(e@),
            },
    {
        match self.next_reply(request) {
            None => Err(
                ProviderError::Protocol {
                    message: "fake provider: script exhausted".to_owned(),
                },
            ),
            Some(reply) => chat_response(reply),
        }
    }

    /// Answers a request with the events of the next reply.
    pub fn stream_chat(&mut self, request: ChatRequest) -> (r: Result<
        Vec<StreamEvent>,
        ProviderError,
    >)
        ensures
            final(self).seen() == old(self).seen().push(request@),
            old(self).script().len() == 0 ==> (r matches Err(e) && e@ == exhausted())
                && final(self).script() == old(self).script(),
            old(self).script().len() > 0 ==> final(self).script() == old(self).script().skip(1)
                && match r {
                Ok(events) => stream_of(old(self).script()[0]) == Ok::<
                    Seq<EventView>,
                    ProviderErrorView,
                >(event_views(events@)),
                Err(e) => stream_of(old(self).script()[0]) == Err::<
                    Seq<EventView>,
                    ProviderErrorView,
                >(e@),
            },
    {
        match self.next_reply(request) {
            None => Err(
                ProviderError::Protocol {
                    message: "fake provider: script exhausted".to_owned(),
                },
            ),
            Some(reply) => {
                let (base, usage) = unwrap_usage(reply);
                let usage = match usage {
                    Some(usage) => usage,
                    None => Usage::default(),
                };
                stream_events(base, usage)
            },
        }
    }

    /// Answers a request unless its limits forbid it, once it is known whether
    /// its run is cancelled.
    pub fn chat_within(
        &mut self,
        request: ChatRequest,
        cancelled: bool,
        deadline: Option<Moment>,
        now: Moment,
    ) -> (r: Result<ChatResponse, ProviderError>)
        ensures
            chatted(*old(self), *final(self), request@, context_fault(cancelled, deadline, now), r),
    {
        match check_limits(cancelled, deadline, now) {
            Ok(_) => self.chat(request),
            Err(e) => Err(e),
        }
    }

    /// Answers a request unless its limits, by what its token says now, forbid
    /// it; then nothing is recorded and no reply is taken.
    pub fn chat_with_context(
        &mut self,
        request: ChatRequest,
        context: &ProviderRequestContext,
        now: Moment,
    ) -> (r: Result<ChatResponse, ProviderError>)
        ensures
            exists|cancelled: bool|
                chatted(
                    *old(self),
                    *final(self),
                    request@,
                    #[trigger] context_fault(cancelled, context.deadline, now),
                    r,
                ),
    {
        let cancelled = context.is_cancelled();
        let r = self.chat_within(request, cancelled, context.deadline, now);
        assert(chatted(
            *old(self),
            *self,
            request@,
            context_fault(cancelled, context.deadline, now),
            r,
        ));
        r
    }

    /// Streams an answer unless the limits forbid it, once it is known whether
    /// the run is cancelled.
    pub fn stream_chat_within(
        &mut self,
        request: ChatRequest,
        cancelled: bool,
        deadline: Option<Moment>,
        now: Moment,
    ) -> (r: Result<Vec<StreamEvent>, ProviderError>)
        ensures
            streamed(
                *old(self),
                *final(self),
                request@,
                context_fault(cancelled, deadline, now),
                r,
            ),
    {
        match check_limits(cancelled, deadline, now) {
            Ok(_) => self.stream_chat(request),
            Err(e) => Err(e),
        }
    }

    /// Streams an answer unless the limits, by what the token says now, forbid
    /// it; then nothing is recorded and no reply is taken.
    pub fn stream_chat_with_context(
        &mut self,
        request: ChatRequest,
        context: &ProviderRequestContext,
        now: Moment,
    ) -> (r: Result<Vec<StreamEvent>, ProviderError>)
        ensures
            exists|cancelled: bool|
                streamed(
                    *old(self),
                    *final(self),
                    request@,
                    #[trigger] context_fault(cancelled, context.deadline, now),
                    r,
                ),
    {
        let cancelled = context.is_cancelled();
        let r = self.stream_chat_within(request, cancelled, context.deadline, now);
        assert(streamed(
            *old(self),
            *self,
            request@,
            context_fault(cancelled, context.deadline, now),
            r,
        ));
        r
    }
}

/// What becomes of a provider that is asked for an answer, and what it answers:
/// with a fault in the request's limits, the fault, and nothing is recorded or
/// taken; else the next reply.
pub open spec fn chatted(
    before: FakeProvider,
    after: FakeProvider,
    request: ChatRequestView,
    fault: Option<ProviderErrorView>,
    r: Result<ChatResponse, ProviderError>,
) -> bool {
    match fault {
        Some(fault) => {
            &&& r matches Err(e) && e@ == fault
            &&& after.seen() == before.seen()
            &&& after.script() == before.script()
        },
        None => {
            &&& after.seen() == before.seen().push(request)
            &&& before.script().len() == 0 ==> (r matches Err(e) && e@ == exhausted())
                && after.script() == before.script()
            &&& before.script().len() > 0 ==> after.script() == before.script().skip(1) && match r {
                Ok(response) => response_of(before.script()[0]) == Ok::<
                    ChatResponseView,
                    ProviderErrorView,
                >(response@),
                Err(e) => response_of(before.script()[0]) == Err::<
                    ChatResponseView,
                    ProviderErrorView,
                >(e@),
            }
        },
    }
}

/// What becomes of a provider that is asked for a streamed answer, and what it
/// answers.
pub open spec fn streamed(
    before: FakeProvider,
    after: FakeProvider,
    request: ChatRequestView,
    fault: Option<ProviderErrorView>,
    r: Result<Vec<StreamEvent>, ProviderError>,
) -> bool {
    match fault {
        Some(fault) => {
            &&& r matches Err(e) && e@ == fault
            &&& after.seen() == before.seen()
            &&& after.script() == before.script()
        },
        None => {
            &&& after.seen() == before.seen().push(request)
            &&& before.script().len() == 0 ==> (r matches Err(e) && e@ == exhausted())
                && after.script() == before.script()
            &&& before.script().len() > 0 ==> after.script() == before.script().skip(1) && match r {
                Ok(events) => stream_of(before.script()[0]) == Ok::<
                    Seq<EventView>,
                    ProviderErrorView,
                >(event_views(events@)),
                Err(e) => stream_of(before.script()[0]) == Err::<
                    Seq<EventView>,
                    ProviderErrorView,
                >(e@),
            }
        },
    }
}

/// The text of a streamed answer: its deltas, one after the other.
pub open spec fn streamed_text(events: Seq<EventView>) -> Seq<char>
    decreases events.len(),
{
    if events.len() == 0 {
        Seq::empty()
    } else {
        match events.last() {
            EventView::Delta(text) => streamed_text(events.drop_last()) + text,
            _ => streamed_text(events.drop_last()),
        }
    }
}

/// The tool requests of a streamed answer, in order.
pub open spec fn streamed_calls(events: Seq<EventView>) -> Seq<ToolCallView>
    decreases events.len(),
{
    if events.len() == 0 {
        Seq::empty()
    } else {
        match events.last() {
            EventView::ToolCall { id, name, arguments } => streamed_calls(
                events.drop_last(),
            ).push(ToolCallView { id, name, arguments }),
            _ => streamed_calls(events.drop_last()),
        }
    }
}

/// The reasoning of a streamed answer: its pieces, one after the other; none
/// when there is no piece.
pub open spec fn streamed_reasoning(events: Seq<EventView>) -> Option<Seq<char>>
    decreases events.len(),
{
    if events.len() == 0 {
        None
    } else {
        let before = streamed_reasoning(events.drop_last());
        match events.last() {
            EventView::Reasoning(text) => match before {
                Some(earlier) => Some(earlier + text),
                None => Some(text),
            },
            _ => before,
        }
    }
}

/// What one more event adds to a streamed answer.
proof fn lemma_one_more(events: Seq<EventView>, event: EventView)
    ensures
        streamed_text(events.push(event)) == match event {
            EventView::Delta(text) => streamed_text(events) + text,
            _ => streamed_text(events),
        },
        streamed_calls(events.push(event)) == match event {
            EventView::ToolCall { id, name, arguments } => streamed_calls(events).push(
                ToolCallView { id, name, arguments },
            ),
            _ => streamed_calls(events),
        },
        streamed_reasoning(events.push(event)) == match event {
            EventView::Reasoning(text) => match streamed_reasoning(events) {
                Some(earlier) => Some(earlier + text),
                None => Some(text),
            },
            _ => streamed_reasoning(events),
        },
{
    assert(events.push(event).drop_last() =~= events);
}

proof fn lemma_stream_of_calls(head: Seq<EventView>, calls: Seq<ToolCallView>)
    requires
        streamed_calls(head) == Seq::<ToolCallView>::empty(),
    ensures
        ({
            let events = head + calls.map_values(|c: ToolCallView| call_event(c));
            &&& streamed_text(events) == streamed_text(head)
            &&& streamed_calls(events) == calls
            &&& streamed_reasoning(events) == streamed_reasoning(head)
        }),
    decreases calls.len(),
{
    let events = head + calls.map_values(|c: ToolCallView| call_event(c));
    if calls.len() == 0 {
        assert(events =~= head);
        assert(calls =~= Seq::empty());
    } else {
        let rest = calls.drop_last();
        lemma_stream_of_calls(head, rest);
        assert(events.drop_last() =~= head + rest.map_values(|c: ToolCallView| call_event(c)));
        assert(events.last() == call_event(calls.last()));
        assert(calls =~= rest.push(calls.last()));
    }
}

/// A reply says the same streamed and not streamed: it fails in both ways with
/// the same error or in neither; the deltas make up the answer's text, the
/// reasoning pieces its reasoning, the tool requests are the answer's in their
/// order; and the last event, and no other, is the end, with the answer's
/// reason and usage.
pub proof fn law_stream_and_chat_agree(reply: FakeReply)
    ensures
        match response_of(reply) {
            Err(e) => stream_of(reply) == Err::<Seq<EventView>, ProviderErrorView>(e),
            Ok(response) => {
                &&& stream_of(reply) is Ok
                &&& stream_of(reply)->Ok_0.len() > 0
                &&& stream_of(reply)->Ok_0.last() == (EventView::Done {
                    reason: response.finish_reason,
                    usage: Some(response.usage),
                })
                &&& forall|i: int|
                    0 <= i < stream_of(reply)->Ok_0.len() - 1 ==> !(
                    #[trigger] stream_of(reply)->Ok_0[i] is Done)
                &&& response.message matches MessageView::Assistant {
                    content,
                    reasoning,
                    tool_calls,
                }
                &&& streamed_text(stream_of(reply)->Ok_0) == content
                &&& streamed_reasoning(stream_of(reply)->Ok_0) == reasoning
                &&& streamed_calls(stream_of(reply)->Ok_0) == tool_calls
            },
        },
{
    lemma_base_reply(reply);
    let base = base_reply(reply);
    let none = Seq::<EventView>::empty();
    if body_events(base) is Ok {
        let body = body_events(base)->Ok_0;
        lemma_one_more(body, done_event(usage_of(reply)));
        match base {
            FakeReply::Text(content) => {
                lemma_one_more(none, EventView::Delta(content@));
                assert(body =~= none.push(EventView::Delta(content@)));
                assert(Seq::<char>::empty() + content@ =~= content@);
            },
            FakeReply::TextWithReasoning { content, reasoning } => {
                let first = none.push(EventView::Delta(content@));
                lemma_one_more(none, EventView::Delta(content@));
                lemma_one_more(first, EventView::Reasoning(reasoning@));
                assert(body =~= first.push(EventView::Reasoning(reasoning@)));
                assert(Seq::<char>::empty() + content@ =~= content@);
            },
            FakeReply::ToolCalls { content, calls } => {
                let head = if content@.len() == 0 {
                    none
                } else {
                    seq![EventView::Delta(content@)]
                };
                if content@.len() > 0 {
                    lemma_one_more(none, EventView::Delta(content@));
                    assert(head =~= none.push(EventView::Delta(content@)));
                    assert(Seq::<char>::empty() + content@ =~= content@);
                } else {
                    assert(content@ =~= Seq::empty());
                }
                lemma_stream_of_calls(head, call_views(calls@));
            },
            _ => {},
        }
    }
}

/// A scripted reply is answered with what it says: its text, its reasoning and
/// its tool requests, word for word and in order.
pub proof fn law_scripted_replies_are_answered(reply: FakeReply, answer: ChatResponse)
    requires
        call_ensures(chat_response, (reply,), Ok::<ChatResponse, ProviderError>(answer)),
        !(reply is WithUsage),
    ensures
        answer@.finish_reason is Stop,
        answer@.usage == (Usage { prompt_tokens: 0, completion_tokens: 0, total_tokens: 0 }),
        answer.message@ matches MessageView::Assistant { content, reasoning, tool_calls }
            && match reply {
            FakeReply::Text(text) => content == text@ && reasoning is None && tool_calls.len() == 0,
            FakeReply::TextWithReasoning { content: text, reasoning: thought } => content == text@
                && reasoning == Some(thought@) && tool_calls.len() == 0,
            FakeReply::ToolCalls { content: text, calls } => content == text@ && reasoning is None
                && tool_calls == call_views(calls@),
            _ => false,
        },
{
}

/// A scripted error fails with that error, streamed or not; a reply with a
/// usage says what it says without, and reports that usage.
pub proof fn law_scripted_errors_and_usages(reply: FakeReply, usage: Usage, e: ProviderError)
    ensures
        response_of(FakeReply::Error(e)) == Err::<ChatResponseView, ProviderErrorView>(e@),
        stream_of(FakeReply::Error(e)) == Err::<Seq<EventView>, ProviderErrorView>(e@),
        match response_of(FakeReply::WithUsage { reply: Box::new(reply), usage }) {
            Ok(answer) => answer.usage == usage && (response_of(reply) matches Ok(plain)
                && answer.message == plain.message),
            Err(fault) => response_of(reply) == Err::<ChatResponseView, ProviderErrorView>(fault),
        },
{
    assert(base_reply(FakeReply::WithUsage { reply: Box::new(reply), usage }) == base_reply(reply));
}

/// A request is stopped before it is made exactly when its run is cancelled or
/// its deadline has come; being cancelled counts first.
pub proof fn law_limits_stop_requests(
    cancelled: bool,
    deadline: Option<Moment>,
    now: Moment,
    r: Result<(), ProviderError>,
)
    requires
        call_ensures(check_limits, (cancelled, deadline, now), r),
    ensures
        cancelled ==> (r matches Err(e) && e@ is Cancelled),
        !cancelled && (deadline matches Some(d) && now.nanos >= d.nanos) ==> (r matches Err(e)
            && e@ == ProviderErrorView::Timeout(TimeoutStage::Request)),
        !cancelled && (deadline matches Some(d) ==> now.nanos < d.nanos) ==> r is Ok,
{
}

/// A script is played from its beginning: each request takes the next reply,
/// and every request is recorded behind those before it.
pub proof fn law_scripts_are_played_in_order(
    request: ChatRequest,
    r: Result<ChatResponse, ProviderError>,
)
    ensures
        forall|provider: &mut FakeProvider| #[trigger]
            call_ensures(FakeProvider::chat, (provider, request), r) ==> {
                &&& final(provider).seen() == provider.seen().push(request@)
                &&& provider.script().len() > 0 ==> final(provider).script()
                    == provider.script().skip(1) && match r {
                    Ok(answer) => response_of(provider.script()[0]) == Ok::<
                        ChatResponseView,
                        ProviderErrorView,
                    >(answer@),
                    Err(e) => response_of(provider.script()[0]) == Err::<
                        ChatResponseView,
                        ProviderErrorView,
                    >(e@),
                }
                &&& provider.script().len() == 0 ==> (r matches Err(e) && e@ is Protocol)
            },
{
}

} // verus!
