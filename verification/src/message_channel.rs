//! Channels between agents: what their queues' outcomes mean to the two sides.

use vstd::prelude::*;

verus! {

/// Why a message was not sent or received.
#[derive(Debug, PartialEq, Eq)]
pub enum ChannelError {
    /// The other side is gone.
    Closed,
    /// The message asks for no reply.
    NoReply,
    /// Nobody listens now; somebody may later.
    NoReceiver,
    /// The channel does not do this.
    NotSupported(String),
}

/// What a broadcast queue hands to a receiver.
#[derive(Debug, PartialEq, Eq)]
pub enum BroadcastEvent {
    Message(String),
    /// The receiver was too slow and missed this many messages.
    Lagged(u64),
    /// The queue holds nothing now.
    Empty,
    Closed,
}

/// Where a receiver of broadcasts stands.
#[derive(Debug, PartialEq, Eq)]
pub enum BroadcastState {
    /// It takes the messages as they come.
    Following,
    /// It missed messages and goes on to the newest; the newest so far is held.
    CatchingUp { held: Option<String> },
}

/// What a receiver of broadcasts does next.
#[derive(Debug, PartialEq, Eq)]
pub enum BroadcastStep {
    Deliver(String),
    /// Wait for the next event.
    Wait,
    /// Take the next event, without waiting for one.
    Drain,
    Fail(ChannelError),
}

/// Where a receiver stands after an event, and what it does. A message is
/// delivered as it comes, unless some were missed: then the queue is emptied
/// and only the newest message is delivered. Missed messages are no error; the
/// end of the channel is one, once nothing is held.
pub open spec fn broadcast_stepped(state: BroadcastState, event: BroadcastEvent) -> (
    BroadcastState,
    BroadcastStep,
) {
    match (state, event) {
        (BroadcastState::Following, BroadcastEvent::Message(text)) => (
            BroadcastState::Following,
            BroadcastStep::Deliver(text),
        ),
        (BroadcastState::Following, BroadcastEvent::Lagged(_)) => (
            BroadcastState::CatchingUp { held: None },
            BroadcastStep::Drain,
        ),
        (BroadcastState::Following, BroadcastEvent::Empty) => (
            BroadcastState::Following,
            BroadcastStep::Wait,
        ),
        (BroadcastState::CatchingUp { held: _ }, BroadcastEvent::Message(text)) => (
            BroadcastState::CatchingUp { held: Some(text) },
            BroadcastStep::Drain,
        ),
        (BroadcastState::CatchingUp { held }, BroadcastEvent::Lagged(_)) => (
            BroadcastState::CatchingUp { held },
            BroadcastStep::Drain,
        ),
        (BroadcastState::CatchingUp { held: Some(text) }, _) => (
            BroadcastState::Following,
            BroadcastStep::Deliver(text),
        ),
        (BroadcastState::CatchingUp { held: None }, BroadcastEvent::Empty) => (
            BroadcastState::Following,
            BroadcastStep::Wait,
        ),
        (_, BroadcastEvent::Closed) => (
            BroadcastState::Following,
            BroadcastStep::Fail(ChannelError::Closed),
        ),
    }
}

/// What a receiver of broadcasts does next.
pub fn broadcast_step(state: BroadcastState, event: BroadcastEvent) -> (r: (
    BroadcastState,
    BroadcastStep,
))
    ensures
        r == broadcast_stepped(state, event),
{
    match state {
        BroadcastState::Following => match event {
            BroadcastEvent::Message(text) => (state, BroadcastStep::Deliver(text)),
            BroadcastEvent::Lagged(_) => (
                BroadcastState::CatchingUp { held: None },
                BroadcastStep::Drain,
            ),
            BroadcastEvent::Empty => (state, BroadcastStep::Wait),
            BroadcastEvent::Closed => (state, BroadcastStep::Fail(ChannelError::Closed)),
        },
        BroadcastState::CatchingUp { held } => match event {
            BroadcastEvent::Message(text) => (
                BroadcastState::CatchingUp { held: Some(text) },
                BroadcastStep::Drain,
            ),
            BroadcastEvent::Lagged(_) => (
                BroadcastState::CatchingUp { held },
                BroadcastStep::Drain,
            ),
            BroadcastEvent::Empty => match held {
                Some(text) => (BroadcastState::Following, BroadcastStep::Deliver(text)),
                None => (BroadcastState::Following, BroadcastStep::Wait),
            },
            BroadcastEvent::Closed => match held {
                Some(text) => (BroadcastState::Following, BroadcastStep::Deliver(text)),
                None => (BroadcastState::Following, BroadcastStep::Fail(ChannelError::Closed)),
            },
        },
    }
}

/// Where a receiver stands after several events, and what it did at each.
pub open spec fn broadcast_run(state: BroadcastState, events: Seq<BroadcastEvent>) -> (
    BroadcastState,
    Seq<BroadcastStep>,
)
    decreases events.len(),
{
    if events.len() == 0 {
        (state, Seq::empty())
    } else {
        let (before, steps) = broadcast_run(state, events.drop_last());
        let (after, step) = broadcast_stepped(before, events.last());
        (after, steps.push(step))
    }
}

/// The events of messages that wait in a queue.
pub open spec fn queued(texts: Seq<String>) -> Seq<BroadcastEvent> {
    texts.map_values(|text: String| BroadcastEvent::Message(text))
}

proof fn lemma_catching_up(missed: u64, texts: Seq<String>)
    ensures
        ({
            let events = seq![BroadcastEvent::Lagged(missed)] + queued(texts);
            let (after, steps) = broadcast_run(BroadcastState::Following, events);
            &&& after == (BroadcastState::CatchingUp {
                held: if texts.len() == 0 {
                    None
                } else {
                    Some(texts.last())
                },
            })
            &&& steps.len() == texts.len() + 1
            &&& forall|i: int| 0 <= i < steps.len() ==> #[trigger] steps[i] == BroadcastStep::Drain
        }),
    decreases texts.len(),
{
    let first = seq![BroadcastEvent::Lagged(missed)];
    let events = first + queued(texts);
    if texts.len() == 0 {
        assert(events.drop_last() =~= Seq::empty());
        assert(events.last() == first[0]);
        assert(broadcast_run(BroadcastState::Following, events.drop_last()).1 =~= Seq::empty());
    } else {
        lemma_catching_up(missed, texts.drop_last());
        assert(events.drop_last() =~= first + queued(texts.drop_last()));
        assert(events.last() == BroadcastEvent::Message(texts.last()));
    }
}

/// A receiver that missed messages goes straight to the newest one that waits:
/// the older ones are passed over without a delivery or an error, and once the
/// queue is empty, or closed, the newest is delivered. Then the messages are
/// taken as they come again.
pub proof fn law_lag_goes_to_the_newest(missed: u64, texts: Seq<String>, end: BroadcastEvent)
    requires
        texts.len() > 0,
        end is Empty || end is Closed,
    ensures
        ({
            let events = (seq![BroadcastEvent::Lagged(missed)] + queued(texts)).push(end);
            let (after, steps) = broadcast_run(BroadcastState::Following, events);
            &&& after == BroadcastState::Following
            &&& steps.last() == BroadcastStep::Deliver(texts.last())
            &&& forall|i: int|
                0 <= i < steps.len() - 1 ==> #[trigger] steps[i] == BroadcastStep::Drain
        }),
{
    let drained = seq![BroadcastEvent::Lagged(missed)] + queued(texts);
    lemma_catching_up(missed, texts);
    assert(drained.push(end).drop_last() =~= drained);
}

/// A receiver that keeps up gets every message, in order.
pub proof fn law_no_message_is_passed_over_without_a_lag(texts: Seq<String>)
    ensures
        broadcast_run(BroadcastState::Following, queued(texts)) == (
            BroadcastState::Following,
            texts.map_values(|text: String| BroadcastStep::Deliver(text)),
        ),
    decreases texts.len(),
{
    let steps = broadcast_run(BroadcastState::Following, queued(texts)).1;
    let delivered = texts.map_values(|text: String| BroadcastStep::Deliver(text));
    if texts.len() > 0 {
        law_no_message_is_passed_over_without_a_lag(texts.drop_last());
        assert(queued(texts).drop_last() =~= queued(texts.drop_last()));
        assert(queued(texts).last() == BroadcastEvent::Message(texts.last()));
    }
    assert(steps =~= delivered);
}

/// A new value needs somebody who watches.
pub fn watch_notified(watched: bool) -> (r: Result<(), ChannelError>)
    ensures
        watched ==> r is Ok,
        !watched ==> r == Err::<(), ChannelError>(ChannelError::NoReceiver),
{
    if watched {
        Ok(())
    } else {
        Err(ChannelError::NoReceiver)
    }
}

/// The reply to a question, or the message of a partner; none once the other
/// side is gone.
pub fn received(text: Option<String>) -> (r: Result<String, ChannelError>)
    ensures
        r == match text {
            Some(text) => Ok::<String, ChannelError>(text),
            None => Err(ChannelError::Closed),
        },
{
    match text {
        Some(text) => Ok(text),
        None => Err(ChannelError::Closed),
    }
}

/// A broadcast asks nobody.
pub fn broadcast_ask() -> (r: Result<String, ChannelError>)
    ensures
        r matches Err(ChannelError::NotSupported(why)) && why@
            == "broadcast channel does not support ask"@,
{
    Err(ChannelError::NotSupported("broadcast channel does not support ask".to_owned()))
}

/// A watched value asks nobody.
pub fn watch_ask() -> (r: Result<String, ChannelError>)
    ensures
        r matches Err(ChannelError::NotSupported(why)) && why@
            == "watch channel does not support ask"@,
{
    Err(ChannelError::NotSupported("watch channel does not support ask".to_owned()))
}

} // verus!
