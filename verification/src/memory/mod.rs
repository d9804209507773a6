//! Conversation memory: which messages the model sees on each turn.

use vstd::prelude::*;

use self::placed::in_order;
use crate::message::{message_views, Message, MessageView};
use crate::text::concat;

pub mod in_memory;
pub mod placed;
pub mod summarize;
pub mod summary_laws;
pub mod window;
pub mod window_laws;

verus! {

/// Why the context cannot be read or extended.
#[derive(Debug, PartialEq, Eq)]
pub enum MemoryError {
    /// The storage failed.
    Storage(String),
    /// Tokens could not be counted.
    TokenCount(String),
}

pub enum MemoryErrorView {
    Storage(Seq<char>),
    TokenCount(Seq<char>),
}

impl View for MemoryError {
    type V = MemoryErrorView;

    open spec fn view(&self) -> MemoryErrorView {
        match *self {
            MemoryError::Storage(m) => MemoryErrorView::Storage(m@),
            MemoryError::TokenCount(m) => MemoryErrorView::TokenCount(m@),
        }
    }
}

impl MemoryErrorView {
    /// The error as a sentence.
    pub open spec fn text(self) -> Seq<char> {
        match self {
            MemoryErrorView::Storage(m) => m,
            MemoryErrorView::TokenCount(m) => "token counting failed: "@ + m,
        }
    }
}

impl MemoryError {
    /// The error as a sentence.
    pub fn message(&self) -> (s: String)
        ensures
            s@ == self@.text(),
    {
        match self {
            MemoryError::Storage(m) => m.clone(),
            MemoryError::TokenCount(m) => concat("token counting failed: ", m.as_str()),
        }
    }
}

/// A conversation's memory: new messages go in at the end, and the context
/// for the next request comes out.
pub trait Memory {
    /// The memory's invariant. A memory that is proved says it here.
    open spec fn wf(&self) -> bool {
        arbitrary()
    }

    /// The messages that are stored, oldest first. A memory that is proved
    /// says them here.
    open spec fn stored(&self) -> Seq<MessageView> {
        arbitrary()
    }

    /// The messages of the next context that are not stored but made by the
    /// memory, such as a summary. A memory that is proved says them here.
    open spec fn made(&self) -> Set<MessageView> {
        arbitrary()
    }

    /// Appends a message. Where it fails, nothing is stored.
    fn record(&mut self, message: Message) -> (r: Result<(), MemoryError>)
        requires
            old(self).wf(),
        ensures
            final(self).wf(),
            r is Ok ==> final(self).stored() == old(self).stored().push(message@),
            r is Err ==> final(self).stored() == old(self).stored(),
    ;

    /// Appends a message that trimming must not remove. A memory that does not
    /// trim records it like any other.
    fn record_protected(&mut self, message: Message) -> (r: Result<(), MemoryError>)
        requires
            old(self).wf(),
        ensures
            final(self).wf(),
            r is Ok ==> final(self).stored() == old(self).stored().push(message@),
            r is Err ==> final(self).stored() == old(self).stored(),
    {
        self.record(message)
    }

    /// The messages for the next request, as copies and in order of
    /// occurrence.
    fn context(&mut self) -> (r: Result<Vec<Message>, MemoryError>)
        requires
            old(self).wf(),
        ensures
            final(self).wf(),
            r matches Ok(messages) ==> in_order(
                message_views(messages@),
                old(self).stored(),
                old(self).made(),
            ),
    ;
}

} // verus!
