//! A memory that keeps everything.

use vstd::prelude::*;

use super::placed::lemma_whole_in_order;
use super::{Memory, MemoryError};
use crate::message::{clone_messages, message_views, Message, MessageView};

verus! {

/// Keeps every message and returns all of them.
#[derive(Debug)]
pub struct InMemoryMemory {
    messages: Vec<Message>,
}

impl InMemoryMemory {
    /// A memory without messages.
    pub fn new() -> (r: InMemoryMemory)
        ensures
            r.stored() == Seq::<MessageView>::empty(),
    {
        let messages: Vec<Message> = Vec::new();
        assert(message_views(messages@) =~= Seq::empty());
        InMemoryMemory { messages }
    }
}

impl Default for InMemoryMemory {
    fn default() -> (r: InMemoryMemory)
        ensures
            r.stored() == Seq::<MessageView>::empty(),
    {
        InMemoryMemory::new()
    }
}

impl Memory for InMemoryMemory {
    open spec fn wf(&self) -> bool {
        true
    }

    closed spec fn stored(&self) -> Seq<MessageView> {
        message_views(self.messages@)
    }

    open spec fn made(&self) -> Set<MessageView> {
        Set::empty()
    }

    fn record(&mut self, message: Message) -> (r: Result<(), MemoryError>)
        ensures
            r is Ok,
    {
        let ghost before = self.messages@;
        self.messages.push(message);
        assert(message_views(self.messages@) =~= message_views(before).push(message@));
        Ok(())
    }

    fn context(&mut self) -> (r: Result<Vec<Message>, MemoryError>)
        ensures
            final(self).stored() == old(self).stored(),
            r matches Ok(messages) && message_views(messages@) == old(self).stored(),
    {
        proof {
            lemma_whole_in_order(self.stored(), self.made());
        }
        Ok(clone_messages(&self.messages))
    }
}

} // verus!
