//! Conversation message records: flat pass-through data. The composition
//! layer forwards them verbatim and never inspects or mutates their payload;
//! only the identifier attached to a request is ever rewritten.

use vstd::prelude::*;
use crate::protocol::entity::EntityId;

verus! {

/// One chunk of message content, as a backend streams it.
#[derive(Debug, PartialEq, Default)]
pub struct MessageContent {
    pub text: String,
}

impl Clone for MessageContent {
    fn clone(&self) -> (r: Self)
        ensures
            r == *self,
    {
        MessageContent { text: self.text.clone() }
    }
}

/// One message of a conversation.
#[derive(Debug, PartialEq)]
pub struct Message {
    pub from: EntityId,
    pub content: MessageContent,
}

impl Clone for Message {
    fn clone(&self) -> (r: Self)
        ensures
            r == *self,
    {
        Message { from: self.from.clone(), content: self.content.clone() }
    }
}

} // verus!
