//! The message envelope: a topic used as routing key, and an opaque payload.

use vstd::prelude::*;

verus! {

/// Envelope carrying a topic and a payload that the orchestrator never inspects.
#[derive(Debug, Clone)]
pub struct Message {
    pub topic: String,
    pub data: Vec<u8>,
}

/// Mathematical value of a [`Message`].
pub struct MessageView {
    pub topic: Seq<char>,
    pub data: Seq<u8>,
}

impl View for Message {
    type V = MessageView;

    open spec fn view(&self) -> MessageView {
        MessageView { topic: self.topic@, data: self.data@ }
    }
}

impl Message {
    /// Builds a message from its two parts.
    pub fn new(topic: String, data: Vec<u8>) -> (m: Message)
        ensures
            m@.topic == topic@,
            m@.data == data@,
    {
        Message { topic, data }
    }

    /// A copy equal by value to `self`.
    pub fn duplicate(&self) -> (m: Message)
        ensures
            m@ == self@,
    {
        let topic = self.topic.clone();
        let data = self.data.clone();
        assert(data@ =~= self.data@);
        Message { topic, data }
    }

    /// Equality by value: same topic, same payload.
    pub fn same(&self, other: &Message) -> (r: bool)
        ensures
            r == (self@ == other@),
    {
        if self.topic != other.topic {
            return false;
        }
        if self.data.len() != other.data.len() {
            assert(self.data@.len() != other.data@.len());
            return false;
        }
        let mut i: usize = 0;
        while i < self.data.len()
            invariant
                i <= self.data.len(),
                self.data.len() == other.data.len(),
                forall|j: int| 0 <= j < i ==> self.data@[j] == other.data@[j],
            decreases self.data.len() - i,
        {
            if self.data[i] != other.data[i] {
                return false;
            }
            i += 1;
        }
        assert(self.data@ =~= other.data@);
        true
    }
}

} // verus!
