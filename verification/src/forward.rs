//! Forwarding between a bridge and in-process queues.

use vstd::prelude::*;
use crate::message::Message;

verus! {

/// The queue that takes the messages of one topic.
#[derive(Debug)]
pub struct TopicSink {
    pub topic: String,
    pub sender: crossbeam::channel::Sender<Message>,
}

/// The topics of a list of sinks, in order.
pub open spec fn sink_topics(out: Seq<TopicSink>) -> Seq<Seq<char>> {
    Seq::new(out.len(), |i: int| out[i].topic@)
}

} // verus!
