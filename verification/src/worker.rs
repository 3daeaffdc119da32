//! What each planned task does with one message.
//!
//! A task alternates between waiting on a channel and deciding where the
//! message goes. The waiting on a bridge is done by the embedding program; the
//! decisions are the functions of this file. Each takes what arrived and
//! returns what is to be sent, or the reason why the task must stop.

use vstd::prelude::*;
use crate::channel::SenderHalf;
use crate::forward::sink_topics;
use crate::forward::TopicSink;
use crate::message::Message;
use crate::message::MessageView;
use crate::queue::queue_recv;
use crate::queue::queue_send;
use crate::routing::parcels;
use crate::routing::Delivery;
use crate::routing::RouteTable;
use crate::topology::fan_out;

verus! {

/// Why a task stops. None of these is recovered from.
#[derive(Debug)]
pub enum StepError {
    /// A message arrived on a topic that nobody takes.
    UnknownTopic { topic: String },
    /// The queue that should take the message has no receiver any more.
    SinkClosed { undelivered: Message },
    /// The queue that feeds the task is empty and has no sender any more.
    SourceClosed,
}

/// Mathematical value of a [`StepError`].
pub enum StepFault {
    UnknownTopic { topic: Seq<char> },
    SinkClosed { undelivered: MessageView },
    SourceClosed,
}

impl View for StepError {
    type V = StepFault;

    open spec fn view(&self) -> StepFault {
        match self {
            StepError::UnknownTopic { topic } => StepFault::UnknownTopic { topic: topic@ },
            StepError::SinkClosed { undelivered } => StepFault::SinkClosed {
                undelivered: undelivered@,
            },
            StepError::SourceClosed => StepFault::SourceClosed,
        }
    }
}

/// What a router's wait on its receivers came back with.
#[derive(Debug)]
pub enum Selected {
    /// A message arrived on the receiver of channel `from`.
    Received { from: u64, message: Message },
    /// The peer of the receiver of channel `from` is gone.
    Closed { from: u64 },
}

/// The step of a direct pipe: the message goes to `tx` as it came.
pub fn pass_through(tx: &SenderHalf, msg: Message) -> (d: Delivery)
    ensures
        d.to == tx.chan(),
        d.message == msg,
{
    Delivery { to: tx.id(), message: msg }
}

/// What a task makes of the answer of a queue that was asked to take `msg`:
/// a refusal stops the task and keeps the message that came back.
pub fn sent_outcome(sent: Result<(), Message>) -> (r: Result<(), StepError>)
    ensures
        match sent {
            Ok(_) => r is Ok,
            Err(back) => r matches Err(StepError::SinkClosed { undelivered }) && undelivered
                == back,
        },
{
    match sent {
        Ok(()) => Ok(()),
        Err(back) => Err(StepError::SinkClosed { undelivered: back }),
    }
}

/// Position of the first sink of `out` that takes `topic`.
fn find_sink(out: &Vec<TopicSink>, topic: &String) -> (r: Option<usize>)
    ensures
        match r {
            Some(i) => i < out@.len() && out@[i as int].topic@ == topic@,
            None => !sink_topics(out@).contains(topic@),
        },
{
    let mut i: usize = 0;
    while i < out.len()
        invariant
            i <= out@.len(),
            forall|j: int| 0 <= j < i ==> out@[j].topic@ != topic@,
        decreases out@.len() - i,
    {
        if out[i].topic == *topic {
            return Some(i);
        }
        i += 1;
    }
    proof {
        assert forall|j: int| 0 <= j < sink_topics(out@).len() implies sink_topics(out@)[j]
            != topic@ by {
            assert(out@[j].topic@ != topic@);
        }
    }
    None
}

/// The step of a task that forwards from a bridge into queues by topic: `msg`
/// is put on the queue of the first sink of `out` that takes its topic.
///
/// A topic that no sink takes stops the task. Where a sink takes it, the
/// queue decides: the step succeeds, or the queue has lost its receiver and
/// the task stops with the message in hand.
pub fn forward_to_topic(out: &Vec<TopicSink>, msg: Message) -> (r: Result<(), StepError>)
    ensures
        !sink_topics(out@).contains(msg@.topic) ==> (r matches Err(e) && e@ == (
        StepFault::UnknownTopic { topic: msg@.topic })),
        sink_topics(out@).contains(msg@.topic) ==> (r is Ok || (r matches Err(
            StepError::SinkClosed { undelivered },
        ) && undelivered == msg)),
{
    match find_sink(out, &msg.topic) {
        None => Err(StepError::UnknownTopic { topic: msg.topic }),
        Some(i) => {
            proof {
                assert(sink_topics(out@)[i as int] == msg@.topic);
            }
            sent_outcome(queue_send(&out[i].sender, msg))
        },
    }
}

/// The step of a shovel: `msg` is put on the router's queue. The step fails
/// only where the queue has lost its receiver, with the message in hand.
pub fn shovel(sink: &crossbeam::channel::Sender<Message>, msg: Message) -> (r: Result<
    (),
    StepError,
>)
    ensures
        r is Ok || (r matches Err(StepError::SinkClosed { undelivered }) && undelivered == msg),
{
    sent_outcome(queue_send(sink, msg))
}

/// What a task that drains a queue into `tx` makes of the queue's answer: a
/// message goes to `tx` as it came, the end of the queue stops the task.
pub fn deliver_received(tx: &SenderHalf, received: Option<Message>) -> (r: Result<
    Delivery,
    StepError,
>)
    ensures
        match received {
            Some(msg) => r matches Ok(d) && d.to == tx.chan() && d.message == msg,
            None => r matches Err(e) && e@ == StepFault::SourceClosed,
        },
{
    match received {
        Some(msg) => Ok(pass_through(tx, msg)),
        None => Err(StepError::SourceClosed),
    }
}

/// The step of a task that drains the queue `input` into `tx`: waits for the
/// next message of the queue. Whatever the queue answers, a delivery goes to
/// `tx`, and the only failure is the end of the queue.
pub fn next_from_queue(input: &crossbeam::channel::Receiver<Message>, tx: &SenderHalf) -> (r:
    Result<Delivery, StepError>)
    ensures
        match r {
            Ok(d) => d.to == tx.chan(),
            Err(e) => e@ == StepFault::SourceClosed,
        },
{
    deliver_received(tx, queue_recv(input))
}

/// The fan-out of `msg` by `routes`: one delivery for each subscriber of its
/// topic, in declaration order; a topic without subscribers stops the task.
pub fn fan_out_message(routes: &RouteTable, msg: Message) -> (r: Result<Vec<Delivery>, StepError>)
    requires
        routes.wf(),
    ensures
        match r {
            Ok(out) => routes@.contains_key(msg@.topic) && parcels(out@) == fan_out(
                routes@[msg@.topic],
                msg@,
            ),
            Err(e) => !routes@.contains_key(msg@.topic) && e@ == (StepFault::UnknownTopic {
                topic: msg@.topic,
            }),
        },
{
    proof {
        routes.listed_topics_have_subscribers(msg@.topic);
    }
    match routes.dispatch(msg) {
        Ok(out) => Ok(out),
        Err(e) => Err(StepError::UnknownTopic { topic: e.topic }),
    }
}

/// The step of the synchronous router. A message is fanned out by `routes`;
/// a closed channel is passed over, with nothing to send, and the router goes
/// on with its other receivers.
pub fn route_event(routes: &RouteTable, event: Selected) -> (r: Result<Vec<Delivery>, StepError>)
    requires
        routes.wf(),
    ensures
        match event {
            Selected::Received { from, message } => match r {
                Ok(out) => routes@.contains_key(message@.topic) && parcels(out@) == fan_out(
                    routes@[message@.topic],
                    message@,
                ),
                Err(e) => !routes@.contains_key(message@.topic) && e@ == (
                StepFault::UnknownTopic { topic: message@.topic }),
            },
            Selected::Closed { from } => r matches Ok(out) && out@.len() == 0,
        },
{
    match event {
        Selected::Received { from, message } => fan_out_message(routes, message),
        Selected::Closed { from } => Ok(Vec::new()),
    }
}

/// What the dispatcher of the buffered router makes of its queue's answer: a
/// message is fanned out by `routes`, the end of the queue stops the task.
pub fn dispatch_received(routes: &RouteTable, received: Option<Message>) -> (r: Result<
    Vec<Delivery>,
    StepError,
>)
    requires
        routes.wf(),
    ensures
        match received {
            Some(msg) => match r {
                Ok(out) => routes@.contains_key(msg@.topic) && parcels(out@) == fan_out(
                    routes@[msg@.topic],
                    msg@,
                ),
                Err(e) => !routes@.contains_key(msg@.topic) && e@ == (StepFault::UnknownTopic {
                    topic: msg@.topic,
                }),
            },
            None => r matches Err(e) && e@ == StepFault::SourceClosed,
        },
{
    match received {
        Some(msg) => fan_out_message(routes, msg),
        None => Err(StepError::SourceClosed),
    }
}

/// The step of the dispatcher of the buffered router: waits for the next
/// message of `queue` and fans it out by `routes`. Whatever the queue
/// answers, what is sent is the fan-out of one message on a known topic.
pub fn dispatch_next(queue: &crossbeam::channel::Receiver<Message>, routes: &RouteTable) -> (r:
    Result<Vec<Delivery>, StepError>)
    requires
        routes.wf(),
    ensures
        r matches Ok(out) ==> (exists|m: MessageView|
            routes@.contains_key(m.topic) && parcels(out@) == #[trigger] fan_out(
                routes@[m.topic],
                m,
            )),
        r matches Err(e) ==> (e@ == StepFault::SourceClosed || (e@ matches StepFault::UnknownTopic {
            topic,
        } && !routes@.contains_key(topic))),
{
    let received = queue_recv(queue);
    let r = dispatch_received(routes, received);
    proof {
        if r is Ok {
            let m = received->0@;
            assert(parcels(r->Ok_0@) == fan_out(routes@[m.topic], m));
        }
    }
    r
}

} // verus!
