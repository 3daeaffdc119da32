//! In-process queues of messages, as `crossbeam` provides them.
//!
//! Nothing in this file is proved: each function hands its arguments to the
//! queue and says what the queue's documentation promises of the answer.

use vstd::prelude::*;
use crate::message::Message;

verus! {

/// The sending side of a `crossbeam` channel, opaque to the verifier.
#[verifier::external_type_specification]
#[verifier::external_body]
#[verifier::reject_recursive_types(T)]
pub struct ExQueueSender<T>(crossbeam::channel::Sender<T>);

/// The receiving side of a `crossbeam` channel, opaque to the verifier.
#[verifier::external_type_specification]
#[verifier::external_body]
#[verifier::reject_recursive_types(T)]
pub struct ExQueueReceiver<T>(crossbeam::channel::Receiver<T>);

/// `crossbeam::channel::unbounded`: a fresh queue without a capacity limit.
/// Nothing is claimed of the pair.
#[verifier::external_body]
pub(crate) fn queue_unbounded() -> (r: (
    crossbeam::channel::Sender<Message>,
    crossbeam::channel::Receiver<Message>,
)) {
    crossbeam::channel::unbounded()
}

/// `Sender::clone`: another handle on the same queue. Nothing is claimed of it.
#[verifier::external_body]
pub(crate) fn queue_sender_clone(tx: &crossbeam::channel::Sender<Message>) -> (r:
    crossbeam::channel::Sender<Message>) {
    tx.clone()
}

/// `Sender::send`: puts `msg` on the queue, waiting while a bounded queue is
/// full. It fails only when every receiver is gone, and the error then holds
/// the very message that could not be sent; the claim is that this message
/// comes back unchanged.
#[verifier::external_body]
pub(crate) fn queue_send(tx: &crossbeam::channel::Sender<Message>, msg: Message) -> (r: Result<
    (),
    Message,
>)
    ensures
        r is Err ==> r->Err_0 == msg,
{
    match tx.send(msg) {
        Ok(()) => Ok(()),
        Err(crossbeam::channel::SendError(back)) => Err(back),
    }
}

/// `Receiver::recv`: waits for the next message of the queue. `None` stands
/// for its error, which says that the queue is empty and every sender is gone.
/// Which of the two comes depends on the other side, so nothing is claimed.
#[verifier::external_body]
pub(crate) fn queue_recv(rx: &crossbeam::channel::Receiver<Message>) -> (r: Option<Message>) {
    match rx.recv() {
        Ok(msg) => Some(msg),
        Err(_) => None,
    }
}

} // verus!
