//! Fan-out of one encoded world frame to every registered connection.
use vstd::prelude::*;

use tokio::sync::mpsc::UnboundedSender;
use tokio_tungstenite::tungstenite::Message;

verus! {

#[verifier::external_type_specification]
#[verifier::external_body]
#[verifier::reject_recursive_types(T)]
pub struct ExUnboundedSender<T>(UnboundedSender<T>);

#[verifier::external_type_specification]
#[verifier::external_body]
pub struct ExMessage(Message);

/// The outbound side of one connection: the sender of its queue, and the
/// record of every frame handed to it with whether the queue took it.
pub struct Outbox {
    sender: UnboundedSender<Message>,
    log: Ghost<Seq<(Seq<char>, bool)>>,
}

impl View for Outbox {
    type V = Seq<(Seq<char>, bool)>;

    closed spec fn view(&self) -> Seq<(Seq<char>, bool)> {
        self.log@
    }
}

impl Outbox {
    /// An outbox over `sender` to which nothing has been handed yet.
    pub fn new(sender: UnboundedSender<Message>) -> (r: Outbox)
        ensures
            r@ == Seq::<(Seq<char>, bool)>::empty(),
    {
        Outbox { sender, log: Ghost(Seq::empty()) }
    }
}

/// Relies on tokio's `UnboundedSender::send`: it queues a text frame
/// without waiting, and fails only when the receiving half has closed, which
/// depends on the other task, so nothing is promised about the outcome. (It
/// aborts the process only if the queue's message count overflows.) The
/// frame handed over and the outcome are recorded in the outbox's log.
#[verifier::external_body]
pub(crate) fn enqueue_text(out: &mut Outbox, frame: &String) -> (delivered: bool)
    ensures
        final(out)@ == old(out)@.push((frame@, delivered)),
{
    out.sender.send(Message::Text(frame.clone())).is_ok()
}

} // verus!
