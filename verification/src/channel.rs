//! The two channels of a queue: one for its items, one for commands to it.

use crate::queue::{QueueCommand, TransferItem};
use crossbeam::channel::{Receiver, Sender};
use vstd::prelude::*;

verus! {

/// The sending end of a crossbeam channel.
#[verifier::external_type_specification]
#[verifier::external_body]
#[verifier::reject_recursive_types(T)]
pub struct ExSender<T>(crossbeam::channel::Sender<T>);

/// The receiving end of a crossbeam channel.
#[verifier::external_type_specification]
#[verifier::external_body]
#[verifier::reject_recursive_types(T)]
pub struct ExReceiver<T>(crossbeam::channel::Receiver<T>);

/// The items that wait in a channel, the oldest first.
pub uninterp spec fn waiting(rx: Receiver<TransferItem>) -> Seq<TransferItem>;

/// Whether these are the only two ends of one channel for items.
pub uninterp spec fn paired(tx: Sender<TransferItem>, rx: Receiver<TransferItem>) -> bool;

/// Whether a command that is sent here arrives there.
pub uninterp spec fn feeds(tx: Sender<QueueCommand>, rx: Receiver<QueueCommand>) -> bool;

/// What the looks for a command at this end gave so far, the first look first:
/// each gave the oldest command that was sent there and not yet taken, or none.
pub uninterp spec fn looks_at(rx: Receiver<QueueCommand>) -> Seq<Option<QueueCommand>>;

/// A channel for items: `crossbeam::channel::unbounded`. It is empty, and its
/// two ends are the only ones.
#[verifier::external_body]
pub(crate) fn item_channel() -> (r: (Sender<TransferItem>, Receiver<TransferItem>))
    ensures
        paired(r.0, r.1),
        waiting(r.1) == Seq::<TransferItem>::empty(),
{
    crossbeam::channel::unbounded()
}

/// Sends an item: `Sender::send` of crossbeam. A channel without a bound takes
/// it at once, behind the items that wait, as long as a receiving end is left;
/// here the only one is borrowed for the call.
#[verifier::external_body]
pub(crate) fn send_item(
    tx: &mut Sender<TransferItem>,
    rx: &mut Receiver<TransferItem>,
    item: TransferItem,
) -> (sent: bool)
    requires
        paired(*old(tx), *old(rx)),
    ensures
        sent,
        paired(*final(tx), *final(rx)),
        waiting(*final(rx)) == waiting(*old(rx)).push(item),
{
    let _ = rx;
    tx.send(item).is_ok()
}

/// Takes the oldest item if one waits: `Receiver::try_recv` of crossbeam.
#[verifier::external_body]
pub(crate) fn try_recv_item(
    tx: &mut Sender<TransferItem>,
    rx: &mut Receiver<TransferItem>,
) -> (r: Option<TransferItem>)
    requires
        paired(*old(tx), *old(rx)),
    ensures
        paired(*final(tx), *final(rx)),
        r is Some <==> waiting(*old(rx)).len() > 0,
        r matches Some(item) ==> item == waiting(*old(rx))[0] && waiting(*final(rx)) == waiting(
            *old(rx),
        ).skip(1),
        r is None ==> waiting(*final(rx)) == waiting(*old(rx)),
{
    let _ = tx;
    rx.try_recv().ok()
}

/// Takes the oldest item: `Receiver::recv_timeout` of crossbeam. Where none
/// waits, none can come during the call, since the only sending end is
/// borrowed for it; the call then ends when the time is over.
#[verifier::external_body]
pub(crate) fn recv_item_timeout(
    tx: &mut Sender<TransferItem>,
    rx: &mut Receiver<TransferItem>,
    timeout_ms: u64,
) -> (r: Option<TransferItem>)
    requires
        paired(*old(tx), *old(rx)),
    ensures
        paired(*final(tx), *final(rx)),
        r is Some <==> waiting(*old(rx)).len() > 0,
        r matches Some(item) ==> item == waiting(*old(rx))[0] && waiting(*final(rx)) == waiting(
            *old(rx),
        ).skip(1),
        r is None ==> waiting(*final(rx)) == waiting(*old(rx)),
{
    let _ = tx;
    rx.recv_timeout(std::time::Duration::from_millis(timeout_ms)).ok()
}

/// A channel for commands: `crossbeam::channel::unbounded`. What is sent at its
/// one end arrives at the other, where no look was made yet.
#[verifier::external_body]
pub(crate) fn command_channel() -> (r: (Sender<QueueCommand>, Receiver<QueueCommand>))
    ensures
        feeds(r.0, r.1),
        looks_at(r.1) == Seq::<Option<QueueCommand>>::empty(),
{
    crossbeam::channel::unbounded()
}

/// One more sending end: `Sender::clone` of crossbeam. It sends to where the
/// first one does.
#[verifier::external_body]
pub(crate) fn clone_sender(tx: &Sender<QueueCommand>) -> (r: Sender<QueueCommand>)
    ensures
        forall|rx: Receiver<QueueCommand>| feeds(*tx, rx) ==> feeds(r, rx),
{
    tx.clone()
}

/// Takes the oldest command if one waits: `Receiver::try_recv` of crossbeam. What
/// is claimed is that the call is one look at this end, which gave the result, and
/// that those who send to this end still do. Whether a command waits, and which,
/// is left unsaid: any holder of a sending end may have sent one, and two calls
/// may differ.
#[verifier::external_body]
pub(crate) fn try_recv_queued_command(rx: &mut Receiver<QueueCommand>) -> (r: Option<QueueCommand>)
    ensures
        looks_at(*final(rx)) == looks_at(*old(rx)).push(r),
        forall|tx: Sender<QueueCommand>| feeds(tx, *old(rx)) ==> feeds(tx, *final(rx)),
{
    rx.try_recv().ok()
}

} // verus!
