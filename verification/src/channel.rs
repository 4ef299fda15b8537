use vstd::prelude::*;
use crossbeam_channel::{Receiver, RecvError, Sender};

verus! {

/// Declares `crossbeam_channel::Sender`, carried through untouched.
#[verifier::external_type_specification]
#[verifier::external_body]
#[verifier::reject_recursive_types(T)]
pub struct ExSender<T>(Sender<T>);

/// Declares `crossbeam_channel::Receiver`, carried through untouched.
#[verifier::external_type_specification]
#[verifier::external_body]
#[verifier::reject_recursive_types(T)]
pub struct ExReceiver<T>(Receiver<T>);

/// Declares `crossbeam_channel::RecvError`, the error of a receive on a
/// channel that is empty and disconnected.
#[verifier::external_type_specification]
#[verifier::external_body]
pub struct ExRecvError(RecvError);

/// Calls `crossbeam_channel::unbounded`: a new channel of unbounded
/// capacity, as its two ends. Nothing is claimed of the ends.
#[verifier::external_body]
pub(crate) fn unbounded<U>() -> (Sender<U>, Receiver<U>) {
    crossbeam_channel::unbounded()
}

/// Calls `Sender::clone`: another sender for the same channel. The source
/// builds the clone from the same channel counter pointer in the same flavor
/// (only the shared sender count goes up), so the clone is claimed equal to
/// the original as a value. The source aborts the process if the sender count
/// passes `isize::MAX`; that count is not visible here and is left unsaid.
#[verifier::external_body]
pub(crate) fn clone_sender<U>(s: &Sender<U>) -> (c: Sender<U>)
    ensures
        c == *s,
{
    s.clone()
}

/// Calls `Sender::send`. Whether it succeeds depends on whether the
/// receiving end is still alive, so only this is claimed: on failure the
/// message comes back unchanged (the source hands it back inside
/// `SendError`). On a bounded or zero-capacity channel the call waits until
/// the channel can take the message.
#[verifier::external_body]
pub(crate) fn send<U>(s: &Sender<U>, msg: U) -> (r: Result<(), U>)
    ensures
        r matches Err(m) ==> m == msg,
{
    match s.send(msg) {
        Ok(()) => Ok(()),
        Err(e) => Err(e.0),
    }
}

/// Calls `Receiver::recv`, which waits for a message and fails once the
/// channel is empty and every sender is gone. What arrives depends on other
/// threads, so nothing is claimed of it; the call may also wait forever.
#[verifier::external_body]
pub(crate) fn recv<U>(r: &Receiver<U>) -> Result<U, RecvError> {
    r.recv()
}

} // verus!
