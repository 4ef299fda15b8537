use vstd::prelude::*;
use crossbeam_channel::{RecvError, Sender};
use crate::channel::{clone_sender, recv, send, unbounded};
use crate::commands::{IndexType, ReqOrder, RequestRequirements, TangledCommands};
use crate::worker::Worker;

verus! {

/// Why a request could not be delivered.
#[derive(Debug, Clone, Copy, PartialEq, Eq, Structural)]
pub enum WorkerError {
    /// The thread that owns the vector no longer listens.
    Disconnected,
}

/// The answer carried by a reply, or none when the reply channel failed.
pub fn handle_reply<V>(reply: Result<Option<V>, RecvError>) -> (r: Option<V>)
    ensures
        match reply {
            Ok(v) => r == v,
            Err(_) => r is None,
        },
{
    match reply {
        Ok(v) => v,
        Err(_) => None,
    }
}

/// What a read request comes to: `Disconnected` when it could not be sent,
/// otherwise the answer that `handle_reply` takes from the reply.
pub fn read_outcome<V>(delivery: Option<Result<Option<V>, RecvError>>) -> (r: Result<
    Option<V>,
    WorkerError,
>)
    ensures
        match delivery {
            None => r == Err::<Option<V>, WorkerError>(WorkerError::Disconnected),
            Some(Ok(v)) => r == Ok::<Option<V>, WorkerError>(v),
            Some(Err(_)) => r == Ok::<Option<V>, WorkerError>(None),
        },
{
    match delivery {
        None => Err(WorkerError::Disconnected),
        Some(reply) => Ok(handle_reply(reply)),
    }
}

/// What an append request comes to: `Disconnected` when it could not be
/// sent, otherwise success.
pub fn push_outcome(delivered: bool) -> (r: Result<(), WorkerError>)
    ensures
        delivered ==> r == Ok::<(), WorkerError>(()),
        !delivered ==> r == Err::<(), WorkerError>(WorkerError::Disconnected),
{
    if delivered {
        Ok(())
    } else {
        Err(WorkerError::Disconnected)
    }
}

/// The request for element `index`, answered through `reply`.
pub fn get_command<T>(index: usize, reply: Sender<Option<T>>) -> (c: TangledCommands<T>)
    ensures
        c matches TangledCommands::Get { request_requirements, index: i, reply: rp, order } && i
            == IndexType::Direct(index) && rp == reply && request_requirements
            == RequestRequirements::Nothing && order is Relaxed,
{
    TangledCommands::Get {
        index: IndexType::Direct(index),
        reply,
        request_requirements: RequestRequirements::Nothing,
        order: ReqOrder::Relaxed,
    }
}

/// The request to append `value`.
pub fn push_command<T>(value: T) -> (c: TangledCommands<T>)
    ensures
        c matches TangledCommands::Push { value: v, request_requirements, order } && v == value
            && request_requirements == RequestRequirements::Nothing && order is Relaxed,
{
    TangledCommands::Push {
        value,
        request_requirements: RequestRequirements::Nothing,
        order: ReqOrder::Relaxed,
    }
}

/// A worker lent out for reading.
#[verifier::reject_recursive_types(T)]
pub struct BorrowedWorker<'outer, T> {
    inner: &'outer Worker<T>,
}

impl<'outer, T> BorrowedWorker<'outer, T> {
    /// The worker behind the view.
    pub closed spec fn worker(&self) -> &'outer Worker<T> {
        self.inner
    }

    pub(crate) fn new(inner: &'outer Worker<T>) -> (b: Self)
        ensures
            b.worker() == inner,
    {
        BorrowedWorker { inner }
    }

    /// Another sender for the worker's request channel.
    pub(crate) fn get_sender(&self) -> (s: Sender<TangledCommands<T>>)
        ensures
            s == self.worker().target(),
    {
        proof {
            self.inner.lemma_target_is_field();
        }
        clone_sender(&self.inner.parent_receiver)
    }

    /// Asks the owning thread for element `index` and waits for the answer:
    /// `get_command(index, ..)` is sent with the sending end of a fresh reply
    /// channel, and the reply is read by `handle_reply`. A request that
    /// cannot be delivered gives `Err(Disconnected)`; the result is
    /// `read_outcome` of what happened. Whether the send succeeds and what the
    /// reply holds are up to the owning thread, so no more is stated.
    pub fn get(&self, index: usize) -> (r: Result<Option<T>, WorkerError>) {
        let sender = self.get_sender();
        let (tx, rx) = unbounded::<Option<T>>();
        let command = get_command(index, tx);
        let delivery = match send(&sender, command) {
            Ok(()) => Some(recv(&rx)),
            Err(_) => None,
        };
        read_outcome(delivery)
    }
}

/// A worker lent out for writing.
#[verifier::reject_recursive_types(T)]
pub struct MutBorrowedWorker<'outer, T> {
    inner: &'outer mut Worker<T>,
}

impl<'outer, T> MutBorrowedWorker<'outer, T> {
    /// The worker behind the view.
    pub closed spec fn worker(&self) -> Worker<T> {
        *self.inner
    }

    pub(crate) fn new(inner: &'outer mut Worker<T>) -> (b: Self)
        ensures
            b.worker() == *old(inner),
    {
        MutBorrowedWorker { inner }
    }

    /// Another sender for the worker's request channel.
    pub(crate) fn get_sender(&self) -> (s: Sender<TangledCommands<T>>)
        ensures
            s == self.worker().target(),
    {
        proof {
            self.inner.lemma_target_is_field();
        }
        clone_sender(&self.inner.parent_receiver)
    }

    /// Sends `push_command(value)` to the owning thread and then waits on a
    /// reply channel whose sending end has already been dropped, so the
    /// wait ends at once. The result is `push_outcome` of whether the
    /// request was delivered, which is up to the owning thread.
    pub fn push(&self, value: T) -> (r: Result<(), WorkerError>) {
        let sender = self.get_sender();
        let (_, rx) = unbounded::<Option<T>>();
        let command = push_command(value);
        let delivered = match send(&sender, command) {
            Ok(()) => {
                let _ = handle_reply(recv(&rx));
                true
            },
            Err(_) => false,
        };
        push_outcome(delivered)
    }
}

} // verus!
