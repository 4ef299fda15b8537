use vstd::prelude::*;
use crossbeam_channel::Sender;
use crate::borrow::{BorrowedWorker, MutBorrowedWorker};
use crate::commands::TangledCommands;

verus! {

/// A handle that another thread uses to send requests to the thread that
/// owns a vector.
#[verifier::reject_recursive_types(T)]
pub struct Worker<T> {
    pub(crate) parent_receiver: Sender<TangledCommands<T>>,
}

impl<T> Worker<T> {
    /// The channel requests go to.
    pub closed spec fn target(&self) -> Sender<TangledCommands<T>> {
        self.parent_receiver
    }

    /// The channel requests go to is the worker's own sender.
    pub(crate) proof fn lemma_target_is_field(&self)
        ensures
            self.target() == self.parent_receiver,
    {
    }

    /// A worker that sends its requests to `parent_receiver`.
    pub fn new(parent_receiver: Sender<TangledCommands<T>>) -> (w: Self)
        ensures
            w.target() == parent_receiver,
    {
        Worker { parent_receiver }
    }

    /// A view for reading.
    pub fn borrow(&self) -> (b: BorrowedWorker<'_, T>)
        ensures
            b.worker() == self,
    {
        BorrowedWorker::new(self)
    }

    /// A view for writing.
    pub fn borrow_mut(&mut self) -> (b: MutBorrowedWorker<'_, T>)
        ensures
            b.worker() == *old(self),
    {
        MutBorrowedWorker::new(self)
    }
}

} // verus!
