use vstd::prelude::*;
use crossbeam_channel::{Receiver, Sender};
use crate::channel::unbounded;
use crate::commands::TangledCommands;
use crate::config_inner::ConfigInner;

verus! {

/// The state that the owning thread of a vector keeps: its elements, their
/// count, its own request channel, the channel of its parent, and its
/// settings.
#[verifier::reject_recursive_types(T)]
pub struct TangledInner<T> {
    data: Vec<T>,
    total_elements: usize,
    pub(crate) sender: Sender<TangledCommands<T>>,
    pub(crate) parent_receiver: Sender<TangledCommands<T>>,
    pub(crate) receiver: Receiver<TangledCommands<T>>,
    per_config: ConfigInner<T>,
}

impl<T> TangledInner<T> {
    /// The elements the owning thread holds.
    pub closed spec fn data(&self) -> Seq<T> {
        self.data@
    }

    /// The recorded element count.
    pub closed spec fn total(&self) -> usize {
        self.total_elements
    }

    /// The settings.
    pub closed spec fn config(&self) -> ConfigInner<T> {
        self.per_config
    }

    /// The channel of the parent.
    pub closed spec fn parent_sender(&self) -> Sender<TangledCommands<T>> {
        self.parent_receiver
    }

    /// Empty state with a fresh request channel of its own, answering to
    /// `send_to`.
    pub fn new(per_config: ConfigInner<T>, send_to: Sender<TangledCommands<T>>) -> (t: Self)
        ensures
            t.data() == Seq::<T>::empty(),
            t.total() == 0,
            t.config() == per_config,
            t.parent_sender() == send_to,
    {
        let (sender, receiver) = unbounded();
        TangledInner {
            data: Vec::new(),
            sender,
            receiver,
            parent_receiver: send_to,
            total_elements: 0,
            per_config,
        }
    }
}

} // verus!
