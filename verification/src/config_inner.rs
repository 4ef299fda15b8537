use vstd::prelude::*;
use std::marker::PhantomData;
use crate::indexing_mode::IndexingMode;

verus! {

/// The per-vector part of a configuration: how elements are located.
#[derive(Debug)]
pub struct ConfigInner<T> {
    flavor: IndexingMode,
    _marker: PhantomData<T>,
}

impl<T> ConfigInner<T> {
    /// The indexing mode.
    pub closed spec fn flavor(&self) -> IndexingMode {
        self.flavor
    }

    /// A configuration with the given indexing mode.
    pub fn new(flavor: IndexingMode) -> (c: Self)
        ensures
            c.flavor() == flavor,
    {
        ConfigInner { flavor, _marker: PhantomData }
    }
}

impl<T> Default for ConfigInner<T> {
    fn default() -> (c: Self)
        ensures
            c.flavor() == IndexingMode::InsertionHeavy,
    {
        ConfigInner { flavor: IndexingMode::InsertionHeavy, _marker: PhantomData }
    }
}

} // verus!
