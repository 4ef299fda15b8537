use vstd::prelude::*;
use crate::indexing_mode::IndexingMode;
use crate::request_loop::WakeType;
pub use crate::config_inner::ConfigInner;

verus! {

/// How a vector and its workers run: how workers wait, how many threads
/// they may use, and the per-vector settings.
#[derive(Debug)]
pub struct Config<T> {
    loop_type: WakeType,
    max_thread_count: usize,
    inner: ConfigInner<T>,
}

impl<T> Config<T> {
    /// How workers wait for requests.
    pub closed spec fn loop_type(&self) -> WakeType {
        self.loop_type
    }

    /// The thread budget.
    pub closed spec fn max_thread_count(&self) -> usize {
        self.max_thread_count
    }

    /// The per-vector settings.
    pub closed spec fn inner(&self) -> ConfigInner<T> {
        self.inner
    }

    /// A configuration with the given indexing mode and wait strategy. The
    /// thread budget is the machine's available parallelism, which the
    /// caller measures and passes in; the requested `thread_count` is not
    /// used.
    pub fn new(
        thread_count: usize,
        flavor: IndexingMode,
        loop_type: WakeType,
        available_parallelism: usize,
    ) -> (c: Self)
        ensures
            c.loop_type() == loop_type,
            c.max_thread_count() == available_parallelism,
            c.inner().flavor() == flavor,
    {
        Config { loop_type, max_thread_count: available_parallelism, inner: ConfigInner::new(flavor) }
    }

    /// The default configuration: workers wait for requests, the thread
    /// budget is the machine's available parallelism (measured by the
    /// caller), and elements are located in insertion-heavy mode.
    pub fn with_parallelism(available_parallelism: usize) -> (c: Self)
        ensures
            c.loop_type() == WakeType::Request,
            c.max_thread_count() == available_parallelism,
            c.inner().flavor() == IndexingMode::InsertionHeavy,
    {
        Config {
            loop_type: WakeType::default(),
            max_thread_count: available_parallelism,
            inner: ConfigInner::default(),
        }
    }
}

} // verus!
