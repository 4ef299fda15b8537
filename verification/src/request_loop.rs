use vstd::prelude::*;

verus! {

/// How long a worker keeps spinning before it goes to sleep.
#[derive(Debug, Clone, Copy, PartialEq, Eq, Structural)]
pub enum SpinTime {
    Seconds(usize),
    Default,
}

/// How a worker waits for the next request.
#[derive(Debug, Clone, Copy, PartialEq, Eq, Structural)]
pub enum WakeType {
    ActiveSpin,
    SlowSpin,
    Request,
    RequestSpin(Option<SpinTime>),
}

impl Default for WakeType {
    fn default() -> (w: Self)
        ensures
            w == WakeType::Request,
    {
        WakeType::Request
    }
}

} // verus!
