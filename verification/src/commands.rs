use vstd::prelude::*;
use std::time::Instant;
use crossbeam_channel::Sender;

verus! {

/// Declares `std::time::Instant`, which a strict request order carries
/// through untouched.
#[verifier::external_type_specification]
#[verifier::external_body]
pub struct ExInstant(Instant);

/// An index into a `Tangled`: `Rough` numbers a chunk, `Direct` an element.
#[derive(Debug, Clone, Copy, PartialEq, Eq, Structural)]
pub enum IndexType {
    Rough(usize),
    Direct(usize),
}

/// What a request asks the worker to work out before serving it.
#[derive(Debug, Clone, Copy, PartialEq, Eq, Structural)]
pub enum RequestRequirements {
    CalculateSelf,
    Nothing,
}

/// What can be worked out for a request.
#[derive(Debug, Clone, Copy, PartialEq, Eq, Structural)]
pub enum CalculateOptions {
    Index,
    Size,
}

/// Whether a request must be served in the order of its time stamp.
#[derive(Debug)]
pub enum ReqOrder {
    Strict(Instant),
    Relaxed,
}

/// A request sent to the thread that owns a vector.
#[verifier::reject_recursive_types(T)]
pub enum TangledCommands<T> {
    /// Read one element; the answer goes back through `reply`.
    Get {
        request_requirements: RequestRequirements,
        index: IndexType,
        reply: Sender<Option<T>>,
        order: ReqOrder,
    },
    /// Insert one element.
    Insert {
        request_requirements: RequestRequirements,
        index: IndexType,
        order: ReqOrder,
        value: T,
    },
    /// Resolve a rough and a direct index together.
    RawIndex(IndexType, IndexType),
    /// Read a whole chunk.
    GetVec(IndexType),
    /// Insert a whole chunk.
    InsertVec(IndexType),
    /// Drop a chunk.
    Drop(IndexType),
    /// Wait for all earlier requests.
    Sync,
    /// Append one element.
    Push { value: T, request_requirements: RequestRequirements, order: ReqOrder },
    /// Append a whole chunk.
    PushVec { value: Vec<T>, order: ReqOrder, request_requirements: RequestRequirements },
    /// Print the contents.
    PrintData,
}

} // verus!
