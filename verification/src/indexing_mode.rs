use vstd::prelude::*;

verus! {

/// `AppendHeavy` locates elements through a prefix vector: O(1) append,
/// O(n) delete and insert. `InsertionHeavy` uses a rope-like ordered map:
/// O(log n) for append, insert and remove.
#[derive(Debug, Clone, Copy, PartialEq, Eq, Structural)]
pub enum IndexingMode {
    AppendHeavy,
    InsertionHeavy,
}

} // verus!
