use vstd::prelude::*;
use std::collections::BTreeMap;
use crate::commands::IndexType;
use crate::indexing_mode::IndexingMode;
use crate::inner_vec::InnerVecWrapper;
use crate::tangled::sorted;

verus! {

/// The locating part of a `Tangled`: the chunk slots, one of two lookup
/// tables chosen by the indexing mode (a prefix vector when append-heavy,
/// an ordered map when insertion-heavy), and the number of chunks pushed.
#[derive(Debug)]
pub struct TangledIndex<T> {
    pointers: Vec<Option<InnerVecWrapper<T>>>,
    prefix_vec: (Option<Vec<usize>>, Option<BTreeMap<usize, usize>>),
    last_index: usize,
}

/// Binary search for `target` in a sorted vector: `Ok` with a position
/// holding `target` when there is one, `Err` with the position where it
/// would go otherwise.
fn binary_search(v: &Vec<usize>, target: usize) -> (r: Result<usize, usize>)
    requires
        sorted(v@),
    ensures
        match r {
            Ok(i) => i < v@.len() && v@[i as int] == target,
            Err(i) => i <= v@.len() && !v@.contains(target) && (forall|j: int|
                0 <= j < i ==> v@[j] < target) && (forall|j: int| i <= j < v@.len() ==> v@[j]
                > target),
        },
{
    let mut lo: usize = 0;
    let mut hi: usize = v.len();
    while lo < hi
        invariant
            0 <= lo <= hi <= v@.len(),
            sorted(v@),
            forall|j: int| 0 <= j < lo ==> v@[j] < target,
            forall|j: int| hi <= j < v@.len() ==> v@[j] > target,
        decreases hi - lo,
    {
        let mid = lo + (hi - lo) / 2;
        if v[mid] == target {
            return Ok(mid);
        } else if v[mid] < target {
            lo = mid + 1;
        } else {
            hi = mid;
        }
    }
    proof {
        assert forall|j: int| 0 <= j < v@.len() implies v@[j] != target by {
            if j < lo {
            } else {
            }
        }
    }
    Err(lo)
}

impl<T> TangledIndex<T> {
    /// The chunk slots.
    pub closed spec fn slot_count(&self) -> nat {
        self.pointers@.len()
    }

    /// The prefix vector, present in append-heavy mode.
    pub closed spec fn append_table(&self) -> Option<Seq<usize>> {
        match self.prefix_vec.0 {
            Some(v) => Some(v@),
            None => None,
        }
    }

    /// Whether the ordered map of insertion-heavy mode is present, and what
    /// it holds.
    pub closed spec fn insertion_table(&self) -> Option<Map<usize, usize>> {
        match self.prefix_vec.1 {
            Some(m) => Some(m@),
            None => None,
        }
    }

    /// The number of chunks pushed.
    pub closed spec fn last_index(&self) -> usize {
        self.last_index
    }

    /// An empty index with the lookup table that `indexing_mode` calls for.
    pub fn new(indexing_mode: IndexingMode) -> (t: Self)
        ensures
            t.slot_count() == 0,
            t.last_index() == 0,
            indexing_mode == IndexingMode::InsertionHeavy ==> t.append_table() is None
                && t.insertion_table() == Some(Map::<usize, usize>::empty()),
            indexing_mode == IndexingMode::AppendHeavy ==> t.append_table() == Some(
                Seq::<usize>::empty(),
            ) && t.insertion_table() is None,
    {
        TangledIndex {
            pointers: Vec::new(),
            prefix_vec: match indexing_mode {
                IndexingMode::InsertionHeavy => (None, Some(BTreeMap::new())),
                IndexingMode::AppendHeavy => (Some(Vec::new()), None),
            },
            last_index: 0,
        }
    }

    /// Installs `table` as the prefix vector (append-heavy lookup), leaving
    /// everything else as it was.
    pub fn set_append_table(&mut self, table: Vec<usize>)
        ensures
            final(self).append_table() == Some(table@),
            final(self).insertion_table() == old(self).insertion_table(),
            final(self).slot_count() == old(self).slot_count(),
            final(self).last_index() == old(self).last_index(),
    {
        self.prefix_vec.0 = Some(table);
    }

    /// The inputs on which `flat_to_indextype` is defined: append-heavy
    /// mode, and a prefix vector that is empty or sorted and holds `index`.
    pub open spec fn flat_defined(&self, index: usize) -> bool {
        &&& self.append_table() is Some
        &&& self.append_table()->0.len() > 0 ==> {
            &&& sorted(self.append_table()->0)
            &&& self.append_table()->0.contains(index)
        }
    }

    /// Splits a flat index through the prefix vector: `(Rough(k), Direct(d))`
    /// where `k` is a position of `index` in the prefix vector and `d` is
    /// `index` less the entry before it (`index` itself at position 0). An
    /// empty prefix vector gives `(Rough(0), Direct(index))`.
    pub fn flat_to_indextype(&self, index: usize) -> (r: (IndexType, IndexType))
        requires
            self.flat_defined(index),
        ensures
            ({
                let a = self.append_table()->0;
                &&& a.len() == 0 ==> r == (IndexType::Rough(0), IndexType::Direct(index))
                &&& a.len() > 0 ==> exists|k: int|
                    0 <= k < a.len() && #[trigger] a[k] == index && r == (
                        IndexType::Rough(k as usize),
                        IndexType::Direct(
                            if k == 0 {
                                index
                            } else {
                                (index - a[k - 1]) as usize
                            },
                        ),
                    )
            }),
    {
        match &self.prefix_vec.0 {
            Some(append) => {
                if append.len() > 0 {
                    let rough = match binary_search(append, index) {
                        Ok(i) => i,
                        Err(_) => {
                            proof {
                                assert(false);
                            }
                            0
                        },
                    };
                    let direct = if rough == 0 {
                        index
                    } else {
                        index - append[rough - 1]
                    };
                    (IndexType::Rough(rough), IndexType::Direct(direct))
                } else {
                    (IndexType::Rough(0), IndexType::Direct(index))
                }
            },
            None => {
                proof {
                    assert(false);
                }
                (IndexType::Rough(0), IndexType::Direct(index))
            },
        }
    }
}

} // verus!
