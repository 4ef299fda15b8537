use vstd::prelude::*;
use std::collections::HashMap;
use crate::inner_vec::{InnerVecWrapper, chunk_address};
use std::marker::PhantomData;
pub use crate::borrow_state::BorrowState;

verus! {

broadcast use vstd::std_specs::hash::group_hash_axioms;

/// The length of the longest prefix of `s` whose elements are all below `t`.
pub open spec fn count_below(s: Seq<usize>, t: int) -> nat
    decreases s.len(),
{
    if s.len() == 0 {
        0
    } else if s[0] < t {
        1 + count_below(s.drop_first(), t)
    } else {
        0
    }
}

/// `s` is partitioned by the predicate "below `t`": every element below `t`
/// comes before every element that is not.
pub open spec fn partitioned_below(s: Seq<usize>, t: int) -> bool {
    forall|i: int, j: int| 0 <= i <= j < s.len() && s[j] < t ==> s[i] < t
}

/// `s` never decreases.
pub open spec fn sorted(s: Seq<usize>) -> bool {
    forall|i: int, j: int| 0 <= i <= j < s.len() ==> s[i] <= s[j]
}

/// Everything before `count_below(s, t)` is below `t`, and the element at
/// that position, if any, is not.
pub proof fn lemma_count_below(s: Seq<usize>, t: int)
    ensures
        count_below(s, t) <= s.len(),
        forall|i: int| 0 <= i < count_below(s, t) ==> s[i] < t,
        count_below(s, t) < s.len() ==> s[count_below(s, t) as int] >= t,
    decreases s.len(),
{
    if s.len() > 0 && s[0] < t {
        lemma_count_below(s.drop_first(), t);
        assert forall|i: int| 0 <= i < count_below(s, t) implies s[i] < t by {
            if i > 0 {
                assert(s[i] == s.drop_first()[i - 1]);
            }
        }
    }
}

/// A position `r` with everything before it below `t` and the element at it
/// (if any) not below `t` is exactly `count_below(s, t)`.
pub proof fn lemma_count_below_unique(s: Seq<usize>, t: int, r: int)
    requires
        0 <= r <= s.len(),
        forall|i: int| 0 <= i < r ==> s[i] < t,
        r < s.len() ==> s[r] >= t,
    ensures
        count_below(s, t) == r,
    decreases s.len(),
{
    if s.len() > 0 && r > 0 {
        let d = s.drop_first();
        assert forall|i: int| 0 <= i < r - 1 implies d[i] < t by {
            assert(d[i] == s[i + 1]);
        }
        if r - 1 < d.len() {
            assert(d[r - 1] == s[r]);
        }
        lemma_count_below_unique(d, t, r - 1);
    }
}

/// A sorted sequence is partitioned by every threshold.
pub proof fn lemma_sorted_partitioned(s: Seq<usize>, t: int)
    requires
        sorted(s),
    ensures
        partitioned_below(s, t),
{
}

/// Binary search for the first position whose element is not below
/// `target`, on a vector that is partitioned by that predicate.
fn partition_point(v: &Vec<usize>, target: usize) -> (r: usize)
    requires
        partitioned_below(v@, target as int),
    ensures
        r == count_below(v@, target as int),
{
    let mut lo: usize = 0;
    let mut hi: usize = v.len();
    while lo < hi
        invariant
            0 <= lo <= hi <= v@.len(),
            partitioned_below(v@, target as int),
            forall|i: int| 0 <= i < lo ==> v@[i] < target,
            forall|j: int| hi <= j < v@.len() ==> v@[j] >= target,
        decreases hi - lo,
    {
        let mid = lo + (hi - lo) / 2;
        if v[mid] < target {
            lo = mid + 1;
        } else {
            hi = mid;
        }
    }
    proof {
        lemma_count_below_unique(v@, target as int, lo as int);
    }
    lo
}

/// The slots `0 .. keys.len()` ordered by their keys (selection sort; the
/// order among equal keys is not stated).
fn sort_slots_by_key(keys: &Vec<usize>) -> (order: Vec<usize>)
    ensures
        order@.len() == keys@.len(),
        forall|i: int| 0 <= i < order@.len() ==> #[trigger] order@[i] < keys@.len(),
        forall|i: int, j: int| 0 <= i < j < order@.len() ==> order@[i] != order@[j],
        forall|i: int, j: int|
            0 <= i <= j < order@.len() ==> keys@[order@[i] as int] <= keys@[order@[j] as int],
{
    let n = keys.len();
    let mut order: Vec<usize> = Vec::new();
    let mut i: usize = 0;
    while i < n
        invariant
            n == keys@.len(),
            0 <= i <= n,
            order@ == Seq::new(i as nat, |k: int| k as usize),
        decreases n - i,
    {
        order.push(i);
        proof {
            assert(order@ =~= Seq::new((i + 1) as nat, |k: int| k as usize));
        }
        i = i + 1;
    }
    let mut s: usize = 0;
    while s < n
        invariant
            n == keys@.len(),
            order@.len() == n,
            0 <= s <= n,
            forall|a: int| 0 <= a < n ==> #[trigger] order@[a] < n,
            forall|a: int, b: int| 0 <= a < b < n ==> order@[a] != order@[b],
            forall|a: int, b: int|
                0 <= a <= b < s ==> keys@[order@[a] as int] <= keys@[order@[b] as int],
            forall|a: int, b: int|
                0 <= a < s <= b < n ==> keys@[order@[a] as int] <= keys@[order@[b] as int],
        decreases n - s,
    {
        let mut m: usize = s;
        let mut j: usize = s + 1;
        while j < n
            invariant
                n == keys@.len(),
                order@.len() == n,
                s < n,
                s <= m < n,
                s < j <= n,
                forall|a: int| 0 <= a < n ==> #[trigger] order@[a] < n,
                forall|b: int| s <= b < j ==> keys@[order@[m as int] as int] <= keys@[order@[b] as int],
            decreases n - j,
        {
            if keys[order[j]] < keys[order[m]] {
                m = j;
            }
            j = j + 1;
        }
        let a = order[s];
        let b = order[m];
        order.set(s, b);
        order.set(m, a);
        s = s + 1;
    }
    order
}

/// A vector made of a fast-access front buffer (`cached`) followed by
/// separately owned chunks. `prefix_vec[k]` records the running element
/// count up to and including chunk `k` (chunk `k` lives in slot `k - 1`
/// of `pointers`), and `borrow_state` keeps, for each registered chunk
/// slot, how it is lent out and the slot it belongs to.
#[derive(Debug)]
pub struct Tangled<T> {
    cached: Vec<T>,
    borrow_state: HashMap<usize, (BorrowState, usize)>,
    last_index: usize,
    total_elements: usize,
    pointers: Vec<Option<InnerVecWrapper<T>>>,
    prefix_vec: Vec<usize>,
}

impl<T> Tangled<T> {
    /// The front buffer.
    pub closed spec fn cached_seq(&self) -> Seq<T> {
        self.cached@
    }

    /// The chunk slots; `None` marks a slot whose chunk was dropped.
    pub closed spec fn chunks(&self) -> Seq<Option<Seq<T>>> {
        self.pointers@.map_values(
            |o: Option<InnerVecWrapper<T>>|
                match o {
                    Some(w) => Some(w@),
                    None => None,
                },
        )
    }

    /// The running element counts.
    pub closed spec fn prefix(&self) -> Seq<usize> {
        self.prefix_vec@
    }

    /// The borrow table, keyed by chunk slot.
    pub closed spec fn borrows(&self) -> Map<usize, (BorrowState, usize)> {
        self.borrow_state@
    }

    /// The recorded number of elements.
    pub closed spec fn total(&self) -> usize {
        self.total_elements
    }

    /// The number of chunks registered so far.
    pub closed spec fn last_index_spec(&self) -> usize {
        self.last_index
    }

    /// `self` and `other` agree on every part of the model.
    pub open spec fn same_view(&self, other: Self) -> bool {
        &&& self.cached_seq() == other.cached_seq()
        &&& self.chunks() == other.chunks()
        &&& self.prefix() == other.prefix()
        &&& self.borrows() == other.borrows()
        &&& self.total() == other.total()
        &&& self.last_index_spec() == other.last_index_spec()
    }

    /// Structural well-formedness, kept by every operation: one prefix entry
    /// per chunk slot plus one for the front buffer, the first entry counts
    /// the front buffer, every slot ever pushed is counted by `last_index`,
    /// and every borrow entry names its own, existing slot.
    pub closed spec fn wf(&self) -> bool {
        &&& self.prefix_vec@.len() == self.pointers@.len() + 1
        &&& self.prefix_vec@[0] == self.cached@.len()
        &&& self.last_index == self.pointers@.len()
        &&& forall|k: usize| #[trigger]
            self.borrow_state@.contains_key(k) ==> self.borrow_state@[k].1 == k && k
                < self.pointers@.len()
    }

    /// What well-formedness says in terms of the model.
    pub proof fn lemma_wf_shape(&self)
        requires
            self.wf(),
        ensures
            self.prefix().len() == self.chunks().len() + 1,
            self.prefix()[0] == self.cached_seq().len(),
            self.last_index_spec() == self.chunks().len(),
            forall|k: usize| #[trigger]
                self.borrows().contains_key(k) ==> self.borrows()[k].1 == k && k
                    < self.chunks().len(),
    {
    }

    /// An empty vector.
    pub fn new() -> (t: Tangled<T>)
        ensures
            t.wf(),
            t.cached_seq() == Seq::<T>::empty(),
            t.chunks() == Seq::<Option<Seq<T>>>::empty(),
            t.prefix() == seq![0usize],
            t.borrows() == Map::<usize, (BorrowState, usize)>::empty(),
            t.total() == 0,
    {
        let t = Tangled {
            cached: Vec::new(),
            borrow_state: HashMap::new(),
            last_index: 0,
            total_elements: 0,
            pointers: Vec::new(),
            prefix_vec: vec![0],
        };
        proof {
            assert(t.chunks() =~= Seq::<Option<Seq<T>>>::empty());
        }
        t
    }

    /// A vector whose front buffer is `v`.
    pub fn from(v: Vec<T>) -> (t: Tangled<T>)
        ensures
            t.wf(),
            t.cached_seq() == v@,
            t.chunks() == Seq::<Option<Seq<T>>>::empty(),
            t.prefix() == seq![v@.len() as usize],
            t.borrows() == Map::<usize, (BorrowState, usize)>::empty(),
            t.total() == v@.len(),
    {
        let len = v.len();
        let t = Tangled {
            cached: v,
            borrow_state: HashMap::new(),
            last_index: 0,
            total_elements: len,
            pointers: Vec::new(),
            prefix_vec: vec![len],
        };
        proof {
            assert(t.chunks() =~= Seq::<Option<Seq<T>>>::empty());
        }
        t
    }

    /// The recorded number of elements.
    pub fn len(&self) -> (n: usize)
        ensures
            n == self.total(),
    {
        self.total_elements
    }

    /// Appends to the front buffer. Only the first prefix entry follows;
    /// the recorded element count does not change.
    pub fn push_fast(&mut self, val: T)
        requires
            old(self).wf(),
        ensures
            final(self).wf(),
            final(self).cached_seq() == old(self).cached_seq().push(val),
            final(self).prefix() == old(self).prefix().update(
                0,
                (old(self).prefix()[0] + 1) as usize,
            ),
            final(self).chunks() == old(self).chunks(),
            final(self).borrows() == old(self).borrows(),
            final(self).total() == old(self).total(),
            final(self).last_index_spec() == old(self).last_index_spec(),
    {
        self.cached.push(val);
        let n = self.cached.len();
        self.prefix_vec.set(0, n);
    }

    /// Removes the last element of the front buffer, if there is one.
    pub fn pop_fast(&mut self) -> (popped: Option<T>)
        requires
            old(self).wf(),
        ensures
            final(self).wf(),
            old(self).cached_seq().len() == 0 ==> popped is None && final(self).same_view(*old(self)),
            old(self).cached_seq().len() > 0 ==> {
                &&& popped == Some(old(self).cached_seq().last())
                &&& final(self).cached_seq() == old(self).cached_seq().drop_last()
                &&& final(self).prefix() == old(self).prefix().update(
                    0,
                    (old(self).prefix()[0] - 1) as usize,
                )
                &&& final(self).chunks() == old(self).chunks()
                &&& final(self).borrows() == old(self).borrows()
                &&& final(self).total() == old(self).total()
                &&& final(self).last_index_spec() == old(self).last_index_spec()
            },
    {
        let popped = self.cached.pop();
        match popped {
            Some(v) => {
                let n = self.cached.len();
                self.prefix_vec.set(0, n);
                Some(v)
            },
            None => None,
        }
    }

    /// The inputs on which `convert_index` is defined: a front-buffer
    /// index, the one-past-the-end index, or an index whose successor the
    /// prefix table is partitioned by and whose chunk number stays below the
    /// recorded element count.
    pub open spec fn convert_index_defined(&self, index: usize) -> bool {
        ||| index < self.cached_seq().len()
        ||| index == self.total()
        ||| {
            &&& index < usize::MAX
            &&& partitioned_below(self.prefix(), index + 1)
            &&& count_below(self.prefix(), index + 1) < self.total()
        }
    }

    /// What `convert_index` returns: `(index, 0)` inside the front buffer,
    /// nothing at the recorded end, and otherwise `(offset, k)` where `k` is
    /// the first prefix entry above `index` and `offset` is `index` less the
    /// entry before it.
    pub open spec fn converted_index(&self, index: usize) -> Option<(usize, usize)> {
        if index < self.cached_seq().len() {
            Some((index, 0))
        } else if index == self.total() {
            None
        } else {
            let rough = count_below(self.prefix(), index + 1);
            let offset = if rough == 0 {
                index as int
            } else {
                index - self.prefix()[rough - 1]
            };
            Some((offset as usize, rough as usize))
        }
    }

    /// Splits a flat index into an offset and a chunk number.
    pub fn convert_index(&self, index: usize) -> (r: Option<(usize, usize)>)
        requires
            self.wf(),
            self.convert_index_defined(index),
        ensures
            r == self.converted_index(index),
    {
        if index < self.cached.len() {
            return Some((index, 0));
        }
        if index == self.total_elements {
            return None;
        }
        let target = index + 1;
        let rough_index = partition_point(&self.prefix_vec, target);
        proof {
            lemma_count_below(self.prefix_vec@, target as int);
        }
        let offset = if rough_index == 0 {
            index
        } else {
            index - self.prefix_vec[rough_index - 1]
        };
        Some((offset, rough_index))
    }
}


/// A shared view of a `Tangled`. Lending through it does not write the
/// loan into the borrow table.
pub struct BorrowedTangled<'t, T> {
    inner: &'t Tangled<T>,
}

/// An exclusive view of a `Tangled`.
pub struct MutBorrowedTangled<'t, T> {
    inner: &'t mut Tangled<T>,
}

impl<T> Tangled<T> {
    /// A shared view.
    pub fn borrow(&self) -> (b: BorrowedTangled<'_, T>)
        ensures
            *b.parent() == *self,
    {
        BorrowedTangled { inner: self }
    }

    /// An exclusive view. With `group_view_resolution` in scope, once the
    /// view is used no more the vector holds what the view last held.
    pub fn borrow_mut(&mut self) -> (b: MutBorrowedTangled<'_, T>)
        ensures
            b.parent() == *old(self),
            *final(b.inner_ref()) == *final(self),
    {
        MutBorrowedTangled { inner: self }
    }
}

impl<T> Tangled<T> {
    /// The element at the offset that `convert_index` gives for `index`,
    /// taken in the chunk of slot `slot`, if that slot holds a chunk long
    /// enough.
    pub open spec fn slot_element(&self, slot: usize, index: usize) -> Option<T> {
        match self.converted_index(index) {
            None => None,
            Some((in_vec, _)) => if slot < self.chunks().len() {
                match self.chunks()[slot as int] {
                    Some(c) => if in_vec < c.len() {
                        Some(c[in_vec as int])
                    } else {
                        None
                    },
                    None => None,
                }
            } else {
                None
            },
        }
    }

    /// The slot that position `(small, big)` addresses: slot 0 for `big`
    /// 0 or 1, slot `big` otherwise.
    pub open spec fn indexed_slot(big: usize) -> int {
        if big == 1 {
            0
        } else {
            big as int
        }
    }

    /// Position `(small, big)` addresses the front buffer when `big` is 0 and
    /// `small` is at most the front buffer's length.
    pub open spec fn indexes_front(&self, small: usize, big: usize) -> bool {
        big == 0 && small <= self.cached_seq().len()
    }

    /// The inputs on which indexing by `(small, big)` is defined.
    pub open spec fn index_defined(&self, small: usize, big: usize) -> bool {
        if self.indexes_front(small, big) {
            small < self.cached_seq().len()
        } else {
            let slot = Self::indexed_slot(big);
            &&& slot < self.chunks().len()
            &&& self.chunks()[slot] is Some
            &&& small < self.chunks()[slot]->0.len()
        }
    }

    /// The element that indexing by `(small, big)` reaches.
    pub open spec fn indexed(&self, small: usize, big: usize) -> T {
        if self.indexes_front(small, big) {
            self.cached_seq()[small as int]
        } else {
            self.chunks()[Self::indexed_slot(big)]->0[small as int]
        }
    }

    /// Shared indexing by `(small, big)`.
    fn index_at(&self, small: usize, big: usize) -> (r: &T)
        requires
            self.wf(),
            self.index_defined(small, big),
        ensures
            *r == self.indexed(small, big),
    {
        if big == 0 && small <= self.cached.len() {
            &self.cached[small]
        } else {
            let slot = if big == 1 { 0 } else { big };
            match &self.pointers[slot] {
                Some(chunk) => chunk.at(small),
                None => {
                    proof {
                        assert(false);
                    }
                    &self.cached[0]
                },
            }
        }
    }

    /// The chunk slots after the element at `(small, big)` is set to `v`
    /// (unchanged when the position is in the front buffer).
    pub open spec fn chunks_after_index_write(&self, small: usize, big: usize, v: T) -> Seq<
        Option<Seq<T>>,
    > {
        if self.indexes_front(small, big) {
            self.chunks()
        } else {
            let slot = Self::indexed_slot(big);
            self.chunks().update(slot, Some(self.chunks()[slot]->0.update(small as int, v)))
        }
    }

    /// The front buffer after the element at `(small, big)` is set to `v`
    /// (unchanged when the position is in a chunk).
    pub open spec fn cached_after_index_write(&self, small: usize, big: usize, v: T) -> Seq<T> {
        if self.indexes_front(small, big) {
            self.cached_seq().update(small as int, v)
        } else {
            self.cached_seq()
        }
    }

    /// Exclusive indexing by `(small, big)`.
    fn index_mut_at(&mut self, small: usize, big: usize) -> (r: &mut T)
        requires
            old(self).wf(),
            old(self).index_defined(small, big),
        ensures
            *r == old(self).indexed(small, big),
            final(self).wf(),
            final(self).cached_seq() == old(self).cached_after_index_write(small, big, *final(r)),
            final(self).chunks() == old(self).chunks_after_index_write(small, big, *final(r)),
            final(self).prefix() == old(self).prefix(),
            final(self).borrows() == old(self).borrows(),
            final(self).total() == old(self).total(),
            final(self).last_index_spec() == old(self).last_index_spec(),
    {
        if big == 0 && small <= self.cached.len() {
            &mut self.cached[small]
        } else {
            let slot = if big == 1 { 0 } else { big };
            match &mut self.pointers[slot] {
                Some(chunk) => chunk.at_mut(small),
                None => {
                    proof {
                        assert(false);
                    }
                    &mut self.cached[0]
                },
            }
        }
    }

    /// The inputs on which the shared `read` is defined.
    pub open spec fn shared_read_defined(&self, index: usize) -> bool {
        index >= self.cached_seq().len() ==> {
            let rest = (index - self.cached_seq().len()) as usize;
            &&& self.convert_index_defined(rest)
            &&& self.converted_index(rest) matches Some((offset, rough)) ==> {
                &&& rough < self.chunks().len() ==> {
                    &&& self.chunks()[rough as int] is Some
                    &&& self.borrows().contains_key(rough)
                    &&& self.borrows()[rough].0 matches BorrowState::Shared(count)
                    &&& count < usize::MAX
                }
                &&& self.convert_index_defined(offset)
            }
        }
    }

    /// What the shared `read` returns: a front-buffer element, or else,
    /// with `rest` the index less the front buffer's length and
    /// `(offset, k) = convert_index(rest)`, the element that a handle on slot
    /// `k` finds for `offset`.
    pub open spec fn shared_read_target(&self, index: usize) -> Option<T> {
        if index < self.cached_seq().len() {
            Some(self.cached_seq()[index as int])
        } else {
            let rest = (index - self.cached_seq().len()) as usize;
            match self.converted_index(rest) {
                None => None,
                Some((offset, rough)) => if rough < self.chunks().len() {
                    self.slot_element(rough, offset)
                } else {
                    None
                },
            }
        }
    }
}

impl<'t, T> BorrowedTangled<'t, T> {
    /// The vector behind the view.
    pub closed spec fn parent(&self) -> &'t Tangled<T> {
        self.inner
    }

    /// The element at `small` in the chunk of slot `big - 1`.
    fn get_ref(&self, index: (usize, usize)) -> (r: Option<&'t T>)
        requires
            self.parent().wf(),
            1 <= index.1 <= self.parent().chunks().len(),
            self.parent().chunks()[index.1 - 1] is Some,
        ensures
            ({
                let c = self.parent().chunks()[index.1 - 1]->0;
                &&& index.0 < c.len() ==> r == Some(&c[index.0 as int])
                &&& index.0 >= c.len() ==> r is None
            }),
    {
        let small = index.0;
        let big = index.1;
        match &self.inner.pointers[big - 1] {
            Some(chunk) => chunk.get(small),
            None => {
                proof {
                    assert(false);
                }
                None
            },
        }
    }

    /// The handle that lending slot `index` out shared would give: its
    /// count one above the borrow table's. The table itself is not written
    /// through a shared view.
    fn get_handle<'h>(&self, index: usize) -> (r: Option<RefHandle<'h, T>>)
        requires
            self.parent().wf(),
            index < self.parent().chunks().len() ==> {
                &&& self.parent().chunks()[index as int] is Some
                &&& self.parent().borrows().contains_key(index)
                &&& self.parent().borrows()[index].0 matches BorrowState::Shared(count)
                &&& count < usize::MAX
            },
        ensures
            index >= self.parent().chunks().len() ==> r is None,
            index < self.parent().chunks().len() ==> (r matches Some(h) && h.slot() == index
                && h.state() == BorrowState::Shared(
                (self.parent().borrows()[index].0->Shared_0 + 1) as usize,
            )),
    {
        if index >= self.inner.pointers.len() {
            return None;
        }
        let borrow_count = match self.inner.borrow_state.get(&index) {
            Some(entry) => match entry.0 {
                BorrowState::Shared(count) => count,
                _ => {
                    proof {
                        assert(false);
                    }
                    0
                },
            },
            None => {
                proof {
                    assert(false);
                }
                0
            },
        };
        Some(
            RefHandle {
                ptr: index,
                state: BorrowState::Shared(borrow_count + 1),
                _marker: PhantomData,
            },
        )
    }

    /// The chunk element behind a flat index (see `Tangled::get_raw`).
    pub fn read_unchecked(&self, index: usize) -> (r: Option<&'t T>)
        requires
            self.parent().wf(),
            self.parent().raw_defined(index),
        ensures
            match r {
                Some(v) => self.parent().raw_target(index) == Some(*v),
                None => self.parent().raw_target(index) is None,
            },
    {
        self.inner.get_raw(index)
    }

    /// Reads a front-buffer element directly; past the front buffer, takes
    /// the index less the front buffer's length through `convert_index` and
    /// reads the resulting offset through a handle on the slot numbered by
    /// the resulting chunk number.
    pub fn read(&self, index: usize) -> (r: Option<&'t T>)
        requires
            self.parent().wf(),
            self.parent().shared_read_defined(index),
        ensures
            match r {
                Some(v) => self.parent().shared_read_target(index) == Some(*v),
                None => self.parent().shared_read_target(index) is None,
            },
    {
        let len = self.inner.cached.len();
        if index < len {
            return Some(&self.inner.cached[index]);
        }
        let index = index - len;
        let (offset, rough_index) = match self.inner.convert_index(index) {
            Some(p) => p,
            None => return None,
        };
        match self.get_handle(rough_index) {
            Some(handle) => handle.get_element(self.inner, offset),
            None => None,
        }
    }

    /// The element at position `(small, big)`: the front buffer when `big`
    /// is 0 and `small` is at most its length, otherwise the chunk in slot 0
    /// (for `big` 1) or slot `big`.
    pub fn index(&self, index: (usize, usize)) -> (r: &'t T)
        requires
            self.parent().wf(),
            self.parent().index_defined(index.0, index.1),
        ensures
            *r == self.parent().indexed(index.0, index.1),
    {
        self.inner.index_at(index.0, index.1)
    }
}

impl<'t, T> MutBorrowedTangled<'t, T> {
    /// The vector behind the view, as it currently stands.
    pub closed spec fn parent(&self) -> Tangled<T> {
        *self.inner
    }

    /// Once the view is used no more, the vector it was made from holds what
    /// the view last held.
    /// The exclusive reference behind the view; its final value is what the
    /// vector holds once the view is done.
    pub closed spec fn inner_ref(&self) -> &'t mut Tangled<T> {
        self.inner
    }

}


impl<T> Tangled<T> {
    /// The chunk registered under `ptr` may be dropped: it is held
    /// exclusively or shared with no borrowers.
    pub open spec fn droppable(&self, ptr: usize) -> bool {
        &&& self.borrows().contains_key(ptr)
        &&& (self.borrows()[ptr].0 == BorrowState::Exclusive || self.borrows()[ptr].0
            == BorrowState::Shared(0))
    }

    /// The inputs on which `get_raw` is defined: `convert_index` is, and a
    /// result `(offset, k)` names an existing slot `k - 1` whose chunk, when
    /// present, holds `offset`.
    pub open spec fn raw_defined(&self, index: usize) -> bool {
        &&& self.convert_index_defined(index)
        &&& match self.converted_index(index) {
            None => true,
            Some((offset, rough)) => {
                &&& 1 <= rough
                &&& rough - 1 < self.chunks().len()
                &&& (self.chunks()[rough - 1] matches Some(c) ==> offset < c.len())
            },
        }
    }

    /// The element that `get_raw` reaches: chunk `k - 1` at `offset`, or
    /// nothing when the index is the recorded end or that chunk was dropped.
    pub open spec fn raw_target(&self, index: usize) -> Option<T> {
        match self.converted_index(index) {
            None => None,
            Some((offset, rough)) => match self.chunks()[rough - 1] {
                Some(c) => Some(c[offset as int]),
                None => None,
            },
        }
    }

    /// The chunk slots after the element that `get_raw` reaches is set to
    /// `val` (unchanged when there is no such element).
    pub open spec fn chunks_after_write(&self, index: usize, val: T) -> Seq<Option<Seq<T>>> {
        match self.converted_index(index) {
            None => self.chunks(),
            Some((offset, rough)) => match self.chunks()[rough - 1] {
                Some(c) => self.chunks().update(rough - 1, Some(c.update(offset as int, val))),
                None => self.chunks(),
            },
        }
    }

    /// The chunk element behind a flat index, located through the prefix
    /// table.
    pub fn get_raw(&self, index: usize) -> (r: Option<&T>)
        requires
            self.wf(),
            self.raw_defined(index),
        ensures
            match r {
                Some(v) => self.raw_target(index) == Some(*v),
                None => self.raw_target(index) is None,
            },
    {
        let (offset, rough_index) = match self.convert_index(index) {
            Some(p) => p,
            None => return None,
        };
        match &self.pointers[rough_index - 1] {
            Some(chunk) => Some(chunk.at(offset)),
            None => None,
        }
    }

    /// What the vector shows when displayed: the front buffer, then each
    /// chunk slot (`None` for a dropped chunk).
    pub fn display_parts(&self) -> (parts: Vec<Option<&Vec<T>>>)
        requires
            self.wf(),
        ensures
            parts@.len() == self.chunks().len() + 1,
            parts@[0] matches Some(c) && c@ == self.cached_seq(),
            forall|k: int|
                0 <= k < self.chunks().len() ==> match #[trigger] self.chunks()[k] {
                    Some(c) => parts@[k + 1] matches Some(v) && v@ == c,
                    None => parts@[k + 1] is None,
                },
    {
        let mut display_vec: Vec<Option<&Vec<T>>> = Vec::new();
        display_vec.push(Some(&self.cached));
        let mut i: usize = 0;
        while i < self.pointers.len()
            invariant
                0 <= i <= self.pointers@.len(),
                display_vec@.len() == i + 1,
                display_vec@[0] matches Some(c) && c@ == self.cached@,
                forall|k: int|
                    0 <= k < i ==> match #[trigger] self.chunks()[k] {
                        Some(c) => display_vec@[k + 1] matches Some(v) && v@ == c,
                        None => display_vec@[k + 1] is None,
                    },
            decreases self.pointers@.len() - i,
        {
            match &self.pointers[i] {
                Some(chunk) => display_vec.push(Some(chunk.as_vec())),
                None => display_vec.push(None),
            }
            i = i + 1;
        }
        display_vec
    }

    /// Wraps `vec` as a chunk that can be placed in a slot.
    pub fn vec_to_ptr(&self, vec: Vec<T>) -> (w: InnerVecWrapper<T>)
        ensures
            w@ == vec@,
    {
        InnerVecWrapper::new(vec)
    }
}

/// A handle on one chunk slot of a `Tangled`, recording how it was lent
/// out. It gives the chunk back only when `release` is called on it; going
/// out of scope does nothing to the vector.
#[derive(Debug)]
pub struct RefHandle<'a, T> {
    ptr: usize,
    state: BorrowState,
    _marker: PhantomData<&'a Tangled<T>>,
}

impl<'a, T> RefHandle<'a, T> {
    /// The chunk slot the handle refers to.
    pub closed spec fn slot(&self) -> usize {
        self.ptr
    }

    /// How the handle holds its chunk.
    pub closed spec fn state(&self) -> BorrowState {
        self.state
    }
}

impl<'t, T> MutBorrowedTangled<'t, T> {
    /// The element at position `(small, big)` (see `BorrowedTangled::index`).
    pub fn index(&self, index: (usize, usize)) -> (r: &T)
        requires
            self.parent().wf(),
            self.parent().index_defined(index.0, index.1),
        ensures
            *r == self.parent().indexed(index.0, index.1),
    {
        self.inner.index_at(index.0, index.1)
    }

    /// The element at position `(small, big)`, to be written through.
    pub fn index_mut(&mut self, index: (usize, usize)) -> (r: &mut T)
        requires
            old(self).parent().wf(),
            old(self).parent().index_defined(index.0, index.1),
        ensures
            *r == old(self).parent().indexed(index.0, index.1),
            final(self).parent().wf(),
            *final(final(self).inner_ref()) == *final(old(self).inner_ref()),
            final(self).parent().cached_seq() == old(self).parent().cached_after_index_write(
                index.0,
                index.1,
                *final(r),
            ),
            final(self).parent().chunks() == old(self).parent().chunks_after_index_write(
                index.0,
                index.1,
                *final(r),
            ),
            final(self).parent().prefix() == old(self).parent().prefix(),
            final(self).parent().borrows() == old(self).parent().borrows(),
            final(self).parent().total() == old(self).parent().total(),
            final(self).parent().last_index_spec() == old(self).parent().last_index_spec(),
    {
        self.inner.index_mut_at(index.0, index.1)
    }

    /// Element `idx` of the chunk in slot `slot`, to be written through.
    fn slot_element_mut(&mut self, slot: usize, idx: usize) -> (r: &mut T)
        requires
            old(self).parent().wf(),
            slot < old(self).parent().chunks().len(),
            old(self).parent().chunks()[slot as int] is Some,
            idx < old(self).parent().chunks()[slot as int]->0.len(),
        ensures
            final(self).parent().wf(),
            *final(final(self).inner_ref()) == *final(old(self).inner_ref()),
            ({
                let c = old(self).parent().chunks()[slot as int]->0;
                &&& *r == c[idx as int]
                &&& final(self).parent().chunks() == old(self).parent().chunks().update(
                    slot as int,
                    Some(c.update(idx as int, *final(r))),
                )
            }),
            final(self).parent().cached_seq() == old(self).parent().cached_seq(),
            final(self).parent().prefix() == old(self).parent().prefix(),
            final(self).parent().borrows() == old(self).parent().borrows(),
            final(self).parent().total() == old(self).parent().total(),
            final(self).parent().last_index_spec() == old(self).parent().last_index_spec(),
    {
        match &mut self.inner.pointers[slot] {
            Some(chunk) => chunk.at_mut(idx),
            None => {
                proof {
                    assert(false);
                }
                &mut self.inner.cached[0]
            },
        }
    }

    /// The element at `small` in the chunk of slot `big - 1`, to be written
    /// through.
    fn get_mut(&mut self, index: (usize, usize)) -> (r: Option<&mut T>)
        requires
            old(self).parent().wf(),
            1 <= index.1 <= old(self).parent().chunks().len(),
            old(self).parent().chunks()[index.1 - 1] is Some,
        ensures
            final(self).parent().wf(),
            *final(final(self).inner_ref()) == *final(old(self).inner_ref()),
            ({
                let slot = index.1 - 1;
                let c = old(self).parent().chunks()[slot]->0;
                &&& index.0 < c.len() ==> (r matches Some(v) && *v == c[index.0 as int]
                    && final(self).parent().chunks() == old(self).parent().chunks().update(
                    slot,
                    Some(c.update(index.0 as int, *final(v))),
                ))
                &&& index.0 >= c.len() ==> r is None && final(self).parent().chunks() == old(self).parent().chunks()
            }),
            final(self).parent().cached_seq() == old(self).parent().cached_seq(),
            final(self).parent().prefix() == old(self).parent().prefix(),
            final(self).parent().borrows() == old(self).parent().borrows(),
            final(self).parent().total() == old(self).parent().total(),
            final(self).parent().last_index_spec() == old(self).parent().last_index_spec(),
    {
        let small = index.0;
        let big = index.1;
        match &mut self.inner.pointers[big - 1] {
            Some(chunk) => {
                if small < chunk.len() {
                    Some(chunk.at_mut(small))
                } else {
                    None
                }
            },
            None => {
                proof {
                    assert(false);
                }
                None
            },
        }
    }

    /// Appends `vec` as a new chunk in a fresh slot, registers the slot as
    /// shared with no borrowers, and extends the prefix table by the new
    /// chunk's length.
    pub fn push_vec(&mut self, vec: Vec<T>)
        requires
            old(self).parent().wf(),
            old(self).parent().total() + vec@.len() <= usize::MAX,
            old(self).parent().prefix().last() + vec@.len() <= usize::MAX,
        ensures
            final(self).parent().wf(),
            *final(final(self).inner_ref()) == *final(old(self).inner_ref()),
            final(self).parent().cached_seq() == old(self).parent().cached_seq(),
            final(self).parent().chunks() == old(self).parent().chunks().push(Some(vec@)),
            final(self).parent().prefix() == old(self).parent().prefix().push(
                (old(self).parent().prefix().last() + vec@.len()) as usize,
            ),
            final(self).parent().borrows() == old(self).parent().borrows().insert(
                old(self).parent().last_index_spec(),
                (BorrowState::Shared(0), old(self).parent().last_index_spec()),
            ),
            final(self).parent().total() == old(self).parent().total() + vec@.len(),
            final(self).parent().last_index_spec() == old(self).parent().last_index_spec() + 1,
    {
        let len = vec.len();
        let ptr = self.inner.vec_to_ptr(vec);
        self.inner.pointers.push(Some(ptr));
        let index = self.inner.last_index;
        self.inner.borrow_state.insert(index, (BorrowState::Shared(0), index));
        self.inner.last_index = self.inner.pointers.len();
        self.inner.total_elements = self.inner.total_elements + len;
        let last = self.inner.prefix_vec[self.inner.prefix_vec.len() - 1];
        self.inner.prefix_vec.push(len + last);
        proof {
            assert(self.inner.chunks() =~= old(self).parent().chunks().push(Some(vec@)));
        }
    }

    /// The inputs on which `get_handle` is defined: an index past the last
    /// slot, or an occupied slot registered as shared whose count can still
    /// grow.
    pub open spec fn get_handle_defined(&self, index: usize) -> bool {
        index < self.parent().chunks().len() ==> {
            &&& self.parent().chunks()[index as int] is Some
            &&& self.parent().borrows().contains_key(index)
            &&& self.parent().borrows()[index].0 matches BorrowState::Shared(count)
            &&& count < usize::MAX
        }
    }

    /// Lends out slot `index` shared: its count in the borrow table goes up
    /// by one and the handle carries the new count. Past the last slot there
    /// is nothing to lend.
    pub fn get_handle<'h>(&mut self, index: usize) -> (r: Option<RefHandle<'h, T>>)
        requires
            old(self).parent().wf(),
            old(self).get_handle_defined(index),
        ensures
            final(self).parent().wf(),
            *final(final(self).inner_ref()) == *final(old(self).inner_ref()),
            index >= old(self).parent().chunks().len() ==> r is None && final(self).parent()
                == old(self).parent(),
            index < old(self).parent().chunks().len() ==> {
                let (b, i) = old(self).parent().borrows()[index];
                let count = b->Shared_0;
                &&& r matches Some(h) && h.slot() == index && h.state() == BorrowState::Shared(
                    (count + 1) as usize,
                )
                &&& final(self).parent().borrows() == old(self).parent().borrows().insert(
                    index,
                    (BorrowState::Shared((count + 1) as usize), i),
                )
                &&& final(self).parent().cached_seq() == old(self).parent().cached_seq()
                &&& final(self).parent().chunks() == old(self).parent().chunks()
                &&& final(self).parent().prefix() == old(self).parent().prefix()
                &&& final(self).parent().total() == old(self).parent().total()
                &&& final(self).parent().last_index_spec() == old(self).parent().last_index_spec()
            },
    {
        if index >= self.inner.pointers.len() {
            return None;
        }
        let (index_copy, borrow_count) = match self.inner.borrow_state.get(&index) {
            Some(entry) => match entry.0 {
                BorrowState::Shared(count) => (entry.1, count),
                _ => {
                    proof {
                        assert(false);
                    }
                    (entry.1, 0)
                },
            },
            None => {
                proof {
                    assert(false);
                }
                (0, 0)
            },
        };
        self.inner.borrow_state.insert(index, (BorrowState::Shared(borrow_count + 1), index_copy));
        Some(
            RefHandle {
                ptr: index,
                state: BorrowState::Shared(borrow_count + 1),
                _marker: PhantomData,
            },
        )
    }

    /// Lends out slot `index` exclusively; the slot must be registered as
    /// shared with no borrowers.
    fn get_mut_handle<'h>(&mut self, index: usize) -> (r: Option<RefHandle<'h, T>>)
        requires
            old(self).parent().wf(),
            index < old(self).parent().chunks().len() ==> {
                &&& old(self).parent().chunks()[index as int] is Some
                &&& old(self).parent().borrows().contains_key(index)
                &&& old(self).parent().borrows()[index].0 == BorrowState::Shared(0)
            },
        ensures
            final(self).parent().wf(),
            *final(final(self).inner_ref()) == *final(old(self).inner_ref()),
            index >= old(self).parent().chunks().len() ==> r is None && final(self).parent()
                == old(self).parent(),
            index < old(self).parent().chunks().len() ==> {
                &&& r matches Some(h) && h.slot() == index && h.state() == BorrowState::Exclusive
                &&& final(self).parent().borrows() == old(self).parent().borrows().insert(
                    index,
                    (BorrowState::Exclusive, old(self).parent().borrows()[index].1),
                )
                &&& final(self).parent().cached_seq() == old(self).parent().cached_seq()
                &&& final(self).parent().chunks() == old(self).parent().chunks()
                &&& final(self).parent().prefix() == old(self).parent().prefix()
                &&& final(self).parent().total() == old(self).parent().total()
                &&& final(self).parent().last_index_spec() == old(self).parent().last_index_spec()
            },
    {
        if index >= self.inner.pointers.len() {
            return None;
        }
        let index_copy = match self.inner.borrow_state.get(&index) {
            Some(entry) => entry.1,
            None => {
                proof {
                    assert(false);
                }
                0
            },
        };
        self.inner.borrow_state.insert(index, (BorrowState::Exclusive, index_copy));
        Some(RefHandle { ptr: index, state: BorrowState::Exclusive, _marker: PhantomData })
    }

    /// Drops the chunk registered under `ptr` when it is held exclusively or
    /// shared with no borrowers: its entry leaves the borrow table, its slot
    /// is emptied, and the slot is returned. Otherwise nothing changes.
    pub fn drop_vec(&mut self, ptr: usize) -> (r: Option<usize>)
        requires
            old(self).parent().wf(),
        ensures
            final(self).parent().wf(),
            *final(final(self).inner_ref()) == *final(old(self).inner_ref()),
            final(self).parent().cached_seq() == old(self).parent().cached_seq(),
            final(self).parent().prefix() == old(self).parent().prefix(),
            final(self).parent().total() == old(self).parent().total(),
            final(self).parent().last_index_spec() == old(self).parent().last_index_spec(),
            ({
                let old_b = old(self).parent().borrows();
                &&& old(self).parent().droppable(ptr) ==> {
                    &&& r == Some(old_b[ptr].1)
                    &&& final(self).parent().borrows() == old_b.remove(ptr)
                    &&& final(self).parent().chunks() == old(self).parent().chunks().update(
                        old_b[ptr].1 as int,
                        None,
                    )
                }
                &&& !old(self).parent().droppable(ptr) ==> {
                    &&& r is None
                    &&& final(self).parent().borrows() == old_b
                    &&& final(self).parent().chunks() == old(self).parent().chunks()
                }
            }),
    {
        let droppable = match self.inner.borrow_state.get(&ptr) {
            Some(entry) => match entry.0 {
                BorrowState::Exclusive => true,
                BorrowState::Shared(count) => count == 0,
                BorrowState::Dropped => false,
            },
            None => false,
        };
        if !droppable {
            return None;
        }
        match self.inner.borrow_state.remove(&ptr) {
            Some((_, i)) => {
                self.inner.pointers.set(i, None);
                proof {
                    assert(self.inner.chunks() =~= old(self).parent().chunks().update(i as int, None));
                }
                Some(i)
            },
            None => {
                proof {
                    assert(false);
                }
                None
            },
        }
    }

    /// Appends `val` to the last chunk and counts it in the last prefix
    /// entry; the recorded element count does not change.
    pub fn push(&mut self, val: T)
        requires
            old(self).parent().wf(),
            old(self).parent().chunks().len() > 0,
            old(self).parent().chunks().last() is Some,
            old(self).parent().prefix().last() < usize::MAX,
        ensures
            final(self).parent().wf(),
            *final(final(self).inner_ref()) == *final(old(self).inner_ref()),
            final(self).parent().chunks() == old(self).parent().chunks().update(
                old(self).parent().chunks().len() - 1,
                Some(old(self).parent().chunks().last()->0.push(val)),
            ),
            final(self).parent().prefix() == old(self).parent().prefix().update(
                old(self).parent().prefix().len() - 1,
                (old(self).parent().prefix().last() + 1) as usize,
            ),
            final(self).parent().cached_seq() == old(self).parent().cached_seq(),
            final(self).parent().borrows() == old(self).parent().borrows(),
            final(self).parent().total() == old(self).parent().total(),
            final(self).parent().last_index_spec() == old(self).parent().last_index_spec(),
    {
        let last_slot = self.inner.pointers.len() - 1;
        let mut chunk = match self.inner.pointers[last_slot].take() {
            Some(c) => c,
            None => {
                proof {
                    assert(false);
                }
                return;
            },
        };
        chunk.push(val);
        self.inner.pointers.set(last_slot, Some(chunk));
        let last_prefix = self.inner.prefix_vec.len() - 1;
        let bumped = self.inner.prefix_vec[last_prefix] + 1;
        self.inner.prefix_vec.set(last_prefix, bumped);
        proof {
            assert(self.inner.chunks() =~= old(self).parent().chunks().update(
                old(self).parent().chunks().len() - 1,
                Some(old(self).parent().chunks().last()->0.push(val)),
            ));
        }
    }

    /// The chunk element behind a flat index (see `Tangled::get_raw`).
    pub fn read_unchecked(&self, index: usize) -> (r: Option<&T>)
        requires
            self.parent().wf(),
            self.parent().raw_defined(index),
        ensures
            match r {
                Some(v) => self.parent().raw_target(index) == Some(*v),
                None => self.parent().raw_target(index) is None,
            },
    {
        self.inner.get_raw(index)
    }

    /// Overwrites the chunk element behind a flat index with `val`; when
    /// there is no such element nothing changes.
    pub fn write(&mut self, index: usize, val: T)
        requires
            old(self).parent().wf(),
            old(self).parent().raw_defined(index),
        ensures
            final(self).parent().wf(),
            *final(final(self).inner_ref()) == *final(old(self).inner_ref()),
            final(self).parent().chunks() == old(self).parent().chunks_after_write(index, val),
            final(self).parent().cached_seq() == old(self).parent().cached_seq(),
            final(self).parent().prefix() == old(self).parent().prefix(),
            final(self).parent().borrows() == old(self).parent().borrows(),
            final(self).parent().total() == old(self).parent().total(),
            final(self).parent().last_index_spec() == old(self).parent().last_index_spec(),
    {
        let (offset, rough_index) = match self.inner.convert_index(index) {
            Some(p) => p,
            None => return,
        };
        let slot = rough_index - 1;
        match self.inner.pointers[slot].take() {
            Some(mut chunk) => {
                let _ = chunk.replace(offset, val);
                self.inner.pointers.set(slot, Some(chunk));
                proof {
                    assert(self.inner.chunks() =~= old(self).parent().chunks_after_write(
                        index,
                        val,
                    ));
                }
            },
            None => {
                proof {
                    assert(self.inner.chunks() =~= old(self).parent().chunks());
                }
            },
        }
    }

    /// Replaces the chunk element behind a flat index with `pred` applied to
    /// it; when there is no such element nothing changes.
    pub fn alter<F>(&mut self, index: usize, pred: F)
        where
            F: Fn(&T) -> T,
        requires
            old(self).parent().wf(),
            old(self).parent().raw_defined(index),
            old(self).parent().raw_target(index) matches Some(v) ==> call_requires(pred, (&v,)),
        ensures
            final(self).parent().wf(),
            *final(final(self).inner_ref()) == *final(old(self).inner_ref()),
            old(self).parent().raw_target(index) is None ==> final(self).parent().chunks()
                == old(self).parent().chunks(),
            old(self).parent().raw_target(index) matches Some(v) ==> exists|nv: T|
                call_ensures(pred, (&v,), nv) && final(self).parent().chunks() == old(self).parent().chunks_after_write(index, nv),
            final(self).parent().cached_seq() == old(self).parent().cached_seq(),
            final(self).parent().prefix() == old(self).parent().prefix(),
            final(self).parent().borrows() == old(self).parent().borrows(),
            final(self).parent().total() == old(self).parent().total(),
            final(self).parent().last_index_spec() == old(self).parent().last_index_spec(),
    {
        let (offset, rough_index) = match self.inner.convert_index(index) {
            Some(p) => p,
            None => return,
        };
        let slot = rough_index - 1;
        match self.inner.pointers[slot].take() {
            Some(mut chunk) => {
                let nv = pred(chunk.at(offset));
                let _ = chunk.replace(offset, nv);
                self.inner.pointers.set(slot, Some(chunk));
                proof {
                    assert(self.inner.chunks() =~= old(self).parent().chunks_after_write(
                        index,
                        nv,
                    ));
                }
            },
            None => {
                proof {
                    assert(self.inner.chunks() =~= old(self).parent().chunks());
                }
            },
        }
    }

    /// The slot key of the chunk that the prefix table places `index` in,
    /// counting slots from the front buffer's entry: the first position whose
    /// prefix entry exceeds `index`. `None` when that slot is empty.
    pub fn get_pointer_at_index(&self, index: usize) -> (r: Option<usize>)
        requires
            self.parent().wf(),
            index < usize::MAX,
            partitioned_below(self.parent().prefix(), index + 1),
            count_below(self.parent().prefix(), index + 1) < self.parent().chunks().len(),
        ensures
            ({
                let rough = count_below(self.parent().prefix(), index + 1) as int;
                &&& self.parent().chunks()[rough] is Some ==> r == Some(rough as usize)
                &&& self.parent().chunks()[rough] is None ==> r is None
            }),
    {
        let rough = partition_point(&self.inner.prefix_vec, index + 1);
        match &self.inner.pointers[rough] {
            Some(_) => Some(rough),
            None => None,
        }
    }

    /// Places `val` as a chunk in the empty slot `pointer_index`; an
    /// occupied slot is left as it was and `None` comes back. The borrow
    /// table is not touched.
    pub fn insert_vec(&mut self, pointer_index: usize, val: Vec<T>) -> (r: Option<()>)
        requires
            old(self).parent().wf(),
            pointer_index < old(self).parent().chunks().len(),
        ensures
            final(self).parent().wf(),
            *final(final(self).inner_ref()) == *final(old(self).inner_ref()),
            old(self).parent().chunks()[pointer_index as int] is None ==> r == Some(())
                && final(self).parent().chunks() == old(self).parent().chunks().update(
                pointer_index as int,
                Some(val@),
            ),
            old(self).parent().chunks()[pointer_index as int] is Some ==> r is None && final(self).parent().chunks() == old(self).parent().chunks(),
            final(self).parent().cached_seq() == old(self).parent().cached_seq(),
            final(self).parent().prefix() == old(self).parent().prefix(),
            final(self).parent().borrows() == old(self).parent().borrows(),
            final(self).parent().total() == old(self).parent().total(),
            final(self).parent().last_index_spec() == old(self).parent().last_index_spec(),
    {
        let ptr = self.inner.vec_to_ptr(val);
        if self.inner.pointers[pointer_index].is_none() {
            self.inner.pointers.set(pointer_index, Some(ptr));
            proof {
                assert(self.inner.chunks() =~= old(self).parent().chunks().update(
                    pointer_index as int,
                    Some(val@),
                ));
            }
            Some(())
        } else {
            None
        }
    }

    /// Lends out, shared, the slot numbered by the chunk number that
    /// `convert_index` gives for `index`, and returns the handle (the only
    /// result this function gives; it reads no element).
    pub fn read<'h>(&mut self, index: usize) -> (h: RefHandle<'h, T>)
        requires
            old(self).parent().wf(),
            old(self).parent().convert_index_defined(index),
            old(self).parent().converted_index(index) matches Some((_, rough)) && rough
                < old(self).parent().chunks().len() && old(self).get_handle_defined(rough),
        ensures
            final(self).parent().wf(),
            *final(final(self).inner_ref()) == *final(old(self).inner_ref()),
            ({
                let rough = (old(self).parent().converted_index(index)->0).1;
                let (b, i) = old(self).parent().borrows()[rough];
                let count = b->Shared_0;
                &&& h.slot() == rough && h.state() == BorrowState::Shared((count + 1) as usize)
                &&& final(self).parent().borrows() == old(self).parent().borrows().insert(
                    rough,
                    (BorrowState::Shared((count + 1) as usize), i),
                )
                &&& final(self).parent().cached_seq() == old(self).parent().cached_seq()
                &&& final(self).parent().chunks() == old(self).parent().chunks()
                &&& final(self).parent().prefix() == old(self).parent().prefix()
                &&& final(self).parent().total() == old(self).parent().total()
                &&& final(self).parent().last_index_spec() == old(self).parent().last_index_spec()
            }),
    {
        let (_, rough) = match self.inner.convert_index(index) {
            Some(p) => p,
            None => {
                proof {
                    assert(false);
                }
                (0, 0)
            },
        };
        match self.get_handle(rough) {
            Some(h) => h,
            None => {
                proof {
                    assert(false);
                }
                RefHandle { ptr: 0, state: BorrowState::Dropped, _marker: PhantomData }
            },
        }
    }
}


impl<'a, T> RefHandle<'a, T> {
    /// What `get_element` reaches in `parent`: the offset that
    /// `convert_index` gives for `index`, taken in this handle's own chunk.
    pub open spec fn element_target(&self, parent: &Tangled<T>, index: usize) -> Option<T> {
        parent.slot_element(self.slot(), index)
    }

    /// Looks `index` up through `parent`'s prefix table and reads the
    /// resulting offset in this handle's chunk.
    pub fn get_element<'p>(&self, parent: &'p Tangled<T>, index: usize) -> (r: Option<&'p T>)
        requires
            parent.wf(),
            parent.convert_index_defined(index),
        ensures
            match r {
                Some(v) => self.element_target(parent, index) == Some(*v),
                None => self.element_target(parent, index) is None,
            },
    {
        let (in_vec, _) = match parent.convert_index(index) {
            Some(p) => p,
            None => return None,
        };
        if self.ptr < parent.pointers.len() {
            match &parent.pointers[self.ptr] {
                Some(chunk) => chunk.get(in_vec),
                None => None,
            }
        } else {
            None
        }
    }

    /// The inputs on which `deref` is defined: the front buffer is not
    /// empty, or flat index 0 converts to an offset that this handle's chunk
    /// holds.
    pub open spec fn deref_defined(&self, parent: &Tangled<T>) -> bool {
        parent.cached_seq().len() > 0 || {
            &&& parent.convert_index_defined(0)
            &&& parent.converted_index(0) matches Some((offset, _))
            &&& parent.convert_index_defined(offset)
            &&& self.element_target(parent, offset) is Some
        }
    }

    /// The value behind the handle: the first element of the front buffer,
    /// or else the element that `get_element` finds for the offset of flat
    /// index 0.
    pub fn deref<'p>(&self, parent: &'p Tangled<T>) -> (r: &'p T)
        requires
            parent.wf(),
            self.deref_defined(parent),
        ensures
            parent.cached_seq().len() > 0 ==> *r == parent.cached_seq()[0],
            parent.cached_seq().len() == 0 ==> self.element_target(
                parent,
                (parent.converted_index(0)->0).0,
            ) == Some(*r),
    {
        if 0 < parent.cached.len() {
            return &parent.cached[0];
        }
        let (offset, _) = match parent.convert_index(0) {
            Some(p) => p,
            None => {
                proof {
                    assert(false);
                }
                (0, 0)
            },
        };
        match self.get_element(parent, offset) {
            Some(v) => v,
            None => {
                proof {
                    assert(false);
                }
                &parent.cached[0]
            },
        }
    }

    /// The chunk slots after a handle in state `state` on `slot` is
    /// released: an exclusive handle, a shared one with no count left, or a
    /// shared one whose count runs out empties the slot that the borrow
    /// table names for `slot`.
    pub open spec fn chunks_after_release(
        parent: &Tangled<T>,
        state: BorrowState,
        slot: usize,
    ) -> Seq<Option<Seq<T>>> {
        let empties = match state {
            BorrowState::Exclusive => true,
            BorrowState::Shared(x) => x <= 1,
            BorrowState::Dropped => false,
        };
        if empties {
            parent.chunks().update(parent.borrows()[slot].1 as int, None)
        } else {
            parent.chunks()
        }
    }

    /// Gives the chunk back. A shared handle counts itself down by one; an
    /// exclusive handle, or a shared one whose count is or reaches zero,
    /// frees its chunk, emptying its slot. The borrow table is left as it
    /// was.
    pub fn release(&mut self, parent: &mut Tangled<T>)
        requires
            old(parent).wf(),
            old(self).state() != BorrowState::Dropped ==> old(parent).borrows().contains_key(
                old(self).slot(),
            ),
        ensures
            final(parent).wf(),
            final(self).slot() == old(self).slot(),
            final(self).state() == match old(self).state() {
                BorrowState::Shared(x) => if x > 0 {
                    BorrowState::Shared((x - 1) as usize)
                } else {
                    BorrowState::Shared(0)
                },
                _ => BorrowState::Shared(0),
            },
            final(parent).chunks() == Self::chunks_after_release(
                &*old(parent),
                old(self).state(),
                old(self).slot(),
            ),
            final(parent).cached_seq() == old(parent).cached_seq(),
            final(parent).prefix() == old(parent).prefix(),
            final(parent).borrows() == old(parent).borrows(),
            final(parent).total() == old(parent).total(),
            final(parent).last_index_spec() == old(parent).last_index_spec(),
    {
        let old_state = self.state;
        self.state = BorrowState::Shared(0);
        let empties = match old_state {
            BorrowState::Exclusive => true,
            BorrowState::Shared(x) => {
                if x > 0 {
                    self.state = BorrowState::Shared(x - 1);
                }
                x <= 1
            },
            BorrowState::Dropped => false,
        };
        if empties {
            let i = match parent.borrow_state.get(&self.ptr) {
                Some(entry) => entry.1,
                None => {
                    proof {
                        assert(false);
                    }
                    return;
                },
            };
            parent.pointers.set(i, None);
            proof {
                assert(parent.chunks() =~= old(parent).chunks().update(i as int, None));
            }
        }
    }
}

/// Walks a `Tangled`: first the front buffer, then chunk by chunk as the
/// prefix table lays them out.
pub struct TangledIter<'a, T> {
    pos: (usize, usize),
    last_len: usize,
    parent: &'a Tangled<T>,
    p_borrow: BorrowedTangled<'a, T>,
}

impl<'a, T> TangledIter<'a, T> {
    /// `(offset within the current chunk, prefix entry before it)`.
    pub closed spec fn pos(&self) -> (usize, usize) {
        self.pos
    }

    /// How many front-buffer steps have been taken.
    pub closed spec fn last_len(&self) -> usize {
        self.last_len
    }

    /// The vector being walked.
    pub closed spec fn parent(&self) -> &'a Tangled<T> {
        self.parent
    }

    /// The iterator walks a well-formed vector and its chunk position names
    /// a prefix entry.
    pub closed spec fn iter_wf(&self) -> bool {
        &&& self.parent.wf()
        &&& self.p_borrow.inner == self.parent
        &&& self.pos.1 < self.parent.prefix_vec@.len()
    }

    /// An iterator at the start of `parent`.
    pub fn new(parent: &'a Tangled<T>) -> (it: TangledIter<'a, T>)
        requires
            parent.wf(),
        ensures
            it.iter_wf(),
            it.parent() == parent,
            it.pos() == (0usize, 0usize),
            it.last_len() == 0,
    {
        TangledIter { pos: (0, 0), last_len: 0, parent, p_borrow: parent.borrow() }
    }

    /// The step reads the front buffer: it is not exhausted yet, or the
    /// vector has no chunk slots.
    pub open spec fn in_front(&self) -> bool {
        self.last_len() < self.parent().cached_seq().len() || self.parent().prefix().len() == 1
    }

    /// The inputs on which `next` is defined: in the front buffer the step
    /// count can grow; past it, unless the walk is over, the prefix entries
    /// around the current chunk do not decrease, the offset can grow, and the
    /// chunk is present.
    pub open spec fn next_defined(&self) -> bool {
        if self.in_front() {
            self.last_len() < usize::MAX
        } else {
            let big = self.pos().1 + 1;
            big < self.parent().prefix().len() ==> {
                &&& self.parent().prefix()[self.pos().1 as int] <= self.parent().prefix()[big]
                &&& self.pos().0 < usize::MAX
                &&& self.parent().chunks()[big - 1] is Some
            }
        }
    }

    /// One step of `next`, from `before` to `after` yielding `r`. In the
    /// front buffer it yields the element at the step count (nothing once
    /// past it) and counts the step. Past it, with `d` the difference of the
    /// prefix entries around the current chunk, it yields the chunk's element
    /// at the current offset and moves the offset on, to the next chunk once
    /// the offset reaches `d - 1`; at the last prefix entry it yields
    /// nothing.
    pub open spec fn next_step(before: &Self, after: &Self, r: Option<&'a T>) -> bool {
        let p = before.parent();
        let (small, b) = before.pos();
        if before.in_front() {
            &&& after.last_len() == before.last_len() + 1
            &&& after.pos() == before.pos()
            &&& before.last_len() < p.cached_seq().len() ==> r == Some(
                &p.cached_seq()[before.last_len() as int],
            )
            &&& before.last_len() >= p.cached_seq().len() ==> r is None
        } else if b + 1 >= p.prefix().len() {
            &&& r is None
            &&& after.pos() == before.pos()
            &&& after.last_len() == before.last_len()
        } else {
            let d = p.prefix()[b + 1] - p.prefix()[b as int];
            let c = p.chunks()[b as int]->0;
            &&& small < c.len() ==> r == Some(&c[small as int])
            &&& small >= c.len() ==> r is None
            &&& after.pos() == if d == small + 1 {
                (0usize, (b + 1) as usize)
            } else {
                ((small + 1) as usize, b)
            }
            &&& after.last_len() == before.last_len()
        }
    }

    /// Yields the next element (see `next_step`).
    pub fn next(&mut self) -> (r: Option<&'a T>)
        requires
            old(self).iter_wf(),
            old(self).next_defined(),
        ensures
            final(self).iter_wf(),
            final(self).parent() == old(self).parent(),
            Self::next_step(&*old(self), &*final(self), r),
    {
        let small = self.pos.0;
        if self.last_len < self.parent.cached.len() || self.parent.prefix_vec.len() == 1 {
            let x = if self.last_len < self.parent.cached.len() {
                Some(&self.parent.cached[self.last_len])
            } else {
                None
            };
            self.last_len = self.last_len + 1;
            return x;
        }
        let big = self.pos.1 + 1;
        if big >= self.parent.prefix_vec.len() {
            return None;
        }
        let last = self.parent.prefix_vec[self.pos.1];
        let current = self.parent.prefix_vec[big];
        let difference = current - last;
        let small_idx = small;
        self.pos.0 = self.pos.0 + 1;
        if difference == small_idx + 1 {
            self.pos.1 = self.pos.1 + 1;
            self.pos.0 = 0;
        }
        self.p_borrow.get_ref((small_idx, big))
    }
}

impl<T> Tangled<T> {
    /// An iterator at the start of the vector.
    pub fn iter(&self) -> (it: TangledIter<'_, T>)
        requires
            self.wf(),
        ensures
            it.iter_wf(),
            it.parent() == self,
            it.pos() == (0usize, 0usize),
            it.last_len() == 0,
    {
        TangledIter::new(self)
    }
}

/// Walks a `Tangled` like `TangledIter`, handing out elements to write
/// through; one made by `unsorted_iter` visits the chunks in address order.
pub struct MutTangledIter<'a, T> {
    pos: (usize, usize),
    last_len: usize,
    p_borrow: MutBorrowedTangled<'a, T>,
    unstable_iter: Vec<usize>,
    unstable_idx: Vec<usize>,
}

impl<'a, T> MutTangledIter<'a, T> {
    /// `(offset within the current chunk, prefix entry before it)`.
    pub closed spec fn pos(&self) -> (usize, usize) {
        self.pos
    }

    /// How many front-buffer steps have been taken.
    pub closed spec fn last_len(&self) -> usize {
        self.last_len
    }

    /// The exclusive view being walked.
    pub closed spec fn borrowed(&self) -> MutBorrowedTangled<'a, T> {
        self.p_borrow
    }

    /// The chunk slots in the order an address-ordered walk visits them
    /// (empty for an ordinary walk).
    pub closed spec fn unstable_order(&self) -> Seq<usize> {
        self.unstable_iter@
    }

    /// The element positions an address-ordered walk reads, indexed by the
    /// offset.
    pub closed spec fn unstable_idx(&self) -> Seq<usize> {
        self.unstable_idx@
    }

    /// The iterator walks a well-formed vector, its chunk position names a
    /// prefix entry, and an address order, when there is one, lists one
    /// occupied slot per chunk number.
    pub closed spec fn iter_wf(&self) -> bool {
        let p = self.p_borrow.parent();
        &&& p.wf()
        &&& self.pos.1 < p.prefix().len()
        &&& self.unstable_iter@.len() > 0 ==> {
            &&& self.unstable_iter@.len() == p.chunks().len()
            &&& forall|i: int|
                0 <= i < self.unstable_iter@.len() ==> #[trigger] self.unstable_iter@[i]
                    < p.chunks().len() && p.chunks()[self.unstable_iter@[i] as int] is Some
        }
    }

    /// An iterator at the start of `parent`.
    pub fn new(parent: &'a mut Tangled<T>) -> (it: MutTangledIter<'a, T>)
        requires
            old(parent).wf(),
        ensures
            it.iter_wf(),
            it.borrowed().parent() == *old(parent),
            *final(it.borrowed().inner_ref()) == *final(parent),
            it.pos() == (0usize, 0usize),
            it.last_len() == 0,
            it.unstable_order() == Seq::<usize>::empty(),
            it.unstable_idx() == Seq::<usize>::empty(),
    {
        MutTangledIter {
            pos: (0, 0),
            last_len: 0,
            p_borrow: parent.borrow_mut(),
            unstable_iter: Vec::new(),
            unstable_idx: Vec::new(),
        }
    }

    /// The step reads the front buffer: it is not exhausted yet, or the
    /// vector has no chunk slots.
    pub open spec fn in_front(&self) -> bool {
        let p = self.borrowed().parent();
        self.last_len() < p.cached_seq().len() || p.prefix().len() == 1
    }

    /// The offset after a step past the front buffer: moved on by one, or
    /// back to 0 when it reaches the end of the current chunk's prefix span.
    pub open spec fn next_offset(&self) -> usize {
        let p = self.borrowed().parent();
        let (small, b) = self.pos();
        let d = p.prefix()[b + 1] - p.prefix()[b as int];
        if d == small + 1 {
            0
        } else {
            (small + 1) as usize
        }
    }

    /// The inputs on which `next` is defined: past the front buffer, unless
    /// the walk is over, the prefix entries around the current chunk do not
    /// decrease, the offset can grow, and the chunk is present; in an
    /// address-ordered walk the next offset must name an element position,
    /// and that position must lie in the chunk the order gives.
    pub open spec fn next_defined(&self) -> bool {
        let p = self.borrowed().parent();
        !self.in_front() ==> {
            let big = self.pos().1 + 1;
            big < p.prefix().len() ==> {
                &&& p.prefix()[self.pos().1 as int] <= p.prefix()[big]
                &&& self.pos().0 < usize::MAX
                &&& p.chunks()[big - 1] is Some
                &&& self.unstable_order().len() > 0 ==> {
                    let o = self.next_offset();
                    let slot = self.unstable_order()[self.pos().1 as int];
                    &&& o < self.unstable_idx().len()
                    &&& self.unstable_idx()[o as int] < p.chunks()[slot as int]->0.len()
                }
            }
        }
    }

    /// One step of `next`, from `before` to `after`, yielding the element
    /// `cur` (nothing when `None`) that is finally written back as `fin`. The
    /// walk is that of `TangledIter::next_step`, except that in the front
    /// buffer the step is only counted when an element is yielded, and that
    /// an address-ordered walk reads, past the front buffer, the element that
    /// the next offset names in the chunk the order gives for the current
    /// chunk number. The yielded element of the vector ends up as `fin` and
    /// nothing else in the vector changes.
    pub open spec fn next_step(before: &Self, after: &Self, cur: Option<T>, fin: Option<T>) -> bool {
        let p = before.borrowed().parent();
        let q = after.borrowed().parent();
        let (small, b) = before.pos();
        &&& after.unstable_order() == before.unstable_order()
        &&& after.unstable_idx() == before.unstable_idx()
        &&& q.prefix() == p.prefix()
        &&& q.borrows() == p.borrows()
        &&& q.total() == p.total()
        &&& q.last_index_spec() == p.last_index_spec()
        &&& cur is Some <==> fin is Some
        &&& if before.in_front() {
            &&& after.pos() == before.pos()
            &&& q.chunks() == p.chunks()
            &&& before.last_len() < p.cached_seq().len() ==> {
                &&& after.last_len() == before.last_len() + 1
                &&& cur == Some(p.cached_seq()[before.last_len() as int])
                &&& q.cached_seq() == p.cached_seq().update(before.last_len() as int, fin->0)
            }
            &&& before.last_len() >= p.cached_seq().len() ==> {
                &&& cur is None
                &&& after.last_len() == before.last_len()
                &&& q.cached_seq() == p.cached_seq()
            }
        } else if b + 1 >= p.prefix().len() {
            &&& cur is None
            &&& after.pos() == before.pos()
            &&& after.last_len() == before.last_len()
            &&& q.cached_seq() == p.cached_seq()
            &&& q.chunks() == p.chunks()
        } else {
            let d = p.prefix()[b + 1] - p.prefix()[b as int];
            &&& q.cached_seq() == p.cached_seq()
            &&& if before.unstable_order().len() == 0 {
                let c = p.chunks()[b as int]->0;
                &&& small < c.len() ==> {
                    &&& cur == Some(c[small as int])
                    &&& q.chunks() == p.chunks().update(
                        b as int,
                        Some(c.update(small as int, fin->0)),
                    )
                }
                &&& small >= c.len() ==> cur is None && q.chunks() == p.chunks()
            } else {
                let slot = before.unstable_order()[b as int];
                let idx = before.unstable_idx()[before.next_offset() as int];
                let c = p.chunks()[slot as int]->0;
                &&& cur == Some(c[idx as int])
                &&& q.chunks() == p.chunks().update(slot as int, Some(c.update(idx as int, fin->0)))
            }
            &&& after.pos() == if d == small + 1 {
                (0usize, (b + 1) as usize)
            } else {
                ((small + 1) as usize, b)
            }
            &&& after.last_len() == before.last_len()
        }
    }

    /// Yields the next element to write through (see `next_step`).
    pub fn next(&mut self) -> (r: Option<&mut T>)
        requires
            old(self).iter_wf(),
            old(self).next_defined(),
        ensures
            final(self).iter_wf(),
            final(self).borrowed().parent().wf(),
            *final(final(self).borrowed().inner_ref()) == *final(old(self).borrowed().inner_ref()),
            Self::next_step(
                &*old(self),
                &*final(self),
                match r {
                    Some(v) => Some(*v),
                    None => None,
                },
                match r {
                    Some(v) => Some(*final(v)),
                    None => None,
                },
            ),
    {
        let small = self.pos.0;
        let cached_len = self.p_borrow.inner.cached.len();
        if self.last_len < cached_len || self.p_borrow.inner.prefix_vec.len() == 1 {
            if self.last_len >= cached_len {
                return None;
            }
            let at = self.last_len;
            self.last_len = self.last_len + 1;
            return Some(&mut self.p_borrow.inner.cached[at]);
        }
        let big = self.pos.1 + 1;
        if big >= self.p_borrow.inner.prefix_vec.len() {
            return None;
        }
        let last = self.p_borrow.inner.prefix_vec[self.pos.1];
        let current = self.p_borrow.inner.prefix_vec[big];
        let difference = current - last;
        let small_idx = small;
        self.pos.0 = self.pos.0 + 1;
        if difference == small_idx + 1 {
            self.pos.1 = self.pos.1 + 1;
            self.pos.0 = 0;
        }
        if self.unstable_iter.len() == 0 {
            return self.p_borrow.get_mut((small_idx, big));
        }
        let idx = self.unstable_idx[self.pos.0];
        let slot = self.unstable_iter[big - 1];
        Some(self.p_borrow.slot_element_mut(slot, idx))
    }
}

/// Once an exclusive view is used no more, the vector it was made from
/// holds what the view last held.
pub broadcast proof fn lemma_view_resolves<'t, T>(b: MutBorrowedTangled<'t, T>)
    ensures
        #[trigger] has_resolved(b) ==> *final(b.inner_ref()) == b.parent(),
{
}

/// Once a writing iterator is used no more, the vector it walked holds what
/// the iterator's view last held.
pub broadcast proof fn lemma_iter_mut_resolves<'a, T>(it: MutTangledIter<'a, T>)
    ensures
        #[trigger] has_resolved(it) ==> *final(it.borrowed().inner_ref())
            == it.borrowed().parent(),
{
}

/// The facts that connect a finished view or writing iterator back to its
/// vector.
pub broadcast group group_view_resolution {
    lemma_view_resolves,
    lemma_iter_mut_resolves,
}

impl<T> Tangled<T> {
    /// An iterator at the start of the vector that hands out elements to
    /// write through.
    pub fn iter_mut(&mut self) -> (it: MutTangledIter<'_, T>)
        requires
            old(self).wf(),
        ensures
            it.iter_wf(),
            it.borrowed().parent() == *old(self),
            *final(it.borrowed().inner_ref()) == *final(self),
            it.pos() == (0usize, 0usize),
            it.last_len() == 0,
            it.unstable_order() == Seq::<usize>::empty(),
            it.unstable_idx() == Seq::<usize>::empty(),
    {
        MutTangledIter::new(self)
    }

    /// A writing iterator that, past the front buffer, visits the chunks in
    /// the order of their buffers' addresses, and reads in each the element
    /// position that its offset names in the slot list `0, 1, ..`. Every slot
    /// must hold a chunk. Where the allocator placed the buffers is not known,
    /// so only this is stated of the order: it lists every slot exactly once.
    pub fn unsorted_iter(&mut self) -> (it: MutTangledIter<'_, T>)
        requires
            old(self).wf(),
            forall|k: int| 0 <= k < old(self).chunks().len() ==> #[trigger] old(self).chunks()[k] is Some,
        ensures
            it.iter_wf(),
            it.borrowed().parent() == *old(self),
            *final(it.borrowed().inner_ref()) == *final(self),
            it.pos() == (0usize, 0usize),
            it.last_len() == 0,
            it.unstable_idx() == Seq::new(old(self).chunks().len(), |i: int| i as usize),
            it.unstable_order().len() == old(self).chunks().len(),
            forall|i: int|
                0 <= i < it.unstable_order().len() ==> #[trigger] it.unstable_order()[i]
                    < old(self).chunks().len(),
            forall|i: int, j: int|
                0 <= i < j < it.unstable_order().len() ==> it.unstable_order()[i]
                    != it.unstable_order()[j],
    {
        let n = self.pointers.len();
        let mut addrs: Vec<usize> = Vec::new();
        let mut idxs: Vec<usize> = Vec::new();
        let mut i: usize = 0;
        while i < n
            invariant
                n == self.pointers@.len(),
                0 <= i <= n,
                addrs@.len() == i,
                idxs@ == Seq::new(i as nat, |k: int| k as usize),
                forall|k: int| 0 <= k < self.chunks().len() ==> #[trigger] self.chunks()[k] is Some,
            decreases n - i,
        {
            match &self.pointers[i] {
                Some(chunk) => addrs.push(chunk_address(chunk)),
                None => {
                    proof {
                        assert(self.chunks()[i as int] is Some);
                    }
                    addrs.push(0)
                },
            }
            idxs.push(i);
            proof {
                assert(idxs@ =~= Seq::new((i + 1) as nat, |k: int| k as usize));
            }
            i = i + 1;
        }
        let order = sort_slots_by_key(&addrs);
        let mut it = MutTangledIter::new(self);
        it.unstable_idx = idxs;
        it.unstable_iter = order;
        it
    }
}

/// A chunk's elements, or none for a dropped chunk.
pub open spec fn chunk_or_empty<T>(o: Option<Seq<T>>) -> Seq<T> {
    match o {
        Some(c) => c,
        None => Seq::empty(),
    }
}

/// The elements of the chunks, slot after slot.
pub open spec fn concat_chunks<T>(c: Seq<Option<Seq<T>>>) -> Seq<T>
    decreases c.len(),
{
    if c.len() == 0 {
        Seq::empty()
    } else {
        concat_chunks(c.drop_last()) + chunk_or_empty(c.last())
    }
}

/// Concatenating the chunks of two runs of slots is concatenating the two
/// results.
pub proof fn lemma_concat_chunks_append<T>(a: Seq<Option<Seq<T>>>, b: Seq<Option<Seq<T>>>)
    ensures
        concat_chunks(a + b) == concat_chunks(a) + concat_chunks(b),
    decreases b.len(),
{
    if b.len() == 0 {
        assert(a + b =~= a);
    } else {
        lemma_concat_chunks_append(a, b.drop_last());
        assert((a + b).drop_last() =~= a + b.drop_last());
        assert((a + b).last() == b.last());
    }
}

impl<T> Tangled<T> {
    /// The elements in order: the front buffer, then each chunk.
    pub open spec fn flat(&self) -> Seq<T> {
        self.cached_seq() + concat_chunks(self.chunks())
    }

    /// Every slot holds a chunk, and each prefix entry is the one before it
    /// plus the length of the chunk between them.
    pub open spec fn layout_consistent(&self) -> bool {
        &&& forall|k: int| 0 <= k < self.chunks().len() ==> #[trigger] self.chunks()[k] is Some
        &&& forall|k: int|
            0 <= k < self.chunks().len() ==> #[trigger] self.prefix()[k + 1] == self.prefix()[k]
                + self.chunks()[k]->0.len()
    }

    /// On a consistent layout, prefix entry `k` counts the front buffer and
    /// the first `k` chunks, so the table is sorted and its last entry is the
    /// length of the flat sequence.
    pub proof fn lemma_prefix_counts(&self)
        requires
            self.wf(),
            self.layout_consistent(),
        ensures
            forall|k: int|
                0 <= k <= self.chunks().len() ==> #[trigger] self.prefix()[k]
                    == self.cached_seq().len() + concat_chunks(self.chunks().take(k)).len(),
            sorted(self.prefix()),
            self.prefix().last() == self.flat().len(),
    {
        let c = self.chunks();
        let p = self.prefix();
        assert(p.len() == c.len() + 1) by {
            assert(self.chunks().len() == self.pointers@.len());
        }
        assert forall|k: int| 0 <= k <= c.len() implies #[trigger] p[k]
            == self.cached_seq().len() + concat_chunks(c.take(k)).len() by {
            self.lemma_prefix_count_at(k);
        }
        assert forall|i: int, j: int| 0 <= i <= j < p.len() implies p[i] <= p[j] by {
            self.lemma_prefix_count_at(i);
            self.lemma_prefix_count_at(j);
            lemma_concat_chunks_append(c.take(i), c.subrange(i, j));
            assert(c.take(j) =~= c.take(i) + c.subrange(i, j));
        }
        self.lemma_prefix_count_at(c.len() as int);
        assert(c.take(c.len() as int) =~= c);
    }

    proof fn lemma_prefix_count_at(&self, k: int)
        requires
            self.wf(),
            self.layout_consistent(),
            0 <= k <= self.chunks().len(),
        ensures
            self.prefix()[k] == self.cached_seq().len() + concat_chunks(self.chunks().take(k)).len(),
        decreases k,
    {
        let c = self.chunks();
        if k == 0 {
            assert(c.take(0) =~= Seq::<Option<Seq<T>>>::empty());
        } else {
            self.lemma_prefix_count_at(k - 1);
            assert(c.take(k).drop_last() =~= c.take(k - 1));
            assert(self.prefix()[(k - 1) + 1] == self.prefix()[k - 1] + c[k - 1]->0.len());
            assert(c[k - 1] is Some);
        }
    }

    /// On a consistent layout, element `o` of chunk `k` sits at flat
    /// position `prefix[k] + o`.
    pub proof fn lemma_chunk_element_in_flat(&self, k: int, o: int)
        requires
            self.wf(),
            self.layout_consistent(),
            0 <= k < self.chunks().len(),
            0 <= o < self.chunks()[k]->0.len(),
        ensures
            self.prefix()[k] + o < self.flat().len(),
            self.flat()[self.prefix()[k] + o] == self.chunks()[k]->0[o],
    {
        let c = self.chunks();
        self.lemma_prefix_counts();
        assert(self.chunks()[k] is Some);
        let before = concat_chunks(c.take(k));
        let after = concat_chunks(c.subrange(k + 1, c.len() as int));
        assert(c.take(k + 1).drop_last() =~= c.take(k));
        assert(concat_chunks(c.take(k + 1)) == before + c[k]->0);
        lemma_concat_chunks_append(c.take(k + 1), c.subrange(k + 1, c.len() as int));
        assert(c =~= c.take(k + 1) + c.subrange(k + 1, c.len() as int));
        assert(self.flat() =~= self.cached_seq() + before + c[k]->0 + after);
        assert(self.prefix()[k] == self.cached_seq().len() + before.len());
    }
}

/// Locating by the prefix table: on a consistent layout, every flat index
/// within the layout, other than the recorded end and those whose chunk
/// number reaches the recorded element count, is accepted by
/// `convert_index` and split into an offset and a chunk number that reach
/// exactly that element of the flat sequence; past the front buffer,
/// `get_raw` yields that element.
pub proof fn law_convert_index_locates<T>(t: &Tangled<T>, index: usize)
    requires
        t.wf(),
        t.layout_consistent(),
        index < t.flat().len(),
        index != t.total(),
        index >= t.cached_seq().len() ==> count_below(t.prefix(), index + 1) < t.total(),
    ensures
        t.convert_index_defined(index),
        t.converted_index(index) matches Some((offset, rough)) && if rough == 0 {
            offset < t.cached_seq().len() && t.cached_seq()[offset as int] == t.flat()[index as int]
        } else {
            &&& rough - 1 < t.chunks().len()
            &&& t.chunks()[rough - 1] is Some
            &&& offset < t.chunks()[rough - 1]->0.len()
            &&& t.chunks()[rough - 1]->0[offset as int] == t.flat()[index as int]
        },
        index >= t.cached_seq().len() ==> t.raw_defined(index) && t.raw_target(index) == Some(
            t.flat()[index as int],
        ),
{
    t.lemma_prefix_counts();
    if index >= t.cached_seq().len() {
        let p = t.prefix();
        let target = index + 1;
        lemma_sorted_partitioned(p, target as int);
        lemma_count_below(p, target as int);
        let rough = count_below(p, target as int) as int;
        assert(rough >= 1) by {
            if rough == 0 {
                assert(p[0] == t.cached_seq().len());
            }
        }
        assert(rough <= t.chunks().len()) by {
            if rough == p.len() {
                assert(p[p.len() - 1] < target);
            }
        }
        let k = rough - 1;
        assert(p[k] <= index);
        assert(p[k + 1] == p[k] + t.chunks()[k]->0.len());
        let o = index - p[k];
        assert(t.chunks()[k] is Some);
        t.lemma_chunk_element_in_flat(k, o);
    }
}

/// A vector built by `new` or `from` has a consistent layout whose flat
/// sequence is its front buffer.
pub proof fn law_constructed_consistent<T>(t: Tangled<T>)
    requires
        t.wf(),
        t.chunks() == Seq::<Option<Seq<T>>>::empty(),
    ensures
        t.layout_consistent(),
        t.flat() == t.cached_seq(),
{
    assert(t.flat() =~= t.cached_seq());
}

/// Appending a chunk keeps a consistent layout consistent and appends the
/// chunk's elements to the flat sequence.
pub proof fn law_push_vec_appends<T>(before: Tangled<T>, after: Tangled<T>, v: Seq<T>)
    requires
        before.wf(),
        after.wf(),
        before.layout_consistent(),
        after.cached_seq() == before.cached_seq(),
        after.chunks() == before.chunks().push(Some(v)),
        after.prefix() == before.prefix().push((before.prefix().last() + v.len()) as usize),
        before.prefix().last() + v.len() <= usize::MAX,
    ensures
        after.layout_consistent(),
        after.flat() == before.flat() + v,
{
    let n = before.chunks().len() as int;
    assert forall|k: int| 0 <= k < after.chunks().len() implies #[trigger] after.prefix()[k + 1]
        == after.prefix()[k] + after.chunks()[k]->0.len() by {
        if k < n {
            assert(before.prefix()[k + 1] == before.prefix()[k] + before.chunks()[k]->0.len());
        }
    }
    assert forall|k: int| 0 <= k < after.chunks().len() implies #[trigger] after.chunks()[k] is Some by {
        if k < n {
            assert(before.chunks()[k] is Some);
        }
    }
    assert(after.chunks().drop_last() =~= before.chunks());
    assert(after.flat() =~= before.flat() + v);
}

/// Appending an element to the last chunk keeps a consistent layout
/// consistent and appends the element to the flat sequence.
pub proof fn law_push_appends<T>(before: Tangled<T>, after: Tangled<T>, val: T)
    requires
        before.wf(),
        after.wf(),
        before.layout_consistent(),
        before.chunks().len() > 0,
        before.prefix().last() < usize::MAX,
        after.cached_seq() == before.cached_seq(),
        after.chunks() == before.chunks().update(
            before.chunks().len() - 1,
            Some(before.chunks().last()->0.push(val)),
        ),
        after.prefix() == before.prefix().update(
            before.prefix().len() - 1,
            (before.prefix().last() + 1) as usize,
        ),
    ensures
        after.layout_consistent(),
        after.flat() == before.flat().push(val),
{
    let n = before.chunks().len() as int;
    assert(before.chunks()[n - 1] is Some);
    assert forall|k: int| 0 <= k < after.chunks().len() implies #[trigger] after.prefix()[k + 1]
        == after.prefix()[k] + after.chunks()[k]->0.len() by {
        assert(before.prefix()[k + 1] == before.prefix()[k] + before.chunks()[k]->0.len());
    }
    assert forall|k: int| 0 <= k < after.chunks().len() implies #[trigger] after.chunks()[k] is Some by {
        assert(before.chunks()[k] is Some);
    }
    assert(after.chunks().drop_last() =~= before.chunks().drop_last());
    assert(after.flat() =~= before.flat().push(val));
}

/// Appending to the front buffer of a vector without chunks keeps its
/// layout consistent and appends the element to the flat sequence.
pub proof fn law_push_fast_appends<T>(before: Tangled<T>, after: Tangled<T>, val: T)
    requires
        before.wf(),
        after.wf(),
        before.chunks().len() == 0,
        after.cached_seq() == before.cached_seq().push(val),
        after.chunks() == before.chunks(),
    ensures
        after.layout_consistent(),
        after.flat() == before.flat().push(val),
{
    assert(after.flat() =~= before.flat().push(val));
}

/// `pop_fast` undoes `push_fast`: it hands back the pushed element and
/// every part of the model is as before the push.
pub proof fn law_push_fast_pop_fast<T>(
    s0: Tangled<T>,
    s1: Tangled<T>,
    s2: Tangled<T>,
    val: T,
    popped: Option<T>,
)
    requires
        s0.wf(),
        s1.wf(),
        s2.wf(),
        s1.cached_seq() == s0.cached_seq().push(val),
        s1.prefix() == s0.prefix().update(0, (s0.prefix()[0] + 1) as usize),
        s1.chunks() == s0.chunks(),
        s1.borrows() == s0.borrows(),
        s1.total() == s0.total(),
        s1.last_index_spec() == s0.last_index_spec(),
        s1.cached_seq().len() > 0,
        popped == Some(s1.cached_seq().last()),
        s2.cached_seq() == s1.cached_seq().drop_last(),
        s2.prefix() == s1.prefix().update(0, (s1.prefix()[0] - 1) as usize),
        s2.chunks() == s1.chunks(),
        s2.borrows() == s1.borrows(),
        s2.total() == s1.total(),
        s2.last_index_spec() == s1.last_index_spec(),
    ensures
        popped == Some(val),
        s2.same_view(s0),
{
    assert(s2.cached_seq() =~= s0.cached_seq());
    assert(s2.prefix() =~= s0.prefix());
}

/// A read after a write gives the written value: once `write` has set the
/// element that `get_raw` reaches, `get_raw` reaches the new value.
pub proof fn law_write_then_read<T>(before: Tangled<T>, after: Tangled<T>, index: usize, val: T)
    requires
        before.wf(),
        before.raw_defined(index),
        before.raw_target(index) is Some,
        after.chunks() == before.chunks_after_write(index, val),
        after.cached_seq() == before.cached_seq(),
        after.prefix() == before.prefix(),
        after.total() == before.total(),
    ensures
        after.raw_defined(index),
        after.raw_target(index) == Some(val),
{
}

/// A shared loan protects its chunk: once `get_handle` has lent out a slot,
/// `drop_vec` refuses to drop that slot's chunk.
pub proof fn law_shared_loan_blocks_drop<T>(before: Tangled<T>, after: Tangled<T>, index: usize)
    requires
        before.wf(),
        index < before.chunks().len(),
        before.borrows().contains_key(index),
        before.borrows()[index].0 matches BorrowState::Shared(count) && count < usize::MAX,
        after.borrows() == before.borrows().insert(
            index,
            (
                BorrowState::Shared((before.borrows()[index].0->Shared_0 + 1) as usize),
                before.borrows()[index].1,
            ),
        ),
    ensures
        !after.droppable(index),
{
}

impl<'a, T> TangledIter<'a, T> {
    /// The flat position the iterator stands at: the step count in the
    /// front buffer, then the prefix entry before the current chunk plus the
    /// offset.
    pub open spec fn flat_position(&self) -> int {
        if self.last_len() < self.parent().cached_seq().len() {
            self.last_len() as int
        } else {
            self.parent().prefix()[self.pos().1 as int] + self.pos().0
        }
    }

    /// The iterator is in step with the flat sequence of a consistent vector
    /// without empty chunks: in the front buffer it has not started on the
    /// chunks, and past it the offset lies inside the current chunk (or is 0
    /// at the end).
    pub open spec fn in_step(&self) -> bool {
        let p = self.parent();
        let n = p.chunks().len();
        &&& p.layout_consistent()
        &&& forall|k: int| 0 <= k < n ==> #[trigger] p.chunks()[k]->0.len() > 0
        &&& self.last_len() <= p.cached_seq().len()
        &&& self.last_len() < p.cached_seq().len() ==> self.pos() == (0usize, 0usize)
        &&& self.pos().1 <= n
        &&& self.pos().1 < n ==> self.pos().0 < p.chunks()[self.pos().1 as int]->0.len()
        &&& self.pos().1 == n ==> self.pos().0 == 0
    }
}

/// Iteration walks the flat sequence in order: on a consistent vector
/// without empty chunks, an iterator in step yields the element at its flat
/// position and moves, still in step, to the next position; at the end it
/// yields nothing.
pub proof fn law_iter_walks_flat<'a, T>(
    before: TangledIter<'a, T>,
    after: TangledIter<'a, T>,
    r: Option<&'a T>,
)
    requires
        before.iter_wf(),
        before.in_step(),
        after.parent() == before.parent(),
        TangledIter::next_step(&before, &after, r),
    ensures
        before.next_defined(),
        before.flat_position() < before.parent().flat().len() ==> {
            &&& r == Some(&before.parent().flat()[before.flat_position()])
            &&& after.in_step()
            &&& after.flat_position() == before.flat_position() + 1
        },
        before.flat_position() >= before.parent().flat().len() ==> r is None,
{
    let p = before.parent();
    let n = p.chunks().len() as int;
    let cl = p.cached_seq().len();
    p.lemma_prefix_counts();
    assert(p.prefix().len() == n + 1);
    if before.last_len() < cl {
        assert(p.flat()[before.last_len() as int] == p.cached_seq()[before.last_len() as int]);
        if before.last_len() + 1 == cl && n > 0 {
            assert(p.prefix()[0] == cl);
            assert(p.chunks()[0]->0.len() > 0);
        }
    } else {
        let (small, b) = before.pos();
        assert(before.last_len() == cl);
        if n == 0 {
            assert(p.flat().len() == cl) by {
                assert(p.prefix()[0] == cl);
            }
        } else if b < n {
            assert(p.prefix()[b + 1] == p.prefix()[b as int] + p.chunks()[b as int]->0.len());
            assert(p.chunks()[b as int] is Some);
            p.lemma_chunk_element_in_flat(b as int, small as int);
            if b + 1 < n {
                assert(p.chunks()[b + 1]->0.len() > 0);
            }
        } else {
            assert(p.prefix()[n] == p.flat().len());
        }
    }
}

/// Indexing after writing through `index_mut` gives the written value:
/// once the element at `(small, big)` has been set to `v`, indexing by
/// `(small, big)` reaches `v`.
pub proof fn law_index_write_then_index<T>(
    before: Tangled<T>,
    after: Tangled<T>,
    small: usize,
    big: usize,
    v: T,
)
    requires
        before.wf(),
        before.index_defined(small, big),
        after.cached_seq() == before.cached_after_index_write(small, big, v),
        after.chunks() == before.chunks_after_index_write(small, big, v),
    ensures
        after.index_defined(small, big),
        after.indexed(small, big) == v,
{
}

/// The flat sequence splits around chunk `k`: the chunks before it, its
/// elements, and the chunks after it.
pub proof fn lemma_concat_chunks_split<T>(c: Seq<Option<Seq<T>>>, k: int)
    requires
        0 <= k < c.len(),
    ensures
        concat_chunks(c) == concat_chunks(c.take(k)) + chunk_or_empty(c[k]) + concat_chunks(
            c.subrange(k + 1, c.len() as int),
        ),
{
    assert(c.take(k + 1).drop_last() =~= c.take(k));
    lemma_concat_chunks_append(c.take(k + 1), c.subrange(k + 1, c.len() as int));
    assert(c =~= c.take(k + 1) + c.subrange(k + 1, c.len() as int));
}

impl<T> Tangled<T> {
    /// Writing element `o` of chunk `k` of a consistent vector keeps the
    /// layout consistent and writes flat position `prefix[k] + o`.
    pub proof fn lemma_chunk_write_in_flat(&self, after: &Self, k: int, o: int, v: T)
        requires
            self.wf(),
            self.layout_consistent(),
            0 <= k < self.chunks().len(),
            0 <= o < self.chunks()[k]->0.len(),
            after.wf(),
            after.cached_seq() == self.cached_seq(),
            after.prefix() == self.prefix(),
            after.chunks() == self.chunks().update(k, Some(self.chunks()[k]->0.update(o, v))),
        ensures
            after.layout_consistent(),
            self.prefix()[k] + o < self.flat().len(),
            after.flat() == self.flat().update(self.prefix()[k] + o, v),
    {
        let c = self.chunks();
        let d = after.chunks();
        self.lemma_chunk_element_in_flat(k, o);
        self.lemma_prefix_count_at(k);
        assert forall|i: int| 0 <= i < d.len() implies #[trigger] d[i] is Some by {
            assert(c[i] is Some);
        }
        assert forall|i: int| 0 <= i < d.len() implies #[trigger] after.prefix()[i + 1]
            == after.prefix()[i] + after.chunks()[i]->0.len() by {
            assert(self.prefix()[i + 1] == self.prefix()[i] + c[i]->0.len());
        }
        lemma_concat_chunks_split(c, k);
        lemma_concat_chunks_split(d, k);
        assert(d.take(k) =~= c.take(k));
        assert(d.subrange(k + 1, d.len() as int) =~= c.subrange(k + 1, c.len() as int));
        assert(after.flat() =~= self.flat().update(self.prefix()[k] + o, v));
    }

    /// Writing element `i` of the front buffer of a consistent vector keeps
    /// the layout consistent and writes flat position `i`.
    pub proof fn lemma_front_write_in_flat(&self, after: &Self, i: int, v: T)
        requires
            self.wf(),
            self.layout_consistent(),
            0 <= i < self.cached_seq().len(),
            after.wf(),
            after.cached_seq() == self.cached_seq().update(i, v),
            after.prefix() == self.prefix(),
            after.chunks() == self.chunks(),
        ensures
            after.layout_consistent(),
            after.flat() == self.flat().update(i, v),
    {
        assert forall|k: int| 0 <= k < after.chunks().len() implies #[trigger] after.prefix()[k + 1]
            == after.prefix()[k] + after.chunks()[k]->0.len() by {
            assert(self.prefix()[k + 1] == self.prefix()[k] + self.chunks()[k]->0.len());
        }
        assert forall|k: int| 0 <= k < after.chunks().len() implies #[trigger] after.chunks()[k] is Some by {
            assert(self.chunks()[k] is Some);
        }
        assert(after.flat() =~= self.flat().update(i, v));
    }
}

impl<'a, T> MutTangledIter<'a, T> {
    /// The flat position the iterator stands at (see
    /// `TangledIter::flat_position`).
    pub open spec fn flat_position(&self) -> int {
        let p = self.borrowed().parent();
        if self.last_len() < p.cached_seq().len() {
            self.last_len() as int
        } else {
            p.prefix()[self.pos().1 as int] + self.pos().0
        }
    }

    /// The iterator is in step with the flat sequence of a consistent vector
    /// without empty chunks (see `TangledIter::in_step`).
    pub open spec fn in_step(&self) -> bool {
        let p = self.borrowed().parent();
        let n = p.chunks().len();
        &&& self.unstable_order().len() == 0
        &&& p.wf()
        &&& p.layout_consistent()
        &&& forall|k: int| 0 <= k < n ==> #[trigger] p.chunks()[k]->0.len() > 0
        &&& self.last_len() <= p.cached_seq().len()
        &&& self.last_len() < p.cached_seq().len() ==> self.pos() == (0usize, 0usize)
        &&& self.pos().1 <= n
        &&& self.pos().1 < n ==> self.pos().0 < p.chunks()[self.pos().1 as int]->0.len()
        &&& self.pos().1 == n ==> self.pos().0 == 0
    }
}

/// The writing iterator walks the flat sequence in order: on a consistent
/// vector without empty chunks, an iterator in step yields the element at its
/// flat position, the value written through it lands at that position, and
/// it moves, still in step, to the next position; at the end it yields
/// nothing and stays at the end.
pub proof fn law_iter_mut_walks_flat<'a, T>(
    before: MutTangledIter<'a, T>,
    after: MutTangledIter<'a, T>,
    cur: Option<T>,
    fin: Option<T>,
)
    requires
        before.iter_wf(),
        before.in_step(),
        after.borrowed().parent().wf(),
        MutTangledIter::next_step(&before, &after, cur, fin),
    ensures
        before.next_defined(),
        ({
            let p = before.borrowed().parent();
            let q = after.borrowed().parent();
            let at = before.flat_position();
            &&& at < p.flat().len() ==> {
                &&& cur == Some(p.flat()[at])
                &&& q.flat() == p.flat().update(at, fin->0)
                &&& after.in_step()
                &&& after.flat_position() == at + 1
            }
            &&& at >= p.flat().len() ==> {
                &&& cur is None
                &&& q.flat() == p.flat()
                &&& after.in_step()
                &&& after.flat_position() == at
            }
        }),
{
    let p = before.borrowed().parent();
    let q = after.borrowed().parent();
    let n = p.chunks().len() as int;
    let cl = p.cached_seq().len();
    p.lemma_prefix_counts();
    assert(p.prefix().len() == n + 1);
    assert(q.chunks().len() == n);
    if before.last_len() < cl {
        let i = before.last_len() as int;
        p.lemma_front_write_in_flat(&q, i, fin->0);
        assert(p.flat()[i] == p.cached_seq()[i]);
        if before.last_len() + 1 == cl && n > 0 {
            assert(p.prefix()[0] == cl);
            assert(p.chunks()[0]->0.len() > 0);
        }
        assert forall|k: int| 0 <= k < n implies #[trigger] q.chunks()[k]->0.len() > 0 by {
            assert(p.chunks()[k]->0.len() > 0);
        }
    } else {
        let (small, b) = before.pos();
        assert(before.last_len() == cl);
        if n == 0 {
            assert(p.flat().len() == cl) by {
                assert(p.prefix()[0] == cl);
            }
            assert(q.cached_seq() == p.cached_seq());
            assert(q.flat() =~= p.flat());
        } else if b < n {
            assert(p.prefix()[b + 1] == p.prefix()[b as int] + p.chunks()[b as int]->0.len());
            assert(p.chunks()[b as int] is Some);
            p.lemma_chunk_element_in_flat(b as int, small as int);
            p.lemma_chunk_write_in_flat(&q, b as int, small as int, fin->0);
            assert forall|k: int| 0 <= k < n implies #[trigger] q.chunks()[k]->0.len() > 0 by {
                assert(p.chunks()[k]->0.len() > 0);
            }
            if b + 1 < n {
                assert(p.chunks()[b + 1]->0.len() > 0);
            }
        } else {
            assert(p.prefix()[n] == p.flat().len());
            assert(q.flat() =~= p.flat());
        }
    }
}

/// Indexing inverts locating for the front buffer and the first chunk: on a
/// consistent layout, when `convert_index` splits a flat index into
/// `(offset, k)` with chunk number `k` of 0 or 1, indexing by
/// `(offset, k)` is defined and reaches that element of the flat sequence.
pub proof fn law_index_inverts_convert<T>(t: &Tangled<T>, index: usize)
    requires
        t.wf(),
        t.layout_consistent(),
        index < t.flat().len(),
        index != t.total(),
        index >= t.cached_seq().len() ==> count_below(t.prefix(), index + 1) < t.total(),
        t.converted_index(index) matches Some((_, k)) && k <= 1,
    ensures
        ({
            let (offset, k) = t.converted_index(index)->0;
            &&& t.index_defined(offset, k)
            &&& t.indexed(offset, k) == t.flat()[index as int]
        }),
{
    law_convert_index_locates(t, index);
}

impl<T> Tangled<T> {
    /// For every slot that holds a chunk, the prefix entries around it
    /// differ by the chunk's length (dropped slots are not constrained).
    pub open spec fn prefix_tracks_chunks(&self) -> bool {
        forall|k: int|
            0 <= k < self.chunks().len() && #[trigger] self.chunks()[k] is Some ==> self.prefix()[k
                + 1] == self.prefix()[k] + self.chunks()[k]->0.len()
    }

    /// Every slot that holds a chunk is registered in the borrow table under
    /// itself.
    pub open spec fn slots_registered(&self) -> bool {
        forall|k: usize|
            k < self.chunks().len() && #[trigger] self.chunks()[k as int] is Some ==> self.borrows().contains_key(k)
                && self.borrows()[k].1 == k
    }
}

/// Appending a chunk keeps the bookkeeping: if the prefix table tracks every
/// present chunk, every present slot is registered, and the recorded count is
/// the last prefix entry, all three still hold afterwards, and the new slot
/// is registered as shared with no borrowers. (Where the new prefix entry
/// or the count would overflow, `push_vec` is not defined.)
pub proof fn law_push_vec_keeps_table<T>(before: Tangled<T>, after: Tangled<T>, v: Seq<T>)
    requires
        before.wf(),
        after.wf(),
        before.prefix_tracks_chunks(),
        before.slots_registered(),
        before.total() == before.prefix().last(),
        before.prefix().last() + v.len() <= usize::MAX,
        after.cached_seq() == before.cached_seq(),
        after.chunks() == before.chunks().push(Some(v)),
        after.prefix() == before.prefix().push((before.prefix().last() + v.len()) as usize),
        after.borrows() == before.borrows().insert(
            before.last_index_spec(),
            (BorrowState::Shared(0), before.last_index_spec()),
        ),
        after.total() == before.total() + v.len(),
    ensures
        after.prefix_tracks_chunks(),
        after.slots_registered(),
        after.total() == after.prefix().last(),
        after.borrows()[before.chunks().len() as usize] == (
            BorrowState::Shared(0),
            before.chunks().len() as usize,
        ),
{
    before.lemma_wf_shape();
    let n = before.chunks().len() as int;
    assert forall|k: int|
        0 <= k < after.chunks().len() && #[trigger] after.chunks()[k] is Some implies after.prefix()[k
            + 1] == after.prefix()[k] + after.chunks()[k]->0.len() by {
        if k < n {
            assert(before.chunks()[k] is Some);
        }
    }
    assert forall|k: usize|
        k < after.chunks().len() && #[trigger] after.chunks()[k as int] is Some implies after.borrows().contains_key(k)
            && after.borrows()[k].1 == k by {
        if k < n {
            assert(before.chunks()[k as int] is Some);
        }
    }
}

/// A shared read just past the front buffer reads the first chunk: when
/// slot 0 holds a chunk registered as shared (with room in its count) and
/// `i` lies in that chunk's span of the flat sequence, no further from the
/// front buffer's end than the front buffer is long, the read gives the
/// flat element at `i`.
pub proof fn law_shared_read_first_chunk<T>(t: &Tangled<T>, i: usize)
    requires
        t.wf(),
        t.chunks().len() > 0,
        t.chunks()[0] is Some,
        t.borrows().contains_key(0),
        t.borrows()[0].0 matches BorrowState::Shared(count) && count < usize::MAX,
        t.cached_seq().len() <= i < t.cached_seq().len() + t.chunks()[0]->0.len(),
        i - t.cached_seq().len() < t.cached_seq().len(),
    ensures
        t.shared_read_defined(i),
        t.shared_read_target(i) == Some(t.flat()[i as int]),
        i == t.cached_seq().len() ==> t.shared_read_target(i) == Some(t.chunks()[0]->0[0]),
{
    t.lemma_wf_shape();
    let c = t.chunks();
    lemma_concat_chunks_split(c, 0);
    assert(c.take(0) =~= Seq::<Option<Seq<T>>>::empty());
    assert(concat_chunks(c.take(0)) =~= Seq::<T>::empty());
    let rest = i - t.cached_seq().len();
    assert(t.flat()[i as int] == c[0]->0[rest]);
}

/// Indexing by `(small, big)` reads the front buffer for `big` 0 (when
/// `small` is inside it), the chunk in slot 0 for `big` 1, and the chunk in
/// slot `big` for `big` 2 and above; writing through `index_mut` sets that
/// same element and nothing else.
pub proof fn law_index_reads_slot<T>(t: &Tangled<T>, small: usize, big: usize, v: T)
    requires
        t.wf(),
        big == 0 ==> small < t.cached_seq().len(),
        big == 1 ==> 0 < t.chunks().len() && t.chunks()[0] is Some && small
            < t.chunks()[0]->0.len(),
        big >= 2 ==> big < t.chunks().len() && t.chunks()[big as int] is Some && small
            < t.chunks()[big as int]->0.len(),
    ensures
        t.index_defined(small, big),
        big == 0 ==> {
            &&& t.indexed(small, big) == t.cached_seq()[small as int]
            &&& t.cached_after_index_write(small, big, v) == t.cached_seq().update(small as int, v)
            &&& t.chunks_after_index_write(small, big, v) == t.chunks()
        },
        big == 1 ==> {
            &&& t.indexed(small, big) == t.chunks()[0]->0[small as int]
            &&& t.cached_after_index_write(small, big, v) == t.cached_seq()
            &&& t.chunks_after_index_write(small, big, v) == t.chunks().update(
                0,
                Some(t.chunks()[0]->0.update(small as int, v)),
            )
        },
        big >= 2 ==> {
            &&& t.indexed(small, big) == t.chunks()[big as int]->0[small as int]
            &&& t.cached_after_index_write(small, big, v) == t.cached_seq()
            &&& t.chunks_after_index_write(small, big, v) == t.chunks().update(
                big as int,
                Some(t.chunks()[big as int]->0.update(small as int, v)),
            )
        },
{
}

/// A handle reads through its own chunk by flat index: on a consistent
/// layout, for a handle on slot `s` and a flat index `i` inside that chunk's
/// span of the prefix table (other than the recorded end, and with its chunk
/// number below the recorded count), `get_element` gives the flat element
/// at `i`.
pub proof fn law_handle_reads_own_chunk<'a, T>(h: &RefHandle<'a, T>, t: &Tangled<T>, i: usize)
    requires
        t.wf(),
        t.layout_consistent(),
        h.slot() < t.chunks().len(),
        t.prefix()[h.slot() as int] <= i < t.prefix()[h.slot() + 1],
        i != t.total(),
        count_below(t.prefix(), i + 1) < t.total(),
    ensures
        t.convert_index_defined(i),
        h.element_target(t, i) == Some(t.flat()[i as int]),
{
    let s = h.slot() as int;
    t.lemma_prefix_counts();
    t.lemma_wf_shape();
    let p = t.prefix();
    assert(p[0] <= p[s]);
    assert(i < t.flat().len()) by {
        assert(p[s + 1] <= p[p.len() - 1]);
    }
    law_convert_index_locates(t, i);
    assert forall|j: int| 0 <= j < s + 1 implies p[j] < i + 1 by {
        assert(p[j] <= p[s]);
    }
    lemma_count_below_unique(p, i + 1, s + 1);
}
} // verus!
