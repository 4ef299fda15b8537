use vstd::prelude::*;

verus! {

/// One separately owned chunk of a `Tangled`.
#[derive(Debug)]
pub struct InnerVecWrapper<T> {
    inner: Vec<T>,
}

impl<T> View for InnerVecWrapper<T> {
    type V = Seq<T>;

    closed spec fn view(&self) -> Seq<T> {
        self.inner@
    }
}

impl<T> InnerVecWrapper<T> {
    /// Wraps a vector as a chunk.
    pub(crate) fn new(inner: Vec<T>) -> (w: Self)
        ensures
            w@ == inner@,
    {
        InnerVecWrapper { inner }
    }

    pub(crate) fn len(&self) -> (n: usize)
        ensures
            n == self@.len(),
    {
        self.inner.len()
    }

    /// The element at `index`, if there is one.
    pub(crate) fn get(&self, index: usize) -> (r: Option<&T>)
        ensures
            index < self@.len() ==> r == Some(&self@[index as int]),
            index >= self@.len() ==> r is None,
    {
        if index < self.inner.len() {
            Some(&self.inner[index])
        } else {
            None
        }
    }

    /// The element at `index`.
    pub(crate) fn at(&self, index: usize) -> (r: &T)
        requires
            index < self@.len(),
        ensures
            *r == self@[index as int],
    {
        &self.inner[index]
    }

    /// The element at `index`, to be written through.
    pub(crate) fn at_mut(&mut self, index: usize) -> (r: &mut T)
        requires
            index < old(self)@.len(),
        ensures
            *r == old(self)@[index as int],
            final(self)@ == old(self)@.update(index as int, *final(r)),
    {
        &mut self.inner[index]
    }

    /// The chunk's vector.
    pub(crate) fn as_vec(&self) -> (r: &Vec<T>)
        ensures
            r@ == self@,
    {
        &self.inner
    }

    /// Appends one element.
    pub(crate) fn push(&mut self, value: T)
        ensures
            final(self)@ == old(self)@.push(value),
    {
        self.inner.push(value);
    }

    /// Replaces the element at `index`, handing back the old one.
    pub(crate) fn replace(&mut self, index: usize, value: T) -> (old_value: T)
        requires
            index < old(self)@.len(),
        ensures
            old_value == old(self)@[index as int],
            final(self)@ == old(self)@.update(index as int, value),
    {
        let mut v = value;
        std::mem::swap(&mut self.inner[index], &mut v);
        v
    }
}

/// Calls `Vec::as_ptr` on the chunk's vector and gives the address as a
/// number. Where the allocator put the buffer is not known here, so nothing
/// is claimed of it.
#[verifier::external_body]
pub(crate) fn chunk_address<T>(w: &InnerVecWrapper<T>) -> usize {
    w.inner.as_ptr() as usize
}

} // verus!
