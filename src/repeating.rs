//! A cursor that walks a non-empty table forever, wrapping at its end.

use vstd::prelude::*;

verus! {

/// Walks the items of a non-empty vector in order, starting over after the last.
pub struct RepeatingIterator<T> {
    vec: Vec<T>,
    index: usize,
}

impl<T> RepeatingIterator<T> {
    /// The table that is walked.
    pub closed spec fn items(&self) -> Seq<T> {
        self.vec@
    }

    /// The index of the current item.
    pub closed spec fn position(&self) -> nat {
        self.index as nat
    }

    pub closed spec fn wf(&self) -> bool {
        self.vec@.len() > 0 && self.index < self.vec@.len()
    }

    /// Starts at the first item of `vec`.
    pub fn new(vec: Vec<T>) -> (r: RepeatingIterator<T>)
        requires
            vec@.len() > 0,
        ensures
            r.wf(),
            r.items() == vec@,
            r.position() == 0,
    {
        RepeatingIterator { vec, index: 0 }
    }

    /// The item under the cursor.
    pub fn current(&self) -> (r: &T)
        requires
            self.wf(),
        ensures
            *r == self.items()[self.position() as int],
    {
        &self.vec[self.index]
    }
}

impl<T: Copy> RepeatingIterator<T> {
    /// Hands out the item under the cursor and moves to the next one, wrapping
    /// to the first after the last. Never runs out.
    pub fn next(&mut self) -> (r: Option<T>)
        requires
            old(self).wf(),
        ensures
            final(self).wf(),
            final(self).items() == old(self).items(),
            r == Some(old(self).items()[old(self).position() as int]),
            final(self).position() == (old(self).position() + 1) % old(self).items().len(),
    {
        let len = self.vec.len();
        let value = self.vec[self.index];
        self.index = (self.index + 1) % len;
        Some(value)
    }
}

} // verus!
