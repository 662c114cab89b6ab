//! A draining cursor over a `Vec<T>` that removes the last element each
//! time `next` is called.

use vstd::prelude::*;

verus! {

/// A draining cursor over a borrowed `Vec<T>`.  Each call to [`PopIter::next`]
/// removes and returns the vector's last element; elements never yielded stay
/// in the vector once the cursor is dropped.
pub struct PopIter<'a, T> {
    pub vec: &'a mut Vec<T>,
}

impl<'a, T> PopIter<'a, T> {
    /// Removes and returns the last remaining element, if any.
    pub fn next(&mut self) -> (r: Option<T>)
        ensures
            final(final(self).vec)@ == final(old(self).vec)@,
            (*old(self).vec)@.len() == 0 ==> r is None
                && (*final(self).vec)@ == (*old(self).vec)@,
            (*old(self).vec)@.len() > 0 ==> r == Some((*old(self).vec)@.last())
                && (*final(self).vec)@ == (*old(self).vec)@.drop_last(),
    {
        self.vec.pop()
    }

    /// The number of elements that are left, in constant time; the elements
    /// themselves stay in the borrowed vector.
    pub fn count(self) -> (r: usize)
        ensures
            r == old(self.vec)@.len(),
            final(self.vec)@ == old(self.vec)@,
    {
        self.vec.len()
    }

    /// Bounds on the number of elements still to be yielded.
    pub fn size_hint(&self) -> (r: (usize, Option<usize>))
        ensures
            r.0 == 0,
            r.1 == Some(old(self.vec)@.len() as usize),
    {
        (0, Some(self.vec.len()))
    }

    /// Removes and returns the front-most remaining element, if any.  Note
    /// the documented asymmetry: while `next` drains from the back, `last`
    /// takes its element from the front of the borrowed vector, and the
    /// back-most element moves into the vacated front slot.
    pub fn last(self) -> (r: Option<T>)
        ensures
            old(self.vec)@.len() == 0 ==> r is None && final(self.vec)@ == old(self.vec)@,
            old(self.vec)@.len() > 0 ==> r == Some(old(self.vec)@.first()) && final(self.vec)@
                == old(self.vec)@.update(0, old(self.vec)@.last()).drop_last(),
    {
        let it = self;
        if it.vec.is_empty() {
            None
        } else {
            Some(it.vec.swap_remove(0))
        }
    }
}

/// Conversion into a `PopIter`.
pub trait ToPopIter<T>: View<V = Seq<T>> {
    /// Borrows the sequence for draining from the back.
    fn pop_iter<'a>(&'a mut self) -> (it: PopIter<'a, T>)
        ensures
            (*it.vec)@ == old(self)@,
            final(self)@ == final(it.vec)@,
    ;
}

impl<T> ToPopIter<T> for Vec<T> {
    fn pop_iter<'a>(&'a mut self) -> (it: PopIter<'a, T>) {
        PopIter { vec: self }
    }
}

} // verus!
