//! Helper traits on growable sequences: in-place filtering with element
//! rewriting, and simultaneous mutable access to two positions.

use vstd::prelude::*;

verus! {

/// `outs` is one possible record of running `f` over every element of
/// `input` in order: for each position, the rewritten element together with
/// the decision whether to keep it.
pub open spec fn valid_outs<T, F: Fn(T) -> (T, bool)>(
    f: F,
    input: Seq<T>,
    outs: Seq<(T, bool)>,
) -> bool {
    &&& outs.len() == input.len()
    &&& forall|i: int| 0 <= i < outs.len() ==> call_ensures(f, (input[i],), #[trigger] outs[i])
}

/// The rewritten elements whose decision was to keep them, in order.
pub open spec fn kept<T>(outs: Seq<(T, bool)>) -> Seq<T>
    decreases outs.len(),
{
    if outs.len() == 0 {
        Seq::empty()
    } else if outs.last().1 {
        kept(outs.drop_last()).push(outs.last().0)
    } else {
        kept(outs.drop_last())
    }
}

/// Used to remove all elements from a collection for which the predicate
/// does not decide to keep them.
pub trait RetainMut<T>: View<V = Seq<T>> {
    /// Rewrites each element in order by `f` and retains exactly those whose
    /// decision is true, preserving the order of the retained elements.
    ///
    /// The predicate takes each element by value and hands back the element
    /// to keep (or drop) together with its decision, so it may rewrite
    /// elements as a side effect of the filtering pass.
    fn retain_mut<F: Fn(T) -> (T, bool)>(&mut self, f: F)
        requires
            forall|i: int| 0 <= i < old(self)@.len() ==> call_requires(f, (old(self)@[i],)),
        ensures
            exists|outs: Seq<(T, bool)>|
                #[trigger] valid_outs(f, old(self)@, outs) && final(self)@ == kept(outs),
    ;
}

impl<T> RetainMut<T> for Vec<T> {
    fn retain_mut<F: Fn(T) -> (T, bool)>(&mut self, f: F) {
        let ghost orig: Seq<T> = self@;
        let mut input: Vec<T> = Vec::new();
        std::mem::swap(&mut input, self);
        let ghost mut outs: Seq<(T, bool)> = Seq::empty();
        while input.len() > 0
            invariant
                outs.len() + input@.len() == orig.len(),
                input@ == orig.subrange(outs.len() as int, orig.len() as int),
                forall|i: int| 0 <= i < orig.len() ==> call_requires(f, (orig[i],)),
                forall|i: int|
                    0 <= i < outs.len() ==> call_ensures(f, (orig[i],), #[trigger] outs[i]),
                self@ == kept(outs),
            decreases input@.len(),
        {
            let ghost prev_outs = outs;
            let x = input.remove(0);
            proof {
                assert(x == orig[outs.len() as int]);
            }
            let (y, keep) = f(x);
            proof {
                outs = outs.push((y, keep));
                assert(outs.drop_last() == prev_outs);
            }
            if keep {
                self.push(y);
            }
            proof {
                assert(input@ == orig.subrange(outs.len() as int, orig.len() as int));
            }
        }
        proof {
            assert(outs.len() == orig.len());
            assert(valid_outs(f, orig, outs));
        }
    }
}

/// Two simultaneous mutable borrows of the elements at positions `lo` and
/// `hi` of `v`, with `lo` strictly below `hi`.
fn two_mut<'a, T>(v: &'a mut Vec<T>, lo: usize, hi: usize) -> (r: (&'a mut T, &'a mut T))
    requires
        lo < hi,
        hi < old(v)@.len(),
    ensures
        *r.0 == old(v)@[lo as int],
        *r.1 == old(v)@[hi as int],
        final(v)@ == old(v)@.update(lo as int, *final(r.0)).update(hi as int, *final(r.1)),
{
    let slice = v.as_mut_slice();
    let (left, right) = slice.split_at_mut(hi);
    let (_pre, mid) = left.split_at_mut(lo);
    let ra = mid.first_mut().unwrap();
    let rb = right.first_mut().unwrap();
    (ra, rb)
}

/// Used to mutably borrow two elements from a collection at once.
pub trait GetTwo<T>: View<V = Seq<T>> {
    /// Mutably borrows the elements at two distinct in-bounds positions at
    /// once; yields nothing when the positions coincide or either is out of
    /// bounds.
    fn get_two<'a>(&'a mut self, index_a: usize, index_b: usize) -> (r: Option<
        (&'a mut T, &'a mut T),
    >)
        ensures
            (index_a == index_b || index_a >= old(self)@.len() || index_b >= old(self)@.len())
                ==> (r is None && final(self)@ == old(self)@),
            (index_a != index_b && index_a < old(self)@.len() && index_b < old(self)@.len()) ==> (
            r matches Some(pair) && *pair.0 == old(self)@[index_a as int] && *pair.1 == old(
                self,
            )@[index_b as int] && final(self)@ == old(self)@.update(
                index_a as int,
                *final(pair.0),
            ).update(index_b as int, *final(pair.1))),
    ;

    /// Mutably borrows the elements at two positions at once; the caller
    /// must have already established that the positions are distinct and in
    /// bounds, so no run-time check is made.
    fn get_two_unchecked<'a>(&'a mut self, index_a: usize, index_b: usize) -> (r: (
        &'a mut T,
        &'a mut T,
    ))
        requires
            index_a != index_b,
            index_a < old(self)@.len(),
            index_b < old(self)@.len(),
        ensures
            *r.0 == old(self)@[index_a as int],
            *r.1 == old(self)@[index_b as int],
            final(self)@ == old(self)@.update(index_a as int, *final(r.0)).update(
                index_b as int,
                *final(r.1),
            ),
    ;
}

impl<T> GetTwo<T> for Vec<T> {
    fn get_two<'a>(&'a mut self, index_a: usize, index_b: usize) -> (r: Option<
        (&'a mut T, &'a mut T),
    >) {
        if index_a != index_b && index_a < self.len() && index_b < self.len() {
            Some(self.get_two_unchecked(index_a, index_b))
        } else {
            None
        }
    }

    fn get_two_unchecked<'a>(&'a mut self, index_a: usize, index_b: usize) -> (r: (
        &'a mut T,
        &'a mut T,
    )) {
        if index_a < index_b {
            two_mut(self, index_a, index_b)
        } else {
            let (rb, ra) = two_mut(self, index_b, index_a);
            (ra, rb)
        }
    }
}

} // verus!
