//! What a splitter offers, whichever way it splits.

use crate::polygon::Polygon;
use crate::scalar::lawful;
use crate::scalar::Scalar;
use crate::vector::Vec3;
use vstd::prelude::*;

verus! {

/// A set of polygons that is split into fragments which do not pierce each
/// other.
///
/// What a splitter holds is a value of specifications, its model, and each
/// call is a function on models; each kind of splitter says what they are.
pub trait Splitter<T: Scalar, A: Copy>: Sized {
    /// What a splitter holds, as a value of specifications.
    type Model;

    /// What this splitter holds.
    spec fn model(&self) -> Self::Model;

    /// What a splitter holds after a reset.
    spec fn after_reset(model: Self::Model) -> Self::Model;

    /// What a splitter holds once `poly` has been added.
    spec fn after_add(model: Self::Model, poly: Polygon<T, A>) -> Self::Model;

    /// What a splitter holds after a sort, and what the sort returns.
    spec fn after_sort(model: Self::Model, view: Vec3<T>) -> (Self::Model, Seq<Polygon<T, A>>);

    /// Forgets every polygon.
    fn reset(&mut self)
        ensures
            final(self).model() == Self::after_reset(old(self).model()),
    ;

    /// Takes one more polygon.
    fn add(&mut self, poly: Polygon<T, A>)
        requires
            lawful::<T>(),
        ensures
            final(self).model() == Self::after_add(old(self).model(), poly),
    ;

    /// The fragments of the polygons added so far. `view` points towards
    /// the viewer.
    fn sort(&mut self, view: Vec3<T>) -> (r: &[Polygon<T, A>])
        requires
            lawful::<T>(),
        ensures
            (final(self).model(), r@) == Self::after_sort(old(self).model(), view),
    ;

    /// The fragments of `input`: a reset, every polygon of `input` added in
    /// turn, and a sort.
    fn solve(&mut self, input: &[Polygon<T, A>], view: Vec3<T>) -> (r: &[Polygon<T, A>])
        requires
            lawful::<T>(),
        ensures
            (final(self).model(), r@) == Self::after_sort(
                input@.fold_left(
                    Self::after_reset(old(self).model()),
                    |model: Self::Model, poly: Polygon<T, A>| Self::after_add(model, poly),
                ),
                view,
            ),
    {
        self.reset();
        let ghost start = self.model();
        let ghost step = |model: Self::Model, poly: Polygon<T, A>| Self::after_add(model, poly);
        let mut i: usize = 0;
        while i < input.len()
            invariant
                lawful::<T>(),
                i <= input@.len(),
                step == |model: Self::Model, poly: Polygon<T, A>| Self::after_add(model, poly),
                self.model() == input@.take(i as int).fold_left(start, step),
            decreases input@.len() - i,
        {
            self.add(input[i]);
            proof {
                let upto = input@.take(i + 1);
                assert(upto.drop_last() =~= input@.take(i as int));
                assert(upto.last() == input@[i as int]);
            }
            i = i + 1;
        }
        proof {
            assert(input@.take(input@.len() as int) =~= input@);
        }
        self.sort(view)
    }
}

} // verus!
