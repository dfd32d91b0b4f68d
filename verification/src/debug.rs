//! A record of the work that a splitter was given.

use crate::polygon::Polygon;
use crate::scalar::conversion_is_specified;
use crate::scalar::Scalar;
use crate::scalar::zero_spec;
use crate::splitter::Splitter;
use crate::vector::Vec3;
use vstd::prelude::*;

verus! {

/// The work of a splitter: what it was given and what it returned.
pub struct Dump<T, A> {
    input: Vec<Polygon<T, A>>,
    view: Vec3<T>,
    output: Vec<Polygon<T, A>>,
}

/// A `Dump` as a value of specifications.
pub struct DumpView<T, A> {
    /// The polygons added since the last reset.
    pub input: Seq<Polygon<T, A>>,
    /// The view of the last sort.
    pub view: Vec3<T>,
    /// What the last sort returned.
    pub output: Seq<Polygon<T, A>>,
}

impl<T: Scalar, A: Copy> Dump<T, A> {
    /// The record as a value of specifications.
    pub closed spec fn model(&self) -> DumpView<T, A> {
        DumpView { input: self.input@, view: self.view, output: self.output@ }
    }

    /// The polygons added since the last reset.
    pub fn input(&self) -> (r: &[Polygon<T, A>])
        ensures
            r@ == self.model().input,
    {
        self.input.as_slice()
    }

    /// The view of the last sort.
    pub fn view(&self) -> (r: Vec3<T>)
        ensures
            r == self.model().view,
    {
        self.view
    }

    /// What the last sort returned.
    pub fn output(&self) -> (r: &[Polygon<T, A>])
        ensures
            r@ == self.model().output,
    {
        self.output.as_slice()
    }
}

/// A splitter that records its work and hands it on to another splitter,
/// which does it.
pub struct DebugLayer<T, A, Z> {
    inner: Z,
    dump: Dump<T, A>,
}

impl<T: Scalar, A: Copy, Z> DebugLayer<T, A, Z> {
    /// The splitter that does the work.
    pub closed spec fn inner_spec(&self) -> Z {
        self.inner
    }

    /// The record of the work so far.
    pub closed spec fn dump_spec(&self) -> Dump<T, A> {
        self.dump
    }

    /// A record, still empty, around `inner`.
    pub fn new(inner: Z) -> (r: Self)
        ensures
            r.inner_spec() == inner,
            r.dump_spec().model().input == Seq::<Polygon<T, A>>::empty(),
            r.dump_spec().model().output == Seq::<Polygon<T, A>>::empty(),
            conversion_is_specified::<T>() ==> r.dump_spec().model().view == (Vec3 {
                x: zero_spec::<T>(),
                y: zero_spec::<T>(),
                z: zero_spec::<T>(),
            }),
    {
        DebugLayer {
            inner,
            dump: Dump {
                input: Vec::new(),
                view: Vec3 { x: T::from(0u8), y: T::from(0u8), z: T::from(0u8) },
                output: Vec::new(),
            },
        }
    }

    /// The record of the work so far.
    pub fn dump(&self) -> (r: &Dump<T, A>)
        ensures
            *r == self.dump_spec(),
    {
        &self.dump
    }
}

impl<T: Scalar, A: Copy, Z: Splitter<T, A>> Splitter<T, A> for DebugLayer<T, A, Z> {
    /// What the inner splitter holds, and the record.
    type Model = (Z::Model, DumpView<T, A>);

    open spec fn model(&self) -> (Z::Model, DumpView<T, A>) {
        (self.inner_spec().model(), self.dump_spec().model())
    }

    /// The inner splitter is reset, and the record holds no input.
    open spec fn after_reset(model: (Z::Model, DumpView<T, A>)) -> (Z::Model, DumpView<T, A>) {
        (
            Z::after_reset(model.0),
            DumpView { input: Seq::empty(), view: model.1.view, output: model.1.output },
        )
    }

    /// The inner splitter has the polygon added, and the record has it as
    /// its last input.
    open spec fn after_add(model: (Z::Model, DumpView<T, A>), poly: Polygon<T, A>) -> (
        Z::Model,
        DumpView<T, A>,
    ) {
        (
            Z::after_add(model.0, poly),
            DumpView {
                input: model.1.input.push(poly),
                view: model.1.view,
                output: model.1.output,
            },
        )
    }

    /// The inner splitter has sorted, and the record holds the view and what
    /// came out, which is returned.
    open spec fn after_sort(model: (Z::Model, DumpView<T, A>), view: Vec3<T>) -> (
        (Z::Model, DumpView<T, A>),
        Seq<Polygon<T, A>>,
    ) {
        let (inner, out) = Z::after_sort(model.0, view);
        ((inner, DumpView { input: model.1.input, view, output: out }), out)
    }

    fn reset(&mut self) {
        self.dump.input.clear();
        self.inner.reset();
    }

    fn add(&mut self, polygon: Polygon<T, A>) {
        self.dump.input.push(polygon);
        self.inner.add(polygon);
    }

    fn sort(&mut self, view: Vec3<T>) -> (r: &[Polygon<T, A>]) {
        self.dump.view = view;
        let sorted = self.inner.sort(view);
        let mut output: Vec<Polygon<T, A>> = Vec::new();
        let mut i: usize = 0;
        while i < sorted.len()
            invariant
                i <= sorted@.len(),
                output@ == sorted@.take(i as int),
            decreases sorted@.len() - i,
        {
            output.push(sorted[i]);
            proof {
                assert(sorted@.take(i + 1) =~= sorted@.take(i as int).push(sorted@[i as int]));
            }
            i = i + 1;
        }
        proof {
            assert(sorted@.take(sorted@.len() as int) =~= sorted@);
        }
        self.dump.output = output;
        sorted
    }
}

} // verus!
