//! The tree that partitions space, plane by plane.

use crate::plane::Plane;
use crate::polygon::comes_from;
use crate::polygon::Polygon;
use crate::scalar::Scalar;
use crate::scalar::zero;
use crate::scalar::zero_spec;
use crate::splitter::Splitter;
use crate::tree::Tree;
use crate::vector::Vec3;
use vstd::prelude::*;

verus! {

/// What is left of a plane when another plane has cut it.
#[derive(Debug)]
pub enum PlaneCut<T> {
    /// The plane lies in a plane with the one that cut it.
    Sibling(T),
    /// The plane lies in front of the cutting plane or behind it, or parts
    /// of it on either side.
    Cut {
        /// The parts in front of the cutting plane.
        front: Vec<T>,
        /// The parts behind the cutting plane.
        back: Vec<T>,
    },
}

/// A `PlaneCut` as a value of specifications: the lists are sequences.
pub enum CutView<T> {
    Sibling(T),
    Cut { front: Seq<T>, back: Seq<T> },
}

impl<T> View for PlaneCut<T> {
    type V = CutView<T>;

    open spec fn view(&self) -> CutView<T> {
        match *self {
            PlaneCut::Sibling(value) => CutView::Sibling(value),
            PlaneCut::Cut { front, back } => CutView::Cut { front: front@, back: back@ },
        }
    }
}

impl<T> CutView<T> {
    /// Every plane that the cut holds meets `p`.
    pub open spec fn all(self, p: spec_fn(T) -> bool) -> bool {
        match self {
            CutView::Sibling(value) => p(value),
            CutView::Cut { front, back } => {
                &&& forall|i: int| 0 <= i < front.len() ==> p(#[trigger] front[i])
                &&& forall|i: int| 0 <= i < back.len() ==> p(#[trigger] back[i])
            },
        }
    }
}

/// A plane that can partition space: it can cut another plane of its kind,
/// and tell whether another plane faces the way it does.
pub trait BspPlane: Sized + Copy {
    /// The condition under which the methods may be called: a property of
    /// the type, not of a value.
    spec fn lawful() -> bool;

    /// What `cut` returns.
    spec fn cut_spec(&self, other: Self) -> CutView<Self>;

    /// What `is_aligned` returns.
    spec fn is_aligned_spec(&self, other: &Self) -> bool;

    /// Cuts `other` by this plane.
    fn cut(&self, other: Self) -> (r: PlaneCut<Self>)
        requires
            Self::lawful(),
        ensures
            r@ == self.cut_spec(other),
    ;

    /// Whether `other` faces the way this plane does.
    fn is_aligned(&self, other: &Self) -> (r: bool)
        requires
            Self::lawful(),
        ensures
            r == self.is_aligned_spec(other),
    ;
}

/// The number of levels that an insertion may go down a tree. No tree that
/// fits in memory is this deep; the bound is what the recursion of an
/// insertion is measured by.
pub const MAX_DEPTH: usize = usize::MAX;

/// A node of the tree, and with its children a tree itself.
#[derive(Debug)]
pub struct BspNode<T> {
    values: Vec<T>,
    front: Option<Box<BspNode<T>>>,
    back: Option<Box<BspNode<T>>>,
}

/// The tree under one side of a node.
pub open spec fn side_view<T>(side: Option<Box<BspNode<T>>>) -> Tree<T> {
    match side {
        None => Tree::Absent,
        Some(node) => node@,
    }
}

impl<T> BspNode<T> {
    /// The node and what is under it, as a value of specifications.
    pub closed spec fn tree(&self) -> Tree<T>
        decreases self,
    {
        Tree::Node {
            values: self.values@,
            front: Box::new(
                match self.front {
                    None => Tree::Absent,
                    Some(node) => node.tree(),
                },
            ),
            back: Box::new(
                match self.back {
                    None => Tree::Absent,
                    Some(node) => node.tree(),
                },
            ),
        }
    }
}

impl<T> View for BspNode<T> {
    type V = Tree<T>;

    open spec fn view(&self) -> Tree<T> {
        self.tree()
    }
}

impl<T> BspNode<T> {
    /// A tree without planes.
    pub fn new() -> (r: Self)
        ensures
            r@ == Tree::<T>::empty(),
            r@.is_proper(),
    {
        reveal_with_fuel(Tree::is_proper, 2);
        BspNode { values: Vec::new(), front: None, back: None }
    }
}

impl<T: Copy> BspNode<T> {
    /// A second tree with the same planes in the same places.
    fn duplicate(&self) -> (r: Self)
        ensures
            r@ == self@,
        decreases self,
    {
        let mut values: Vec<T> = Vec::new();
        let mut i: usize = 0;
        while i < self.values.len()
            invariant
                i <= self.values@.len(),
                values@ == self.values@.take(i as int),
            decreases self.values@.len() - i,
        {
            values.push(self.values[i]);
            proof {
                assert(self.values@.take(i + 1) =~= self.values@.take(i as int).push(
                    self.values@[i as int],
                ));
            }
            i = i + 1;
        }
        proof {
            assert(self.values@.take(self.values@.len() as int) =~= self.values@);
        }
        let front = match &self.front {
            None => None,
            Some(node) => Some(Box::new(node.duplicate())),
        };
        let back = match &self.back {
            None => None,
            Some(node) => Some(Box::new(node.duplicate())),
        };
        BspNode { values, front, back }
    }
}

impl<T: Copy> Clone for BspNode<T> {
    fn clone(&self) -> (r: Self)
        ensures
            r@ == self@,
    {
        self.duplicate()
    }
}

/// Inserts the planes, the first one first, into the tree under one side of
/// a node, with `room` levels to go down. The node on that side is made
/// when the first plane arrives.
pub fn add_side<T: BspPlane>(side: &mut Option<Box<BspNode<T>>>, planes: Vec<T>, room: usize)
    requires
        T::lawful(),
    ensures
        side_view(*final(side)) == side_view(*old(side)).insert_all(planes@, room as nat),
    decreases room, planes@.len() + 1,
{
    if planes.len() != 0 {
        let ghost before = side_view(*side);
        let mut node = match side.take() {
            Some(node) => node,
            None => Box::new(BspNode::new()),
        };
        let mut i: usize = 0;
        while i < planes.len()
            invariant
                T::lawful(),
                i <= planes@.len(),
                planes@.len() > 0,
                i == 0 ==> node@ == (if before == Tree::<T>::Absent {
                    Tree::<T>::empty()
                } else {
                    before
                }),
                i > 0 ==> node@ == before.insert_all(planes@.take(i as int), room as nat),
            decreases planes@.len() - i,
        {
            node.insert_within(planes[i], room);
            proof {
                let upto = planes@.take(i + 1);
                assert(upto.drop_last() =~= planes@.take(i as int));
                assert(upto.last() == planes@[i as int]);
                if i == 0 {
                    assert(planes@.take(0).len() == 0);
                    assert(before.insert_all(planes@.take(0), room as nat) == before);
                    assert(Tree::<T>::empty().insert(planes@[0], room as nat)
                        == Tree::<T>::Absent.insert(planes@[0], room as nat));
                }
            }
            i = i + 1;
        }
        proof {
            assert(planes@.take(planes@.len() as int) =~= planes@);
        }
        *side = Some(node);
    }
}

impl<T: BspPlane> BspNode<T> {
    /// Inserts `value` into the tree. The tree may grow new nodes.
    pub fn insert(&mut self, value: T)
        requires
            T::lawful(),
        ensures
            final(self)@ == old(self)@.insert(value, MAX_DEPTH as nat),
            old(self)@.is_proper() ==> final(self)@.is_proper(),
    {
        proof {
            if self@.is_proper() {
                self@.lemma_insert_is_proper(value, MAX_DEPTH as nat);
            }
        }
        self.insert_within(value, MAX_DEPTH)
    }

    /// Inserts `value` into the tree, going down `room` levels at most.
    pub fn insert_within(&mut self, value: T, room: usize)
        requires
            T::lawful(),
        ensures
            final(self)@ == old(self)@.insert(value, room as nat),
        decreases room, 0nat,
    {
        if self.values.len() == 0 || room == 0 {
            self.values.push(value);
            return;
        }
        match self.values[0].cut(value) {
            PlaneCut::Sibling(kept) => self.values.push(kept),
            PlaneCut::Cut { front, back } => {
                add_side(&mut self.front, front, room - 1);
                add_side(&mut self.back, back, room - 1);
            },
        }
    }

    /// Appends the planes of the tree to `out`, those furthest the way
    /// that `base` faces first: from back to front for a viewer who looks
    /// the way that `base` faces.
    pub fn order(&self, base: &T, out: &mut Vec<T>)
        requires
            T::lawful(),
        ensures
            final(out)@ == old(out)@ + self@.order(*base),
        decreases self,
    {
        if self.values.len() == 0 {
            assert(out@ + self@.order(*base) =~= out@);
            return;
        }
        let aligned = base.is_aligned(&self.values[0]);
        let (former, latter) = if aligned {
            (&self.front, &self.back)
        } else {
            (&self.back, &self.front)
        };
        let ghost start = out@;
        let ghost first = side_view(*former).order(*base);
        let ghost last = side_view(*latter).order(*base);
        if let Some(node) = former {
            node.order(base, out);
        }
        let ghost middle = out@;
        assert(middle =~= start + first);
        let mut i: usize = 0;
        while i < self.values.len()
            invariant
                i <= self.values@.len(),
                out@ == middle + self.values@.take(i as int),
            decreases self.values@.len() - i,
        {
            out.push(self.values[i]);
            proof {
                assert(self.values@.take(i + 1) =~= self.values@.take(i as int).push(
                    self.values@[i as int],
                ));
                assert(out@ =~= middle + self.values@.take(i + 1));
            }
            i = i + 1;
        }
        proof {
            assert(self.values@.take(self.values@.len() as int) =~= self.values@);
        }
        if let Some(node) = latter {
            node.order(base, out);
        }
        proof {
            assert(out@ =~= start + first + self.values@ + last);
            assert(self@.order(*base) =~= first + self.values@ + last);
            assert(out@ =~= start + self@.order(*base));
        }
    }
}

/// The polygon that stands for a view in the order of a tree: its plane
/// goes through the origin and its normal is the view reversed, `0 - view`
/// in each coordinate. Its corners are at the origin.
pub open spec fn view_base<T: Scalar, A>(view: Vec3<T>, anchor: A) -> Polygon<T, A> {
    let origin = Vec3 { x: zero_spec::<T>(), y: zero_spec::<T>(), z: zero_spec::<T>() };
    Polygon {
        points: [origin, origin, origin, origin],
        plane: Plane { normal: origin.minus_spec(view), offset: zero_spec::<T>() },
        anchor,
    }
}

/// The splitter that keeps its polygons in a tree, and reads the tree from
/// back to front.
pub struct BspSplitter<T, A> {
    tree: BspNode<Polygon<T, A>>,
    result: Vec<Polygon<T, A>>,
}

impl<T: Scalar, A: Copy> BspSplitter<T, A> {
    /// The tree of the polygons added so far.
    pub closed spec fn tree(&self) -> Tree<Polygon<T, A>> {
        self.tree@
    }

    /// What the last sort returned.
    pub closed spec fn result(&self) -> Seq<Polygon<T, A>> {
        self.result@
    }

    /// A splitter that holds no polygon.
    pub fn new() -> (r: Self)
        ensures
            r.tree() == Tree::<Polygon<T, A>>::empty(),
            r.result() == Seq::<Polygon<T, A>>::empty(),
    {
        BspSplitter { tree: BspNode::new(), result: Vec::new() }
    }
}

impl<T: Scalar, A: Copy + Default> Splitter<T, A> for BspSplitter<T, A> {
    /// The tree of the polygons.
    type Model = Tree<Polygon<T, A>>;

    open spec fn model(&self) -> Tree<Polygon<T, A>> {
        self.tree()
    }

    /// A tree without planes.
    open spec fn after_reset(model: Tree<Polygon<T, A>>) -> Tree<Polygon<T, A>> {
        Tree::empty()
    }

    /// The tree with the polygon inserted.
    open spec fn after_add(model: Tree<Polygon<T, A>>, poly: Polygon<T, A>) -> Tree<
        Polygon<T, A>,
    > {
        model.insert(poly, MAX_DEPTH as nat)
    }

    /// The tree as it is, and its order for the view. The anchor of the
    /// polygon that stands for the view does not matter.
    open spec fn after_sort(model: Tree<Polygon<T, A>>, view: Vec3<T>) -> (
        Tree<Polygon<T, A>>,
        Seq<Polygon<T, A>>,
    ) {
        (model, model.order(view_base(view, arbitrary())))
    }

    fn reset(&mut self) {
        self.tree = BspNode::new();
    }

    fn add(&mut self, poly: Polygon<T, A>) {
        self.tree.insert(poly);
    }

    fn sort(&mut self, view: Vec3<T>) -> (r: &[Polygon<T, A>])
        ensures
            final(self).result() == r@,
    {
        let origin = Vec3::new(zero::<T>(), zero::<T>(), zero::<T>());
        let base = Polygon {
            points: [origin, origin, origin, origin],
            plane: Plane { normal: origin.minus(view), offset: zero::<T>() },
            anchor: A::default(),
        };
        self.result.clear();
        self.tree.order(&base, &mut self.result);
        proof {
            assert(self.result@ =~= self.tree@.order(base));
            let other = view_base::<T, A>(view, arbitrary());
            assert(base.points =~= other.points);
            self.tree@.lemma_order_by_alignment(base, other);
        }
        self.result.as_slice()
    }
}

/// The tree that the polygons of `input` make when they are inserted in
/// turn into `start`, written as the tree that `solve` speaks of.
pub proof fn lemma_fold_is_insert_all<T: BspPlane>(
    start: Tree<T>,
    input: Seq<T>,
    room: nat,
    step: spec_fn(Tree<T>, T) -> Tree<T>,
)
    requires
        forall|tree: Tree<T>, value: T| #[trigger] step(tree, value) == tree.insert(value, room),
    ensures
        input.fold_left(start, step) == start.insert_all(input, room),
    decreases input.len(),
{
    if input.len() > 0 {
        lemma_fold_is_insert_all(start, input.drop_last(), room, step);
    }
}

impl<T: Scalar, A: Copy + Default> BspSplitter<T, A> {
    /// What `solve` returns: the order, for the view, of the tree that the
    /// polygons of `input` make when they are inserted in turn into an empty
    /// tree, whatever the anchor of the polygon that stands for the view. It
    /// holds every polygon of that tree once, and each has the plane and the
    /// anchor of a polygon of `input`.
    pub proof fn lemma_solve(
        before: Tree<Polygon<T, A>>,
        input: Seq<Polygon<T, A>>,
        view: Vec3<T>,
        anchor: A,
    )
        ensures
            ({
                let tree = Tree::<Polygon<T, A>>::empty().insert_all(input, MAX_DEPTH as nat);
                let (after, out) = Self::after_sort(
                    input.fold_left(
                        Self::after_reset(before),
                        |model: Tree<Polygon<T, A>>, poly: Polygon<T, A>|
                            Self::after_add(model, poly),
                    ),
                    view,
                );
                &&& after == tree
                &&& out == tree.order(view_base(view, anchor))
                &&& out.to_multiset() == tree.contents()
                &&& forall|i: int| 0 <= i < out.len() ==> comes_from(#[trigger] out[i], input)
            }),
    {
        let empty = Tree::<Polygon<T, A>>::empty();
        let tree = empty.insert_all(input, MAX_DEPTH as nat);
        let step = |model: Tree<Polygon<T, A>>, poly: Polygon<T, A>| Self::after_add(model, poly);
        lemma_fold_is_insert_all(empty, input, MAX_DEPTH as nat, step);
        let base = view_base::<T, A>(view, anchor);
        let other = view_base::<T, A>(view, arbitrary());
        assert(base.points =~= other.points);
        tree.lemma_order_by_alignment(other, base);
        reveal_with_fuel(Tree::is_proper, 2);
        reveal_with_fuel(Tree::all, 2);
        empty.lemma_insert_all_is_proper(input, MAX_DEPTH as nat);
        tree.lemma_order_holds_the_contents(base);
        let p = |q: Polygon<T, A>| comes_from(q, input);
        Polygon::<T, A>::lemma_cut_keeps_source(input);
        assert forall|i: int| 0 <= i < input.len() implies p(#[trigger] input[i]) by {
            assert(input[i].plane == input[i].plane);
        }
        empty.lemma_insert_all_keeps(input, MAX_DEPTH as nat, p);
        tree.lemma_order_keeps(base, p);
    }
}

} // verus!
