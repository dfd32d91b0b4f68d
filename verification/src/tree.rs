//! A partition of space as a value of specifications, and what holds of it.

use crate::bsp::BspPlane;
use crate::bsp::CutView;
use vstd::multiset::Multiset;
use vstd::prelude::*;

verus! {

/// A partition of space as a value of specifications.
pub enum Tree<T> {
    /// No node.
    Absent,
    /// A node: planes that lie in one plane, what is in front of them and
    /// what is behind.
    Node { values: Seq<T>, front: Box<Tree<T>>, back: Box<Tree<T>> },
}

impl<T> Tree<T> {
    /// A node without planes and without children.
    pub open spec fn empty() -> Tree<T> {
        Tree::Node {
            values: Seq::empty(),
            front: Box::new(Tree::Absent),
            back: Box::new(Tree::Absent),
        }
    }

    /// Only a node with a plane has children.
    pub open spec fn is_proper(self) -> bool
        decreases self,
    {
        match self {
            Tree::Absent => true,
            Tree::Node { values, front, back } => {
                &&& values.len() == 0 ==> *front == Tree::<T>::Absent && *back == Tree::<T>::Absent
                &&& front.is_proper()
                &&& back.is_proper()
            },
        }
    }

    /// The planes of the tree, each as often as the tree holds it.
    pub open spec fn contents(self) -> Multiset<T>
        decreases self,
    {
        match self {
            Tree::Absent => Multiset::empty(),
            Tree::Node { values, front, back } => values.to_multiset().add(front.contents()).add(
                back.contents(),
            ),
        }
    }

    /// Every plane of the tree meets `p`.
    pub open spec fn all(self, p: spec_fn(T) -> bool) -> bool
        decreases self,
    {
        match self {
            Tree::Absent => true,
            Tree::Node { values, front, back } => {
                &&& forall|i: int| 0 <= i < values.len() ==> p(#[trigger] values[i])
                &&& front.all(p)
                &&& back.all(p)
            },
        }
    }
}

impl<T: BspPlane> Tree<T> {
    /// The tree after `value` has been inserted, with `room` levels to go
    /// down.
    ///
    /// A node without planes takes the value. Otherwise the node's first
    /// plane cuts it: a sibling stays in the node, and the parts in front and
    /// behind are inserted one level down, on their side. Where no level is
    /// left the value stays in the node.
    pub open spec fn insert(self, value: T, room: nat) -> Tree<T>
        decreases room, 0nat,
    {
        match self {
            Tree::Absent => Tree::Node {
                values: seq![value],
                front: Box::new(Tree::Absent),
                back: Box::new(Tree::Absent),
            },
            Tree::Node { values, front, back } => {
                if values.len() == 0 || room == 0 {
                    Tree::Node { values: values.push(value), front, back }
                } else {
                    match values[0].cut_spec(value) {
                        CutView::Sibling(kept) => Tree::Node {
                            values: values.push(kept),
                            front,
                            back,
                        },
                        CutView::Cut { front: before, back: behind } => Tree::Node {
                            values,
                            front: Box::new(front.insert_all(before, (room - 1) as nat)),
                            back: Box::new(back.insert_all(behind, (room - 1) as nat)),
                        },
                    }
                }
            },
        }
    }

    /// The tree after the planes have been inserted, the first one first.
    pub open spec fn insert_all(self, planes: Seq<T>, room: nat) -> Tree<T>
        decreases room, planes.len() + 1,
    {
        if planes.len() == 0 {
            self
        } else {
            self.insert_all(planes.drop_last(), room).insert(planes.last(), room)
        }
    }

    /// The planes of the tree in their order along the direction that
    /// `base` faces, those furthest that way first.
    ///
    /// At a node whose first plane faces the way `base` does, what is in
    /// front of the node comes first, then the node's planes, then what is
    /// behind; at any other node the two sides change places. For a viewer
    /// who looks the way that `base` faces, this is the order from back to
    /// front.
    pub open spec fn order(self, base: T) -> Seq<T>
        decreases self,
    {
        match self {
            Tree::Absent => Seq::empty(),
            Tree::Node { values, front, back } => {
                if values.len() == 0 {
                    Seq::empty()
                } else if base.is_aligned_spec(&values[0]) {
                    front.order(base) + values + back.order(base)
                } else {
                    back.order(base) + values + front.order(base)
                }
            },
        }
    }
}

/// Whatever is cut, a plane that meets `p` leaves only planes that meet `p`.
pub open spec fn cut_keeps<T: BspPlane>(p: spec_fn(T) -> bool) -> bool {
    forall|plane: T, other: T| p(other) ==> (#[trigger] plane.cut_spec(other)).all(p)
}

impl<T: BspPlane> Tree<T> {
    /// A property that every cut keeps is kept by an insertion: where the
    /// planes of the tree and the new plane have it, the planes of the new
    /// tree have it.
    pub proof fn lemma_insert_keeps(self, value: T, room: nat, p: spec_fn(T) -> bool)
        requires
            cut_keeps(p),
            self.all(p),
            p(value),
        ensures
            self.insert(value, room).all(p),
        decreases room, 0nat,
    {
        match self {
            Tree::Absent => {
                reveal_with_fuel(Tree::all, 2);
            },
            Tree::Node { values, front, back } => {
                if values.len() == 0 || room == 0 {
                } else {
                    match values[0].cut_spec(value) {
                        CutView::Sibling(kept) => {},
                        CutView::Cut { front: before, back: behind } => {
                            front.lemma_insert_all_keeps(before, (room - 1) as nat, p);
                            back.lemma_insert_all_keeps(behind, (room - 1) as nat, p);
                        },
                    }
                }
            },
        }
    }

    /// A property that every cut keeps is kept by the insertion of several
    /// planes.
    pub proof fn lemma_insert_all_keeps(self, planes: Seq<T>, room: nat, p: spec_fn(T) -> bool)
        requires
            cut_keeps(p),
            self.all(p),
            forall|i: int| 0 <= i < planes.len() ==> p(#[trigger] planes[i]),
        ensures
            self.insert_all(planes, room).all(p),
        decreases room, planes.len() + 1,
    {
        if planes.len() > 0 {
            self.lemma_insert_all_keeps(planes.drop_last(), room, p);
            self.insert_all(planes.drop_last(), room).lemma_insert_keeps(planes.last(), room, p);
        }
    }

    /// What every plane of a tree has, every plane of its order has.
    pub proof fn lemma_order_keeps(self, base: T, p: spec_fn(T) -> bool)
        requires
            self.all(p),
        ensures
            forall|i: int| 0 <= i < self.order(base).len() ==> p(#[trigger] self.order(base)[i]),
        decreases self,
    {
        match self {
            Tree::Absent => {},
            Tree::Node { values, front, back } => {
                front.lemma_order_keeps(base, p);
                back.lemma_order_keeps(base, p);
                let f = front.order(base);
                let b = back.order(base);
                let whole = self.order(base);
                assert forall|i: int| 0 <= i < whole.len() implies p(#[trigger] whole[i]) by {
                    if values.len() == 0 {
                    } else if base.is_aligned_spec(&values[0]) {
                        if i < f.len() {
                            assert(whole[i] == f[i]);
                        } else if i < f.len() + values.len() {
                            assert(whole[i] == values[i - f.len()]);
                        } else {
                            assert(whole[i] == b[i - f.len() - values.len()]);
                        }
                    } else {
                        if i < b.len() {
                            assert(whole[i] == b[i]);
                        } else if i < b.len() + values.len() {
                            assert(whole[i] == values[i - b.len()]);
                        } else {
                            assert(whole[i] == f[i - b.len() - values.len()]);
                        }
                    }
                }
            },
        }
    }

    /// An insertion leaves a proper tree proper.
    pub proof fn lemma_insert_is_proper(self, value: T, room: nat)
        requires
            self.is_proper(),
        ensures
            self.insert(value, room).is_proper(),
        decreases room, 0nat,
    {
        match self {
            Tree::Absent => {
                reveal_with_fuel(Tree::is_proper, 2);
            },
            Tree::Node { values, front, back } => {
                if values.len() == 0 || room == 0 {
                } else {
                    match values[0].cut_spec(value) {
                        CutView::Sibling(kept) => {},
                        CutView::Cut { front: before, back: behind } => {
                            front.lemma_insert_all_is_proper(before, (room - 1) as nat);
                            back.lemma_insert_all_is_proper(behind, (room - 1) as nat);
                        },
                    }
                }
            },
        }
    }

    /// The insertion of several planes leaves a proper tree proper.
    pub proof fn lemma_insert_all_is_proper(self, planes: Seq<T>, room: nat)
        requires
            self.is_proper(),
        ensures
            self.insert_all(planes, room).is_proper(),
        decreases room, planes.len() + 1,
    {
        if planes.len() > 0 {
            self.lemma_insert_all_is_proper(planes.drop_last(), room);
            self.insert_all(planes.drop_last(), room).lemma_insert_is_proper(planes.last(), room);
        }
    }

    /// An insertion takes no plane out of a tree.
    pub proof fn lemma_insert_only_adds(self, value: T, room: nat)
        ensures
            self.contents().subset_of(self.insert(value, room).contents()),
        decreases room, 0nat,
    {
        broadcast use vstd::seq_lib::group_to_multiset_ensures;

        match self {
            Tree::Absent => {},
            Tree::Node { values, front, back } => {
                if values.len() == 0 || room == 0 {
                } else {
                    match values[0].cut_spec(value) {
                        CutView::Sibling(kept) => {},
                        CutView::Cut { front: before, back: behind } => {
                            front.lemma_insert_all_only_adds(before, (room - 1) as nat);
                            back.lemma_insert_all_only_adds(behind, (room - 1) as nat);
                        },
                    }
                }
            },
        }
    }

    /// The insertion of several planes takes no plane out of a tree.
    pub proof fn lemma_insert_all_only_adds(self, planes: Seq<T>, room: nat)
        ensures
            self.contents().subset_of(self.insert_all(planes, room).contents()),
        decreases room, planes.len() + 1,
    {
        if planes.len() > 0 {
            self.lemma_insert_all_only_adds(planes.drop_last(), room);
            self.insert_all(planes.drop_last(), room).lemma_insert_only_adds(planes.last(), room);
        }
    }

    /// The order of a proper tree holds every plane of the tree, each as
    /// often as the tree holds it, and nothing else.
    pub proof fn lemma_order_holds_the_contents(self, base: T)
        requires
            self.is_proper(),
        ensures
            self.order(base).to_multiset() == self.contents(),
        decreases self,
    {
        broadcast use vstd::seq_lib::group_to_multiset_ensures;

        match self {
            Tree::Absent => {},
            Tree::Node { values, front, back } => {
                front.lemma_order_holds_the_contents(base);
                back.lemma_order_holds_the_contents(base);
                let f = front.order(base);
                let b = back.order(base);
                if values.len() == 0 {
                    assert(self.contents() =~= Multiset::<T>::empty());
                } else if base.is_aligned_spec(&values[0]) {
                    vstd::seq_lib::lemma_multiset_commutative(f, values);
                    vstd::seq_lib::lemma_multiset_commutative(f + values, b);
                    assert(self.order(base).to_multiset() =~= self.contents());
                } else {
                    vstd::seq_lib::lemma_multiset_commutative(b, values);
                    vstd::seq_lib::lemma_multiset_commutative(b + values, f);
                    assert(self.order(base).to_multiset() =~= self.contents());
                }
            },
        }
    }

    /// The order of a tree depends on `base` only through the planes that
    /// `base` is aligned with.
    pub proof fn lemma_order_by_alignment(self, base: T, other: T)
        requires
            forall|value: T| base.is_aligned_spec(&value) == other.is_aligned_spec(&value),
        ensures
            self.order(base) == self.order(other),
        decreases self,
    {
        match self {
            Tree::Absent => {},
            Tree::Node { values, front, back } => {
                front.lemma_order_by_alignment(base, other);
                back.lemma_order_by_alignment(base, other);
            },
        }
    }
}

} // verus!
