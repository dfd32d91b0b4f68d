//! The splitter that tries every polygon against every fragment before it.

use crate::line::Line;
use crate::polygon::comes_from;
use crate::polygon::Polygon;
use crate::scalar::lawful;
use crate::scalar::Scalar;
use crate::splitter::Splitter;
use crate::vector::Vec3;
use std::collections::VecDeque;
use vstd::prelude::*;

verus! {

/// The number of polygons that one sort takes from its queue. No run that
/// ends takes this many; the bound is what the loop of a sort is measured by.
pub const WORK_LIMIT: usize = usize::MAX;

/// A polygon that waits to be tried against the fragments from `start` on.
/// Those before `start` are known not to pierce it.
#[derive(Copy, Debug)]
pub struct Pending<T, A> {
    pub polygon: Polygon<T, A>,
    pub start: usize,
}

impl<T: Copy, A: Copy> Clone for Pending<T, A> {
    fn clone(&self) -> (r: Self)
        ensures
            r == *self,
    {
        *self
    }
}

/// The place of the first fragment from `from` on that `poly` pierces, or
/// the number of fragments where it pierces none.
pub open spec fn first_pierced<T: Scalar, A: Copy>(
    poly: Polygon<T, A>,
    result: Seq<Polygon<T, A>>,
    from: int,
) -> int
    decreases result.len() - from,
{
    if from >= result.len() {
        result.len() as int
    } else if poly.intersect_spec(&result[from]).is_some() {
        from
    } else {
        first_pierced(poly, result, from + 1)
    }
}

/// `items` with `piece` added to wait from `start` on, unless there is no
/// piece or it covers no area.
pub open spec fn with_piece<T: Scalar, A: Copy>(
    items: Seq<Pending<T, A>>,
    piece: Option<Polygon<T, A>>,
    start: usize,
) -> Seq<Pending<T, A>> {
    match piece {
        None => items,
        Some(part) => if part.is_empty_spec() {
            items
        } else {
            items.push(Pending { polygon: part, start })
        },
    }
}

/// The polygons that wait, in their order.
pub open spec fn waiting<T, A>(queue: Seq<Pending<T, A>>) -> Seq<Polygon<T, A>> {
    Seq::new(queue.len(), |i: int| queue[i].polygon)
}

/// The fragments and the queue after the first polygon of the queue has
/// been tried.
///
/// Where it pierces none of the fragments from its start on, it becomes a
/// fragment itself. Otherwise it is split along the line in which it meets
/// the first fragment that it pierces, and its pieces go to the head of the
/// queue, to be tried against the fragments after that one.
pub open spec fn step<T: Scalar, A: Copy>(
    result: Seq<Polygon<T, A>>,
    queue: Seq<Pending<T, A>>,
) -> (Seq<Polygon<T, A>>, Seq<Pending<T, A>>)
    recommends
        queue.len() > 0,
{
    let item = queue[0];
    let rest = queue.subrange(1, queue.len() as int);
    let at = first_pierced(item.polygon, result, item.start as int);
    if at >= result.len() {
        (result.push(item.polygon), rest)
    } else {
        let line = item.polygon.intersect_spec(&result[at]).unwrap();
        let (kept, first, second) = item.polygon.split_spec(&line);
        let next = (at + 1) as usize;
        let pieces = with_piece(
            with_piece(with_piece(Seq::empty(), Some(kept), next), first, next),
            second,
            next,
        );
        (result, pieces + rest)
    }
}

/// The fragments once the queue has been worked off, one polygon at a time
/// and `fuel` polygons at most. What still waits when the fuel ends becomes
/// fragments as it is.
pub open spec fn run<T: Scalar, A: Copy>(
    result: Seq<Polygon<T, A>>,
    queue: Seq<Pending<T, A>>,
    fuel: nat,
) -> Seq<Polygon<T, A>>
    decreases fuel,
{
    if queue.len() == 0 {
        result
    } else if fuel == 0 {
        result + waiting(queue)
    } else {
        let (fragments, left) = step(result, queue);
        run(fragments, left, (fuel - 1) as nat)
    }
}

/// The splitter that compares polygons pair by pair.
///
/// It keeps the fragments found so far and a queue of polygons that wait to
/// be tried against them. The fragments come in the order in which they
/// were found, not in that of a view.
pub struct NaiveSplitter<T, A> {
    result: Vec<Polygon<T, A>>,
    queue: VecDeque<Pending<T, A>>,
}

impl<T: Scalar, A: Copy> NaiveSplitter<T, A> {
    /// The fragments found so far.
    pub closed spec fn result(&self) -> Seq<Polygon<T, A>> {
        self.result@
    }

    /// The polygons that wait.
    pub closed spec fn queue(&self) -> Seq<Pending<T, A>> {
        self.queue@
    }

    /// A splitter that holds no polygon.
    pub fn new() -> (r: Self)
        ensures
            r.result() == Seq::<Polygon<T, A>>::empty(),
            r.queue() == Seq::<Pending<T, A>>::empty(),
    {
        NaiveSplitter { result: Vec::new(), queue: VecDeque::new() }
    }

    /// The fragments found so far.
    pub fn get_all(&self) -> (r: &[Polygon<T, A>])
        ensures
            r@ == self.result(),
    {
        self.result.as_slice()
    }

    /// The line along which `poly` pierces the first fragment from `start`
    /// on that it pierces, with the place of that fragment.
    fn find_pierced(&self, poly: &Polygon<T, A>, start: usize) -> (r: Option<(usize, Line<T>)>)
        requires
            lawful::<T>(),
        ensures
            match r {
                None => first_pierced(*poly, self.result(), start as int) >= self.result().len(),
                Some((at, line)) => {
                    &&& at < self.result().len()
                    &&& at == first_pierced(*poly, self.result(), start as int)
                    &&& poly.intersect_spec(&self.result()[at as int]) == Some(line)
                },
            },
    {
        let mut at: usize = start;
        while at < self.result.len()
            invariant
                lawful::<T>(),
                start <= at,
                first_pierced(*poly, self.result@, at as int) == first_pierced(
                    *poly,
                    self.result@,
                    start as int,
                ),
            decreases self.result@.len() - at,
        {
            match poly.intersect(&self.result[at]) {
                Some(line) => {
                    return Some((at, line));
                },
                None => {
                    at = at + 1;
                },
            }
        }
        None
    }

    /// Tries the first polygon of the queue.
    fn work_one(&mut self)
        requires
            lawful::<T>(),
            old(self).queue().len() > 0,
        ensures
            (final(self).result(), final(self).queue()) == step(
                old(self).result(),
                old(self).queue(),
            ),
    {
        let ghost rest = self.queue@.subrange(1, self.queue@.len() as int);
        let item = self.queue.pop_front().unwrap();
        match self.find_pierced(&item.polygon, item.start) {
            None => {
                self.result.push(item.polygon);
            },
            Some((at, line)) => {
                let mut kept = item.polygon;
                let (first, second) = kept.split(&line);
                let found = self.result.len();
                assert(at < found);
                let next = at + 1;
                let ghost pieces = with_piece(
                    with_piece(with_piece(Seq::empty(), Some(kept), next), first, next),
                    second,
                    next,
                );
                if let Some(part) = second {
                    if !part.is_empty() {
                        self.queue.push_front(Pending { polygon: part, start: next });
                    }
                }
                if let Some(part) = first {
                    if !part.is_empty() {
                        self.queue.push_front(Pending { polygon: part, start: next });
                    }
                }
                if !kept.is_empty() {
                    self.queue.push_front(Pending { polygon: kept, start: next });
                }
                assert(self.queue@ =~= pieces + rest);
            },
        }
    }
}

impl<T: Scalar, A: Copy> Splitter<T, A> for NaiveSplitter<T, A> {
    /// The fragments found so far, and the polygons that wait.
    type Model = (Seq<Polygon<T, A>>, Seq<Pending<T, A>>);

    open spec fn model(&self) -> (Seq<Polygon<T, A>>, Seq<Pending<T, A>>) {
        (self.result(), self.queue())
    }

    /// No fragment and no polygon that waits.
    open spec fn after_reset(model: (Seq<Polygon<T, A>>, Seq<Pending<T, A>>)) -> (
        Seq<Polygon<T, A>>,
        Seq<Pending<T, A>>,
    ) {
        (Seq::empty(), Seq::empty())
    }

    /// The polygon waits at the end of the queue, to be tried against every
    /// fragment.
    open spec fn after_add(
        model: (Seq<Polygon<T, A>>, Seq<Pending<T, A>>),
        poly: Polygon<T, A>,
    ) -> (Seq<Polygon<T, A>>, Seq<Pending<T, A>>) {
        (model.0, model.1.push(Pending { polygon: poly, start: 0 }))
    }

    /// The queue is worked off, and every fragment found is returned.
    open spec fn after_sort(model: (Seq<Polygon<T, A>>, Seq<Pending<T, A>>), view: Vec3<T>) -> (
        (Seq<Polygon<T, A>>, Seq<Pending<T, A>>),
        Seq<Polygon<T, A>>,
    ) {
        let fragments = run(model.0, model.1, WORK_LIMIT as nat);
        ((fragments, Seq::empty()), fragments)
    }

    fn reset(&mut self) {
        self.result.clear();
        self.queue.clear();
    }

    fn add(&mut self, poly: Polygon<T, A>) {
        self.queue.push_back(Pending { polygon: poly, start: 0 });
    }

    fn sort(&mut self, _view: Vec3<T>) -> (r: &[Polygon<T, A>]) {
        let ghost goal = run(self.result@, self.queue@, WORK_LIMIT as nat);
        let mut fuel: usize = WORK_LIMIT;
        while self.queue.len() > 0 && fuel > 0
            invariant
                lawful::<T>(),
                run(self.result@, self.queue@, fuel as nat) == goal,
            decreases fuel,
        {
            self.work_one();
            fuel = fuel - 1;
        }
        let ghost fragments = self.result@;
        let ghost left = self.queue@;
        assert(goal == fragments + waiting(left)) by {
            if left.len() == 0 {
                assert(fragments + waiting(left) =~= fragments);
            }
        }
        while self.queue.len() > 0
            invariant
                self.queue@.len() <= left.len(),
                self.queue@ == left.subrange(left.len() - self.queue@.len(), left.len() as int),
                self.result@ == fragments + waiting(left).subrange(
                    0,
                    left.len() - self.queue@.len(),
                ),
            decreases self.queue@.len(),
        {
            let ghost done = left.len() - self.queue@.len();
            let item = self.queue.pop_front().unwrap();
            self.result.push(item.polygon);
            proof {
                assert(item == left[done]);
                assert(self.queue@ =~= left.subrange(done + 1, left.len() as int));
                assert(self.result@ =~= fragments + waiting(left).subrange(0, done + 1));
            }
        }
        proof {
            assert(self.queue@ =~= Seq::<Pending<T, A>>::empty());
            assert(self.result@ =~= fragments + waiting(left));
        }
        self.result.as_slice()
    }
}

/// The polygons of `input`, each waiting to be tried against every fragment.
pub open spec fn all_waiting<T, A>(input: Seq<Polygon<T, A>>) -> Seq<Pending<T, A>> {
    Seq::new(input.len(), |i: int| Pending { polygon: input[i], start: 0 })
}

/// Every fragment of `result` and every polygon that waits in `queue` comes
/// from `input`.
pub open spec fn all_come_from<T, A>(
    result: Seq<Polygon<T, A>>,
    queue: Seq<Pending<T, A>>,
    input: Seq<Polygon<T, A>>,
) -> bool {
    &&& forall|i: int| 0 <= i < result.len() ==> comes_from(#[trigger] result[i], input)
    &&& forall|i: int| 0 <= i < queue.len() ==> comes_from((#[trigger] queue[i]).polygon, input)
}

/// One step keeps the plane and the anchor of every fragment and of every
/// polygon that waits.
pub proof fn lemma_step_keeps_source<T: Scalar, A: Copy>(
    result: Seq<Polygon<T, A>>,
    queue: Seq<Pending<T, A>>,
    input: Seq<Polygon<T, A>>,
)
    requires
        queue.len() > 0,
        all_come_from(result, queue, input),
    ensures
        all_come_from(step(result, queue).0, step(result, queue).1, input),
{
    let item = queue[0];
    let rest = queue.subrange(1, queue.len() as int);
    let at = first_pierced(item.polygon, result, item.start as int);
    let j = choose|j: int|
        0 <= j < input.len() && item.polygon.plane == (#[trigger] input[j]).plane
            && item.polygon.anchor == input[j].anchor;
    assert forall|i: int| 0 <= i < rest.len() implies comes_from(
        (#[trigger] rest[i]).polygon,
        input,
    ) by {
        assert(rest[i] == queue[i + 1]);
    }
    if at >= result.len() {
    } else {
        let line = item.polygon.intersect_spec(&result[at]).unwrap();
        item.polygon.lemma_split_keeps_plane_and_anchor(&line);
        let (kept, first, second) = item.polygon.split_spec(&line);
        let next = (at + 1) as usize;
        let with_kept = with_piece(Seq::empty(), Some(kept), next);
        let with_first = with_piece(with_kept, first, next);
        let pieces = with_piece(with_first, second, next);
        assert forall|i: int| 0 <= i < pieces.len() implies comes_from(
            (#[trigger] pieces[i]).polygon,
            input,
        ) by {
            assert(pieces[i].polygon.plane == input[j].plane);
        }
        let after = pieces + rest;
        assert forall|i: int| 0 <= i < after.len() implies comes_from(
            (#[trigger] after[i]).polygon,
            input,
        ) by {
            if i < pieces.len() {
                assert(after[i] == pieces[i]);
            } else {
                assert(after[i] == rest[i - pieces.len()]);
            }
        }
    }
}

/// Every fragment that a run leaves has the plane and the anchor of a
/// polygon that was a fragment or waited when the run began.
pub proof fn lemma_run_keeps_source<T: Scalar, A: Copy>(
    result: Seq<Polygon<T, A>>,
    queue: Seq<Pending<T, A>>,
    fuel: nat,
    input: Seq<Polygon<T, A>>,
)
    requires
        all_come_from(result, queue, input),
    ensures
        forall|i: int|
            0 <= i < run(result, queue, fuel).len() ==> comes_from(
                #[trigger] run(result, queue, fuel)[i],
                input,
            ),
    decreases fuel,
{
    if queue.len() == 0 {
        assert(run(result, queue, fuel) == result);
    } else if fuel == 0 {
        let out = result + waiting(queue);
        assert(run(result, queue, fuel) == out);
        assert forall|i: int| 0 <= i < out.len() implies comes_from(#[trigger] out[i], input) by {
            if i < result.len() {
                assert(out[i] == result[i]);
            } else {
                assert(out[i] == queue[i - result.len()].polygon);
            }
        }
    } else {
        lemma_step_keeps_source(result, queue, input);
        let (fragments, left) = step(result, queue);
        lemma_run_keeps_source(fragments, left, (fuel - 1) as nat, input);
        assert(run(result, queue, fuel) == run(fragments, left, (fuel - 1) as nat));
    }
}

/// The queue that the polygons of `input` make when they are added in turn
/// to a splitter that holds nothing, written as the model that `solve`
/// speaks of.
pub proof fn lemma_fold_is_all_waiting<T: Scalar, A: Copy>(
    input: Seq<Polygon<T, A>>,
    step: spec_fn((Seq<Polygon<T, A>>, Seq<Pending<T, A>>), Polygon<T, A>) -> (
        Seq<Polygon<T, A>>,
        Seq<Pending<T, A>>,
    ),
)
    requires
        forall|model: (Seq<Polygon<T, A>>, Seq<Pending<T, A>>), poly: Polygon<T, A>|
            #[trigger] step(model, poly) == (
                model.0,
                model.1.push(Pending { polygon: poly, start: 0 }),
            ),
    ensures
        input.fold_left((Seq::empty(), Seq::empty()), step) == (
            Seq::<Polygon<T, A>>::empty(),
            all_waiting(input),
        ),
    decreases input.len(),
{
    if input.len() > 0 {
        lemma_fold_is_all_waiting(input.drop_last(), step);
        let n = input.len() as int;
        assert(all_waiting(input.drop_last()).push(Pending { polygon: input[n - 1], start: 0 })
            =~= all_waiting(input));
    } else {
        assert(all_waiting(input) =~= Seq::<Pending<T, A>>::empty());
    }
}

impl<T: Scalar, A: Copy> NaiveSplitter<T, A> {
    /// What `solve` returns: the fragments that a run leaves when it starts
    /// without fragments and with the polygons of `input` waiting in their
    /// order. Each of them has the plane and the anchor of a polygon of
    /// `input`.
    pub proof fn lemma_solve(
        before: (Seq<Polygon<T, A>>, Seq<Pending<T, A>>),
        input: Seq<Polygon<T, A>>,
        view: Vec3<T>,
    )
        ensures
            ({
                let fragments = run(Seq::empty(), all_waiting(input), WORK_LIMIT as nat);
                let (after, out) = Self::after_sort(
                    input.fold_left(
                        Self::after_reset(before),
                        |model: (Seq<Polygon<T, A>>, Seq<Pending<T, A>>), poly: Polygon<T, A>|
                            Self::after_add(model, poly),
                    ),
                    view,
                );
                &&& after == (fragments, Seq::<Pending<T, A>>::empty())
                &&& out == fragments
                &&& forall|i: int| 0 <= i < out.len() ==> comes_from(#[trigger] out[i], input)
            }),
    {
        let step = |model: (Seq<Polygon<T, A>>, Seq<Pending<T, A>>), poly: Polygon<T, A>|
            Self::after_add(model, poly);
        lemma_fold_is_all_waiting(input, step);
        let queue = all_waiting(input);
        assert forall|i: int| 0 <= i < queue.len() implies comes_from(
            (#[trigger] queue[i]).polygon,
            input,
        ) by {
            assert(queue[i].polygon.plane == input[i].plane);
        }
        lemma_run_keeps_source(Seq::empty(), queue, WORK_LIMIT as nat, input);
    }

    /// Where no polygon of `input` pierces another, `solve` returns the
    /// polygons of `input` as they are, and so no fragment pierces another.
    pub proof fn lemma_solve_of_untouched(
        before: (Seq<Polygon<T, A>>, Seq<Pending<T, A>>),
        input: Seq<Polygon<T, A>>,
        view: Vec3<T>,
    )
        requires
            none_pierces(input),
            input.len() <= WORK_LIMIT,
        ensures
            ({
                let (after, out) = Self::after_sort(
                    input.fold_left(
                        Self::after_reset(before),
                        |model: (Seq<Polygon<T, A>>, Seq<Pending<T, A>>), poly: Polygon<T, A>|
                            Self::after_add(model, poly),
                    ),
                    view,
                );
                out == input && none_pierces(out)
            }),
    {
        Self::lemma_solve(before, input, view);
        let queue = all_waiting(input);
        assert(Seq::<Polygon<T, A>>::empty() + waiting(queue) =~= input);
        lemma_run_of_untouched(Seq::empty(), queue, WORK_LIMIT as nat);
    }
}

/// A run leaves the fragments that it begins with in their places, as they
/// are, and adds to them.
pub proof fn lemma_run_keeps_fragments<T: Scalar, A: Copy>(
    result: Seq<Polygon<T, A>>,
    queue: Seq<Pending<T, A>>,
    fuel: nat,
)
    ensures
        result.is_prefix_of(run(result, queue, fuel)),
    decreases fuel,
{
    if queue.len() == 0 {
    } else if fuel == 0 {
        assert(result.is_prefix_of(result + waiting(queue)));
    } else {
        let (fragments, left) = step(result, queue);
        lemma_run_keeps_fragments(fragments, left, (fuel - 1) as nat);
        assert(result.is_prefix_of(fragments));
        assert(run(result, queue, fuel) == run(fragments, left, (fuel - 1) as nat));
    }
}

/// `first_pierced` is the least place from `from` on whose fragment `poly`
/// pierces: `poly` pierces no fragment between `from` and it, and pierces
/// the fragment there, if there is one.
pub proof fn lemma_first_pierced<T: Scalar, A: Copy>(
    poly: Polygon<T, A>,
    result: Seq<Polygon<T, A>>,
    from: int,
)
    requires
        0 <= from,
    ensures
        ({
            let at = first_pierced(poly, result, from);
            &&& from <= at || at == result.len()
            &&& at <= result.len()
            &&& at < result.len() ==> poly.intersect_spec(&result[at]) is Some
            &&& forall|j: int|
                #![trigger result[j]]
                from <= j < at ==> poly.intersect_spec(&result[j]) is None
        }),
    decreases result.len() - from,
{
    if from < result.len() && poly.intersect_spec(&result[from]) is None {
        lemma_first_pierced(poly, result, from + 1);
    }
}

/// No polygon of `input` pierces another.
pub open spec fn none_pierces<T: Scalar, A: Copy>(input: Seq<Polygon<T, A>>) -> bool {
    forall|i: int, j: int|
        #![trigger input[i], input[j]]
        0 <= i < input.len() && 0 <= j < input.len() && i != j ==> input[i].intersect_spec(
            &input[j],
        ) is None
}

/// Where no polygon that waits pierces a fragment or a polygon that waits
/// before it, a run with fuel for all of them makes each a fragment as it
/// is.
pub proof fn lemma_run_of_untouched<T: Scalar, A: Copy>(
    result: Seq<Polygon<T, A>>,
    queue: Seq<Pending<T, A>>,
    fuel: nat,
)
    requires
        queue.len() <= fuel,
        none_pierces(result + waiting(queue)),
    ensures
        run(result, queue, fuel) == result + waiting(queue),
    decreases fuel,
{
    let all = result + waiting(queue);
    if queue.len() == 0 {
        assert(all =~= result);
    } else {
        let item = queue[0];
        let rest = queue.subrange(1, queue.len() as int);
        lemma_first_pierced(item.polygon, result, item.start as int);
        let at = first_pierced(item.polygon, result, item.start as int);
        if at < result.len() {
            assert(all[result.len() as int] == item.polygon);
            assert(all[at] == result[at]);
            assert(false);
        }
        let grown = result.push(item.polygon);
        assert(grown + waiting(rest) =~= all);
        lemma_run_of_untouched(grown, rest, (fuel - 1) as nat);
    }
}

} // verus!
