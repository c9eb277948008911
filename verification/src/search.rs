//! The search of a hierarchy for the closest hit of one ray.
//!
//! The search walks the hierarchy from the root. At a node it wants to know
//! whether the ray crosses the node's box: if not, nothing below the node is
//! looked at; if so, both sides are searched, the left one first. At a
//! primitive it wants to know the primitive's hit, and keeps the closer of
//! that and the best hit so far. Both answers come from outside.

use vstd::prelude::*;
use crate::aabb::AABB;
use crate::bvh::{BvhChild, BvhEntry, BvhNode};
use crate::hitable::{closer, closer_spec, lemma_closer_laws, numeric, RayHit};

verus! {

/// A search under way: the sides still to be searched, the next one last,
/// and the closest hit found so far.
pub struct Search {
    pub pending: Vec<BvhChild>,
    pub best: Option<RayHit>,
}

/// What a search wants to know next.
#[derive(Clone, Copy, Debug, PartialEq, Eq, Structural)]
pub enum Probe {
    /// Whether the ray crosses this box, which is that of the node at `node`.
    Crossing { node: usize, bounds: AABB },
    /// The hit of the ray on this primitive.
    Hit { item: usize },
    /// Nothing: the search is over.
    Done,
}

/// How high a side stands in the hierarchy: a primitive at the bottom, a
/// node above all nodes before it.
pub open spec fn height(child: BvhChild) -> nat {
    match child {
        BvhChild::Item(_) => 0,
        BvhChild::Node(k) => (k + 1) as nat,
    }
}

/// Whether a node exists and stands above both its sides.
pub open spec fn above_sides(nodes: Seq<BvhEntry>, k: usize) -> bool {
    k < nodes.len() && height(nodes[k as int].left) <= k && height(nodes[k as int].right) <= k
}

/// The closest hit below one side of a node, for a ray that crosses the boxes
/// of the nodes that `crossed` says and hits the primitives as `found` says.
pub open spec fn hit_below(
    nodes: Seq<BvhEntry>,
    child: BvhChild,
    crossed: spec_fn(usize) -> bool,
    found: spec_fn(usize) -> Option<RayHit>,
) -> Option<RayHit>
    decreases height(child),
{
    match child {
        BvhChild::Item(i) => found(i),
        BvhChild::Node(k) => if above_sides(nodes, k) && crossed(k) {
            closer_spec(
                hit_below(nodes, nodes[k as int].left, crossed, found),
                hit_below(nodes, nodes[k as int].right, crossed, found),
            )
        } else {
            None
        },
    }
}

/// The hit that a search will end with: the closest of the best so far and
/// of what lies below the pending sides.
pub open spec fn hit_ahead(
    nodes: Seq<BvhEntry>,
    pending: Seq<BvhChild>,
    best: Option<RayHit>,
    crossed: spec_fn(usize) -> bool,
    found: spec_fn(usize) -> Option<RayHit>,
) -> Option<RayHit>
    decreases pending.len(),
{
    if pending.len() == 0 {
        best
    } else {
        hit_ahead(
            nodes,
            pending.drop_last(),
            closer_spec(best, hit_below(nodes, pending.last(), crossed, found)),
            crossed,
            found,
        )
    }
}

/// The number of answers that the search below one side can ask for.
pub open spec fn work_below(nodes: Seq<BvhEntry>, child: BvhChild) -> nat
    decreases height(child),
{
    match child {
        BvhChild::Item(_) => 1,
        BvhChild::Node(k) => if above_sides(nodes, k) {
            1 + work_below(nodes, nodes[k as int].left) + work_below(nodes, nodes[k as int].right)
        } else {
            1
        },
    }
}

/// The number of answers that a search can still ask for.
pub open spec fn work_ahead(nodes: Seq<BvhEntry>, pending: Seq<BvhChild>) -> nat
    decreases pending.len(),
{
    if pending.len() == 0 {
        0
    } else {
        work_ahead(nodes, pending.drop_last()) + work_below(nodes, pending.last())
    }
}

/// The pending sides after the answer to a crossing: the node is taken off,
/// and where the ray crosses its box, its right side and then its left are
/// put on. Unchanged where the next side is no node of the hierarchy.
pub open spec fn after_crossing(
    nodes: Seq<BvhEntry>,
    pending: Seq<BvhChild>,
    crossed: bool,
) -> Seq<BvhChild> {
    if pending.len() == 0 {
        pending
    } else {
        match pending.last() {
            BvhChild::Node(k) => if k < nodes.len() {
                if crossed {
                    pending.drop_last().push(nodes[k as int].right).push(nodes[k as int].left)
                } else {
                    pending.drop_last()
                }
            } else {
                pending
            },
            BvhChild::Item(_) => pending,
        }
    }
}

/// Whether the next pending side is a primitive.
pub open spec fn at_item(pending: Seq<BvhChild>) -> bool {
    pending.len() > 0 && pending.last() is Item
}

impl Search {
    /// What the search wants to know next.
    pub open spec fn wants(self, nodes: Seq<BvhEntry>) -> Probe {
        if self.pending@.len() == 0 {
            Probe::Done
        } else {
            match self.pending@.last() {
                BvhChild::Item(i) => Probe::Hit { item: i },
                BvhChild::Node(k) => if k < nodes.len() {
                    Probe::Crossing { node: k, bounds: nodes[k as int].bounding_box }
                } else {
                    Probe::Done
                },
            }
        }
    }

    /// Says what the search wants to know next.
    pub fn next(&self, tree: &BvhNode) -> (r: Probe)
        ensures
            r == self.wants(tree.nodes@),
    {
        let n: usize = self.pending.len();
        if n == 0 {
            return Probe::Done;
        }
        match self.pending[n - 1] {
            BvhChild::Item(i) => Probe::Hit { item: i },
            BvhChild::Node(k) => {
                if k < tree.nodes.len() {
                    Probe::Crossing { node: k, bounds: tree.nodes[k].bounding_box }
                } else {
                    Probe::Done
                }
            },
        }
    }

    /// Takes in whether the ray crosses the box of the node that is next.
    pub fn on_crossing(&mut self, tree: &BvhNode, crossed: bool)
        ensures
            final(self).pending@ == after_crossing(tree.nodes@, old(self).pending@, crossed),
            final(self).best == old(self).best,
    {
        let n: usize = self.pending.len();
        if n == 0 {
            return ;
        }
        match self.pending[n - 1] {
            BvhChild::Node(k) => {
                if k < tree.nodes.len() {
                    let ghost before = self.pending@;
                    let top = self.pending.pop();
                    assert(self.pending@ == before.drop_last());
                    if crossed {
                        self.pending.push(tree.nodes[k].right);
                        self.pending.push(tree.nodes[k].left);
                    }
                }
            },
            BvhChild::Item(_) => {},
        }
    }

    /// Takes in the hit of the ray on the primitive that is next: the
    /// primitive is taken off, and the closer of its hit and the best so far
    /// is kept. Unchanged where the next side is no primitive.
    pub fn on_hit(&mut self, found: Option<RayHit>)
        ensures
            at_item(old(self).pending@) ==> final(self).pending@ == old(self).pending@.drop_last()
                && final(self).best == closer_spec(old(self).best, found),
            !at_item(old(self).pending@) ==> final(self).pending@ == old(self).pending@
                && final(self).best == old(self).best,
    {
        let n: usize = self.pending.len();
        if n == 0 {
            return ;
        }
        match self.pending[n - 1] {
            BvhChild::Item(_) => {
                let ghost before = self.pending@;
                let top = self.pending.pop();
                assert(self.pending@ == before.drop_last());
                self.best = closer(self.best, found);
            },
            BvhChild::Node(_) => {},
        }
    }

    /// The closest hit found so far, which is the search's result once it is
    /// over.
    pub fn result(&self) -> (r: Option<RayHit>)
        ensures
            r == self.best,
    {
        self.best
    }
}

impl BvhNode {
    /// A search of the whole hierarchy, with nothing found yet.
    pub fn hit(&self) -> (r: Search)
        requires
            self.nodes@.len() > 0,
        ensures
            r.pending@ == seq![BvhChild::Node((self.nodes@.len() - 1) as usize)],
            r.best is None,
    {
        let mut pending: Vec<BvhChild> = Vec::new();
        pending.push(BvhChild::Node(self.nodes.len() - 1));
        Search { pending, best: None }
    }
}

/// Below a side, the closest hit lies at a numeric distance where every
/// primitive's does.
pub proof fn lemma_hit_below_numeric(
    nodes: Seq<BvhEntry>,
    child: BvhChild,
    crossed: spec_fn(usize) -> bool,
    found: spec_fn(usize) -> Option<RayHit>,
)
    requires
        forall|i: usize| numeric(#[trigger] found(i)),
    ensures
        numeric(hit_below(nodes, child, crossed, found)),
    decreases height(child),
{
    match child {
        BvhChild::Item(i) => {},
        BvhChild::Node(k) => {
            if above_sides(nodes, k) && crossed(k) {
                lemma_hit_below_numeric(nodes, nodes[k as int].left, crossed, found);
                lemma_hit_below_numeric(nodes, nodes[k as int].right, crossed, found);
                lemma_closer_laws(
                    hit_below(nodes, nodes[k as int].left, crossed, found),
                    hit_below(nodes, nodes[k as int].right, crossed, found),
                    None,
                );
            }
        },
    }
}

/// A search starts out heading for the closest hit below the root.
pub proof fn lemma_search_begins(
    nodes: Seq<BvhEntry>,
    crossed: spec_fn(usize) -> bool,
    found: spec_fn(usize) -> Option<RayHit>,
)
    requires
        0 < nodes.len() <= usize::MAX,
    ensures
        hit_ahead(
            nodes,
            seq![BvhChild::Node((nodes.len() - 1) as usize)],
            None,
            crossed,
            found,
        ) == hit_below(nodes, BvhChild::Node((nodes.len() - 1) as usize), crossed, found),
{
    let root = BvhChild::Node((nodes.len() - 1) as usize);
    let pending = seq![root];
    assert(pending.drop_last() == Seq::<BvhChild>::empty());
    assert(pending.last() == root);
    assert(hit_ahead(nodes, pending.drop_last(), closer_spec(None, hit_below(nodes, root, crossed, found)), crossed, found)
        == closer_spec(None, hit_below(nodes, root, crossed, found)));
}

/// Answering a crossing truthfully changes neither where the search is
/// heading nor that its best hit is numeric, and leaves less work.
pub proof fn lemma_crossing_keeps_course(
    nodes: Seq<BvhEntry>,
    pending: Seq<BvhChild>,
    best: Option<RayHit>,
    crossed: spec_fn(usize) -> bool,
    found: spec_fn(usize) -> Option<RayHit>,
)
    requires
        pending.len() > 0,
        pending.last() is Node,
        above_sides(nodes, pending.last()->Node_0),
        numeric(best),
        forall|i: usize| numeric(#[trigger] found(i)),
    ensures
        hit_ahead(
            nodes,
            after_crossing(nodes, pending, crossed(pending.last()->Node_0)),
            best,
            crossed,
            found,
        ) == hit_ahead(nodes, pending, best, crossed, found),
        work_ahead(nodes, after_crossing(nodes, pending, crossed(pending.last()->Node_0)))
            < work_ahead(nodes, pending),
{
    let k = pending.last()->Node_0;
    let rest = pending.drop_last();
    let left = nodes[k as int].left;
    let right = nodes[k as int].right;
    let l = hit_below(nodes, left, crossed, found);
    let r = hit_below(nodes, right, crossed, found);
    lemma_hit_below_numeric(nodes, left, crossed, found);
    lemma_hit_below_numeric(nodes, right, crossed, found);
    lemma_closer_laws(best, l, r);
    if crossed(k) {
        let next = rest.push(right).push(left);
        assert(next.last() == left);
        assert(next.drop_last() == rest.push(right));
        assert(rest.push(right).last() == right);
        assert(rest.push(right).drop_last() == rest);
        assert(hit_ahead(nodes, next, best, crossed, found) == hit_ahead(
            nodes,
            rest.push(right),
            closer_spec(best, l),
            crossed,
            found,
        ));
        assert(work_ahead(nodes, next) == work_ahead(nodes, rest.push(right)) + work_below(
            nodes,
            left,
        ));
    } else {
        lemma_closer_laws(best, None, None);
    }
}

/// Answering a hit truthfully changes neither where the search is heading
/// nor that its best hit is numeric, and leaves less work.
pub proof fn lemma_hit_keeps_course(
    nodes: Seq<BvhEntry>,
    pending: Seq<BvhChild>,
    best: Option<RayHit>,
    crossed: spec_fn(usize) -> bool,
    found: spec_fn(usize) -> Option<RayHit>,
)
    requires
        at_item(pending),
        numeric(best),
        forall|i: usize| numeric(#[trigger] found(i)),
    ensures
        hit_ahead(
            nodes,
            pending.drop_last(),
            closer_spec(best, found(pending.last()->Item_0)),
            crossed,
            found,
        ) == hit_ahead(nodes, pending, best, crossed, found),
        numeric(closer_spec(best, found(pending.last()->Item_0))),
        work_ahead(nodes, pending.drop_last()) < work_ahead(nodes, pending),
{
    lemma_closer_laws(best, found(pending.last()->Item_0), None);
}

/// A search with nothing pending has arrived: its best hit is the hit it was
/// heading for.
pub proof fn lemma_search_arrives(
    nodes: Seq<BvhEntry>,
    best: Option<RayHit>,
    crossed: spec_fn(usize) -> bool,
    found: spec_fn(usize) -> Option<RayHit>,
)
    ensures
        hit_ahead(nodes, Seq::<BvhChild>::empty(), best, crossed, found) == best,
        work_ahead(nodes, Seq::<BvhChild>::empty()) == 0,
{
}

/// Whether every node from a side downwards exists and stands above both
/// its sides.
pub open spec fn sound_below(nodes: Seq<BvhEntry>, child: BvhChild) -> bool
    decreases height(child),
{
    match child {
        BvhChild::Item(_) => true,
        BvhChild::Node(k) => above_sides(nodes, k) && sound_below(nodes, nodes[k as int].left)
            && sound_below(nodes, nodes[k as int].right),
    }
}

/// The hit that a search ends with when every answer it asks for is the true
/// one, and it is given up to `steps` answers.
pub open spec fn search_from(
    nodes: Seq<BvhEntry>,
    pending: Seq<BvhChild>,
    best: Option<RayHit>,
    crossed: spec_fn(usize) -> bool,
    found: spec_fn(usize) -> Option<RayHit>,
    steps: nat,
) -> Option<RayHit>
    decreases steps,
{
    if steps == 0 || pending.len() == 0 {
        best
    } else {
        match pending.last() {
            BvhChild::Item(i) => search_from(
                nodes,
                pending.drop_last(),
                closer_spec(best, found(i)),
                crossed,
                found,
                (steps - 1) as nat,
            ),
            BvhChild::Node(k) => search_from(
                nodes,
                after_crossing(nodes, pending, crossed(k)),
                best,
                crossed,
                found,
                (steps - 1) as nat,
            ),
        }
    }
}

/// A search that is given as many answers as it has work ahead, all of them
/// true, ends with the hit it was heading for.
pub proof fn lemma_search_runs_its_course(
    nodes: Seq<BvhEntry>,
    pending: Seq<BvhChild>,
    best: Option<RayHit>,
    crossed: spec_fn(usize) -> bool,
    found: spec_fn(usize) -> Option<RayHit>,
    steps: nat,
)
    requires
        forall|p: int| 0 <= p < pending.len() ==> sound_below(nodes, #[trigger] pending[p]),
        numeric(best),
        forall|i: usize| numeric(#[trigger] found(i)),
        steps >= work_ahead(nodes, pending),
    ensures
        search_from(nodes, pending, best, crossed, found, steps) == hit_ahead(
            nodes,
            pending,
            best,
            crossed,
            found,
        ),
    decreases steps,
{
    if pending.len() == 0 {
    } else if steps == 0 {
        assert(work_below(nodes, pending.last()) >= 1);
    } else {
        let rest = pending.drop_last();
        assert(sound_below(nodes, pending[pending.len() - 1]));
        assert forall|p: int| 0 <= p < rest.len() implies sound_below(nodes, #[trigger] rest[p]) by {
            assert(rest[p] == pending[p]);
        }
        match pending.last() {
            BvhChild::Item(i) => {
                lemma_hit_keeps_course(nodes, pending, best, crossed, found);
                lemma_search_runs_its_course(
                    nodes,
                    rest,
                    closer_spec(best, found(i)),
                    crossed,
                    found,
                    (steps - 1) as nat,
                );
            },
            BvhChild::Node(k) => {
                lemma_crossing_keeps_course(nodes, pending, best, crossed, found);
                let next = after_crossing(nodes, pending, crossed(k));
                assert forall|p: int| 0 <= p < next.len() implies sound_below(
                    nodes,
                    #[trigger] next[p],
                ) by {
                    if p < rest.len() {
                        assert(next[p] == rest[p]);
                    }
                }
                lemma_search_runs_its_course(nodes, next, best, crossed, found, (steps - 1) as nat);
            },
        }
    }
}

} // verus!
