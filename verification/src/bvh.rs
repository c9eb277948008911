//! The bounding volume hierarchy: a binary tree of boxes over the primitives
//! of a scene, built once and then searched for the closest hit.

use vstd::prelude::*;
use vstd::seq_lib::to_multiset_update;
use rand::Rng;
use crate::aabb::AABB;
use crate::bvh_laws::lemma_root_box_is_list_box;
use crate::hitable_list::union_all;
use crate::scalar::Scalar;

verus! {

/// One side of a node: a primitive, by its place among the scene's
/// primitives, or another node, by its place in the hierarchy.
#[derive(Clone, Copy, Debug, PartialEq, Eq, Structural)]
pub enum BvhChild {
    Item(usize),
    Node(usize),
}

/// A node: its two sides and the box around both.
#[derive(Clone, Copy, Debug, PartialEq, Eq, Structural)]
pub struct BvhEntry {
    pub left: BvhChild,
    pub right: BvhChild,
    pub bounding_box: AABB,
}

/// A hierarchy of nodes. A node comes after the nodes below it, so the root
/// is the last one.
pub struct BvhNode {
    pub nodes: Vec<BvhEntry>,
}

/// The coordinate by which a primitive is ordered on an axis: the smallest
/// corner of its box.
pub open spec fn sort_key(boxes: Seq<AABB>, item: usize, axis: int) -> Scalar {
    boxes[item as int].min.axis(axis)
}

/// Whether the primitives stand in rising order of their keys on an axis.
pub open spec fn sorted_on(boxes: Seq<AABB>, order: Seq<usize>, axis: int) -> bool {
    forall|i: int, j: int|
        0 <= i < j < order.len() ==> sort_key(boxes, #[trigger] order[i], axis).le_spec(
            sort_key(boxes, #[trigger] order[j], axis),
        )
}

/// Whether two rows hold the same primitives, each once.
pub open spec fn same_items(a: Seq<usize>, b: Seq<usize>) -> bool {
    &&& a.len() == b.len()
    &&& a.no_duplicates()
    &&& b.no_duplicates()
    &&& forall|i: int| 0 <= i < a.len() ==> b.contains(#[trigger] a[i])
    &&& forall|i: int| 0 <= i < b.len() ==> a.contains(#[trigger] b[i])
}

/// Whether every box is valid and every primitive in the row has one.
pub open spec fn boxed(boxes: Seq<AABB>, items: Seq<usize>) -> bool {
    &&& forall|i: int| 0 <= i < boxes.len() ==> (#[trigger] boxes[i]).valid()
    &&& forall|i: int| 0 <= i < items.len() ==> (#[trigger] items[i]) < boxes.len()
}

/// The box of one side of a node.
pub open spec fn child_box(nodes: Seq<BvhEntry>, boxes: Seq<AABB>, child: BvhChild) -> AABB {
    match child {
        BvhChild::Item(i) => boxes[i as int],
        BvhChild::Node(k) => nodes[k as int].bounding_box,
    }
}

/// Whether `sorted` is `items` put in rising order on an axis.
pub open spec fn arranged(boxes: Seq<AABB>, items: Seq<usize>, sorted: Seq<usize>, axis: int) -> bool {
    0 <= axis < 3 && same_items(items, sorted) && sorted_on(boxes, sorted, axis)
}

/// Whether node `k` is laid out over the primitives of `sorted`: a single
/// primitive stands on both sides, two stand one on each, and more are halved
/// at the middle, each half under a hierarchy of its own below `k`; the
/// node's box is the union of its sides' boxes.
pub open spec fn laid_out(nodes: Seq<BvhEntry>, boxes: Seq<AABB>, k: int, sorted: Seq<usize>) -> bool
    decreases k, 0nat,
{
    let half = (sorted.len() / 2) as int;
    &&& 0 <= k < nodes.len()
    &&& nodes[k].bounding_box == child_box(nodes, boxes, nodes[k].left).union(
        child_box(nodes, boxes, nodes[k].right),
    )
    &&& if sorted.len() == 1 {
        nodes[k].left == BvhChild::Item(sorted[0]) && nodes[k].right == BvhChild::Item(sorted[0])
    } else if sorted.len() == 2 {
        nodes[k].left == BvhChild::Item(sorted[0]) && nodes[k].right == BvhChild::Item(sorted[1])
    } else {
        match (nodes[k].left, nodes[k].right) {
            (BvhChild::Node(l), BvhChild::Node(r)) => {
                if l < k && r < k && sorted.len() >= 3 {
                    built(nodes, boxes, l as int, sorted.subrange(0, half)) && built(
                        nodes,
                        boxes,
                        r as int,
                        sorted.subrange(half, sorted.len() as int),
                    )
                } else {
                    false
                }
            },
            _ => false,
        }
    }
}

/// Whether node `k` is the hierarchy over `items`: the node is laid out over
/// the primitives put in rising order on one of the three axes.
pub open spec fn built(nodes: Seq<BvhEntry>, boxes: Seq<AABB>, k: int, items: Seq<usize>) -> bool
    decreases k, 1nat,
{
    0 <= k < nodes.len() && exists|sorted: Seq<usize>, axis: int|
        #[trigger] arranged(boxes, items, sorted, axis) && laid_out(nodes, boxes, k, sorted)
}

/// The order and the axis by which a hierarchy was built.
pub open spec fn order_of(nodes: Seq<BvhEntry>, boxes: Seq<AABB>, k: int, items: Seq<usize>) -> (
    Seq<usize>,
    int,
) {
    choose|sorted: Seq<usize>, axis: int|
        #[trigger] arranged(boxes, items, sorted, axis) && laid_out(nodes, boxes, k, sorted)
}

/// Swapping two places of a row keeps what the row holds.
proof fn lemma_swap_keeps_items(b: Seq<usize>, i: int, j: int)
    requires
        0 <= i < b.len(),
        0 <= j < b.len(),
    ensures
        b.update(i, b[j]).update(j, b[i]).to_multiset() == b.to_multiset(),
{
    broadcast use vstd::multiset::group_multiset_axioms;

    let once = b.update(i, b[j]);
    to_multiset_update(b, i, b[j]);
    to_multiset_update(once, j, b[i]);
    assert(b.to_multiset().count(b[i]) > 0 && b.to_multiset().count(b[j]) > 0) by {
        b.to_multiset_ensures();
        assert(b.contains(b[i]) && b.contains(b[j]));
    }
    assert(once.update(j, b[i]).to_multiset() =~= b.to_multiset());
}

/// A row that holds each primitive once, rearranged, holds the same
/// primitives, each once.
proof fn lemma_rearranged_row(a: Seq<usize>, b: Seq<usize>)
    requires
        a.to_multiset() == b.to_multiset(),
        a.no_duplicates(),
    ensures
        same_items(a, b),
{
    a.to_multiset_ensures();
    b.to_multiset_ensures();
    a.lemma_multiset_has_no_duplicates();
    b.lemma_multiset_has_no_duplicates_conv();
    assert forall|i: int| 0 <= i < a.len() implies b.contains(#[trigger] a[i]) by {
        assert(a.contains(a[i]));
        assert(a.to_multiset().count(a[i]) > 0);
        assert(b.to_multiset().count(a[i]) > 0);
    }
    assert forall|i: int| 0 <= i < b.len() implies a.contains(#[trigger] b[i]) by {
        assert(b.contains(b[i]));
        assert(b.to_multiset().count(b[i]) > 0);
        assert(a.to_multiset().count(b[i]) > 0);
    }
}

/// A number below `bound`, drawn by `rand::Rng::gen_range` on the generator
/// that `rand::thread_rng` hands out. That crate documents a value inside the
/// range and a panic on an empty range, which a `bound` of zero would be.
/// Nothing is claimed of which value comes: it is believed, not proved, that
/// the value lies below `bound`.
#[verifier::external_body]
fn random_below(bound: u8) -> (r: u8)
    requires
        bound > 0,
    ensures
        r < bound,
{
    rand::thread_rng().gen_range(0..bound)
}

/// The key of a primitive on an axis.
fn key_of(boxes: &Vec<AABB>, item: usize, axis: u8) -> (r: Scalar)
    requires
        item < boxes@.len(),
        axis < 3,
    ensures
        r == sort_key(boxes@, item, axis as int),
{
    boxes[item].min.index(axis as usize)
}

/// Puts a row of primitives in rising order of their keys on an axis.
pub fn sort_by_axis(boxes: &Vec<AABB>, order: &mut Vec<usize>, axis: u8)
    requires
        axis < 3,
        boxed(boxes@, old(order)@),
    ensures
        final(order)@.to_multiset() == old(order)@.to_multiset(),
        boxed(boxes@, final(order)@),
        sorted_on(boxes@, final(order)@, axis as int),
{
    let ghost start = order@;
    let n: usize = order.len();
    let mut i: usize = 1;
    while i < n
        invariant
            n == order@.len(),
            1 <= i,
            axis < 3,
            boxed(boxes@, order@),
            order@.to_multiset() == start.to_multiset(),
            sorted_on(boxes@, order@.subrange(0, if i <= n { i as int } else { n as int }), axis as int),
        decreases n - i,
    {
        let mut j: usize = i;
        proof {
            let prefix = order@.subrange(0, i as int);
            assert forall|p: int, q: int| 0 <= p < q < i implies sort_key(
                boxes@,
                #[trigger] order@[p],
                axis as int,
            ).le_spec(sort_key(boxes@, #[trigger] order@[q], axis as int)) by {
                assert(prefix[p] == order@[p] && prefix[q] == order@[q]);
            }
        }
        while j > 0 && key_of(boxes, order[j], axis).lt(key_of(boxes, order[j - 1], axis))
            invariant
                n == order@.len(),
                0 <= j <= i < n,
                axis < 3,
                boxed(boxes@, order@),
                order@.to_multiset() == start.to_multiset(),
                forall|p: int, q: int|
                    0 <= p < q <= i && q != j ==> sort_key(boxes@, #[trigger] order@[p], axis as int).le_spec(
                        sort_key(boxes@, #[trigger] order@[q], axis as int),
                    ),
            decreases j,
        {
            let ghost before = order@;
            let upper: usize = order[j];
            let lower: usize = order[j - 1];
            order.set(j - 1, upper);
            order.set(j, lower);
            proof {
                assert(order@ == before.update(j - 1, before[j as int]).update(
                    j as int,
                    before[j - 1],
                ));
                lemma_swap_keeps_items(before, j - 1, j as int);
                assert forall|p: int| 0 <= p < order@.len() implies (#[trigger] order@[p])
                    < boxes@.len() by {
                    let w = if p == j - 1 {
                        j as int
                    } else if p == j {
                        j - 1
                    } else {
                        p
                    };
                    assert(order@[p] == before[w]);
                }
                assert forall|p: int, q: int| 0 <= p < q <= i && q != j - 1 implies sort_key(
                    boxes@,
                    #[trigger] order@[p],
                    axis as int,
                ).le_spec(sort_key(boxes@, #[trigger] order@[q], axis as int)) by {
                    let wp = if p == j - 1 {
                        j as int
                    } else if p == j {
                        j - 1
                    } else {
                        p
                    };
                    let wq = if q == j {
                        j - 1
                    } else {
                        q
                    };
                    assert(order@[p] == before[wp]);
                    assert(order@[q] == before[wq]);
                    assert(boxes@[before[wp] as int].valid());
                    assert(boxes@[before[wq] as int].valid());
                    assert(boxes@[before[j as int] as int].valid());
                    assert(boxes@[before[j - 1] as int].valid());
                    if p == j {
                        assert(sort_key(boxes@, before[j - 1], axis as int).le_spec(
                            sort_key(boxes@, before[q], axis as int),
                        ));
                    } else if p == j - 1 {
                        if q > j {
                            assert(sort_key(boxes@, before[j - 1], axis as int).le_spec(
                                sort_key(boxes@, before[q], axis as int),
                            ));
                        }
                    } else {
                        if q == j {
                            assert(sort_key(boxes@, before[p], axis as int).le_spec(
                                sort_key(boxes@, before[j - 1], axis as int),
                            ));
                        } else {
                            assert(sort_key(boxes@, before[p], axis as int).le_spec(
                                sort_key(boxes@, before[q], axis as int),
                            ));
                        }
                    }
                }
            }
            j = j - 1;
        }
        proof {
            let prefix = order@.subrange(0, i + 1);
            assert forall|p: int, q: int| 0 <= p < q < prefix.len() implies sort_key(
                boxes@,
                #[trigger] prefix[p],
                axis as int,
            ).le_spec(sort_key(boxes@, #[trigger] prefix[q], axis as int)) by {
                assert(prefix[p] == order@[p] && prefix[q] == order@[q]);
                assert(boxes@[order@[p] as int].valid());
                assert(boxes@[order@[q] as int].valid());
                if q == j {
                    assert(j > 0);
                    assert(boxes@[order@[j - 1] as int].valid());
                    if p < j - 1 {
                        assert(sort_key(boxes@, order@[p], axis as int).le_spec(
                            sort_key(boxes@, order@[j - 1], axis as int),
                        ));
                    }
                }
            }
        }
        i = i + 1;
    }
    assert(order@.subrange(0, n as int) == order@);
    proof {
        if n == 0 {
            assert(sorted_on(boxes@, order@, axis as int));
        }
    }
}

/// A node stays the hierarchy over its primitives when nodes are added after
/// it.
proof fn lemma_built_extends(
    shorter: Seq<BvhEntry>,
    longer: Seq<BvhEntry>,
    boxes: Seq<AABB>,
    k: int,
    items: Seq<usize>,
)
    requires
        built(shorter, boxes, k, items),
        shorter.len() <= longer.len(),
        longer.subrange(0, shorter.len() as int) == shorter,
    ensures
        built(longer, boxes, k, items),
    decreases k,
{
    let (sorted, axis) = order_of(shorter, boxes, k, items);
    assert(longer[k] == shorter[k]) by {
        assert(longer.subrange(0, shorter.len() as int)[k] == longer[k]);
    }
    if sorted.len() >= 3 {
        match (shorter[k].left, shorter[k].right) {
            (BvhChild::Node(l), BvhChild::Node(r)) => {
                assert(longer.subrange(0, shorter.len() as int)[l as int] == longer[l as int]);
                assert(longer.subrange(0, shorter.len() as int)[r as int] == longer[r as int]);
                lemma_built_extends(
                    shorter,
                    longer,
                    boxes,
                    l as int,
                    sorted.subrange(0, (sorted.len() / 2) as int),
                );
                lemma_built_extends(
                    shorter,
                    longer,
                    boxes,
                    r as int,
                    sorted.subrange((sorted.len() / 2) as int, sorted.len() as int),
                );
            },
            _ => {},
        }
    }
    assert(arranged(boxes, items, sorted, axis));
}

/// Copies the places `from..to` of a row.
fn copy_range(order: &Vec<usize>, from: usize, to: usize) -> (r: Vec<usize>)
    requires
        from <= to <= order@.len(),
    ensures
        r@ == order@.subrange(from as int, to as int),
{
    let mut part: Vec<usize> = Vec::new();
    let mut i: usize = from;
    while i < to
        invariant
            from <= i <= to <= order@.len(),
            part@ == order@.subrange(from as int, i as int),
        decreases to - i,
    {
        part.push(order[i]);
        i = i + 1;
        assert(part@ == order@.subrange(from as int, i as int));
    }
    part
}

/// Builds the hierarchy over the primitives in `order` at the end of `nodes`
/// and returns the place of its root, which is the last node.
fn build_range(boxes: &Vec<AABB>, order: Vec<usize>, nodes: &mut Vec<BvhEntry>) -> (k: usize)
    requires
        order@.len() >= 1,
        order@.no_duplicates(),
        boxed(boxes@, order@),
    ensures
        final(nodes)@.len() > old(nodes)@.len(),
        final(nodes)@.subrange(0, old(nodes)@.len() as int) == old(nodes)@,
        k == final(nodes)@.len() - 1,
        built(final(nodes)@, boxes@, k as int, order@),
    decreases order@.len(),
{
    let ghost items = order@;
    let ghost start = nodes@;
    let axis: u8 = random_below(3);
    let mut order = order;
    sort_by_axis(boxes, &mut order, axis);
    let n: usize = order.len();
    proof {
        lemma_rearranged_row(items, order@);
    }
    let (left, right) = if n == 1 {
        (BvhChild::Item(order[0]), BvhChild::Item(order[0]))
    } else if n == 2 {
        (BvhChild::Item(order[0]), BvhChild::Item(order[1]))
    } else {
        let lower: Vec<usize> = copy_range(&order, 0, n / 2);
        let upper: Vec<usize> = copy_range(&order, n / 2, n);
        let l: usize = build_range(boxes, lower, nodes);
        let ghost middle = nodes@;
        let r: usize = build_range(boxes, upper, nodes);
        proof {
            lemma_built_extends(middle, nodes@, boxes@, l as int, lower@);
            assert(nodes@.subrange(0, start.len() as int) == start) by {
                assert(middle.subrange(0, start.len() as int) == start);
                assert(nodes@.subrange(0, middle.len() as int) == middle);
                assert forall|p: int| 0 <= p < start.len() implies nodes@.subrange(
                    0,
                    start.len() as int,
                )[p] == start[p] by {
                    assert(middle.subrange(0, start.len() as int)[p] == middle[p]);
                    assert(nodes@.subrange(0, middle.len() as int)[p] == nodes@[p]);
                }
            }
        }
        (BvhChild::Node(l), BvhChild::Node(r))
    };
    let left_box: AABB = match left {
        BvhChild::Item(i) => boxes[i],
        BvhChild::Node(l) => nodes[l].bounding_box,
    };
    let right_box: AABB = match right {
        BvhChild::Item(i) => boxes[i],
        BvhChild::Node(r) => nodes[r].bounding_box,
    };
    let bounding_box: AABB = AABB::surrounding_box(&left_box, &right_box);
    let ghost below = nodes@;
    let k: usize = nodes.len();
    nodes.push(BvhEntry { left, right, bounding_box });
    proof {
        assert(nodes@.subrange(0, below.len() as int) == below);
        assert(nodes@.subrange(0, start.len() as int) == start) by {
            assert forall|p: int| 0 <= p < start.len() implies nodes@.subrange(
                0,
                start.len() as int,
            )[p] == start[p] by {
                assert(below.subrange(0, start.len() as int)[p] == below[p]);
            }
        }
        if n >= 3 {
            match (left, right) {
                (BvhChild::Node(l), BvhChild::Node(r)) => {
                    lemma_built_extends(
                        below,
                        nodes@,
                        boxes@,
                        l as int,
                        order@.subrange(0, (n / 2) as int),
                    );
                    lemma_built_extends(
                        below,
                        nodes@,
                        boxes@,
                        r as int,
                        order@.subrange((n / 2) as int, n as int),
                    );
                },
                _ => {},
            }
        }
        assert(arranged(boxes@, items, order@, axis as int));
    }
    k
}

impl BvhNode {
    /// The hierarchy over the primitives whose boxes are `boxes`: primitive
    /// `i` is the one with the box `boxes[i]`.
    pub open spec fn over(self, boxes: Seq<AABB>) -> bool {
        self.nodes@.len() > 0 && built(
            self.nodes@,
            boxes,
            self.nodes@.len() - 1,
            Seq::new(boxes.len(), |i: int| i as usize),
        )
    }

    /// Builds the hierarchy over at least one primitive, each with a valid
    /// box. At every node the axis on which the primitives are ordered is
    /// drawn at random.
    pub fn new(boxes: &Vec<AABB>) -> (r: BvhNode)
        requires
            boxes@.len() >= 1,
            forall|i: int| 0 <= i < boxes@.len() ==> (#[trigger] boxes@[i]).valid(),
        ensures
            r.over(boxes@),
            r.nodes@[r.nodes@.len() - 1].bounding_box == union_all(boxes@),
    {
        let mut order: Vec<usize> = Vec::new();
        let mut i: usize = 0;
        while i < boxes.len()
            invariant
                i <= boxes@.len(),
                order@.len() == i,
                forall|p: int| 0 <= p < i ==> order@[p] == p,
            decreases boxes@.len() - i,
        {
            order.push(i);
            i = i + 1;
        }
        let mut nodes: Vec<BvhEntry> = Vec::new();
        assert(order@ == Seq::new(boxes@.len(), |i: int| i as usize));
        let k: usize = build_range(boxes, order, &mut nodes);
        let tree = BvhNode { nodes };
        proof {
            lemma_root_box_is_list_box(tree, boxes@);
        }
        tree
    }

    /// The place of the root among the nodes.
    pub fn root(&self) -> (r: BvhChild)
        requires
            self.nodes@.len() > 0,
        ensures
            r == BvhChild::Node((self.nodes@.len() - 1) as usize),
    {
        BvhChild::Node(self.nodes.len() - 1)
    }

    /// The box around the whole hierarchy, which is the root's.
    pub fn bounding_box(&self) -> (r: AABB)
        requires
            self.nodes@.len() > 0,
        ensures
            r == self.nodes@[self.nodes@.len() - 1].bounding_box,
    {
        self.nodes[self.nodes.len() - 1].bounding_box
    }
}

} // verus!
