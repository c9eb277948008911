//! What construction guarantees of a hierarchy's boxes.

use vstd::prelude::*;
use crate::aabb::AABB;
use crate::bvh::{boxed, built, order_of, BvhChild, BvhEntry, BvhNode};
use crate::hitable_list::union_all;
use crate::scalar::{lemma_rank_determines, Scalar};

verus! {

/// One corner coordinate of a primitive's box: of the largest corner where
/// `upper` holds, else of the smallest.
pub open spec fn corner(bounds: AABB, axis: int, upper: bool) -> Scalar {
    if upper {
        bounds.max.axis(axis)
    } else {
        bounds.min.axis(axis)
    }
}

/// Whether `bounds` reaches, on one axis and at one end, exactly as far as
/// the furthest of the primitives in the row.
pub open spec fn extreme(
    bounds: AABB,
    boxes: Seq<AABB>,
    items: Seq<usize>,
    axis: int,
    upper: bool,
) -> bool {
    &&& forall|i: int|
        0 <= i < items.len() ==> if upper {
            corner(boxes[(#[trigger] items[i]) as int], axis, upper).rank() <= corner(
                bounds,
                axis,
                upper,
            ).rank()
        } else {
            corner(bounds, axis, upper).rank() <= corner(
                boxes[(#[trigger] items[i]) as int],
                axis,
                upper,
            ).rank()
        }
    &&& exists|i: int|
        0 <= i < items.len() && corner(boxes[(#[trigger] items[i]) as int], axis, upper) == corner(
            bounds,
            axis,
            upper,
        )
}

/// Whether `bounds` is the box around the primitives in the row: on every
/// axis its smallest corner is the smallest of theirs and its largest corner
/// the largest of theirs.
pub open spec fn encloses(bounds: AABB, boxes: Seq<AABB>, items: Seq<usize>) -> bool {
    forall|axis: int, upper: bool|
        0 <= axis < 3 ==> #[trigger] extreme(bounds, boxes, items, axis, upper)
}

/// The row of all primitives in their own order.
pub open spec fn all_items(count: nat) -> Seq<usize> {
    Seq::new(count, |i: int| i as usize)
}

/// Only one box is the box around a row of primitives.
pub proof fn lemma_encloses_once(a: AABB, b: AABB, boxes: Seq<AABB>, items: Seq<usize>)
    requires
        encloses(a, boxes, items),
        encloses(b, boxes, items),
    ensures
        a == b,
{
    assert forall|axis: int, upper: bool| 0 <= axis < 3 implies corner(a, axis, upper) == corner(
        b,
        axis,
        upper,
    ) by {
        assert(extreme(a, boxes, items, axis, upper));
        assert(extreme(b, boxes, items, axis, upper));
        lemma_rank_determines(corner(a, axis, upper), corner(b, axis, upper));
    }
    assert(corner(a, 0, false) == corner(b, 0, false));
    assert(corner(a, 1, false) == corner(b, 1, false));
    assert(corner(a, 2, false) == corner(b, 2, false));
    assert(corner(a, 0, true) == corner(b, 0, true));
    assert(corner(a, 1, true) == corner(b, 1, true));
    assert(corner(a, 2, true) == corner(b, 2, true));
}

/// The box around a row is the box around every row of the same primitives.
proof fn lemma_encloses_same_items(bounds: AABB, boxes: Seq<AABB>, a: Seq<usize>, b: Seq<usize>)
    requires
        encloses(bounds, boxes, a),
        forall|i: int| 0 <= i < a.len() ==> b.contains(#[trigger] a[i]),
        forall|i: int| 0 <= i < b.len() ==> a.contains(#[trigger] b[i]),
    ensures
        encloses(bounds, boxes, b),
{
    assert forall|axis: int, upper: bool| 0 <= axis < 3 implies #[trigger] extreme(
        bounds,
        boxes,
        b,
        axis,
        upper,
    ) by {
        assert(extreme(bounds, boxes, a, axis, upper));
        assert forall|i: int| 0 <= i < b.len() implies if upper {
            corner(boxes[(#[trigger] b[i]) as int], axis, upper).rank() <= corner(
                bounds,
                axis,
                upper,
            ).rank()
        } else {
            corner(bounds, axis, upper).rank() <= corner(
                boxes[(#[trigger] b[i]) as int],
                axis,
                upper,
            ).rank()
        } by {
            assert(a.contains(b[i]));
            let m = choose|m: int| 0 <= m < a.len() && a[m] == b[i];
            assert(a[m] == b[i]);
        }
        let w = choose|i: int|
            0 <= i < a.len() && corner(boxes[(#[trigger] a[i]) as int], axis, upper) == corner(
                bounds,
                axis,
                upper,
            );
        assert(b.contains(a[w]));
        let m = choose|m: int| 0 <= m < b.len() && b[m] == a[w];
        assert(corner(boxes[b[m] as int], axis, upper) == corner(bounds, axis, upper));
    }
}

/// The union of the boxes around two rows is the box around both rows
/// together.
proof fn lemma_encloses_union(
    left: AABB,
    right: AABB,
    boxes: Seq<AABB>,
    a: Seq<usize>,
    b: Seq<usize>,
)
    requires
        encloses(left, boxes, a),
        encloses(right, boxes, b),
        boxed(boxes, a),
        boxed(boxes, b),
    ensures
        encloses(left.union(right), boxes, a + b),
{
    let both = a + b;
    let joined = left.union(right);
    assert forall|axis: int, upper: bool| 0 <= axis < 3 implies #[trigger] extreme(
        joined,
        boxes,
        both,
        axis,
        upper,
    ) by {
        assert(extreme(left, boxes, a, axis, upper));
        assert(extreme(right, boxes, b, axis, upper));
        let wa = choose|i: int|
            0 <= i < a.len() && corner(boxes[(#[trigger] a[i]) as int], axis, upper) == corner(
                left,
                axis,
                upper,
            );
        let wb = choose|i: int|
            0 <= i < b.len() && corner(boxes[(#[trigger] b[i]) as int], axis, upper) == corner(
                right,
                axis,
                upper,
            );
        assert(boxes[a[wa] as int].valid());
        assert(boxes[b[wb] as int].valid());
        let pick = corner(joined, axis, upper);
        assert(pick == corner(left, axis, upper) || pick == corner(right, axis, upper));
        assert forall|i: int| 0 <= i < both.len() implies if upper {
            corner(boxes[(#[trigger] both[i]) as int], axis, upper).rank() <= pick.rank()
        } else {
            pick.rank() <= corner(boxes[(#[trigger] both[i]) as int], axis, upper).rank()
        } by {
            if i < a.len() {
                assert(both[i] == a[i]);
            } else {
                assert(both[i] == b[i - a.len()]);
            }
        }
        if pick == corner(left, axis, upper) {
            assert(both[wa] == a[wa]);
        } else {
            assert(both[wb + a.len()] == b[wb]);
        }
    }
}

/// The box of a single valid primitive is the box around the row that holds
/// just that primitive.
proof fn lemma_encloses_one(boxes: Seq<AABB>, item: usize)
    requires
        item < boxes.len(),
    ensures
        encloses(boxes[item as int], boxes, seq![item]),
{
    let row = seq![item];
    assert forall|axis: int, upper: bool| 0 <= axis < 3 implies #[trigger] extreme(
        boxes[item as int],
        boxes,
        row,
        axis,
        upper,
    ) by {
        assert(row[0] == item);
    }
}

/// The box of a node built over a row of primitives is the box around them.
pub proof fn lemma_built_encloses(
    nodes: Seq<BvhEntry>,
    boxes: Seq<AABB>,
    k: int,
    items: Seq<usize>,
)
    requires
        built(nodes, boxes, k, items),
        boxed(boxes, items),
    ensures
        encloses(nodes[k].bounding_box, boxes, items),
    decreases k,
{
    let (sorted, axis) = order_of(nodes, boxes, k, items);
    assert forall|i: int| 0 <= i < sorted.len() implies (#[trigger] sorted[i]) < boxes.len() by {
        assert(items.contains(sorted[i]));
    }
    let half = (sorted.len() / 2) as int;
    let lower = sorted.subrange(0, half);
    let upper = sorted.subrange(half, sorted.len() as int);
    if sorted.len() == 0 {
        assert(false);
    } else if sorted.len() == 1 {
        lemma_encloses_one(boxes, sorted[0]);
        lemma_encloses_union(
            boxes[sorted[0] as int],
            boxes[sorted[0] as int],
            boxes,
            seq![sorted[0]],
            seq![sorted[0]],
        );
        let twice = seq![sorted[0]] + seq![sorted[0]];
        assert forall|i: int| 0 <= i < twice.len() implies sorted.contains(#[trigger] twice[i]) by {
            assert(sorted[0] == twice[i]);
        }
        assert forall|i: int| 0 <= i < sorted.len() implies twice.contains(#[trigger] sorted[i]) by {
            assert(twice[0] == sorted[i]);
        }
        lemma_encloses_same_items(nodes[k].bounding_box, boxes, twice, sorted);
    } else if sorted.len() == 2 {
        lemma_encloses_one(boxes, sorted[0]);
        lemma_encloses_one(boxes, sorted[1]);
        lemma_encloses_union(
            boxes[sorted[0] as int],
            boxes[sorted[1] as int],
            boxes,
            seq![sorted[0]],
            seq![sorted[1]],
        );
        assert(seq![sorted[0]] + seq![sorted[1]] == sorted);
    } else {
        match (nodes[k].left, nodes[k].right) {
            (BvhChild::Node(l), BvhChild::Node(r)) => {
                assert forall|i: int| 0 <= i < lower.len() implies (#[trigger] lower[i])
                    < boxes.len() by {
                    assert(lower[i] == sorted[i]);
                }
                assert forall|i: int| 0 <= i < upper.len() implies (#[trigger] upper[i])
                    < boxes.len() by {
                    assert(upper[i] == sorted[i + half]);
                }
                lemma_built_encloses(nodes, boxes, l as int, lower);
                lemma_built_encloses(nodes, boxes, r as int, upper);
                lemma_encloses_union(
                    nodes[l as int].bounding_box,
                    nodes[r as int].bounding_box,
                    boxes,
                    lower,
                    upper,
                );
                assert(lower + upper == sorted);
            },
            _ => {},
        }
    }
    assert forall|i: int| 0 <= i < items.len() implies sorted.contains(#[trigger] items[i]) by {}
    assert forall|i: int| 0 <= i < sorted.len() implies items.contains(#[trigger] sorted[i]) by {}
    lemma_encloses_same_items(nodes[k].bounding_box, boxes, sorted, items);
}

/// The box that a list computes around its primitives is the box around all
/// of them.
pub proof fn lemma_union_all_encloses(boxes: Seq<AABB>, count: nat)
    requires
        1 <= count <= boxes.len() <= usize::MAX,
        boxed(boxes, all_items(boxes.len())),
    ensures
        encloses(union_all(boxes.subrange(0, count as int)), boxes, all_items(count)),
    decreases count,
{
    let row = boxes.subrange(0, count as int);
    if count == 1 {
        lemma_encloses_one(boxes, 0);
        assert(all_items(1) == seq![0usize]);
        assert(row[0] == boxes[0]);
    } else {
        lemma_union_all_encloses(boxes, (count - 1) as nat);
        let last: usize = (count - 1) as usize;
        lemma_encloses_one(boxes, last);
        assert(row.drop_last() == boxes.subrange(0, count - 1));
        assert(row.last() == boxes[count - 1]);
        assert(boxed(boxes, seq![last]));
        assert(boxed(boxes, all_items((count - 1) as nat)));
        lemma_encloses_union(
            boxes[count - 1],
            union_all(row.drop_last()),
            boxes,
            seq![last],
            all_items((count - 1) as nat),
        );
        let joined = seq![last] + all_items((count - 1) as nat);
        let whole = all_items(count);
        assert forall|i: int| 0 <= i < joined.len() implies whole.contains(#[trigger] joined[i]) by {
            assert(whole[joined[i] as int] == joined[i]);
        }
        assert forall|i: int| 0 <= i < whole.len() implies joined.contains(#[trigger] whole[i]) by {
            if i == count - 1 {
                assert(joined[0] == whole[i]);
            } else {
                assert(joined[i + 1] == whole[i]);
            }
        }
        lemma_encloses_same_items(union_all(row), boxes, joined, whole);
    }
}

/// The box at the root of a hierarchy is the box that a list computes around
/// the same primitives.
pub proof fn lemma_root_box_is_list_box(tree: BvhNode, boxes: Seq<AABB>)
    requires
        tree.over(boxes),
        1 <= boxes.len() <= usize::MAX,
        forall|i: int| 0 <= i < boxes.len() ==> (#[trigger] boxes[i]).valid(),
    ensures
        tree.nodes@[tree.nodes@.len() - 1].bounding_box == union_all(boxes),
{
    let items = all_items(boxes.len());
    assert(items == Seq::new(boxes.len(), |i: int| i as usize));
    lemma_built_encloses(tree.nodes@, boxes, tree.nodes@.len() - 1, items);
    lemma_union_all_encloses(boxes, boxes.len());
    assert(boxes.subrange(0, boxes.len() as int) == boxes);
    lemma_encloses_once(
        tree.nodes@[tree.nodes@.len() - 1].bounding_box,
        union_all(boxes),
        boxes,
        items,
    );
}

} // verus!
