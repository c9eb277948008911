//! What a search of the hierarchy finds, held against a scan of the plain
//! list of the same primitives.

use vstd::prelude::*;
use crate::aabb::AABB;
use crate::bvh::{built, order_of, BvhChild, BvhEntry, BvhNode};
use crate::bvh_laws::all_items;
use crate::hitable::{closer_spec, lemma_closer_laws, numeric, RayHit};
use crate::hitable_list::Scan;
use crate::scalar::Scalar;
use crate::shapes::{
    accepted, lemma_accepted_window, lemma_accepted_within, ordered, report, Roots,
};
use crate::search::{
    above_sides, hit_below, lemma_search_begins, lemma_search_runs_its_course, search_from,
    sound_below, work_below,
};

verus! {

/// Whether `hit` is a closest hit among the primitives in the row: none
/// where none of them is hit, else the hit of one of them, at most as far as
/// the hit of any.
pub open spec fn closest(
    hit: Option<RayHit>,
    found: spec_fn(usize) -> Option<RayHit>,
    items: Seq<usize>,
) -> bool {
    &&& hit is None <==> forall|i: int| 0 <= i < items.len() ==> found(#[trigger] items[i]) is None
    &&& hit is Some ==> {
        &&& exists|i: int| 0 <= i < items.len() && found(#[trigger] items[i]) == hit
        &&& forall|j: int|
            0 <= j < items.len() && found(#[trigger] items[j]) is Some ==> hit->0.distance.le_spec(
                found(items[j])->0.distance,
            )
    }
}

/// Whether the crossings are told safely: the ray crosses the box of every
/// node under which it hits a primitive.
pub open spec fn conservative(
    nodes: Seq<BvhEntry>,
    boxes: Seq<AABB>,
    crossed: spec_fn(usize) -> bool,
    found: spec_fn(usize) -> Option<RayHit>,
) -> bool {
    forall|k: int, items: Seq<usize>, i: int|
        #[trigger] built(nodes, boxes, k, items) && 0 <= i < items.len() && found(
            #[trigger] items[i],
        ) is Some ==> crossed(k as usize)
}

/// Whether no two primitives are hit at the same distance.
pub open spec fn distinct_distances(found: spec_fn(usize) -> Option<RayHit>) -> bool {
    forall|i: usize, j: usize|
        i != j && (#[trigger] found(i)) is Some && (#[trigger] found(j)) is Some ==> found(
            i,
        )->0.distance.value() != found(j)->0.distance.value()
}

/// A closest hit among a row is a closest hit among every row of the same
/// primitives.
proof fn lemma_closest_same_items(
    hit: Option<RayHit>,
    found: spec_fn(usize) -> Option<RayHit>,
    a: Seq<usize>,
    b: Seq<usize>,
)
    requires
        closest(hit, found, a),
        forall|i: int| 0 <= i < a.len() ==> b.contains(#[trigger] a[i]),
        forall|i: int| 0 <= i < b.len() ==> a.contains(#[trigger] b[i]),
    ensures
        closest(hit, found, b),
{
    assert forall|j: int| 0 <= j < b.len() && found(#[trigger] b[j]) is Some implies hit is Some
        && hit->0.distance.le_spec(found(b[j])->0.distance) by {
        assert(a.contains(b[j]));
        let m = choose|m: int| 0 <= m < a.len() && a[m] == b[j];
        assert(found(a[m]) is Some);
    }
    if hit is Some {
        let w = choose|i: int| 0 <= i < a.len() && found(#[trigger] a[i]) == hit;
        assert(b.contains(a[w]));
        let m = choose|m: int| 0 <= m < b.len() && b[m] == a[w];
        assert(found(b[m]) == hit);
    } else {
        assert forall|i: int| 0 <= i < b.len() implies found(#[trigger] b[i]) is None by {}
    }
}

/// The closer of the closest hits among two rows is a closest hit among both
/// rows together.
proof fn lemma_closest_join(
    left: Option<RayHit>,
    right: Option<RayHit>,
    found: spec_fn(usize) -> Option<RayHit>,
    a: Seq<usize>,
    b: Seq<usize>,
)
    requires
        closest(left, found, a),
        closest(right, found, b),
        forall|i: usize| numeric(#[trigger] found(i)),
    ensures
        closest(closer_spec(left, right), found, a + b),
{
    let both = a + b;
    let kept = closer_spec(left, right);
    assert forall|j: int| 0 <= j < both.len() && found(#[trigger] both[j]) is Some implies kept is Some
        && kept->0.distance.le_spec(found(both[j])->0.distance) by {
        if j < a.len() {
            assert(both[j] == a[j]);
        } else {
            assert(both[j] == b[j - a.len()]);
        }
        if found(both[j]) is Some {
            assert(numeric(found(both[j])));
            if left is Some {
                let w = choose|i: int| 0 <= i < a.len() && found(#[trigger] a[i]) == left;
                assert(numeric(found(a[w])));
            }
            if right is Some {
                let w = choose|i: int| 0 <= i < b.len() && found(#[trigger] b[i]) == right;
                assert(numeric(found(b[w])));
            }
        }
    }
    if kept is Some {
        if kept == left && left is Some {
            let w = choose|i: int| 0 <= i < a.len() && found(#[trigger] a[i]) == left;
            assert(both[w] == a[w]);
            assert(found(both[w]) == kept);
        } else {
            assert(kept == right);
            let w = choose|i: int| 0 <= i < b.len() && found(#[trigger] b[i]) == right;
            assert(both[w + a.len()] == b[w]);
            assert(found(both[w + a.len()]) == kept);
        }
    } else {
        assert forall|i: int| 0 <= i < both.len() implies found(#[trigger] both[i]) is None by {
            if i < a.len() {
                assert(both[i] == a[i]);
            } else {
                assert(both[i] == b[i - a.len()]);
            }
        }
    }
}

/// The hit of one primitive is the closest hit among that primitive alone.
proof fn lemma_closest_one(found: spec_fn(usize) -> Option<RayHit>, item: usize)
    requires
        numeric(found(item)),
    ensures
        closest(found(item), found, seq![item]),
{
    let row = seq![item];
    assert(row[0] == item);
    if found(item) is None {
        assert forall|i: int| 0 <= i < row.len() implies found(#[trigger] row[i]) is None by {}
    }
}

/// Two closest hits among the same row lie at the same distance, and are the
/// same hit where no two primitives are hit at the same distance.
pub proof fn lemma_closest_agree(
    a: Option<RayHit>,
    b: Option<RayHit>,
    found: spec_fn(usize) -> Option<RayHit>,
    items: Seq<usize>,
)
    requires
        closest(a, found, items),
        closest(b, found, items),
    ensures
        a is Some <==> b is Some,
        a is Some ==> a->0.distance.value() == b->0.distance.value(),
        distinct_distances(found) ==> a == b,
{
    if a is Some {
        let wa = choose|i: int| 0 <= i < items.len() && found(#[trigger] items[i]) == a;
        assert(found(items[wa]) is Some);
        assert(b is Some);
        let wb = choose|i: int| 0 <= i < items.len() && found(#[trigger] items[i]) == b;
        assert(found(items[wb]) is Some);
        assert(a->0.distance.le_spec(found(items[wb])->0.distance));
        assert(b->0.distance.le_spec(found(items[wa])->0.distance));
        if distinct_distances(found) {
            if items[wa] != items[wb] {
                assert(found(items[wa])->0.distance.value() != found(items[wb])->0.distance.value());
            }
        }
    } else {
        if b is Some {
            let wb = choose|i: int| 0 <= i < items.len() && found(#[trigger] items[i]) == b;
            assert(found(items[wb]) is Some);
        }
    }
}

/// Where the crossings are told safely, the search below a node built over a
/// row of primitives heads for a closest hit among them.
pub proof fn lemma_hit_below_is_closest(
    nodes: Seq<BvhEntry>,
    boxes: Seq<AABB>,
    k: int,
    items: Seq<usize>,
    crossed: spec_fn(usize) -> bool,
    found: spec_fn(usize) -> Option<RayHit>,
)
    requires
        built(nodes, boxes, k, items),
        nodes.len() <= usize::MAX,
        conservative(nodes, boxes, crossed, found),
        forall|i: usize| numeric(#[trigger] found(i)),
    ensures
        closest(hit_below(nodes, BvhChild::Node(k as usize), crossed, found), found, items),
    decreases k,
{
    let (sorted, axis) = order_of(nodes, boxes, k, items);
    let node = BvhChild::Node(k as usize);
    let whole = hit_below(nodes, node, crossed, found);
    let left = hit_below(nodes, nodes[k].left, crossed, found);
    let right = hit_below(nodes, nodes[k].right, crossed, found);
    assert forall|i: int| 0 <= i < items.len() implies sorted.contains(#[trigger] items[i]) by {}
    assert forall|i: int| 0 <= i < sorted.len() implies items.contains(#[trigger] sorted[i]) by {}
    if !crossed(k as usize) {
        assert(whole is None);
        assert forall|i: int| 0 <= i < items.len() implies found(#[trigger] items[i]) is None by {
            if found(items[i]) is Some {
                assert(built(nodes, boxes, k, items));
                assert(crossed(k as usize));
            }
        }
        return ;
    }
    let half = (sorted.len() / 2) as int;
    let lower = sorted.subrange(0, half);
    let upper = sorted.subrange(half, sorted.len() as int);
    if sorted.len() == 0 {
        assert(false);
    } else if sorted.len() == 1 {
        assert(above_sides(nodes, k as usize));
        lemma_closest_one(found, sorted[0]);
        lemma_closest_join(left, right, found, seq![sorted[0]], seq![sorted[0]]);
        let twice = seq![sorted[0]] + seq![sorted[0]];
        assert forall|i: int| 0 <= i < twice.len() implies items.contains(#[trigger] twice[i]) by {
            assert(sorted[0] == twice[i]);
        }
        assert forall|i: int| 0 <= i < items.len() implies twice.contains(#[trigger] items[i]) by {
            assert(sorted.contains(items[i]));
            assert(twice[0] == items[i]);
        }
        lemma_closest_same_items(whole, found, twice, items);
    } else if sorted.len() == 2 {
        assert(above_sides(nodes, k as usize));
        lemma_closest_one(found, sorted[0]);
        lemma_closest_one(found, sorted[1]);
        lemma_closest_join(left, right, found, seq![sorted[0]], seq![sorted[1]]);
        assert(seq![sorted[0]] + seq![sorted[1]] == sorted);
        lemma_closest_same_items(whole, found, sorted, items);
    } else {
        match (nodes[k].left, nodes[k].right) {
            (BvhChild::Node(l), BvhChild::Node(r)) => {
                assert(above_sides(nodes, k as usize));
                lemma_hit_below_is_closest(nodes, boxes, l as int, lower, crossed, found);
                lemma_hit_below_is_closest(nodes, boxes, r as int, upper, crossed, found);
                lemma_closest_join(left, right, found, lower, upper);
                assert(lower + upper == sorted);
                lemma_closest_same_items(whole, found, sorted, items);
            },
            _ => {},
        }
    }
}

/// Every node of a hierarchy built over a row of primitives exists and
/// stands above both its sides.
pub proof fn lemma_built_is_sound(nodes: Seq<BvhEntry>, boxes: Seq<AABB>, k: int, items: Seq<usize>)
    requires
        built(nodes, boxes, k, items),
        nodes.len() <= usize::MAX,
    ensures
        sound_below(nodes, BvhChild::Node(k as usize)),
    decreases k,
{
    let (sorted, axis) = order_of(nodes, boxes, k, items);
    assert(above_sides(nodes, k as usize));
    if sorted.len() < 3 {
        assert(sound_below(nodes, nodes[k].left));
        assert(sound_below(nodes, nodes[k].right));
    } else {
        match (nodes[k].left, nodes[k].right) {
            (BvhChild::Node(l), BvhChild::Node(r)) => {
                lemma_built_is_sound(
                    nodes,
                    boxes,
                    l as int,
                    sorted.subrange(0, (sorted.len() / 2) as int),
                );
                lemma_built_is_sound(
                    nodes,
                    boxes,
                    r as int,
                    sorted.subrange((sorted.len() / 2) as int, sorted.len() as int),
                );
            },
            _ => {},
        }
    }
}

/// The scan of a list after its first `count` primitives were tried, each up
/// to the closest distance so far, where `found_within(i, t)` is the hit of
/// primitive `i` under the limit `t`.
pub open spec fn scan_of(
    found_within: spec_fn(usize, Scalar) -> Option<RayHit>,
    count: nat,
    t_max: Scalar,
) -> Scan
    decreases count,
{
    if count == 0 {
        Scan { next: 0, closest_so_far: t_max, best: None }
    } else {
        let before = scan_of(found_within, (count - 1) as nat, t_max);
        before.record_spec(found_within((count - 1) as usize, before.closest_so_far))
    }
}

/// Whether the primitives report their hits as a limit asks: under the limit
/// and at a numeric distance, and under a lower limit the same hit or, where
/// that is not under it, none.
pub open spec fn windowed(found_within: spec_fn(usize, Scalar) -> Option<RayHit>, t_max: Scalar) -> bool {
    &&& forall|i: usize|
        (#[trigger] found_within(i, t_max)) is Some ==> found_within(i, t_max)->0.distance.lt_spec(
            t_max,
        )
    &&& forall|i: usize, t: Scalar|
        t.le_spec(t_max) ==> #[trigger] found_within(i, t) == (if found_within(i, t_max) is Some
            && found_within(i, t_max)->0.distance.lt_spec(t) {
            found_within(i, t_max)
        } else {
            None
        })
}

/// Spheres report their hits as a limit asks, where each one's smaller root
/// is at most its larger: `roots(i)` is the solved quadratic of the ray and
/// sphere `i`, and `material(i)` the sphere's material.
pub proof fn lemma_spheres_are_windowed(
    roots: spec_fn(usize) -> Roots,
    material: spec_fn(usize) -> usize,
    t_min: Scalar,
    t_max: Scalar,
)
    requires
        forall|i: usize| ordered(#[trigger] roots(i)),
    ensures
        windowed(|i: usize, t: Scalar| report(accepted(roots(i), t_min, t), material(i)), t_max),
{
    let found_within = |i: usize, t: Scalar| report(accepted(roots(i), t_min, t), material(i));
    assert forall|i: usize| (#[trigger] found_within(i, t_max)) is Some implies found_within(
        i,
        t_max,
    )->0.distance.lt_spec(t_max) by {
        lemma_accepted_within(roots(i), t_min, t_max);
    }
    assert forall|i: usize, t: Scalar| t.le_spec(t_max) implies #[trigger] found_within(i, t) == (
    if found_within(i, t_max) is Some && found_within(i, t_max)->0.distance.lt_spec(t) {
        found_within(i, t_max)
    } else {
        None
    }) by {
        assert(ordered(roots(i)));
        lemma_accepted_window(roots(i), t_min, t_max, t);
    }
}

/// A scan of the first primitives of a list holds a closest hit among them.
pub proof fn lemma_scan_is_closest(
    found_within: spec_fn(usize, Scalar) -> Option<RayHit>,
    count: nat,
    t_max: Scalar,
)
    requires
        windowed(found_within, t_max),
        !t_max.nan(),
        count <= usize::MAX,
    ensures
        closest(
            scan_of(found_within, count, t_max).best,
            |i: usize| found_within(i, t_max),
            all_items(count),
        ),
        scan_of(found_within, count, t_max).best is None ==> scan_of(
            found_within,
            count,
            t_max,
        ).closest_so_far == t_max,
        scan_of(found_within, count, t_max).best is Some ==> scan_of(
            found_within,
            count,
            t_max,
        ).closest_so_far == scan_of(found_within, count, t_max).best->0.distance && scan_of(
            found_within,
            count,
            t_max,
        ).closest_so_far.lt_spec(t_max),
    decreases count,
{
    let found = |i: usize| found_within(i, t_max);
    let now = scan_of(found_within, count, t_max);
    let row = all_items(count);
    if count == 0 {
        assert forall|i: int| 0 <= i < row.len() implies found(#[trigger] row[i]) is None by {}
    } else {
        let fewer = (count - 1) as nat;
        let before = scan_of(found_within, fewer, t_max);
        lemma_scan_is_closest(found_within, fewer, t_max);
        let last: usize = fewer as usize;
        let short = all_items(fewer);
        let limit = before.closest_so_far;
        assert(limit.le_spec(t_max));
        let seen = found_within(last, limit);
        let full = found_within(last, t_max);
        assert(found(last) == full);
        assert(row[fewer as int] == last);
        assert forall|j: int| 0 <= j < fewer implies row[j] == short[j] by {}
        if seen is Some {
            assert(seen == full);
            assert(now.best == seen);
            assert(found(row[fewer as int]) == now.best);
            assert forall|j: int| 0 <= j < row.len() && found(#[trigger] row[j]) is Some implies now.best->0.distance.le_spec(
                found(row[j])->0.distance,
            ) by {
                if j < fewer {
                    assert(found(short[j]) is Some);
                    assert(before.best is Some);
                    assert(before.best->0.distance.le_spec(found(short[j])->0.distance));
                }
            }
        } else {
            assert(now.best == before.best);
            if before.best is Some {
                let w = choose|i: int| 0 <= i < short.len() && found(#[trigger] short[i]) == before.best;
                assert(row[w] == short[w]);
                assert(found(row[w]) == now.best);
            }
            assert forall|j: int| 0 <= j < row.len() && found(#[trigger] row[j]) is Some implies now.best is Some
                && now.best->0.distance.le_spec(found(row[j])->0.distance) by {
                if j < fewer {
                    assert(found(short[j]) is Some);
                } else {
                    assert(full is Some);
                    assert(full->0.distance.lt_spec(t_max));
                }
            }
            if now.best is None {
                assert forall|i: int| 0 <= i < row.len() implies found(#[trigger] row[i]) is None by {}
            }
        }
    }
}

/// For any ray, a search of the hierarchy that is given true answers until
/// it is over, and a scan of the list of the same primitives, both find a hit
/// or both find none; what they find lies at the same distance; and it is the
/// same hit where no two primitives are hit at the same distance. This holds
/// where the crossings are told safely and the primitives report their hits
/// as the limit asks.
pub proof fn lemma_hierarchy_agrees_with_list(
    tree: BvhNode,
    boxes: Seq<AABB>,
    crossed: spec_fn(usize) -> bool,
    found_within: spec_fn(usize, Scalar) -> Option<RayHit>,
    t_max: Scalar,
    steps: nat,
)
    requires
        tree.over(boxes),
        boxes.len() <= usize::MAX,
        tree.nodes@.len() <= usize::MAX,
        !t_max.nan(),
        windowed(found_within, t_max),
        conservative(tree.nodes@, boxes, crossed, |i: usize| found_within(i, t_max)),
        steps >= work_below(tree.nodes@, BvhChild::Node((tree.nodes@.len() - 1) as usize)),
    ensures
        ({
            let found = |i: usize| found_within(i, t_max);
            let root = BvhChild::Node((tree.nodes@.len() - 1) as usize);
            let searched = search_from(tree.nodes@, seq![root], None, crossed, found, steps);
            let scanned = scan_of(found_within, boxes.len(), t_max).best;
            &&& searched == hit_below(tree.nodes@, root, crossed, found)
            &&& searched is Some <==> scanned is Some
            &&& searched is Some ==> searched->0.distance.value() == scanned->0.distance.value()
            &&& distinct_distances(found) ==> searched == scanned
        }),
{
    let found = |i: usize| found_within(i, t_max);
    let nodes = tree.nodes@;
    let root = BvhChild::Node((nodes.len() - 1) as usize);
    let items = all_items(boxes.len());
    assert(items == Seq::new(boxes.len(), |i: int| i as usize));
    assert forall|i: usize| numeric(#[trigger] found(i)) by {
        assert(found(i) == found_within(i, t_max));
    }
    lemma_built_is_sound(nodes, boxes, nodes.len() - 1, items);
    let pending = seq![root];
    assert(pending.drop_last() == Seq::<BvhChild>::empty());
    assert(pending.last() == root);
    assert(crate::search::work_ahead(nodes, pending) == work_below(nodes, root)) by {
        assert(crate::search::work_ahead(nodes, pending.drop_last()) == 0);
    }
    lemma_search_runs_its_course(nodes, pending, None, crossed, found, steps);
    lemma_search_begins(nodes, crossed, found);
    lemma_hit_below_is_closest(nodes, boxes, nodes.len() - 1, items, crossed, found);
    lemma_scan_is_closest(found_within, boxes.len(), t_max);
    lemma_closest_agree(
        hit_below(nodes, root, crossed, found),
        scan_of(found_within, boxes.len(), t_max).best,
        found,
        items,
    );
}

} // verus!
