//! A flat list of primitives: its bounding box, and the scan that finds the
//! closest hit among them.

use vstd::prelude::*;
use crate::aabb::AABB;
use crate::hitable::RayHit;
use crate::scalar::Scalar;

verus! {

/// The primitives of a scene in a row. Each is known here by its place in the
/// row and by its bounding box, where it has one.
pub struct HitableList {
    pub list: Vec<Option<AABB>>,
}

/// The box around a row of boxes: the first one, then each one in turn united
/// with what came before.
pub open spec fn union_all(boxes: Seq<AABB>) -> AABB
    recommends
        boxes.len() > 0,
    decreases boxes.len(),
{
    if boxes.len() <= 1 {
        boxes[0]
    } else {
        boxes.last().union(union_all(boxes.drop_last()))
    }
}

/// How far a scan through the list has come: the place of the next primitive
/// to try, the distance that a hit must stay under to count, and the closest
/// hit found so far.
#[derive(Clone, Copy, Debug, PartialEq, Eq, Structural)]
pub struct Scan {
    pub next: usize,
    pub closest_so_far: Scalar,
    pub best: Option<RayHit>,
}

impl Scan {
    /// The scan after the next primitive, tried up to `closest_so_far`,
    /// reported `found`: a hit replaces the best one and lowers the limit.
    pub open spec fn record_spec(self, found: Option<RayHit>) -> Scan {
        match found {
            Some(hit) => Scan {
                next: (self.next + 1) as usize,
                closest_so_far: hit.distance,
                best: Some(hit),
            },
            None => Scan { next: (self.next + 1) as usize, ..self },
        }
    }

    /// The scan before any primitive was tried.
    pub fn begin(t_max: Scalar) -> (r: Scan)
        ensures
            r == (Scan { next: 0, closest_so_far: t_max, best: None }),
    {
        Scan { next: 0, closest_so_far: t_max, best: None }
    }

    /// Takes in what the primitive at `next` reported when tried between the
    /// query's lower limit and `closest_so_far`.
    pub fn record(self, found: Option<RayHit>) -> (r: Scan)
        requires
            self.next < usize::MAX,
        ensures
            r == self.record_spec(found),
    {
        match found {
            Some(hit) => Scan { next: self.next + 1, closest_so_far: hit.distance, best: Some(hit) },
            None => Scan { next: self.next + 1, closest_so_far: self.closest_so_far, best: self.best },
        }
    }
}

impl HitableList {
    /// The boxes of the primitives, where all of them have one.
    pub open spec fn boxes(self) -> Seq<AABB> {
        Seq::new(self.list@.len(), |i: int| self.list@[i]->0)
    }

    /// Whether every primitive has a bounding box.
    pub open spec fn all_boxed(self) -> bool {
        forall|i: int| 0 <= i < self.list@.len() ==> (#[trigger] self.list@[i]) is Some
    }

    pub fn new(items: &Vec<Option<AABB>>) -> (r: HitableList)
        ensures
            r.list@ == items@,
    {
        let mut list: Vec<Option<AABB>> = Vec::new();
        let mut i: usize = 0;
        while i < items.len()
            invariant
                i <= items.len(),
                list@ == items@.subrange(0, i as int),
            decreases items.len() - i,
        {
            list.push(items[i]);
            i = i + 1;
            assert(list@ == items@.subrange(0, i as int));
        }
        assert(items@.subrange(0, items@.len() as int) == items@);
        HitableList { list }
    }

    /// The number of primitives.
    pub fn len(&self) -> (r: usize)
        ensures
            r == self.list@.len(),
    {
        self.list.len()
    }

    /// Whether the scan has tried every primitive; until then the primitive at
    /// `scan.next` is to be tried up to `scan.closest_so_far`.
    pub fn hit_done(&self, scan: &Scan) -> (r: bool)
        ensures
            r == (scan.next >= self.list@.len()),
    {
        scan.next >= self.list.len()
    }

    /// The box around all primitives: none for an empty list or where a
    /// primitive has no box.
    pub fn bounding_box(&self) -> (r: Option<AABB>)
        ensures
            r is Some <==> self.list@.len() > 0 && self.all_boxed(),
            r is Some ==> r->0 == union_all(self.boxes()),
    {
        if self.list.len() == 0 {
            return None;
        }
        let mut scene_bound = match self.list[0] {
            Some(first) => first,
            None => {
                return None;
            },
        };
        let ghost boxes = self.boxes();
        let mut i: usize = 0;
        while i < self.list.len()
            invariant
                0 <= i <= self.list@.len(),
                self.list@.len() > 0,
                boxes == self.boxes(),
                self.list@[0] is Some,
                forall|j: int| 0 <= j < i ==> (#[trigger] self.list@[j]) is Some,
                i == 0 ==> scene_bound == boxes[0],
                i > 0 ==> scene_bound == union_all(boxes.subrange(0, i as int)),
            decreases self.list@.len() - i,
        {
            match self.list[i] {
                Some(item_bound) => {
                    proof {
                        let before = boxes.subrange(0, i as int);
                        let after = boxes.subrange(0, i + 1);
                        assert(after.last() == item_bound);
                        assert(after.drop_last() == before);
                        if i == 0 {
                            assert(item_bound.union(item_bound) == item_bound);
                        }
                    }
                    scene_bound = AABB::surrounding_box(&item_bound, &scene_bound);
                },
                None => {
                    return None;
                },
            }
            i = i + 1;
        }
        assert(boxes.subrange(0, boxes.len() as int) == boxes);
        Some(scene_bound)
    }
}

} // verus!
