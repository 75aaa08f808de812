//! A flat list of objects, searched one after the other.

use vstd::prelude::*;
use crate::aabb::{lemma_encloses_order, AABB};
use crate::hittable::{
    answers_of, is_closest_among, lemma_closest_composes, respond, Closest, HitRecord, Probe,
};
use crate::interval::Interval;

verus! {

/// The objects of a scene, each by its bounding box. An object is known by
/// its place in the list.
pub struct HittableList {
    pub objects: Vec<AABB>,
    pub bbox: AABB,
}

/// The box around the first `n` boxes of a sequence.
pub open spec fn hull(boxes: Seq<AABB>, n: nat) -> AABB
    recommends
        n <= boxes.len(),
    decreases n,
{
    if n == 0 {
        AABB::spec_empty()
    } else {
        AABB::spec_from_boxes(hull(boxes, (n - 1) as nat), boxes[n - 1])
    }
}

/// What a linear search leaves after the first `n` objects have answered,
/// each on the window that the ones before it left open.
pub open spec fn scan(
    n: nat,
    start: Closest,
    answer: spec_fn(int, Interval) -> Option<HitRecord>,
) -> Closest
    decreases n,
{
    if n == 0 {
        start
    } else {
        let before = scan((n - 1) as nat, start, answer);
        before.spec_offer(answer(n - 1, before.window))
    }
}

/// A linear search under way: the objects before `next` have answered.
#[derive(Debug, Clone, Copy, PartialEq, Eq, Structural)]
pub struct Scan {
    pub next: usize,
    pub closest: Closest,
}

impl HittableList {
    /// Whether the box held is the box around all objects.
    pub open spec fn wf(&self) -> bool {
        self.bbox == hull(self.objects@, self.objects@.len())
    }

    /// The result of searching the whole list on `ray_t`.
    pub open spec fn spec_hit(
        &self,
        ray_t: Interval,
        answer: spec_fn(int, Interval) -> Option<HitRecord>,
    ) -> Option<HitRecord> {
        scan(self.objects@.len(), Closest::spec_new(ray_t), answer).hit
    }

    /// The test that a search in state `s` needs next.
    pub open spec fn spec_probe(&self, s: Scan) -> Probe {
        if s.next < self.objects@.len() {
            Probe::Object { object: s.next, window: s.closest.window }
        } else {
            Probe::Done { hit: s.closest.hit }
        }
    }

    /// The state after the object under test has answered.
    pub open spec fn spec_answer(&self, s: Scan, answer: Option<HitRecord>) -> Scan {
        if s.next < self.objects@.len() {
            Scan { next: (s.next + 1) as usize, closest: s.closest.spec_offer(answer) }
        } else {
            s
        }
    }

    pub fn new() -> (list: Self)
        ensures
            list.objects@.len() == 0,
            list.bbox == AABB::spec_empty(),
            list.wf(),
    {
        HittableList { objects: Vec::new(), bbox: AABB::new_empty() }
    }

    /// Adds an object, given by its bounding box, at the end of the list,
    /// and grows the list's own box around it.
    pub fn add(&mut self, bounding_box: AABB)
        ensures
            final(self).objects@ == old(self).objects@.push(bounding_box),
            final(self).bbox == AABB::spec_from_boxes(old(self).bbox, bounding_box),
            old(self).wf() ==> final(self).wf(),
    {
        let ghost before = self.objects@;
        self.bbox = self.bbox.expand(&bounding_box);
        self.objects.push(bounding_box);
        proof {
            lemma_hull_ignores_tail(before, self.objects@, before.len());
        }
    }

    /// The number of objects.
    pub fn len(&self) -> (n: usize)
        ensures
            n == self.objects@.len(),
    {
        self.objects.len()
    }

    /// The box around all objects of the list.
    pub fn bounding_box(&self) -> (r: &AABB)
        ensures
            *r == self.bbox,
            self.wf() ==> forall|i: int|
                0 <= i < self.objects@.len() ==> r.encloses(#[trigger] self.objects@[i]),
    {
        proof {
            if self.wf() {
                lemma_hull_encloses(self.objects@, self.objects@.len());
            }
        }
        &self.bbox
    }

    /// Starts a search for the closest hit within `ray_t`.
    pub fn hit(&self, ray_t: Interval) -> (s: Scan)
        ensures
            s.next == 0,
            s.closest == Closest::spec_new(ray_t),
    {
        Scan { next: 0, closest: Closest::new(ray_t) }
    }

    /// What the search needs next: the answer of one object on the window
    /// still open, or nothing more.
    pub fn probe(&self, s: &Scan) -> (p: Probe)
        ensures
            p == self.spec_probe(*s),
    {
        if s.next < self.objects.len() {
            Probe::Object { object: s.next, window: s.closest.window }
        } else {
            Probe::Done { hit: s.closest.hit }
        }
    }

    /// Takes in the answer to the last probe. A search that is done stays
    /// as it is.
    pub fn answer(&self, s: Scan, answer: Option<HitRecord>) -> (next: Scan)
        ensures
            next == self.spec_answer(s, answer),
    {
        if s.next < self.objects.len() {
            Scan { next: s.next + 1, closest: s.closest.offer(answer) }
        } else {
            s
        }
    }
}

/// The box around the first `n` boxes depends on those boxes only.
pub proof fn lemma_hull_ignores_tail(a: Seq<AABB>, b: Seq<AABB>, n: nat)
    requires
        n <= a.len(),
        n <= b.len(),
        forall|i: int| 0 <= i < n ==> a[i] == b[i],
    ensures
        hull(a, n) == hull(b, n),
    decreases n,
{
    if n > 0 {
        lemma_hull_ignores_tail(a, b, (n - 1) as nat);
    }
}

/// The box around a run of boxes encloses each of them.
pub proof fn lemma_hull_encloses(boxes: Seq<AABB>, n: nat)
    requires
        n <= boxes.len(),
    ensures
        forall|i: int| 0 <= i < n ==> hull(boxes, n).encloses(#[trigger] boxes[i]),
    decreases n,
{
    if n > 0 {
        lemma_hull_encloses(boxes, (n - 1) as nat);
        let inner = hull(boxes, (n - 1) as nat);
        assert forall|i: int| 0 <= i < n implies hull(boxes, n).encloses(#[trigger] boxes[i]) by {
            if i < n - 1 {
                lemma_encloses_order(hull(boxes, n), inner, boxes[i]);
            }
        }
    }
}

/// A search that is driven by the answers `answer` passes through the states
/// `scan(k, ..)`: one answer leads from the state after `k` objects to the
/// state after `k + 1`, and the state after all objects is done, with the
/// result of the whole search.
pub proof fn lemma_search_follows_scan(
    list: HittableList,
    ray_t: Interval,
    answer: spec_fn(int, Interval) -> Option<HitRecord>,
    k: nat,
)
    requires
        k <= list.objects@.len(),
        list.objects@.len() <= usize::MAX,
    ensures
        ({
            let s = Scan { next: k as usize, closest: scan(k, Closest::spec_new(ray_t), answer) };
            if k < list.objects@.len() {
                &&& list.spec_probe(s) == (Probe::Object { object: k as usize, window: s.closest.window })
                &&& list.spec_answer(s, answer(k as int, s.closest.window)) == (Scan {
                    next: (k + 1) as usize,
                    closest: scan(k + 1, Closest::spec_new(ray_t), answer),
                })
            } else {
                list.spec_probe(s) == (Probe::Done { hit: list.spec_hit(ray_t, answer) })
            }
        }),
{
}

/// A linear search finds the closest hit: where every object answers with
/// its nearest hit whenever the window holds it, the state after `n` objects
/// is the closest among those `n`.
pub proof fn lemma_scan_is_closest(
    n: nat,
    start: Closest,
    nearest: spec_fn(int) -> Option<HitRecord>,
)
    ensures
        is_closest_among(
            scan(n, start, answers_of(nearest)),
            start,
            Set::new(|i: int| 0 <= i < n),
            nearest,
        ),
    decreases n,
{
    let answer = answers_of(nearest);
    if n == 0 {
    } else {
        let before = scan((n - 1) as nat, start, answer);
        let after = scan(n, start, answer);
        lemma_scan_is_closest((n - 1) as nat, start, nearest);
        let head = Set::new(|i: int| 0 <= i < n - 1);
        let last = set![n - 1];
        assert(answer(n - 1, before.window) == respond(nearest(n - 1), before.window));
        assert(is_closest_among(after, before, last, nearest)) by {
            if respond(nearest(n - 1), before.window).is_some() {
                assert(last.contains(n - 1));
            }
        }
        lemma_closest_composes(start, before, after, head, last, nearest);
        assert(head.union(last) =~= Set::new(|i: int| 0 <= i < n));
    }
}

} // verus!
