//! What a ray-object test reports, and how the closest report is kept.
//!
//! The objects of a scene stay with the caller, who alone can intersect a ray
//! with them. The library knows an object by its index and its bounding box,
//! asks for one test at a time (a [`Probe`]), and is told the outcome.

use vstd::prelude::*;
use crate::aabb::AABB;
use crate::interval::Interval;
use crate::scalar::{Scalar, ZERO};

verus! {

/// One intersection of a ray with an object.
#[derive(Debug, Clone, Copy, PartialEq, Eq, Structural)]
pub struct HitRecord {
    /// Index of the object that was hit.
    pub object: usize,
    /// Distance along the ray.
    pub t: Scalar,
    /// Whether the ray met the surface from outside.
    pub front_face: bool,
}

impl HitRecord {
    /// The record of a hit on `object` at distance `t`. `cosine` is the dot
    /// product of the ray's direction with the outward normal at the hit: the
    /// ray meets the front face exactly when it runs against that normal.
    pub fn new(object: usize, t: Scalar, cosine: Scalar) -> (rec: Self)
        ensures
            rec.object == object,
            rec.t == t,
            rec.front_face == (cosine < ZERO),
    {
        HitRecord { object, t, front_face: cosine < ZERO }
    }
}

/// The closest hit found so far, and the window that is still open: its
/// upper end is the distance of that hit, so that whatever is found later is
/// no farther.
#[derive(Debug, Clone, Copy, PartialEq, Eq, Structural)]
pub struct Closest {
    pub window: Interval,
    pub hit: Option<HitRecord>,
}

impl Closest {
    /// The state before anything was tested.
    pub open spec fn spec_new(ray_t: Interval) -> Closest {
        Closest { window: ray_t, hit: None }
    }

    /// The state after an object has answered: a hit replaces the one held
    /// and closes the window behind it, a miss changes nothing.
    pub open spec fn spec_offer(self, answer: Option<HitRecord>) -> Closest {
        match answer {
            Some(rec) => Closest { window: self.window.spec_capped(rec.t), hit: Some(rec) },
            None => self,
        }
    }

    pub fn new(ray_t: Interval) -> (r: Self)
        ensures
            r == Self::spec_new(ray_t),
    {
        Closest { window: ray_t, hit: None }
    }

    /// Takes in the answer of one object, which was tested on `self.window`.
    pub fn offer(&self, answer: Option<HitRecord>) -> (r: Self)
        ensures
            r == self.spec_offer(answer),
    {
        match answer {
            Some(rec) => Closest { window: self.window.capped(rec.t), hit: Some(rec) },
            None => *self,
        }
    }
}

/// The next test that a query needs, or its result.
#[derive(Debug, Clone, Copy, PartialEq, Eq, Structural)]
pub enum Probe {
    /// Test the ray against a bounding box, within `window`.
    Bounds { bbox: AABB, window: Interval },
    /// Intersect the ray with an object, within `window`.
    Object { object: usize, window: Interval },
    /// Nothing is left to test: this is the closest hit, if there is one.
    Done { hit: Option<HitRecord> },
}

/// What an object answers on a window, given the nearest hit that it has on
/// the ray at or beyond the window's lower end: that hit where the window
/// holds it, and nothing otherwise.
pub open spec fn respond(nearest: Option<HitRecord>, window: Interval) -> Option<HitRecord> {
    match nearest {
        Some(rec) => if window.spec_contains(rec.t) {
            Some(rec)
        } else {
            None
        },
        None => None,
    }
}

/// The answers of a scene in which object `i` has the nearest hit
/// `nearest(i)`.
pub open spec fn answers_of(nearest: spec_fn(int) -> Option<HitRecord>) -> spec_fn(
    int,
    Interval,
) -> Option<HitRecord> {
    |i: int, window: Interval| respond(nearest(i), window)
}

/// Whether `acc` is what remains of `start` once the objects of `among` have
/// answered, in any order: either none of them has its nearest hit in the
/// window of `start`, and nothing changed; or `acc` holds the nearest hit of
/// one of them, the window is closed behind it, and none of them has a
/// nearer hit in the window of `start`.
pub open spec fn is_closest_among(
    acc: Closest,
    start: Closest,
    among: Set<int>,
    nearest: spec_fn(int) -> Option<HitRecord>,
) -> bool {
    ||| {
        &&& acc == start
        &&& forall|i: int| among.contains(i) ==> respond(#[trigger] nearest(i), start.window).is_none()
    }
    ||| {
        &&& acc.hit.is_some()
        &&& acc.window == start.window.spec_capped(acc.hit.unwrap().t)
        &&& start.window.spec_contains(acc.hit.unwrap().t)
        &&& exists|i: int| among.contains(i) && #[trigger] nearest(i) == acc.hit
        &&& forall|i: int|
            among.contains(i) && respond(#[trigger] nearest(i), start.window).is_some()
                ==> acc.hit.unwrap().t <= nearest(i).unwrap().t
    }
}

/// Two groups of objects answering one after the other leave what the two
/// groups together leave.
pub proof fn lemma_closest_composes(
    start: Closest,
    middle: Closest,
    end: Closest,
    first: Set<int>,
    second: Set<int>,
    nearest: spec_fn(int) -> Option<HitRecord>,
)
    requires
        is_closest_among(middle, start, first, nearest),
        is_closest_among(end, middle, second, nearest),
    ensures
        is_closest_among(end, start, first.union(second), nearest),
{
    let both = first.union(second);
    if middle == start {
        if end == middle && (forall|i: int|
            second.contains(i) ==> respond(#[trigger] nearest(i), middle.window).is_none()) {
        } else {
            let w = choose|i: int| second.contains(i) && #[trigger] nearest(i) == end.hit;
            assert(both.contains(w));
        }
    } else {
        let w1 = choose|i: int| first.contains(i) && #[trigger] nearest(i) == middle.hit;
        assert(both.contains(w1));
        if end == middle && (forall|i: int|
            second.contains(i) ==> respond(#[trigger] nearest(i), middle.window).is_none()) {
            assert forall|i: int|
                both.contains(i) && respond(#[trigger] nearest(i), start.window).is_some()
                    implies end.hit.unwrap().t <= nearest(i).unwrap().t by {
                if second.contains(i) {
                    assert(respond(nearest(i), middle.window).is_none());
                }
            }
        } else {
            let w2 = choose|i: int| second.contains(i) && #[trigger] nearest(i) == end.hit;
            assert(both.contains(w2));
            assert forall|i: int|
                both.contains(i) && respond(#[trigger] nearest(i), start.window).is_some()
                    implies end.hit.unwrap().t <= nearest(i).unwrap().t by {
                if second.contains(i) {
                    if nearest(i).unwrap().t <= middle.window.max {
                        assert(respond(nearest(i), middle.window).is_some());
                    }
                }
            }
        }
    }
}

/// Whatever order the objects of a group answer in, the distance of the
/// closest hit is the same: two outcomes for one group, from one start that
/// holds no hit yet, agree on whether there is a hit and on its distance.
pub proof fn lemma_closest_is_unique(
    a: Closest,
    b: Closest,
    start: Closest,
    among: Set<int>,
    nearest: spec_fn(int) -> Option<HitRecord>,
)
    requires
        start.hit.is_none(),
        is_closest_among(a, start, among, nearest),
        is_closest_among(b, start, among, nearest),
    ensures
        a.hit.is_some() == b.hit.is_some(),
        a.hit.is_some() ==> a.hit.unwrap().t == b.hit.unwrap().t,
        a.window == b.window,
{
    if a.hit.is_some() {
        let wa = choose|i: int| among.contains(i) && #[trigger] nearest(i) == a.hit;
        assert(respond(nearest(wa), start.window).is_some());
    }
    if b.hit.is_some() {
        let wb = choose|i: int| among.contains(i) && #[trigger] nearest(i) == b.hit;
        assert(respond(nearest(wb), start.window).is_some());
    }
}

} // verus!
