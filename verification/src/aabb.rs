//! Axis-aligned bounding boxes.

use vstd::prelude::*;
use crate::interval::Interval;
use crate::scalar::{Point3, Scalar, ZERO};

verus! {

/// An axis-aligned box: one interval per axis.
///
/// The same shape serves in two spaces. In the scene, the three intervals are
/// the extents of a box along `x`, `y` and `z`. Along a ray, they are the
/// ranges of the ray's parameter between the two bounding planes of each
/// axis, lower end first: the box as the ray sees it, which [`AABB::hit`]
/// intersects with a window of distances.
#[derive(Debug, Clone, Copy, PartialEq, Eq, Structural)]
pub struct AABB {
    pub x: Interval,
    pub y: Interval,
    pub z: Interval,
}

/// The smaller of two keys.
pub open spec fn spec_min(a: Scalar, b: Scalar) -> Scalar {
    if a <= b {
        a
    } else {
        b
    }
}

/// The larger of two keys.
pub open spec fn spec_max(a: Scalar, b: Scalar) -> Scalar {
    if a >= b {
        a
    } else {
        b
    }
}

/// The keys that lie in both intervals.
pub open spec fn spec_overlap(a: Interval, b: Interval) -> Interval {
    Interval { min: spec_max(a.min, b.min), max: spec_min(a.max, b.max) }
}

fn min_key(a: Scalar, b: Scalar) -> (r: Scalar)
    ensures
        r == spec_min(a, b),
{
    if a <= b {
        a
    } else {
        b
    }
}

fn max_key(a: Scalar, b: Scalar) -> (r: Scalar)
    ensures
        r == spec_max(a, b),
{
    if a >= b {
        a
    } else {
        b
    }
}

impl AABB {
    /// The interval of the box on axis 0, 1 or 2.
    pub open spec fn spec_axis(self, axis: int) -> Interval
        recommends
            0 <= axis < 3,
    {
        if axis == 0 {
            self.x
        } else if axis == 1 {
            self.y
        } else {
            self.z
        }
    }

    /// Whether `other` lies within `self` on every axis.
    pub open spec fn encloses(self, other: AABB) -> bool {
        self.x.encloses(other.x) && self.y.encloses(other.y) && self.z.encloses(other.z)
    }

    /// The box with no point in it.
    pub open spec fn spec_empty() -> AABB {
        AABB { x: Interval::spec_empty(), y: Interval::spec_empty(), z: Interval::spec_empty() }
    }

    /// The smallest box around two boxes.
    pub open spec fn spec_from_boxes(a: AABB, b: AABB) -> AABB {
        AABB {
            x: Interval::spec_from_intervals(a.x, b.x),
            y: Interval::spec_from_intervals(a.y, b.y),
            z: Interval::spec_from_intervals(a.z, b.z),
        }
    }

    /// The smallest box around two points.
    pub open spec fn spec_from_points(a: Point3, b: Point3) -> AABB {
        AABB {
            x: Interval { min: spec_min(a.x, b.x), max: spec_max(a.x, b.x) },
            y: Interval { min: spec_min(a.y, b.y), max: spec_max(a.y, b.y) },
            z: Interval { min: spec_min(a.z, b.z), max: spec_max(a.z, b.z) },
        }
    }

    /// What the three parameter ranges leave of a window.
    pub open spec fn spec_clip(self, ray_t: Interval) -> Interval {
        spec_overlap(spec_overlap(spec_overlap(ray_t, self.x), self.y), self.z)
    }

    /// The part of the window in which the ray is inside the box, where
    /// there is such a part. A single distance is one.
    pub open spec fn spec_hit(self, ray_t: Interval) -> Option<Interval> {
        let rest = self.spec_clip(ray_t);
        if rest.min <= rest.max {
            Some(rest)
        } else {
            None
        }
    }

    /// The box that holds one point and nothing else.
    pub open spec fn spec_point(p: Point3) -> AABB {
        AABB {
            x: Interval { min: p.x, max: p.x },
            y: Interval { min: p.y, max: p.y },
            z: Interval { min: p.z, max: p.z },
        }
    }

    /// The smallest box around the first `n` points of a sequence.
    pub open spec fn spec_enclosing(points: Seq<Point3>, n: nat) -> AABB
        recommends
            n <= points.len(),
        decreases n,
    {
        if n == 0 {
            Self::spec_empty()
        } else {
            Self::spec_from_boxes(
                Self::spec_enclosing(points, (n - 1) as nat),
                Self::spec_point(points[n - 1]),
            )
        }
    }

    /// Whether a point lies in the box, faces included.
    pub open spec fn spec_holds(self, p: Point3) -> bool {
        self.x.spec_contains(p.x) && self.y.spec_contains(p.y) && self.z.spec_contains(p.z)
    }

    /// One of the eight corners: on each axis the upper end of the box where
    /// the flag is set, and the lower end where it is not.
    pub open spec fn spec_corner(self, upper_x: bool, upper_y: bool, upper_z: bool) -> Point3 {
        Point3 {
            x: if upper_x {
                self.x.max
            } else {
                self.x.min
            },
            y: if upper_y {
                self.y.max
            } else {
                self.y.min
            },
            z: if upper_z {
                self.z.max
            } else {
                self.z.min
            },
        }
    }

    pub fn new_empty() -> (r: Self)
        ensures
            r == Self::spec_empty(),
    {
        AABB { x: Interval::default(), y: Interval::default(), z: Interval::default() }
    }

    pub fn new(ix: Interval, iy: Interval, iz: Interval) -> (r: Self)
        ensures
            r.x == ix,
            r.y == iy,
            r.z == iz,
    {
        AABB { x: ix, y: iy, z: iz }
    }

    /// The box with the two points as opposite corners, whichever corner
    /// each of them is.
    pub fn from_points(a: Point3, b: Point3) -> (r: Self)
        ensures
            r == Self::spec_from_points(a, b),
            r.x.spec_contains(a.x) && r.x.spec_contains(b.x),
            r.y.spec_contains(a.y) && r.y.spec_contains(b.y),
            r.z.spec_contains(a.z) && r.z.spec_contains(b.z),
    {
        AABB {
            x: Interval::new(min_key(a.x, b.x), max_key(a.x, b.x)),
            y: Interval::new(min_key(a.y, b.y), max_key(a.y, b.y)),
            z: Interval::new(min_key(a.z, b.z), max_key(a.z, b.z)),
        }
    }

    /// The smallest box around both boxes.
    pub fn from_boxes(box_1: &Self, box_2: &Self) -> (r: Self)
        ensures
            r == Self::spec_from_boxes(*box_1, *box_2),
            r.encloses(*box_1),
            r.encloses(*box_2),
    {
        AABB {
            x: Interval::from_intervals(box_1.x, box_2.x),
            y: Interval::from_intervals(box_1.y, box_2.y),
            z: Interval::from_intervals(box_1.z, box_2.z),
        }
    }

    /// This box grown to hold the other one too.
    pub fn expand(&self, other_box: &Self) -> (r: Self)
        ensures
            r == Self::spec_from_boxes(*self, *other_box),
            r.encloses(*self),
            r.encloses(*other_box),
    {
        Self::from_boxes(self, other_box)
    }

    /// The interval on one axis. There are three axes, numbered from zero.
    pub fn axis(&self, axis: usize) -> (r: Interval)
        requires
            axis < 3,
        ensures
            r == self.spec_axis(axis as int),
    {
        if axis == 0 {
            self.x
        } else if axis == 1 {
            self.y
        } else {
            self.z
        }
    }

    /// A corner of the box.
    pub fn corner(&self, upper_x: bool, upper_y: bool, upper_z: bool) -> (p: Point3)
        ensures
            p == self.spec_corner(upper_x, upper_y, upper_z),
    {
        Point3 {
            x: if upper_x {
                self.x.max
            } else {
                self.x.min
            },
            y: if upper_y {
                self.y.max
            } else {
                self.y.min
            },
            z: if upper_z {
                self.z.max
            } else {
                self.z.min
            },
        }
    }

    /// The smallest box that holds all the given points: the box of a shape
    /// that was turned, from the corners of its old box after the turn.
    /// Without points it is the empty box.
    pub fn enclosing(points: &Vec<Point3>) -> (r: Self)
        ensures
            r == Self::spec_enclosing(points@, points@.len()),
            forall|i: int| 0 <= i < points@.len() ==> r.spec_holds(#[trigger] points@[i]),
    {
        let mut r = Self::new_empty();
        let mut n: usize = 0;
        while n < points.len()
            invariant
                n <= points@.len(),
                r == Self::spec_enclosing(points@, n as nat),
                forall|i: int| 0 <= i < n ==> r.spec_holds(#[trigger] points@[i]),
            decreases points@.len() - n,
        {
            let p = points[n];
            let single = AABB {
                x: Interval::new(p.x, p.x),
                y: Interval::new(p.y, p.y),
                z: Interval::new(p.z, p.z),
            };
            r = Self::from_boxes(&r, &single);
            n = n + 1;
        }
        r
    }

    /// The slab test, on a box given along a ray: `self` holds, axis by
    /// axis, the range of the ray's parameter between the two bounding
    /// planes. The result is the part of `ray_t` that lies in all three
    /// ranges, and `None` where no distance lies in all of them.
    pub fn hit(&self, ray_t: Interval) -> (r: Option<Interval>)
        ensures
            r == self.spec_hit(ray_t),
    {
        let mut rest = ray_t;
        let mut a: usize = 0;
        while a < 3
            invariant
                a <= 3,
                rest.min <= rest.max || a == 0,
                a == 0 ==> rest == ray_t,
                a == 1 ==> rest == spec_overlap(ray_t, self.x),
                a == 2 ==> rest == spec_overlap(spec_overlap(ray_t, self.x), self.y),
                a == 3 ==> rest == self.spec_clip(ray_t),
            decreases 3 - a,
        {
            let range = self.axis(a);
            if range.min > rest.min {
                rest.min = range.min;
            }
            if range.max < rest.max {
                rest.max = range.max;
            }
            if rest.max < rest.min {
                return None;
            }
            a = a + 1;
        }
        Some(rest)
    }
}

/// The box around two boxes reaches, on every axis, at least as far as each
/// of them, and no box that holds both is smaller.
pub proof fn lemma_union_is_monotonic(a: AABB, b: AABB, c: AABB)
    ensures
        forall|axis: int|
            0 <= axis < 3 ==> (#[trigger] AABB::spec_from_boxes(a, b).spec_axis(axis)).encloses(
                a.spec_axis(axis),
            ),
        forall|axis: int|
            0 <= axis < 3 ==> (#[trigger] AABB::spec_from_boxes(a, b).spec_axis(axis)).encloses(
                b.spec_axis(axis),
            ),
        AABB::spec_from_boxes(a, b).encloses(a),
        AABB::spec_from_boxes(a, b).encloses(b),
        c.encloses(a) && c.encloses(b) ==> c.encloses(AABB::spec_from_boxes(a, b)),
{
}

/// Enclosure of boxes is reflexive and transitive.
pub proof fn lemma_encloses_order(a: AABB, b: AABB, c: AABB)
    ensures
        a.encloses(a),
        a.encloses(b) && b.encloses(c) ==> a.encloses(c),
{
}

/// A ray that starts inside a box is never turned away by the slab test on
/// the window of all distances. Along a ray that starts inside, faces
/// included, the parameter zero, which is the ray's origin, lies between the
/// two planes of every axis; the part that the test returns holds it.
pub proof fn lemma_origin_inside_hits(along: AABB)
    requires
        along.spec_holds(Point3 { x: ZERO, y: ZERO, z: ZERO }),
    ensures
        along.spec_hit(Interval::spec_universe()).is_some(),
        along.spec_hit(Interval::spec_universe()).unwrap().spec_contains(ZERO),
{
}

/// A larger box is hit wherever a smaller one is, and a wider window finds
/// what a narrower one does.
pub proof fn lemma_hit_is_monotonic(small: AABB, large: AABB, narrow: Interval, wide: Interval)
    requires
        large.encloses(small),
        wide.encloses(narrow),
        small.spec_hit(narrow).is_some(),
    ensures
        large.spec_hit(wide).is_some(),
        large.spec_hit(wide).unwrap().encloses(small.spec_hit(narrow).unwrap()),
{
}

/// What the slab test returns lies within the window and within the range of
/// every axis; and the test succeeds whenever some distance of the window
/// lies in all three ranges, and returns a part that holds that distance.
pub proof fn lemma_hit_bounds(along: AABB, ray_t: Interval, t: Scalar)
    ensures
        along.spec_hit(ray_t) matches Some(rest) ==> ray_t.encloses(rest) && along.x.encloses(rest)
            && along.y.encloses(rest) && along.z.encloses(rest),
        ray_t.spec_contains(t) && along.spec_holds(Point3 { x: t, y: t, z: t })
            ==> along.spec_hit(ray_t).is_some() && along.spec_hit(ray_t).unwrap().spec_contains(t),
        along.spec_hit(ray_t).is_none() ==> !(ray_t.spec_contains(t) && along.spec_holds(
            Point3 { x: t, y: t, z: t },
        )),
{
}

} // verus!
