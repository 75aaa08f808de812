//! The decisions of the ray-object tests. The caller computes distances and
//! plane coordinates; which of them count as a hit is decided here.

use vstd::prelude::*;
use crate::aabb::{spec_max, spec_min};
use crate::interval::Interval;
use crate::scalar::{Scalar, ONE, ZERO};

verus! {

/// Key of `1.0e-8`, below which a magnitude counts as zero.
pub const NEAR_ZERO: Scalar = 0x322B_CC77;

/// Which root of a sphere's quadratic is the hit: the smaller one where the
/// window holds it, else the larger one where the window holds that, and
/// none where the discriminant is negative or the window holds neither.
pub open spec fn spec_nearest_root(
    discriminant: Scalar,
    near: Scalar,
    far: Scalar,
    ray_t: Interval,
) -> Option<Scalar> {
    if discriminant < ZERO {
        None
    } else if ray_t.spec_contains(near) {
        Some(near)
    } else if ray_t.spec_contains(far) {
        Some(far)
    } else {
        None
    }
}

/// The first root at or beyond a lower bound, whatever the upper bound.
pub open spec fn spec_first_root_from(
    discriminant: Scalar,
    near: Scalar,
    far: Scalar,
    lower: Scalar,
) -> Option<Scalar> {
    if discriminant < ZERO {
        None
    } else if near >= lower {
        Some(near)
    } else if far >= lower {
        Some(far)
    } else {
        None
    }
}

/// Chooses the distance at which a ray hits a sphere. `near` and `far` are
/// the two roots of the quadratic, `near` the one with the square root
/// subtracted.
pub fn nearest_root(discriminant: Scalar, near: Scalar, far: Scalar, ray_t: Interval) -> (root:
    Option<Scalar>)
    ensures
        root == spec_nearest_root(discriminant, near, far, ray_t),
        root matches Some(t) ==> ray_t.spec_contains(t) && (t == near || t == far),
{
    if discriminant < ZERO {
        None
    } else if ray_t.contains(near) {
        Some(near)
    } else if ray_t.contains(far) {
        Some(far)
    } else {
        None
    }
}

/// Whether a ray runs parallel to a plane, given the dot product of the
/// plane's normal with the ray's direction.
pub fn is_parallel(denom: Scalar) -> (r: bool)
    ensures
        r == (-NEAR_ZERO < denom < NEAR_ZERO),
{
    -NEAR_ZERO < denom && denom < NEAR_ZERO
}

/// Whether a point of a quad's plane lies on the quad, given its two plane
/// coordinates: both must lie between zero and one, ends included.
pub fn is_interior(a: Scalar, b: Scalar) -> (r: bool)
    ensures
        r == (ZERO <= a <= ONE && ZERO <= b <= ONE),
{
    a >= ZERO && a <= ONE && b >= ZERO && b <= ONE
}

/// The stretch of a ray inside a medium's boundary that a window admits.
pub open spec fn spec_medium_span(entry: Scalar, exit: Scalar, ray_t: Interval) -> Option<
    Interval,
> {
    let from = spec_max(entry, ray_t.min);
    let to = spec_min(exit, ray_t.max);
    if from >= to {
        None
    } else {
        Some(Interval { min: spec_max(from, ZERO), max: to })
    }
}

/// Cuts the stretch between the two crossings of a medium's boundary down
/// to the window, and to what lies in front of the ray's origin. There is no
/// stretch where the window leaves nothing between the crossings. A stretch
/// that ends behind the origin comes back with its ends crossed.
pub fn medium_span(entry: Scalar, exit: Scalar, ray_t: Interval) -> (span: Option<Interval>)
    ensures
        span == spec_medium_span(entry, exit, ray_t),
        span matches Some(s) ==> s.min >= ZERO && ray_t.min <= s.min && s.max <= ray_t.max
            && s.max <= exit,
{
    let from = if entry >= ray_t.min {
        entry
    } else {
        ray_t.min
    };
    let to = if exit <= ray_t.max {
        exit
    } else {
        ray_t.max
    };
    if from >= to {
        None
    } else {
        Some(Interval { min: if from >= ZERO {
            from
        } else {
            ZERO
        }, max: to })
    }
}

/// Whether a ray is scattered inside a medium: whether the distance that it
/// travels before it is scattered, drawn at random, is no more than the
/// length of its stretch inside the boundary. A ray that would travel
/// farther leaves the medium untouched.
pub fn medium_scatters(hit_distance: Scalar, distance_inside_boundary: Scalar) -> (r: bool)
    ensures
        r == (hit_distance <= distance_inside_boundary),
{
    hit_distance <= distance_inside_boundary
}

/// A sphere answers with its nearest hit whenever the window holds it: on
/// all windows with one lower end, the root chosen is the first root at or
/// beyond that end, if the window reaches it.
pub proof fn lemma_sphere_answers_with_nearest(
    discriminant: Scalar,
    near: Scalar,
    far: Scalar,
    ray_t: Interval,
)
    requires
        near <= far,
    ensures
        spec_nearest_root(discriminant, near, far, ray_t) == (match spec_first_root_from(
            discriminant,
            near,
            far,
            ray_t.min,
        ) {
            Some(t) => if t <= ray_t.max {
                Some(t)
            } else {
                None
            },
            None => None,
        }),
{
}

/// A ray aimed at the centre of a sphere from its surface hits at distance
/// zero: there the discriminant is not negative and the smaller root is
/// zero, which every window that holds zero accepts.
pub proof fn lemma_surface_ray_hits_at_zero(discriminant: Scalar, far: Scalar, ray_t: Interval)
    requires
        discriminant >= ZERO,
        ray_t.spec_contains(ZERO),
    ensures
        spec_nearest_root(discriminant, ZERO, far, ray_t) == Some(ZERO),
{
}

/// A ray that misses a sphere has a negative discriminant, and no root is a
/// hit, whatever the window.
pub proof fn lemma_negative_discriminant_misses(
    discriminant: Scalar,
    near: Scalar,
    far: Scalar,
    ray_t: Interval,
)
    requires
        discriminant < ZERO,
    ensures
        spec_nearest_root(discriminant, near, far, ray_t).is_none(),
{
}

} // verus!
