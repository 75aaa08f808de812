//! Sorting objects by where their boxes start along an axis.

use vstd::prelude::*;
use crate::aabb::AABB;
use crate::scalar::Scalar;

verus! {

/// The coordinate at which the box of object `i` starts along an axis.
pub open spec fn spec_key(boxes: Seq<AABB>, i: int, axis: int) -> Scalar {
    boxes[i].spec_axis(axis).min
}

/// Whether the objects are in the order of their keys, smallest first.
pub open spec fn sorted_along(objects: Seq<usize>, boxes: Seq<AABB>, axis: int) -> bool {
    forall|a: int, b: int|
        0 <= a <= b < objects.len() ==> spec_key(boxes, #[trigger] objects[a] as int, axis)
            <= spec_key(boxes, #[trigger] objects[b] as int, axis)
}

/// The indices that occur in a sequence.
pub open spec fn index_set(objects: Seq<usize>) -> Set<int> {
    Set::new(|i: int| exists|k: int| 0 <= k < objects.len() && #[trigger] objects[k] == i)
}

/// Sequences that hold the same objects equally often hold the same
/// objects, and one of them repeats an object only if the other does.
pub proof fn lemma_same_multiset_same_set(a: Seq<usize>, b: Seq<usize>)
    requires
        a.to_multiset() == b.to_multiset(),
    ensures
        index_set(a) == index_set(b),
        a.len() == b.len(),
        a.no_duplicates() ==> b.no_duplicates(),
{
    broadcast use vstd::seq_lib::group_to_multiset_ensures;

    assert forall|i: int| index_set(a).contains(i) <==> index_set(b).contains(i) by {
        if index_set(a).contains(i) {
            let k = choose|k: int| 0 <= k < a.len() && #[trigger] a[k] == i;
            assert(a.contains(a[k]));
            assert(b.to_multiset().count(a[k]) > 0);
            assert(b.contains(a[k]));
        }
        if index_set(b).contains(i) {
            let k = choose|k: int| 0 <= k < b.len() && #[trigger] b[k] == i;
            assert(b.contains(b[k]));
            assert(a.to_multiset().count(b[k]) > 0);
            assert(a.contains(b[k]));
        }
    }
    assert(index_set(a) =~= index_set(b));
    vstd::seq_lib::to_multiset_len(a);
    vstd::seq_lib::to_multiset_len(b);
    if a.no_duplicates() {
        a.lemma_multiset_has_no_duplicates();
        b.lemma_multiset_has_no_duplicates_conv();
    }
}

/// The key of an object.
fn key(boxes: &Vec<AABB>, object: usize, axis: usize) -> (k: Scalar)
    requires
        axis < 3,
        object < boxes@.len(),
    ensures
        k == spec_key(boxes@, object as int, axis as int),
{
    boxes[object].axis(axis).min
}

/// Whether every object of a sequence has a box.
pub open spec fn all_in_reach(objects: Seq<usize>, boxes: Seq<AABB>) -> bool {
    forall|k: int| 0 <= k < objects.len() ==> #[trigger] objects[k] < boxes.len()
}

/// Merges two sorted runs into one.
fn merge(left: &Vec<usize>, right: &Vec<usize>, boxes: &Vec<AABB>, axis: usize) -> (merged: Vec<
    usize,
>)
    requires
        axis < 3,
        all_in_reach(left@, boxes@),
        all_in_reach(right@, boxes@),
        sorted_along(left@, boxes@, axis as int),
        sorted_along(right@, boxes@, axis as int),
    ensures
        merged@.to_multiset() == left@.to_multiset().add(right@.to_multiset()),
        merged@.len() == left@.len() + right@.len(),
        sorted_along(merged@, boxes@, axis as int),
        all_in_reach(merged@, boxes@),
{
    let mut merged: Vec<usize> = Vec::new();
    let mut i: usize = 0;
    let mut j: usize = 0;
    proof {
        assert(left@.subrange(0, 0) =~= Seq::<usize>::empty());
        assert(right@.subrange(0, 0) =~= Seq::<usize>::empty());
        assert(merged@ =~= left@.subrange(0, 0) + right@.subrange(0, 0));
        vstd::seq_lib::lemma_multiset_commutative(left@.subrange(0, 0), right@.subrange(0, 0));
        assert(merged@.to_multiset() =~= left@.subrange(0, 0).to_multiset().add(
            right@.subrange(0, 0).to_multiset(),
        ));
    }
    while i < left.len() || j < right.len()
        invariant
            axis < 3,
            i <= left@.len(),
            j <= right@.len(),
            merged@.len() == i + j,
            all_in_reach(left@, boxes@),
            all_in_reach(right@, boxes@),
            all_in_reach(merged@, boxes@),
            sorted_along(left@, boxes@, axis as int),
            sorted_along(right@, boxes@, axis as int),
            sorted_along(merged@, boxes@, axis as int),
            merged@.to_multiset() == left@.subrange(0, i as int).to_multiset().add(
                right@.subrange(0, j as int).to_multiset(),
            ),
            forall|k: int|
                0 <= k < merged@.len() && i < left@.len() ==> spec_key(
                    boxes@,
                    #[trigger] merged@[k] as int,
                    axis as int,
                ) <= spec_key(boxes@, left@[i as int] as int, axis as int),
            forall|k: int|
                0 <= k < merged@.len() && j < right@.len() ==> spec_key(
                    boxes@,
                    #[trigger] merged@[k] as int,
                    axis as int,
                ) <= spec_key(boxes@, right@[j as int] as int, axis as int),
        decreases left@.len() - i + right@.len() - j,
    {
        let from_left = if i == left.len() {
            false
        } else if j == right.len() {
            true
        } else {
            key(boxes, left[i], axis) <= key(boxes, right[j], axis)
        };
        let ghost before = merged@;
        if from_left {
            let object = left[i];
            merged.push(object);
            proof {
                vstd::seq_lib::to_multiset_build(before, object);
                vstd::seq_lib::to_multiset_build(left@.subrange(0, i as int), object);
                assert(left@.subrange(0, i + 1) =~= left@.subrange(0, i as int).push(object));
                assert(merged@.to_multiset() =~= left@.subrange(0, i + 1).to_multiset().add(
                    right@.subrange(0, j as int).to_multiset(),
                ));
                assert forall|k: int| 0 <= k < merged@.len() && i + 1 < left@.len() implies spec_key(
                    boxes@,
                    #[trigger] merged@[k] as int,
                    axis as int,
                ) <= spec_key(boxes@, left@[i + 1] as int, axis as int) by {
                    assert(spec_key(boxes@, left@[i as int] as int, axis as int) <= spec_key(
                        boxes@,
                        left@[i + 1] as int,
                        axis as int,
                    ));
                    if k < before.len() {
                        assert(merged@[k] == before[k]);
                    }
                }
                assert forall|k: int| 0 <= k < merged@.len() && j < right@.len() implies spec_key(
                    boxes@,
                    #[trigger] merged@[k] as int,
                    axis as int,
                ) <= spec_key(boxes@, right@[j as int] as int, axis as int) by {
                    if k < before.len() {
                        assert(merged@[k] == before[k]);
                    }
                }
                assert forall|a: int, b: int| 0 <= a <= b < merged@.len() implies spec_key(
                    boxes@,
                    #[trigger] merged@[a] as int,
                    axis as int,
                ) <= spec_key(boxes@, #[trigger] merged@[b] as int, axis as int) by {
                    if b < before.len() {
                        assert(merged@[a] == before[a]);
                        assert(merged@[b] == before[b]);
                    } else if a < before.len() {
                        assert(merged@[a] == before[a]);
                    }
                }
            }
            i = i + 1;
        } else {
            let object = right[j];
            merged.push(object);
            proof {
                vstd::seq_lib::to_multiset_build(before, object);
                vstd::seq_lib::to_multiset_build(right@.subrange(0, j as int), object);
                assert(right@.subrange(0, j + 1) =~= right@.subrange(0, j as int).push(object));
                assert(merged@.to_multiset() =~= left@.subrange(0, i as int).to_multiset().add(
                    right@.subrange(0, j + 1).to_multiset(),
                ));
                assert forall|k: int| 0 <= k < merged@.len() && j + 1 < right@.len() implies spec_key(
                    boxes@,
                    #[trigger] merged@[k] as int,
                    axis as int,
                ) <= spec_key(boxes@, right@[j + 1] as int, axis as int) by {
                    assert(spec_key(boxes@, right@[j as int] as int, axis as int) <= spec_key(
                        boxes@,
                        right@[j + 1] as int,
                        axis as int,
                    ));
                    if k < before.len() {
                        assert(merged@[k] == before[k]);
                    }
                }
                assert forall|k: int| 0 <= k < merged@.len() && i < left@.len() implies spec_key(
                    boxes@,
                    #[trigger] merged@[k] as int,
                    axis as int,
                ) <= spec_key(boxes@, left@[i as int] as int, axis as int) by {
                    if k < before.len() {
                        assert(merged@[k] == before[k]);
                    }
                }
                assert forall|a: int, b: int| 0 <= a <= b < merged@.len() implies spec_key(
                    boxes@,
                    #[trigger] merged@[a] as int,
                    axis as int,
                ) <= spec_key(boxes@, #[trigger] merged@[b] as int, axis as int) by {
                    if b < before.len() {
                        assert(merged@[a] == before[a]);
                        assert(merged@[b] == before[b]);
                    } else if a < before.len() {
                        assert(merged@[a] == before[a]);
                    }
                }
            }
            j = j + 1;
        }
    }
    proof {
        assert(left@.subrange(0, left@.len() as int) =~= left@);
        assert(right@.subrange(0, right@.len() as int) =~= right@);
    }
    merged
}

/// The objects at the places `from .. to` of a sequence.
fn slice_of(objects: &Vec<usize>, from: usize, to: usize) -> (part: Vec<usize>)
    requires
        from <= to <= objects@.len(),
    ensures
        part@ == objects@.subrange(from as int, to as int),
{
    let mut part: Vec<usize> = Vec::new();
    let mut k = from;
    while k < to
        invariant
            from <= k <= to <= objects@.len(),
            part@ == objects@.subrange(from as int, k as int),
        decreases to - k,
    {
        part.push(objects[k]);
        assert(part@ =~= objects@.subrange(from as int, k + 1));
        k = k + 1;
    }
    part
}

/// Sorts objects by their keys, smallest first: each half is sorted by
/// itself, and the two sorted halves are merged. The result holds the
/// objects that were given, each as often.
pub fn sort_along(objects: Vec<usize>, boxes: &Vec<AABB>, axis: usize) -> (sorted: Vec<usize>)
    requires
        axis < 3,
        all_in_reach(objects@, boxes@),
    ensures
        sorted@.to_multiset() == objects@.to_multiset(),
        sorted@.len() == objects@.len(),
        sorted_along(sorted@, boxes@, axis as int),
        all_in_reach(sorted@, boxes@),
    decreases objects@.len(),
{
    let n = objects.len();
    if n <= 1 {
        return objects;
    }
    let mid = n / 2;
    let lower = slice_of(&objects, 0, mid);
    let upper = slice_of(&objects, mid, n);
    proof {
        assert(lower@ + upper@ =~= objects@);
        vstd::seq_lib::lemma_multiset_commutative(lower@, upper@);
    }
    let lower = sort_along(lower, boxes, axis);
    let upper = sort_along(upper, boxes, axis);
    merge(&lower, &upper, boxes, axis)
}

} // verus!
