//! The bounding-volume hierarchy: a binary tree of boxes over the objects of
//! a list, which finds the closest hit without testing every object.

use vstd::prelude::*;
use crate::aabb::{lemma_encloses_order, lemma_hit_bounds, AABB};
use crate::hittable::{
    answers_of, is_closest_among, lemma_closest_composes, lemma_closest_is_unique, respond,
    Closest, HitRecord, Probe,
};
use crate::hittable_list::{lemma_scan_is_closest, scan, HittableList};
use crate::interval::Interval;
use crate::random::draw_below;
use crate::scalar::{Point3, Scalar};
use crate::sorting::{
    all_in_reach, index_set, lemma_same_multiset_same_set, sort_along, sorted_along, spec_key,
};

verus! {

/// One side of a node: an object of the list, by its index, or a subtree.
pub enum Branch {
    Object(usize),
    Node(Box<BVHNode>),
}

/// A node of the hierarchy. Its box is the box around the boxes of its two
/// sides. A node over a single object has that object on both sides.
pub struct BVHNode {
    pub left: Branch,
    pub right: Branch,
    pub bbox: AABB,
}

/// Something that a traversal has still to look at.
#[derive(Clone, Copy)]
pub enum Pending<'a> {
    Object(usize),
    Node(&'a BVHNode),
}

/// A search of the tree under way. The last entry of `stack` is looked at
/// next.
pub struct Traversal<'a> {
    pub stack: Vec<Pending<'a>>,
    pub closest: Closest,
}

/// The objects below a branch.
pub open spec fn leaves(b: Branch) -> Set<int>
    decreases b,
{
    match b {
        Branch::Object(i) => set![i as int],
        Branch::Node(n) => leaves(n.left).union(leaves(n.right)),
    }
}

/// The box of a branch: that of the object, or that of the subtree's root.
pub open spec fn box_of(b: Branch, boxes: Seq<AABB>) -> AABB {
    match b {
        Branch::Object(i) => boxes[i as int],
        Branch::Node(n) => n.bbox,
    }
}

/// Whether a branch is a hierarchy over objects with the given boxes: every
/// index names an object, and every node's box is the box around its sides.
pub open spec fn covers(b: Branch, boxes: Seq<AABB>) -> bool
    decreases b,
{
    match b {
        Branch::Object(i) => i < boxes.len(),
        Branch::Node(n) => {
            &&& covers(n.left, boxes)
            &&& covers(n.right, boxes)
            &&& n.bbox == AABB::spec_from_boxes(box_of(n.left, boxes), box_of(n.right, boxes))
        },
    }
}

/// Whether, along one axis, no object of `right` starts before an object of
/// `left`.
pub open spec fn split_along(left: Set<int>, right: Set<int>, boxes: Seq<AABB>, axis: int) -> bool {
    forall|i: int, j: int|
        left.contains(i) && right.contains(j) ==> #[trigger] spec_key(boxes, i, axis)
            <= #[trigger] spec_key(boxes, j, axis)
}

/// Whether every node divides its objects along some axis, those that start
/// first on the left.
pub open spec fn ordered(b: Branch, boxes: Seq<AABB>) -> bool
    decreases b,
{
    match b {
        Branch::Object(i) => true,
        Branch::Node(n) => {
            &&& exists|axis: int|
                0 <= axis < 3 && #[trigger] split_along(
                    leaves(n.left),
                    leaves(n.right),
                    boxes,
                    axis,
                )
            &&& ordered(n.left, boxes)
            &&& ordered(n.right, boxes)
        },
    }
}

/// The number of objects that a branch was built over. A node that has one
/// object on both sides was built over that object alone.
pub open spec fn weight(b: Branch) -> nat
    decreases b,
{
    match b {
        Branch::Object(i) => 1,
        Branch::Node(n) => if n.left is Object && n.left == n.right {
            1
        } else {
            weight(n.left) + weight(n.right)
        },
    }
}

/// Whether every node over more than one object gives half of its objects,
/// rounded down, to its left side.
pub open spec fn balanced(b: Branch) -> bool
    decreases b,
{
    match b {
        Branch::Object(i) => true,
        Branch::Node(n) => {
            &&& weight(b) == 1 || weight(n.left) == weight(b) / 2
            &&& balanced(n.left)
            &&& balanced(n.right)
        },
    }
}

/// The search of a branch: an object answers on the window still open; a
/// node whose box the ray misses within that window is passed over, and
/// otherwise its left side is searched, then its right side on what the left
/// side left open.
pub open spec fn visit(
    b: Branch,
    acc: Closest,
    answer: spec_fn(int, Interval) -> Option<HitRecord>,
    passes: spec_fn(AABB, Interval) -> bool,
) -> Closest
    decreases b,
{
    match b {
        Branch::Object(i) => acc.spec_offer(answer(i as int, acc.window)),
        Branch::Node(n) => if passes(n.bbox, acc.window) {
            visit(n.right, visit(n.left, acc, answer, passes), answer, passes)
        } else {
            acc
        },
    }
}

/// Whether the box test never turns a ray away from a box that holds an
/// object which answers: for every box that encloses the box of an object,
/// and every window from `lower` on which that object answers, the test
/// passes.
pub open spec fn box_test_is_sound(
    passes: spec_fn(AABB, Interval) -> bool,
    nearest: spec_fn(int) -> Option<HitRecord>,
    boxes: Seq<AABB>,
    lower: Scalar,
) -> bool {
    forall|i: int, bbox: AABB, window: Interval|
        0 <= i < boxes.len() && bbox.encloses(boxes[i]) && window.min == lower && respond(
            #[trigger] nearest(i),
            window,
        ).is_some() ==> #[trigger] passes(bbox, window)
}

/// The box test that the slab test gives: a box passes where the slab test
/// finds a part of the window inside the box as it lies along the ray.
pub open spec fn slab_test(along: spec_fn(AABB) -> AABB) -> spec_fn(AABB, Interval) -> bool {
    |bbox: AABB, window: Interval| along(bbox).spec_hit(window).is_some()
}

impl<'a> Pending<'a> {
    /// The branch that the entry stands for.
    pub open spec fn branch(self) -> Branch {
        match self {
            Pending::Object(i) => Branch::Object(i),
            Pending::Node(n) => Branch::Node(Box::new(*n)),
        }
    }
}

/// The number of probes that a stack of entries can still ask for.
pub open spec fn work(stack: Seq<Branch>) -> nat
    decreases stack.len(),
{
    if stack.len() == 0 {
        0
    } else {
        work(stack.drop_last()) + size(stack.last())
    }
}

/// The number of probes that the search of one branch can ask for.
pub open spec fn size(b: Branch) -> nat
    decreases b,
{
    match b {
        Branch::Object(i) => 1,
        Branch::Node(n) => 1 + size(n.left) + size(n.right),
    }
}

/// What a traversal ends with, when its entries are searched from the last
/// to the first.
pub open spec fn run(
    stack: Seq<Branch>,
    acc: Closest,
    answer: spec_fn(int, Interval) -> Option<HitRecord>,
    passes: spec_fn(AABB, Interval) -> bool,
) -> Closest
    decreases stack.len(),
{
    if stack.len() == 0 {
        acc
    } else {
        run(stack.drop_last(), visit(stack.last(), acc, answer, passes), answer, passes)
    }
}

/// The entries of a traversal after one step that is given the true outcome
/// of its probe: a node leaves the stack, and its two sides enter it where
/// its box passes; an object leaves the stack.
pub open spec fn step_entries(
    stack: Seq<Branch>,
    acc: Closest,
    passes: spec_fn(AABB, Interval) -> bool,
) -> Seq<Branch>
    recommends
        stack.len() > 0,
{
    match stack.last() {
        Branch::Object(i) => stack.drop_last(),
        Branch::Node(n) => if passes(n.bbox, acc.window) {
            stack.drop_last().push(n.right).push(n.left)
        } else {
            stack.drop_last()
        },
    }
}

/// The closest hit of a traversal after one step that is given the true
/// outcome of its probe.
pub open spec fn step_closest(
    stack: Seq<Branch>,
    acc: Closest,
    answer: spec_fn(int, Interval) -> Option<HitRecord>,
) -> Closest
    recommends
        stack.len() > 0,
{
    match stack.last() {
        Branch::Object(i) => acc.spec_offer(answer(i as int, acc.window)),
        Branch::Node(n) => acc,
    }
}

/// What a traversal ends with when it is driven step by step, each probe
/// answered truly, until nothing is left to look at.
pub open spec fn drive(
    stack: Seq<Branch>,
    acc: Closest,
    answer: spec_fn(int, Interval) -> Option<HitRecord>,
    passes: spec_fn(AABB, Interval) -> bool,
) -> Closest
    decreases work(stack),
{
    if stack.len() == 0 {
        acc
    } else {
        proof {
            lemma_step_is_work(stack, acc, passes);
        }
        drive(step_entries(stack, acc, passes), step_closest(stack, acc, answer), answer, passes)
    }
}

impl<'a> Traversal<'a> {
    /// The entries still to look at, as branches.
    pub open spec fn branches(&self) -> Seq<Branch> {
        self.stack@.map_values(|p: Pending<'a>| p.branch())
    }

    /// The test that the traversal needs next.
    pub open spec fn spec_probe(&self) -> Probe {
        if self.stack@.len() == 0 {
            Probe::Done { hit: self.closest.hit }
        } else {
            match self.stack@.last() {
                Pending::Object(i) => Probe::Object { object: i, window: self.closest.window },
                Pending::Node(n) => Probe::Bounds { bbox: n.bbox, window: self.closest.window },
            }
        }
    }

    /// The entries after a box test: the node leaves the stack, and where
    /// the test passed its right and left sides enter it, the left side last.
    pub open spec fn branches_after_bounds(&self, pass: bool) -> Seq<Branch> {
        if self.stack@.len() > 0 && self.stack@.last() is Node {
            let n = self.stack@.last()->Node_0;
            if pass {
                self.branches().drop_last().push(n.right).push(n.left)
            } else {
                self.branches().drop_last()
            }
        } else {
            self.branches()
        }
    }

    /// The entries after an object's answer: the object leaves the stack.
    pub open spec fn branches_after_object(&self) -> Seq<Branch> {
        if self.stack@.len() > 0 && self.stack@.last() is Object {
            self.branches().drop_last()
        } else {
            self.branches()
        }
    }

    /// The closest hit after an object's answer.
    pub open spec fn closest_after_object(&self, answer: Option<HitRecord>) -> Closest {
        if self.stack@.len() > 0 && self.stack@.last() is Object {
            self.closest.spec_offer(answer)
        } else {
            self.closest
        }
    }

    /// What the traversal needs next: a box test, the answer of an object,
    /// or nothing more.
    pub fn probe(&self) -> (p: Probe)
        ensures
            p == self.spec_probe(),
    {
        let n = self.stack.len();
        if n == 0 {
            Probe::Done { hit: self.closest.hit }
        } else {
            match self.stack[n - 1] {
                Pending::Object(i) => Probe::Object { object: i, window: self.closest.window },
                Pending::Node(node) => Probe::Bounds {
                    bbox: node.bbox,
                    window: self.closest.window,
                },
            }
        }
    }

    /// Takes in the outcome of the box test that the last probe asked for.
    /// Where the last probe asked for something else, nothing changes.
    pub fn answer_bounds(&mut self, pass: bool)
        ensures
            final(self).branches() == old(self).branches_after_bounds(pass),
            final(self).closest == old(self).closest,
            old(self).spec_probe() is Bounds ==> work(final(self).branches()) < work(
                old(self).branches(),
            ),
    {
        let n = self.stack.len();
        if n == 0 {
            return ;
        }
        let ghost before = self.branches();
        let top = self.stack[n - 1];
        match top {
            Pending::Object(i) => {},
            Pending::Node(node) => {
                self.stack.pop();
                assert(self.branches() =~= before.drop_last());
                proof {
                    lemma_work_push(before.drop_last(), before.last());
                    assert(before.drop_last().push(before.last()) =~= before);
                }
                if pass {
                    let ghost popped = self.branches();
                    self.stack.push(pending(&node.right));
                    assert(self.branches() =~= popped.push(node.right));
                    let ghost pushed = self.branches();
                    self.stack.push(pending(&node.left));
                    assert(self.branches() =~= pushed.push(node.left));
                    proof {
                        lemma_work_push(popped, node.right);
                        lemma_work_push(pushed, node.left);
                    }
                }
            },
        }
    }

    /// Takes in the answer of the object that the last probe asked for.
    /// Where the last probe asked for something else, nothing changes.
    pub fn answer_object(&mut self, answer: Option<HitRecord>)
        ensures
            final(self).branches() == old(self).branches_after_object(),
            final(self).closest == old(self).closest_after_object(answer),
            old(self).spec_probe() is Object ==> work(final(self).branches()) < work(
                old(self).branches(),
            ),
    {
        let n = self.stack.len();
        if n == 0 {
            return ;
        }
        let ghost before = self.branches();
        let top = self.stack[n - 1];
        match top {
            Pending::Object(i) => {
                self.stack.pop();
                assert(self.branches() =~= before.drop_last());
                proof {
                    lemma_work_push(before.drop_last(), before.last());
                    assert(before.drop_last().push(before.last()) =~= before);
                }
                self.closest = self.closest.offer(answer);
            },
            Pending::Node(node) => {},
        }
    }
}

/// The stack entry for a side of a node.
fn pending<'a>(b: &'a Branch) -> (p: Pending<'a>)
    ensures
        p.branch() == *b,
{
    match b {
        Branch::Object(i) => Pending::Object(*i),
        Branch::Node(n) => Pending::Node(&**n),
    }
}

impl BVHNode {
    /// The node as a branch.
    pub open spec fn as_branch(self) -> Branch {
        Branch::Node(Box::new(self))
    }

    /// The closest hit of the tree within `ray_t`.
    pub open spec fn spec_hit(
        self,
        ray_t: Interval,
        answer: spec_fn(int, Interval) -> Option<HitRecord>,
        passes: spec_fn(AABB, Interval) -> bool,
    ) -> Option<HitRecord> {
        visit(self.as_branch(), Closest::spec_new(ray_t), answer, passes).hit
    }

    /// One of the three axes, each as likely as the others.
    fn random_axis() -> (axis: usize)
        ensures
            axis < 3,
    {
        draw_below(3) as usize
    }

    /// Whether `a` comes before `b` along an axis: whether its box starts
    /// at a smaller coordinate.
    pub fn box_compare(a: &AABB, b: &AABB, axis: usize) -> (r: bool)
        requires
            axis < 3,
        ensures
            r == (a.spec_axis(axis as int).min < b.spec_axis(axis as int).min),
    {
        a.axis(axis).min < b.axis(axis).min
    }

    /// Divides objects for the two sides of a node: sorts them by where
    /// their boxes start along `axis`, and cuts the sorted run in the middle.
    /// The left part gets half of the objects, rounded down.
    pub fn partition(objects: Vec<usize>, boxes: &Vec<AABB>, axis: usize) -> (parts: (
        Vec<usize>,
        Vec<usize>,
    ))
        requires
            axis < 3,
            all_in_reach(objects@, boxes@),
        ensures
            parts.0@.len() == objects@.len() / 2,
            parts.0@.len() + parts.1@.len() == objects@.len(),
            (parts.0@ + parts.1@).to_multiset() == objects@.to_multiset(),
            sorted_along(parts.0@ + parts.1@, boxes@, axis as int),
    {
        let sorted = sort_along(objects, boxes, axis);
        let n = sorted.len();
        let mid = n / 2;
        let mut left: Vec<usize> = Vec::new();
        let mut right: Vec<usize> = Vec::new();
        let mut k: usize = 0;
        while k < mid
            invariant
                k <= mid <= n,
                n == sorted@.len(),
                left@ == sorted@.subrange(0, k as int),
            decreases mid - k,
        {
            left.push(sorted[k]);
            assert(left@ =~= sorted@.subrange(0, k + 1));
            k = k + 1;
        }
        while k < n
            invariant
                mid <= k <= n,
                n == sorted@.len(),
                right@ == sorted@.subrange(mid as int, k as int),
            decreases n - k,
        {
            right.push(sorted[k]);
            assert(right@ =~= sorted@.subrange(mid as int, k + 1));
            k = k + 1;
        }
        assert(left@ + right@ =~= sorted@);
        (left, right)
    }

    /// Builds the hierarchy over a list. Every object of the list is below
    /// the root, the box of every node is the box around what is below it,
    /// and every node divides its objects in the middle of their order along
    /// one of the three axes, drawn at random for each node.
    pub fn from_list(hittable_list: &HittableList) -> (root: Self)
        requires
            hittable_list.objects@.len() >= 1,
        ensures
            covers(root.as_branch(), hittable_list.objects@),
            leaves(root.as_branch()) == Set::new(
                |i: int| 0 <= i < hittable_list.objects@.len(),
            ),
            ordered(root.as_branch(), hittable_list.objects@),
            balanced(root.as_branch()),
            weight(root.as_branch()) == hittable_list.objects@.len(),
            forall|i: int|
                0 <= i < hittable_list.objects@.len() ==> root.bbox.encloses(
                    #[trigger] hittable_list.objects@[i],
                ),
    {
        let n = hittable_list.objects.len();
        let mut objects: Vec<usize> = Vec::new();
        let mut k: usize = 0;
        while k < n
            invariant
                k <= n,
                objects@.len() == k,
                forall|j: int| 0 <= j < k ==> objects@[j] == j,
            decreases n - k,
        {
            objects.push(k);
            k = k + 1;
        }
        let ghost all = objects@;
        assert(all.no_duplicates());
        let root = Self::new(objects, &hittable_list.objects);
        proof {
            assert(index_set(all) =~= Set::new(|i: int| 0 <= i < n)) by {
                assert forall|i: int| 0 <= i < n implies index_set(all).contains(i) by {
                    assert(all[i] == i);
                }
            }
            lemma_box_encloses_leaves(root.as_branch(), hittable_list.objects@);
            assert forall|i: int| 0 <= i < n implies root.bbox.encloses(
                #[trigger] hittable_list.objects@[i],
            ) by {
                assert(leaves(root.as_branch()).contains(i));
            }
        }
        root
    }

    /// Builds the node over the given objects of `boxes`.
    fn new(objects: Vec<usize>, boxes: &Vec<AABB>) -> (node: Self)
        requires
            objects@.len() >= 1,
            objects@.no_duplicates(),
            all_in_reach(objects@, boxes@),
        ensures
            covers(node.as_branch(), boxes@),
            leaves(node.as_branch()) == index_set(objects@),
            ordered(node.as_branch(), boxes@),
            balanced(node.as_branch()),
            weight(node.as_branch()) == objects@.len(),
        decreases objects@.len(),
    {
        proof {
            reveal_with_fuel(leaves, 3);
            reveal_with_fuel(covers, 3);
            reveal_with_fuel(ordered, 3);
            reveal_with_fuel(weight, 3);
            reveal_with_fuel(balanced, 3);
        }
        let axis = Self::random_axis();
        let n = objects.len();
        if n == 1 {
            let obj = objects[0];
            let node = BVHNode {
                bbox: AABB::from_boxes(&boxes[obj], &boxes[obj]),
                left: Branch::Object(obj),
                right: Branch::Object(obj),
            };
            proof {
                assert(leaves(node.as_branch()) =~= index_set(objects@)) by {
                    assert(objects@[0] == obj);
                }
                assert(split_along(leaves(node.left), leaves(node.right), boxes@, axis as int));
            }
            node
        } else if n == 2 {
            let first = objects[0];
            let second = objects[1];
            let (l, r) = if Self::box_compare(&boxes[first], &boxes[second], axis) {
                (first, second)
            } else {
                (second, first)
            };
            let node = BVHNode {
                bbox: AABB::from_boxes(&boxes[l], &boxes[r]),
                left: Branch::Object(l),
                right: Branch::Object(r),
            };
            proof {
                assert(leaves(node.as_branch()) =~= index_set(objects@)) by {
                    assert(objects@[0] == first);
                    assert(objects@[1] == second);
                }
                assert(split_along(leaves(node.left), leaves(node.right), boxes@, axis as int));
            }
            node
        } else {
            let ghost input = objects@;
            let (lower, upper) = Self::partition(objects, boxes, axis);
            let ghost lo = lower@;
            let ghost up = upper@;
            proof {
                lemma_same_multiset_same_set(lo + up, input);
                lemma_same_multiset_same_set(input, lo + up);
                assert(lo.no_duplicates()) by {
                    assert forall|a: int, b: int| 0 <= a < lo.len() && 0 <= b < lo.len() && a != b
                        implies lo[a] != lo[b] by {
                        assert((lo + up)[a] == lo[a]);
                        assert((lo + up)[b] == lo[b]);
                    }
                }
                assert(up.no_duplicates()) by {
                    assert forall|a: int, b: int| 0 <= a < up.len() && 0 <= b < up.len() && a != b
                        implies up[a] != up[b] by {
                        assert((lo + up)[lo.len() + a] == up[a]);
                        assert((lo + up)[lo.len() + b] == up[b]);
                    }
                }
                assert forall|k: int| 0 <= k < lo.len() implies #[trigger] lo[k] < boxes@.len() by {
                    assert((lo + up)[k] == lo[k]);
                    assert(index_set(lo + up).contains(lo[k] as int));
                }
                assert forall|k: int| 0 <= k < up.len() implies #[trigger] up[k] < boxes@.len() by {
                    assert((lo + up)[lo.len() + k] == up[k]);
                    assert(index_set(lo + up).contains(up[k] as int));
                }
            }
            let left = Self::new(lower, boxes);
            let right = Self::new(upper, boxes);
            let node = BVHNode {
                bbox: AABB::from_boxes(&left.bbox, &right.bbox),
                left: Branch::Node(Box::new(left)),
                right: Branch::Node(Box::new(right)),
            };
            proof {
                assert(index_set(lo).union(index_set(up)) =~= index_set(lo + up)) by {
                    assert forall|i: int| index_set(lo + up).contains(i) implies index_set(
                        lo,
                    ).contains(i) || index_set(up).contains(i) by {
                        let k = choose|k: int| 0 <= k < (lo + up).len() && (lo + up)[k] == i;
                        if k < lo.len() {
                            assert(lo[k] == i);
                        } else {
                            assert(up[k - lo.len()] == i);
                        }
                    }
                    assert forall|i: int| index_set(lo).contains(i) implies index_set(
                        lo + up,
                    ).contains(i) by {
                        let k = choose|k: int| 0 <= k < lo.len() && lo[k] == i;
                        assert((lo + up)[k] == i);
                    }
                    assert forall|i: int| index_set(up).contains(i) implies index_set(
                        lo + up,
                    ).contains(i) by {
                        let k = choose|k: int| 0 <= k < up.len() && up[k] == i;
                        assert((lo + up)[lo.len() + k] == i);
                    }
                }
                assert(split_along(leaves(node.left), leaves(node.right), boxes@, axis as int)) by {
                    assert forall|i: int, j: int|
                        index_set(lo).contains(i) && index_set(up).contains(j) implies spec_key(
                        boxes@,
                        i,
                        axis as int,
                    ) <= spec_key(boxes@, j, axis as int) by {
                        let a = choose|k: int| 0 <= k < lo.len() && lo[k] == i;
                        let b = choose|k: int| 0 <= k < up.len() && up[k] == j;
                        assert((lo + up)[a] == i);
                        assert((lo + up)[lo.len() + b] == j);
                    }
                }
                assert(weight(node.left) == lo.len());
                assert(weight(node.right) == up.len());
            }
            node
        }
    }

    /// The box around everything below the node.
    pub fn bounding_box(&self) -> (r: &AABB)
        ensures
            *r == self.bbox,
    {
        &self.bbox
    }

    /// Starts a search of the tree for the closest hit within `ray_t`. The
    /// first probe asks for the test of the root's own box.
    pub fn hit<'a>(&'a self, ray_t: Interval) -> (t: Traversal<'a>)
        ensures
            t.branches() == seq![self.as_branch()],
            t.closest == Closest::spec_new(ray_t),
            t.spec_probe() == (Probe::Bounds { bbox: self.bbox, window: ray_t }),
    {
        let mut stack: Vec<Pending<'a>> = Vec::new();
        stack.push(Pending::Node(self));
        let t = Traversal { stack, closest: Closest::new(ray_t) };
        assert(t.branches() =~= seq![self.as_branch()]);
        t
    }
}

/// A stack with one more entry has that entry's probes more to ask for.
pub proof fn lemma_work_push(stack: Seq<Branch>, b: Branch)
    ensures
        work(stack.push(b)) == work(stack) + size(b),
        size(b) >= 1,
{
    assert(stack.push(b).drop_last() =~= stack);
    lemma_size_positive(b);
}

/// The search of any branch asks for at least one probe.
pub proof fn lemma_size_positive(b: Branch)
    ensures
        size(b) >= 1,
{
}

/// Every step leaves less to do.
pub proof fn lemma_step_is_work(
    stack: Seq<Branch>,
    acc: Closest,
    passes: spec_fn(AABB, Interval) -> bool,
)
    requires
        stack.len() > 0,
    ensures
        work(step_entries(stack, acc, passes)) < work(stack),
{
    let rest = stack.drop_last();
    match stack.last() {
        Branch::Object(i) => {},
        Branch::Node(n) => {
            lemma_work_push(rest, n.right);
            lemma_work_push(rest.push(n.right), n.left);
        },
    }
}

/// A traversal that is driven step by step ends with the search of its
/// entries from the last to the first; one that starts at the root of a tree
/// ends with the closest hit of the tree.
pub proof fn lemma_drive_ends_with_hit(
    stack: Seq<Branch>,
    acc: Closest,
    root: BVHNode,
    ray_t: Interval,
    answer: spec_fn(int, Interval) -> Option<HitRecord>,
    passes: spec_fn(AABB, Interval) -> bool,
)
    ensures
        drive(stack, acc, answer, passes) == run(stack, acc, answer, passes),
        drive(seq![root.as_branch()], Closest::spec_new(ray_t), answer, passes).hit
            == root.spec_hit(ray_t, answer, passes),
{
    lemma_drive_is_run(stack, acc, answer, passes);
    lemma_drive_is_run(seq![root.as_branch()], Closest::spec_new(ray_t), answer, passes);
    lemma_traversal_ends_with_hit(root, ray_t, answer, passes);
}

proof fn lemma_drive_is_run(
    stack: Seq<Branch>,
    acc: Closest,
    answer: spec_fn(int, Interval) -> Option<HitRecord>,
    passes: spec_fn(AABB, Interval) -> bool,
)
    ensures
        drive(stack, acc, answer, passes) == run(stack, acc, answer, passes),
    decreases work(stack),
{
    reveal_with_fuel(run, 3);
    if stack.len() > 0 {
        let rest = stack.drop_last();
        let next = step_entries(stack, acc, passes);
        let held = step_closest(stack, acc, answer);
        lemma_step_is_work(stack, acc, passes);
        lemma_drive_is_run(next, held, answer, passes);
        match stack.last() {
            Branch::Object(i) => {},
            Branch::Node(n) => {
                if passes(n.bbox, acc.window) {
                    let one = rest.push(n.right);
                    let two = one.push(n.left);
                    assert(two.drop_last() =~= one);
                    assert(one.drop_last() =~= rest);
                    assert(two.last() == n.left);
                    assert(one.last() == n.right);
                }
            },
        }
    }
}

/// The steps of a traversal are the steps of [`drive`]. Where the probe asks
/// for the box test of a node, the entries after the test's true outcome are
/// the entries after one step, and the closest hit stays; where it asks for
/// an object, the entries and the closest hit after the object's true answer
/// are those after one step. In both cases the traversal still ends with
/// what it would have ended with before. A traversal with nothing left to
/// look at has ended, with the closest hit it holds.
pub proof fn lemma_step_keeps_the_end(
    t: Traversal,
    answer: spec_fn(int, Interval) -> Option<HitRecord>,
    passes: spec_fn(AABB, Interval) -> bool,
)
    ensures
        t.spec_probe() matches Probe::Bounds { bbox, window } ==> {
            &&& t.branches_after_bounds(passes(bbox, window)) == step_entries(
                t.branches(),
                t.closest,
                passes,
            )
            &&& t.closest == step_closest(t.branches(), t.closest, answer)
            &&& drive(t.branches_after_bounds(passes(bbox, window)), t.closest, answer, passes)
                == drive(t.branches(), t.closest, answer, passes)
        },
        t.spec_probe() matches Probe::Object { object, window } ==> {
            &&& t.branches_after_object() == step_entries(t.branches(), t.closest, passes)
            &&& t.closest_after_object(answer(object as int, window)) == step_closest(
                t.branches(),
                t.closest,
                answer,
            )
            &&& drive(
                t.branches_after_object(),
                t.closest_after_object(answer(object as int, window)),
                answer,
                passes,
            ) == drive(t.branches(), t.closest, answer, passes)
        },
        t.spec_probe() matches Probe::Done { hit } ==> drive(
            t.branches(),
            t.closest,
            answer,
            passes,
        ).hit == hit,
{
    let stack = t.branches();
    if t.stack@.len() > 0 {
        assert(stack.last() == t.stack@.last().branch());
        match t.stack@.last() {
            Pending::Object(i) => {
                assert(stack.last() == Branch::Object(i));
            },
            Pending::Node(n) => {
                assert(stack.last() == Branch::Node(Box::new(*n)));
            },
        }
    }
}

/// A traversal that starts at the root ends with the search of the tree.
pub proof fn lemma_traversal_ends_with_hit(
    root: BVHNode,
    ray_t: Interval,
    answer: spec_fn(int, Interval) -> Option<HitRecord>,
    passes: spec_fn(AABB, Interval) -> bool,
)
    ensures
        run(seq![root.as_branch()], Closest::spec_new(ray_t), answer, passes).hit == root.spec_hit(
            ray_t,
            answer,
            passes,
        ),
{
    reveal_with_fuel(run, 3);
    let stack = seq![root.as_branch()];
    assert(stack.drop_last() =~= Seq::<Branch>::empty());
    assert(stack.last() == root.as_branch());
}

/// The box of a branch encloses the box of every object below it.
pub proof fn lemma_box_encloses_leaves(b: Branch, boxes: Seq<AABB>)
    requires
        covers(b, boxes),
    ensures
        forall|i: int| #[trigger] leaves(b).contains(i) ==> 0 <= i < boxes.len() && box_of(b, boxes).encloses(boxes[i]),
    decreases b,
{
    match b {
        Branch::Object(i) => {},
        Branch::Node(n) => {
            lemma_box_encloses_leaves(n.left, boxes);
            lemma_box_encloses_leaves(n.right, boxes);
            assert forall|i: int| #[trigger] leaves(b).contains(i) implies 0 <= i < boxes.len()
                && box_of(b, boxes).encloses(boxes[i]) by {
                if leaves(n.left).contains(i) {
                    lemma_encloses_order(n.bbox, box_of(n.left, boxes), boxes[i]);
                } else {
                    assert(leaves(n.right).contains(i));
                    lemma_encloses_order(n.bbox, box_of(n.right, boxes), boxes[i]);
                }
            }
        },
    }
}

/// The search of a branch finds the closest hit among the objects below it,
/// where every object answers with its nearest hit whenever the window holds
/// it, and the box test is sound.
pub proof fn lemma_visit_is_closest(
    b: Branch,
    start: Closest,
    boxes: Seq<AABB>,
    nearest: spec_fn(int) -> Option<HitRecord>,
    passes: spec_fn(AABB, Interval) -> bool,
)
    requires
        covers(b, boxes),
        box_test_is_sound(passes, nearest, boxes, start.window.min),
    ensures
        is_closest_among(
            visit(b, start, answers_of(nearest), passes),
            start,
            leaves(b),
            nearest,
        ),
    decreases b,
{
    let answer = answers_of(nearest);
    match b {
        Branch::Object(i) => {
            assert(answer(i as int, start.window) == respond(nearest(i as int), start.window));
            if respond(nearest(i as int), start.window).is_some() {
                assert(leaves(b).contains(i as int));
            }
        },
        Branch::Node(n) => {
            lemma_box_encloses_leaves(b, boxes);
            if passes(n.bbox, start.window) {
                let middle = visit(n.left, start, answer, passes);
                let end = visit(n.right, middle, answer, passes);
                lemma_visit_is_closest(n.left, start, boxes, nearest, passes);
                lemma_visit_is_closest(n.right, middle, boxes, nearest, passes);
                lemma_closest_composes(
                    start,
                    middle,
                    end,
                    leaves(n.left),
                    leaves(n.right),
                    nearest,
                );
            } else {
                assert forall|i: int| leaves(b).contains(i) implies respond(
                    #[trigger] nearest(i),
                    start.window,
                ).is_none() by {
                    if respond(nearest(i), start.window).is_some() {
                        assert(n.bbox.encloses(boxes[i]));
                        assert(passes(n.bbox, start.window));
                    }
                }
            }
        },
    }
}

/// The slab test is a sound box test. Let `along` give every box as it lies
/// along one ray, a larger box being no smaller along the ray. Where every
/// object's nearest hit lies between the two planes of its box on every
/// axis, which is to say inside the box, no window on which an object answers
/// is turned away by a box around that object.
pub proof fn lemma_slab_test_is_sound(
    along: spec_fn(AABB) -> AABB,
    nearest: spec_fn(int) -> Option<HitRecord>,
    boxes: Seq<AABB>,
    lower: Scalar,
)
    requires
        forall|a: AABB, b: AABB| a.encloses(b) ==> (#[trigger] along(a)).encloses(#[trigger] along(b)),
        forall|i: int|
            0 <= i < boxes.len() && (#[trigger] nearest(i)).is_some() ==> {
                let t = nearest(i).unwrap().t;
                along(boxes[i]).spec_holds(Point3 { x: t, y: t, z: t })
            },
    ensures
        box_test_is_sound(slab_test(along), nearest, boxes, lower),
{
    let passes = slab_test(along);
    assert forall|i: int, bbox: AABB, window: Interval|
        0 <= i < boxes.len() && bbox.encloses(boxes[i]) && window.min == lower && respond(
            #[trigger] nearest(i),
            window,
        ).is_some() implies #[trigger] passes(bbox, window) by {
        let t = nearest(i).unwrap().t;
        assert(along(bbox).encloses(along(boxes[i])));
        lemma_hit_bounds(along(bbox), window, t);
    }
}

/// The hierarchy reports the closest hit that a search of the whole list
/// reports: over the same objects, with every object answering with its
/// nearest hit whenever the window holds it, and a sound box test, both
/// searches agree on whether the ray hits anything within `ray_t`, and on
/// the distance of the hit. The hit that the hierarchy reports is the
/// nearest hit of an object of the list, it lies within `ray_t`, and no
/// object of the list has a nearer hit within `ray_t`.
pub proof fn lemma_tree_agrees_with_list(
    root: BVHNode,
    list: HittableList,
    ray_t: Interval,
    nearest: spec_fn(int) -> Option<HitRecord>,
    passes: spec_fn(AABB, Interval) -> bool,
)
    requires
        covers(root.as_branch(), list.objects@),
        leaves(root.as_branch()) == Set::new(|i: int| 0 <= i < list.objects@.len()),
        box_test_is_sound(passes, nearest, list.objects@, ray_t.min),
    ensures
        root.spec_hit(ray_t, answers_of(nearest), passes).is_some() == list.spec_hit(
            ray_t,
            answers_of(nearest),
        ).is_some(),
        root.spec_hit(ray_t, answers_of(nearest), passes) matches Some(by_tree) ==> {
            &&& by_tree.t == list.spec_hit(ray_t, answers_of(nearest)).unwrap().t
            &&& ray_t.spec_contains(by_tree.t)
            &&& exists|i: int| 0 <= i < list.objects@.len() && #[trigger] nearest(i) == Some(by_tree)
            &&& forall|i: int|
                0 <= i < list.objects@.len() && respond(#[trigger] nearest(i), ray_t).is_some()
                    ==> by_tree.t <= nearest(i).unwrap().t
        },
        root.spec_hit(ray_t, answers_of(nearest), passes).is_none() ==> forall|i: int|
            0 <= i < list.objects@.len() ==> respond(#[trigger] nearest(i), ray_t).is_none(),
{
    let start = Closest::spec_new(ray_t);
    let n = list.objects@.len();
    let among = Set::new(|i: int| 0 <= i < n);
    let by_tree = visit(root.as_branch(), start, answers_of(nearest), passes);
    lemma_visit_is_closest(root.as_branch(), start, list.objects@, nearest, passes);
    lemma_scan_is_closest(n, start, nearest);
    lemma_closest_is_unique(by_tree, scan(n, start, answers_of(nearest)), start, among, nearest);
    if by_tree.hit.is_some() {
        let i = choose|i: int| among.contains(i) && #[trigger] nearest(i) == by_tree.hit;
        assert(0 <= i < n && nearest(i) == Some(by_tree.hit.unwrap()));
        assert forall|i: int|
            0 <= i < list.objects@.len() && respond(#[trigger] nearest(i), ray_t).is_some()
                implies by_tree.hit.unwrap().t <= nearest(i).unwrap().t by {
            assert(among.contains(i));
        }
    } else {
        assert forall|i: int| 0 <= i < list.objects@.len() implies respond(
            #[trigger] nearest(i),
            ray_t,
        ).is_none() by {
            assert(among.contains(i));
        }
    }
}

} // verus!
