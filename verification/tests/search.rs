use ray_tracing::aabb::AABB;
use ray_tracing::bvh::{BVHNode, Branch};
use ray_tracing::hittable::{Closest, HitRecord, Probe};
use ray_tracing::hittable_list::HittableList;
use ray_tracing::interval::Interval;
use ray_tracing::scalar::{bits_from_key, key_from_bits, Point3};
use ray_tracing::shapes::nearest_root;

fn key(x: f32) -> i32 {
    key_from_bits(x.to_bits())
}

fn num(k: i32) -> f32 {
    f32::from_bits(bits_from_key(k))
}

fn range(lo: f32, hi: f32) -> Interval {
    Interval::new(key(lo), key(hi))
}

#[derive(Clone, Copy)]
struct Ball {
    center: [f32; 3],
    radius: f32,
}

#[derive(Clone, Copy)]
struct Ray {
    origin: [f32; 3],
    direction: [f32; 3],
}

fn dot(a: [f32; 3], b: [f32; 3]) -> f32 {
    a[0] * b[0] + a[1] * b[1] + a[2] * b[2]
}

fn sub(a: [f32; 3], b: [f32; 3]) -> [f32; 3] {
    [a[0] - b[0], a[1] - b[1], a[2] - b[2]]
}

fn ball_box(ball: &Ball) -> AABB {
    let c = ball.center;
    // A little wider than the ball, so that rounding puts no hit outside the box.
    let r = ball.radius * 1.001 + 0.001;
    AABB::from_points(
        Point3 { x: key(c[0] - r), y: key(c[1] - r), z: key(c[2] - r) },
        Point3 { x: key(c[0] + r), y: key(c[1] + r), z: key(c[2] + r) },
    )
}

fn ball_hit(index: usize, ball: &Ball, ray: &Ray, window: Interval) -> Option<HitRecord> {
    let oc = sub(ray.origin, ball.center);
    let a = dot(ray.direction, ray.direction);
    let half_b = dot(oc, ray.direction);
    let c = dot(oc, oc) - ball.radius * ball.radius;
    let discriminant = half_b * half_b - a * c;
    let sqrt_d = discriminant.max(0.0).sqrt();
    let near = (-half_b - sqrt_d) / a;
    let far = (-half_b + sqrt_d) / a;
    let root = nearest_root(key(discriminant), key(near), key(far), window)?;
    let t = num(root);
    let p = [
        ray.origin[0] + t * ray.direction[0],
        ray.origin[1] + t * ray.direction[1],
        ray.origin[2] + t * ray.direction[2],
    ];
    let normal = sub(p, ball.center);
    Some(HitRecord::new(index, root, key(dot(ray.direction, normal))))
}

fn box_hit(bbox: &AABB, ray: &Ray, window: Interval) -> bool {
    let mut seen = [Interval::universe(); 3];
    for a in 0..3 {
        let inv_d = 1.0 / ray.direction[a];
        let mut t0 = (num(bbox.axis(a).min) - ray.origin[a]) * inv_d;
        let mut t1 = (num(bbox.axis(a).max) - ray.origin[a]) * inv_d;
        if inv_d < 0.0 {
            std::mem::swap(&mut t0, &mut t1);
        }
        if !t0.is_nan() && !t1.is_nan() {
            seen[a] = range(t0, t1);
        }
    }
    AABB::new(seen[0], seen[1], seen[2]).hit(window).is_some()
}

fn search_list(list: &HittableList, balls: &[Ball], ray: &Ray, window: Interval) -> Option<HitRecord> {
    let mut state = list.hit(window);
    loop {
        match list.probe(&state) {
            Probe::Object { object, window } => {
                let answer = ball_hit(object, &balls[object], ray, window);
                state = list.answer(state, answer);
            }
            Probe::Done { hit } => return hit,
            Probe::Bounds { .. } => unreachable!(),
        }
    }
}

fn search_tree(root: &BVHNode, balls: &[Ball], ray: &Ray, window: Interval) -> (Option<HitRecord>, usize) {
    let mut state = root.hit(window);
    let mut object_tests = 0;
    loop {
        match state.probe() {
            Probe::Bounds { bbox, window } => {
                let pass = box_hit(&bbox, ray, window);
                state.answer_bounds(pass);
            }
            Probe::Object { object, window } => {
                object_tests += 1;
                let answer = ball_hit(object, &balls[object], ray, window);
                state.answer_object(answer);
            }
            Probe::Done { hit } => return (hit, object_tests),
        }
    }
}

struct Lcg(u64);

impl Lcg {
    fn next(&mut self) -> f32 {
        self.0 = self.0.wrapping_mul(6364136223846793005).wrapping_add(1442695040888963407);
        ((self.0 >> 40) as f32) / ((1u64 << 24) as f32)
    }

    fn between(&mut self, lo: f32, hi: f32) -> f32 {
        lo + (hi - lo) * self.next()
    }
}

fn scene(count: usize, seed: u64) -> (Vec<Ball>, HittableList) {
    let mut rng = Lcg(seed);
    let mut balls = Vec::new();
    let mut list = HittableList::new();
    for _ in 0..count {
        let ball = Ball {
            center: [rng.between(-20.0, 20.0), rng.between(-20.0, 20.0), rng.between(-20.0, 20.0)],
            radius: rng.between(0.5, 3.0),
        };
        list.add(ball_box(&ball));
        balls.push(ball);
    }
    (balls, list)
}

/// The objects below a branch. A node over one object names it twice.
fn leaves_of(branch: &Branch, out: &mut Vec<usize>) {
    match branch {
        Branch::Object(i) => {
            if !out.contains(i) {
                out.push(*i)
            }
        }
        Branch::Node(n) => {
            leaves_of(&n.left, out);
            leaves_of(&n.right, out);
        }
    }
}

fn check_boxes(node: &BVHNode, list: &HittableList) {
    let side = |b: &Branch| match b {
        Branch::Object(i) => list.objects[*i],
        Branch::Node(n) => n.bbox,
    };
    assert_eq!(node.bbox, AABB::from_boxes(&side(&node.left), &side(&node.right)));
    for b in [&node.left, &node.right] {
        if let Branch::Node(n) = b {
            check_boxes(n, list);
        }
    }
}

#[test]
fn list_keeps_the_box_around_its_objects() {
    let (balls, list) = scene(12, 7);
    assert_eq!(list.len(), 12);
    let around = list.bounding_box();
    for ball in &balls {
        assert!(around.encloses_box(&ball_box(ball)));
    }
    let empty = HittableList::new();
    assert_eq!(*empty.bounding_box(), AABB::new_empty());
}

trait Encloses {
    fn encloses_box(&self, other: &AABB) -> bool;
}

impl Encloses for AABB {
    fn encloses_box(&self, other: &AABB) -> bool {
        (0..3).all(|a| self.axis(a).min <= other.axis(a).min && other.axis(a).max <= self.axis(a).max)
    }
}

#[test]
fn list_reports_the_closest_hit() {
    let balls = [
        Ball { center: [0.0, 0.0, -10.0], radius: 1.0 },
        Ball { center: [0.0, 0.0, -5.0], radius: 1.0 },
        Ball { center: [0.0, 0.0, -20.0], radius: 1.0 },
        Ball { center: [9.0, 0.0, -5.0], radius: 1.0 },
    ];
    let mut list = HittableList::new();
    for ball in &balls {
        list.add(ball_box(ball));
    }
    let ray = Ray { origin: [0.0, 0.0, 0.0], direction: [0.0, 0.0, -1.0] };
    let hit = search_list(&list, &balls, &ray, range(0.001, f32::INFINITY)).unwrap();
    assert_eq!(hit.object, 1);
    assert_eq!(hit.t, key(4.0));
    assert!(hit.front_face);
    let behind = search_list(&list, &balls, &ray, range(7.0, f32::INFINITY)).unwrap();
    assert_eq!(behind.object, 0);
    assert_eq!(behind.t, key(9.0));
    let none = search_list(&list, &balls, &ray, range(0.001, 3.0));
    assert_eq!(none, None);
    let away = Ray { origin: [0.0, 0.0, 0.0], direction: [0.0, 1.0, 0.0] };
    assert_eq!(search_list(&list, &balls, &away, range(0.001, f32::INFINITY)), None);
}

#[test]
fn closest_takes_every_answer() {
    let start = Closest::new(range(0.0, 10.0));
    assert_eq!(start.hit, None);
    let miss = start.offer(None);
    assert_eq!(miss, start);
    let rec = HitRecord::new(3, key(4.0), key(-0.5));
    let one = start.offer(Some(rec));
    assert_eq!(one.hit, Some(rec));
    assert_eq!(one.window, range(0.0, 4.0));
    let back = HitRecord::new(3, key(4.0), key(0.5));
    assert!(!back.front_face);
    assert!(!HitRecord::new(3, key(4.0), key(0.0)).front_face);
}

#[test]
fn tree_holds_every_object_and_the_boxes_around_them() {
    for count in [1usize, 2, 3, 4, 5, 8, 13, 64] {
        let (_, list) = scene(count, count as u64);
        let root = BVHNode::from_list(&list);
        check_boxes(&root, &list);
        let mut found = Vec::new();
        leaves_of(&root.left, &mut found);
        leaves_of(&root.right, &mut found);
        found.sort();
        assert_eq!(found, (0..count).collect::<Vec<_>>());
        if count == 1 {
            assert!(matches!(root.left, Branch::Object(0)));
            assert!(matches!(root.right, Branch::Object(0)));
        }
        assert_eq!(*root.bounding_box(), *list.bounding_box());
    }
}

#[test]
fn tree_divides_in_the_middle() {
    let (_, list) = scene(11, 3);
    let root = BVHNode::from_list(&list);
    let mut left = Vec::new();
    let mut right = Vec::new();
    leaves_of(&root.left, &mut left);
    leaves_of(&root.right, &mut right);
    assert_eq!(left.len(), 5);
    assert_eq!(right.len(), 6);
    let ordered_on = |axis: usize| {
        left.iter().all(|i| {
            right.iter().all(|j| list.objects[*i].axis(axis).min <= list.objects[*j].axis(axis).min)
        })
    };
    assert!((0..3).any(ordered_on));
}

#[test]
fn partition_sorts_and_halves() {
    let (_, list) = scene(9, 21);
    let objects: Vec<usize> = vec![8, 3, 5, 0, 7, 1, 2, 6, 4];
    for axis in 0..3 {
        let (left, right) = BVHNode::partition(objects.clone(), &list.objects, axis);
        assert_eq!(left.len(), 4);
        assert_eq!(right.len(), 5);
        let all: Vec<usize> = left.iter().chain(right.iter()).copied().collect();
        for pair in all.windows(2) {
            assert!(list.objects[pair[0]].axis(axis).min <= list.objects[pair[1]].axis(axis).min);
        }
        let mut sorted = all.clone();
        sorted.sort();
        assert_eq!(sorted, (0..9).collect::<Vec<_>>());
    }
    let a = AABB::new(range(0.0, 1.0), range(5.0, 6.0), range(0.0, 1.0));
    let b = AABB::new(range(1.0, 2.0), range(4.0, 6.0), range(0.0, 1.0));
    assert!(BVHNode::box_compare(&a, &b, 0));
    assert!(!BVHNode::box_compare(&a, &b, 1));
    assert!(!BVHNode::box_compare(&a, &b, 2));
}

#[test]
fn tree_agrees_with_testing_every_object() {
    let mut rng = Lcg(99);
    let mut hits = 0;
    let mut tree_tests = 0;
    let mut rays = 0;
    for count in [1usize, 2, 3, 7, 40, 200] {
        let (balls, list) = scene(count, 1000 + count as u64);
        let root = BVHNode::from_list(&list);
        for _ in 0..300 {
            let ray = Ray {
                origin: [rng.between(-30.0, 30.0), rng.between(-30.0, 30.0), rng.between(-30.0, 30.0)],
                direction: [rng.between(-1.0, 1.0), rng.between(-1.0, 1.0), rng.between(-1.0, 1.0)],
            };
            for window in [range(0.001, f32::INFINITY), range(0.001, 25.0), range(10.0, 40.0)] {
                let by_list = search_list(&list, &balls, &ray, window);
                let (by_tree, tests) = search_tree(&root, &balls, &ray, window);
                assert_eq!(by_list.is_some(), by_tree.is_some());
                if let (Some(a), Some(b)) = (by_list, by_tree) {
                    assert_eq!(a.t, b.t);
                    assert!(window.contains(a.t));
                    hits += 1;
                }
                if count == 200 {
                    tree_tests += tests;
                    rays += 1;
                }
            }
        }
    }
    assert!(hits > 100);
    // The tree saves work: far fewer object tests than objects, per ray.
    assert!(tree_tests < rays * 100);
}

#[test]
fn traversal_asks_for_the_root_box_first() {
    let (_, list) = scene(5, 17);
    let root = BVHNode::from_list(&list);
    let window = range(0.0, 100.0);
    let mut state = root.hit(window);
    assert_eq!(state.probe(), Probe::Bounds { bbox: root.bbox, window });
    state.answer_object(None);
    assert_eq!(state.probe(), Probe::Bounds { bbox: root.bbox, window });
    state.answer_bounds(false);
    assert_eq!(state.probe(), Probe::Done { hit: None });
    state.answer_bounds(true);
    state.answer_object(Some(HitRecord::new(0, key(1.0), key(-1.0))));
    assert_eq!(state.probe(), Probe::Done { hit: None });
}
