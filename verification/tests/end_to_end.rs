use ray_tracing::aabb::AABB;
use ray_tracing::hittable::{HitRecord, Probe};
use ray_tracing::hittable_list::HittableList;
use ray_tracing::interval::Interval;
use ray_tracing::material::{vec3_a_near_zero, Lambertian, Material};
use ray_tracing::render::{file_size, pixel_indices, pixel_seed, store_pixel, Progress};
use ray_tracing::scalar::{bits_from_key, key_from_bits, Point3};
use ray_tracing::scenes::next_weeks_final_scene;
use ray_tracing::shapes::nearest_root;
use ray_tracing::SEED;

type V = [f32; 3];

fn key(x: f32) -> i32 {
    key_from_bits(x.to_bits())
}

fn num(k: i32) -> f32 {
    f32::from_bits(bits_from_key(k))
}

fn add(a: V, b: V) -> V {
    [a[0] + b[0], a[1] + b[1], a[2] + b[2]]
}

fn sub(a: V, b: V) -> V {
    [a[0] - b[0], a[1] - b[1], a[2] - b[2]]
}

fn scale(a: V, s: f32) -> V {
    [a[0] * s, a[1] * s, a[2] * s]
}

fn dot(a: V, b: V) -> f32 {
    a[0] * b[0] + a[1] * b[1] + a[2] * b[2]
}

fn unit(a: V) -> V {
    scale(a, 1.0 / dot(a, a).sqrt())
}

struct Lcg(u64);

impl Lcg {
    fn next(&mut self) -> f32 {
        self.0 = self.0.wrapping_mul(6364136223846793005).wrapping_add(1442695040888963407);
        ((self.0 >> 40) as f32) / ((1u64 << 24) as f32)
    }

    fn unit_vector(&mut self) -> V {
        loop {
            let p = [2.0 * self.next() - 1.0, 2.0 * self.next() - 1.0, 2.0 * self.next() - 1.0];
            if dot(p, p) < 1.0 && dot(p, p) > 0.0 {
                return unit(p);
            }
        }
    }
}

struct Ball {
    center: V,
    radius: f32,
    material: Material,
}

struct Hit {
    p: V,
    normal: V,
    material: Material,
    entry: HitRecord,
}

struct Scene {
    balls: Vec<Ball>,
    list: HittableList,
}

impl Scene {
    fn add(&mut self, ball: Ball) {
        let r = [ball.radius; 3];
        let (lo, hi) = (sub(ball.center, r), add(ball.center, r));
        self.list.add(AABB::from_points(
            Point3 { x: key(lo[0]), y: key(lo[1]), z: key(lo[2]) },
            Point3 { x: key(hi[0]), y: key(hi[1]), z: key(hi[2]) },
        ));
        self.balls.push(ball);
    }

    fn hit_ball(&self, object: usize, origin: V, direction: V, window: Interval) -> Option<Hit> {
        let ball = &self.balls[object];
        let oc = sub(origin, ball.center);
        let a = dot(direction, direction);
        let half_b = dot(oc, direction);
        let c = dot(oc, oc) - ball.radius * ball.radius;
        let discriminant = half_b * half_b - a * c;
        let sqrt_d = discriminant.sqrt();
        let root = nearest_root(
            key(discriminant),
            key((-half_b - sqrt_d) / a),
            key((-half_b + sqrt_d) / a),
            window,
        )?;
        let p = add(origin, scale(direction, num(root)));
        let outward = scale(sub(p, ball.center), 1.0 / ball.radius);
        let entry = HitRecord::new(object, root, key(dot(direction, outward)));
        let normal = if entry.front_face { outward } else { scale(outward, -1.0) };
        Some(Hit { p, normal, material: ball.material, entry })
    }

    fn hit(&self, origin: V, direction: V, window: Interval) -> Option<Hit> {
        let mut best = None;
        let mut search = self.list.hit(window);
        loop {
            match self.list.probe(&search) {
                Probe::Object { object, window } => {
                    let found = self.hit_ball(object, origin, direction, window);
                    search = self.list.answer(search, found.as_ref().map(|h| h.entry));
                    if found.is_some() {
                        best = found;
                    }
                }
                Probe::Done { hit } => {
                    assert_eq!(hit, best.as_ref().map(|h| h.entry));
                    return best;
                }
                Probe::Bounds { .. } => unreachable!(),
            }
        }
    }

    fn ray_color(&self, origin: V, direction: V, depth: i32, rng: &mut Lcg) -> V {
        if depth <= 0 {
            return [0.0; 3];
        }
        let window = Interval::new(key(0.001), key(f32::INFINITY));
        if let Some(hit) = self.hit(origin, direction, window) {
            let mut onward = add(hit.normal, rng.unit_vector());
            if vec3_a_near_zero(&Point3 { x: key(onward[0]), y: key(onward[1]), z: key(onward[2]) }) {
                onward = hit.normal;
            }
            assert_eq!(hit.material.emitted(), None);
            if !hit.material.scatter(key(dot(onward, hit.normal))) {
                return [0.0; 3];
            }
            // White: the light is passed on undimmed.
            return self.ray_color(hit.p, onward, depth - 1, rng);
        }
        let a = 0.5 * (unit(direction)[1] + 1.0);
        add(scale([1.0, 1.0, 1.0], 1.0 - a), scale([0.5, 0.7, 1.0], a))
    }
}

fn to_bytes(color: V, samples: i32) -> [u8; 3] {
    let byte = |c: f32| (256.0 * (c / samples as f32).sqrt().clamp(0.0, 0.999)) as u8;
    [byte(color[0]), byte(color[1]), byte(color[2])]
}

/// Renders the pixels that the checkpoint lacks, at most `budget` of them.
fn render(checkpoint: &[u8], budget: usize) -> Vec<u8> {
    let quality = next_weeks_final_scene(20, 4, 5);
    let (width, height) = (quality.image_width, 10);
    let mut scene = Scene { balls: Vec::new(), list: HittableList::new() };
    scene.add(Ball { center: [0.0, -1000.0, 0.0], radius: 1000.0, material: Lambertian::new(0) });

    let size = file_size(width, height);
    let mut buffer = if checkpoint.len() == size { checkpoint.to_vec() } else { vec![0; size] };
    let indices = pixel_indices(width, height, checkpoint);
    let mut progress = Progress::new(indices.len());
    let mut traced = 0;
    let mut interrupted = false;
    for (k, (out, (done, (i, j)))) in buffer.chunks_mut(3).zip(indices).enumerate() {
        if !done {
            if traced == budget {
                interrupted = true;
                break;
            }
            traced += 1;
            let mut rng = Lcg(pixel_seed(SEED, k as u64));
            let mut color = [0.0; 3];
            for _ in 0..quality.samples_per_pixel {
                let x = (i as f32 + rng.next()) / width as f32;
                let y = (j as f32 + rng.next()) / height as f32;
                let direction = [4.0 * (x - 0.5), 2.0 * (0.5 - y), -1.0];
                color = add(color, scene.ray_color([0.0, 1.0, 3.0], direction, quality.max_depth, &mut rng));
            }
            store_pixel(out, to_bytes(color, quality.samples_per_pixel));
        }
        progress.pixel_done();
    }
    assert_eq!(progress.is_complete(), !interrupted);
    buffer
}

#[test]
fn sphere_under_the_sky_renders_the_same_every_time() {
    let first = render(&[], usize::MAX);
    let second = render(&[], usize::MAX);
    assert_eq!(first.len(), 600);
    assert_eq!(first, second);
    // The sky above, the ground below: both are lit, and they differ.
    assert!(first.chunks(3).all(|c| c != [0, 0, 0]));
    let top = &first[0..3];
    let bottom = &first[597..600];
    assert_eq!(top[2], 255);
    assert!(top[0] < top[2]);
    assert_ne!(top, bottom);
}

#[test]
fn interrupted_render_resumes_to_the_same_image() {
    let whole = render(&[], usize::MAX);
    for stop in [0usize, 1, 77, 199] {
        let partial = render(&[], stop);
        assert_eq!(partial.chunks(3).filter(|c| *c != [0, 0, 0]).count(), stop);
        assert_eq!(render(&partial, usize::MAX), whole);
    }
    assert_eq!(render(&whole, usize::MAX), whole);
    assert_eq!(render(&[1, 2, 3], usize::MAX), whole);
}
