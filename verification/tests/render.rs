use ray_tracing::image::{Image, ImageData, Pixel};
use ray_tracing::perlin::{Perlin, POINT_COUNT};
use ray_tracing::random::{
    check_permutation, int_from_draw, random_int_in_range, random_permutation,
};
use ray_tracing::render::{
    file_size, pixel_indices, pixel_seed, store_pixel, total_pixels, Progress,
};
use ray_tracing::scenes::{
    next_weeks_final_scene, next_weeks_final_scene_high_res, next_weeks_final_scene_low_res,
    next_weeks_final_scene_mid_res, RenderSettings,
};

/// The color that a render gives a pixel: a fixed function of its place.
fn color_of(i: i32, j: i32) -> [u8; 3] {
    if (i + j) % 5 == 0 {
        [0, 0, 0]
    } else {
        [(7 * i + 1) as u8, (3 * j + 2) as u8, (i * j) as u8]
    }
}

/// One pass of a render over a checkpoint, stopped after `budget` pixels.
fn pass(width: i32, height: i32, checkpoint: &[u8], budget: usize) -> (Vec<u8>, usize) {
    let size = file_size(width, height);
    let indices = pixel_indices(width, height, checkpoint);
    let mut buffer = if checkpoint.len() == size { checkpoint.to_vec() } else { vec![0; size] };
    let mut traced = 0;
    for (out, (done, (i, j))) in buffer.chunks_mut(3).zip(indices) {
        if done {
            continue;
        }
        if traced == budget {
            break;
        }
        store_pixel(out, color_of(i, j));
        traced += 1;
    }
    (buffer, traced)
}

#[test]
fn buffer_sizes() {
    assert_eq!(total_pixels(20, 10), 200);
    assert_eq!(file_size(20, 10), 600);
    assert_eq!(total_pixels(0, 10), 0);
    assert_eq!(file_size(-3, 10), 0);
    assert_eq!(file_size(400, 400), 480_000);
}

#[test]
fn pixels_are_listed_row_by_row() {
    let indices = pixel_indices(3, 2, &[]);
    assert_eq!(
        indices,
        vec![
            (false, (0, 0)),
            (false, (1, 0)),
            (false, (2, 0)),
            (false, (0, 1)),
            (false, (1, 1)),
            (false, (2, 1)),
        ]
    );
    assert_eq!(pixel_indices(0, 5, &[]), vec![]);
    assert_eq!(pixel_indices(5, -1, &[1, 2, 3]), vec![]);
}

#[test]
fn checkpoint_marks_rendered_pixels() {
    let mut contents = vec![0u8; 18];
    contents[3] = 9;
    contents[8] = 1;
    contents[16] = 255;
    let marks: Vec<bool> = pixel_indices(3, 2, &contents).into_iter().map(|p| p.0).collect();
    assert_eq!(marks, vec![false, true, true, false, false, true]);
}

#[test]
fn stale_checkpoint_marks_nothing() {
    let contents = vec![200u8; 17];
    assert!(pixel_indices(3, 2, &contents).iter().all(|p| !p.0));
    let longer = vec![200u8; 21];
    assert!(pixel_indices(3, 2, &longer).iter().all(|p| !p.0));
    let exact = vec![200u8; 18];
    assert!(pixel_indices(3, 2, &exact).iter().all(|p| p.0));
}

#[test]
fn resumed_render_equals_uninterrupted_render() {
    let (width, height) = (20, 10);
    let (whole, traced) = pass(width, height, &[], usize::MAX);
    assert_eq!(traced, 200);
    for (k, chunk) in whole.chunks(3).enumerate() {
        assert_eq!(chunk, color_of(k as i32 % width, k as i32 / width));
    }
    for stop in [0usize, 1, 57, 199, 200] {
        let (partial, first) = pass(width, height, &[], stop);
        assert_eq!(first, stop.min(200));
        let (resumed, second) = pass(width, height, &partial, usize::MAX);
        assert_eq!(resumed, whole);
        // Every pixel that the first run left out is traced by the second. A
        // black pixel looks unrendered, and is traced again.
        assert!(second >= 200 - first);
        let black = whole.chunks(3).filter(|c| *c == [0, 0, 0]).count();
        assert!(second <= 200 - first + black);
    }
    let (from_stale, all) = pass(width, height, &[7u8; 33], usize::MAX);
    assert_eq!(all, 200);
    assert_eq!(from_stale, whole);
}

#[test]
fn store_pixel_writes_three_bytes() {
    let mut buffer = vec![1u8; 9];
    store_pixel(&mut buffer[3..6], [10, 20, 30]);
    assert_eq!(buffer, vec![1, 1, 1, 10, 20, 30, 1, 1, 1]);
}

#[test]
fn progress_reports_every_percent() {
    let mut progress = Progress::new(200);
    let mut reports = Vec::new();
    for _ in 0..200 {
        assert!(!progress.is_complete());
        if let Some(p) = progress.pixel_done() {
            reports.push(p);
        }
    }
    assert!(progress.is_complete());
    assert_eq!(reports, (1..=100).collect::<Vec<u8>>());
    assert_eq!(progress.pixel_done(), None);
    assert_eq!(progress.pixels_done, 200);
}

#[test]
fn progress_of_uneven_and_small_images() {
    let mut progress = Progress::new(250);
    let mut reports = Vec::new();
    for _ in 0..250 {
        if let Some(p) = progress.pixel_done() {
            reports.push(p);
        }
    }
    assert_eq!(reports.len(), 125);
    assert_eq!(reports[0], 0);
    assert_eq!(reports[1], 1);
    assert_eq!(*reports.last().unwrap(), 100);
    let mut small = Progress::new(3);
    assert_eq!(small.pixel_done(), Some(33));
    assert_eq!(small.pixel_done(), Some(66));
    assert_eq!(small.pixel_done(), Some(100));
    assert_eq!(small.pixel_done(), None);
    let mut none = Progress::new(0);
    assert!(none.is_complete());
    assert_eq!(none.pixel_done(), None);
}

#[test]
fn pixel_seeds_differ() {
    assert_eq!(pixel_seed(2, 0), 2);
    assert_eq!(pixel_seed(2, 41), 43);
    assert_eq!(pixel_seed(u64::MAX, 3), 2);
    let seeds: std::collections::HashSet<u64> = (0..1000).map(|k| pixel_seed(2, k)).collect();
    assert_eq!(seeds.len(), 1000);
}

#[test]
fn presets() {
    assert_eq!(
        next_weeks_final_scene_low_res(),
        RenderSettings { image_width: 400, samples_per_pixel: 250, max_depth: 4 }
    );
    assert_eq!(
        next_weeks_final_scene_mid_res(),
        RenderSettings { image_width: 600, samples_per_pixel: 500, max_depth: 8 }
    );
    assert_eq!(
        next_weeks_final_scene_high_res(),
        RenderSettings { image_width: 800, samples_per_pixel: 10000, max_depth: 40 }
    );
    assert_eq!(
        next_weeks_final_scene(20, 4, 5),
        RenderSettings { image_width: 20, samples_per_pixel: 4, max_depth: 5 }
    );
}

#[test]
fn draws_round_to_the_nearest_integer() {
    assert_eq!(int_from_draw(0, 2, 0), 0);
    assert_eq!(int_from_draw(0, 2, 1), 1);
    assert_eq!(int_from_draw(0, 2, 2), 1);
    assert_eq!(int_from_draw(0, 2, 3), 2);
    assert_eq!(int_from_draw(-3, -1, 0), -3);
    assert_eq!(int_from_draw(-3, -1, 3), -1);
    assert_eq!(int_from_draw(i32::MIN, i32::MAX, 0), i32::MIN);
    assert_eq!(int_from_draw(i32::MIN, i32::MAX, 2 * (u32::MAX as u64) - 1), i32::MAX);
}

#[test]
fn random_integers_stay_in_range_and_vary() {
    let mut seen = [0usize; 3];
    for _ in 0..3000 {
        let axis = random_int_in_range(0, 2);
        assert!((0..=2).contains(&axis));
        seen[axis as usize] += 1;
    }
    assert!(seen.iter().all(|n| *n > 300));
    assert!(seen[1] > seen[0] && seen[1] > seen[2]);
    let wide: std::collections::HashSet<i32> = (0..200).map(|_| random_int_in_range(-1000, 1000)).collect();
    assert!(wide.len() > 50);
    assert!(wide.iter().all(|x| (-1000..=1000).contains(x)));
}

#[test]
fn random_permutation_holds_each_number_once() {
    let p = random_permutation(256);
    let mut sorted = p.clone();
    sorted.sort();
    assert_eq!(sorted, (0..256).collect::<Vec<i32>>());
    assert_ne!(p, sorted);
    assert_eq!(random_permutation(0), Vec::<i32>::new());
    assert_eq!(random_permutation(1), vec![0]);
}

#[test]
fn permutations_are_told_from_other_tables() {
    assert!(check_permutation(&vec![2, 0, 3, 1], 4));
    assert!(check_permutation(&vec![], 0));
    assert!(!check_permutation(&vec![2, 0, 3], 4));
    assert!(!check_permutation(&vec![2, 0, 3, 1, 4], 4));
    assert!(!check_permutation(&vec![2, 0, 2, 1], 4));
    assert!(!check_permutation(&vec![2, 0, 4, 1], 4));
    assert!(!check_permutation(&vec![2, 0, -1, 1], 4));
    assert!(check_permutation(&random_permutation(256), 256));
}

#[test]
fn noise_field_from_given_tables() {
    let up: Vec<i32> = (0..256).collect();
    let down: Vec<i32> = (0..256).rev().collect();
    let odd: Vec<i32> = (0..256).map(|v| (v * 7 + 3) % 256).collect();
    let field = Perlin::from_tables(up.clone(), down.clone(), odd.clone()).unwrap();
    assert_eq!((&field.perm_x, &field.perm_y, &field.perm_z), (&up, &down, &odd));
    // The same tables give the same lattice.
    let again = Perlin::from_tables(up.clone(), down.clone(), odd.clone()).unwrap();
    assert_eq!(field.noise(3, -4, 260), again.noise(3, -4, 260));
    assert_eq!(field.noise(0, 0, 0)[0], (0 ^ 255 ^ 3) as usize);
    assert_eq!(field.noise(0, 0, 0)[7], (1 ^ 254 ^ 10) as usize);
    let mut twice = up.clone();
    twice[5] = 6;
    assert!(Perlin::from_tables(twice, down.clone(), odd.clone()).is_none());
    assert!(Perlin::from_tables(up.clone(), down[1..].to_vec(), odd.clone()).is_none());
    let mut beyond = odd.clone();
    beyond[0] = 256;
    assert!(Perlin::from_tables(up, down, beyond).is_none());
}

#[test]
fn noise_lattice_uses_the_three_permutations() {
    let perlin = Perlin::new();
    for table in [&perlin.perm_x, &perlin.perm_y, &perlin.perm_z] {
        let mut sorted = table.clone();
        sorted.sort();
        assert_eq!(sorted, (0..POINT_COUNT as i32).collect::<Vec<i32>>());
    }
    assert_ne!(perlin.perm_x, perlin.perm_y);
    let at = |x: i32, y: i32, z: i32| {
        (perlin.perm_x[(x & 255) as usize] ^ perlin.perm_y[(y & 255) as usize] ^ perlin.perm_z[(z & 255) as usize])
            as usize
    };
    for (i, j, k) in [(0, 0, 0), (5, 17, 255), (-1, -256, 300), (i32::MAX, i32::MIN, -7)] {
        let corners = perlin.noise(i, j, k);
        assert_eq!(corners.len(), 8);
        for di in 0..2 {
            for dj in 0..2 {
                for dk in 0..2 {
                    let c = corners[(4 * di + 2 * dj + dk) as usize];
                    assert!(c < POINT_COUNT);
                    assert_eq!(c, at(i.wrapping_add(di), j.wrapping_add(dj), k.wrapping_add(dk)));
                }
            }
        }
    }
    assert_eq!(Perlin::generate_perm().len(), 256);
}

#[test]
fn image_pixels_by_layout() {
    let rgb = Image {
        width: 2,
        height: 2,
        bitmap: ImageData::RGB8(vec![[1, 2, 3], [4, 5, 6], [7, 8, 9], [10, 11, 255]]),
    };
    assert_eq!(rgb.get_pixel_data(1, 0), Pixel { r: 4, g: 5, b: 6, full: 255 });
    assert_eq!(rgb.get_pixel_data(0, 1), Pixel { r: 7, g: 8, b: 9, full: 255 });
    assert_eq!(rgb.get_pixel_data(1, 1), Pixel { r: 10, g: 11, b: 255, full: 255 });
    let rgba = Image { width: 1, height: 1, bitmap: ImageData::RGBA8(vec![[1, 2, 3, 99]]) };
    assert_eq!(rgba.get_pixel_data(0, 0), Pixel { r: 1, g: 2, b: 3, full: 255 });
    let deep = Image { width: 1, height: 2, bitmap: ImageData::RGB16(vec![[1, 2, 3], [40000, 5, 65535]]) };
    assert_eq!(deep.get_pixel_data(0, 1), Pixel { r: 40000, g: 5, b: 65535, full: 65535 });
    let deep_a = Image { width: 1, height: 1, bitmap: ImageData::RGBA16(vec![[300, 2, 3, 4]]) };
    assert_eq!(deep_a.get_pixel_data(0, 0), Pixel { r: 300, g: 2, b: 3, full: 65535 });
    let gray = Image { width: 3, height: 1, bitmap: ImageData::GRAY8(vec![0, 128, 255]) };
    assert_eq!(gray.get_pixel_data(1, 0), Pixel { r: 128, g: 128, b: 128, full: 255 });
    let gray16 = Image { width: 1, height: 1, bitmap: ImageData::GRAY16(vec![1000]) };
    assert_eq!(gray16.get_pixel_data(0, 0), Pixel { r: 1000, g: 1000, b: 1000, full: 65535 });
    let gray_a = Image { width: 1, height: 1, bitmap: ImageData::GRAYA8(vec![[17, 200]]) };
    assert_eq!(gray_a.get_pixel_data(0, 0), Pixel { r: 17, g: 17, b: 17, full: 255 });
    let gray_a16 = Image { width: 1, height: 1, bitmap: ImageData::GRAYA16(vec![[1700, 200]]) };
    assert_eq!(gray_a16.get_pixel_data(0, 0), Pixel { r: 1700, g: 1700, b: 1700, full: 65535 });
}

#[test]
fn image_sample_stays_inside() {
    let gray = Image { width: 3, height: 2, bitmap: ImageData::GRAY8(vec![0, 1, 2, 3, 4, 5]) };
    assert_eq!(gray.sample(0, 0).unwrap().r, 0);
    assert_eq!(gray.sample(2, 1).unwrap().r, 5);
    assert_eq!(gray.sample(3, 0).unwrap().r, 2);
    assert_eq!(gray.sample(1, 2).unwrap().r, 4);
    assert_eq!(gray.sample(usize::MAX, usize::MAX).unwrap().r, 5);
    let empty = Image { width: 0, height: 0, bitmap: ImageData::GRAY8(vec![]) };
    assert_eq!(empty.sample(0, 0), None);
}
