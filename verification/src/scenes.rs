//! The render settings of the scenes that come with the library.

use vstd::prelude::*;

verus! {

/// How finely a scene is rendered.
#[derive(Debug, Clone, Copy, PartialEq, Eq, Structural)]
pub struct RenderSettings {
    /// Width of the image in pixels.
    pub image_width: i32,
    /// Rays traced per pixel.
    pub samples_per_pixel: i32,
    /// How often a ray may be scattered before it counts as dark.
    pub max_depth: i32,
}

/// The settings of a render of the final scene.
pub fn next_weeks_final_scene(image_width: i32, samples_per_pixel: i32, max_depth: i32) -> (s:
    RenderSettings)
    ensures
        s.image_width == image_width,
        s.samples_per_pixel == samples_per_pixel,
        s.max_depth == max_depth,
{
    RenderSettings { image_width, samples_per_pixel, max_depth }
}

/// The final scene at low quality, for a first look.
pub fn next_weeks_final_scene_low_res() -> (s: RenderSettings)
    ensures
        s == (RenderSettings { image_width: 400, samples_per_pixel: 250, max_depth: 4 }),
{
    next_weeks_final_scene(400, 250, 4)
}

/// The final scene at medium quality.
pub fn next_weeks_final_scene_mid_res() -> (s: RenderSettings)
    ensures
        s == (RenderSettings { image_width: 600, samples_per_pixel: 500, max_depth: 8 }),
{
    next_weeks_final_scene(600, 500, 8)
}

/// The final scene at full quality.
pub fn next_weeks_final_scene_high_res() -> (s: RenderSettings)
    ensures
        s == (RenderSettings { image_width: 800, samples_per_pixel: 10000, max_depth: 40 }),
{
    next_weeks_final_scene(800, 10000, 40)
}

} // verus!
