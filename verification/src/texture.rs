//! Textures that are decided on integers: the cells of a checker pattern.

use vstd::prelude::*;
use crate::scalar::Scalar;

verus! {

/// A checker pattern in space: cubic cells, alternately of two textures.
#[derive(Debug, Clone, Copy, PartialEq, Eq, Structural)]
pub struct CheckerTexture {
    /// One over the edge length of a cell.
    pub inv_scale: Scalar,
    /// The texture of the cell at the origin, by its index in the scene.
    pub even: usize,
    /// The texture of the cells next to it.
    pub odd: usize,
}

/// Whether the cell with the given coordinates is of the texture of the
/// cell at the origin: whether the coordinates add up to an even number.
pub open spec fn is_even_cell(x: int, y: int, z: int) -> bool {
    (x + y + z) % 2 == 0
}

impl CheckerTexture {
    /// A checker pattern with cells of edge length `1 / inv_scale`.
    pub fn new(inv_scale: Scalar, even: usize, odd: usize) -> (t: Self)
        ensures
            t.inv_scale == inv_scale,
            t.even == even,
            t.odd == odd,
    {
        CheckerTexture { inv_scale, even, odd }
    }

    /// The texture of a cell. The coordinates of the cell of a point are
    /// the point's coordinates times `inv_scale`, rounded down.
    pub fn sample(&self, x_int: i32, y_int: i32, z_int: i32) -> (texture: usize)
        ensures
            texture == if is_even_cell(x_int as int, y_int as int, z_int as int) {
                self.even
            } else {
                self.odd
            },
    {
        let sum: i64 = x_int as i64 + y_int as i64 + z_int as i64;
        if sum % 2 == 0 {
            self.even
        } else {
            self.odd
        }
    }
}

/// The pattern changes at every cell boundary: two cells that share a face
/// are of different textures.
pub proof fn lemma_checker_alternates(x: int, y: int, z: int)
    ensures
        is_even_cell(x + 1, y, z) != is_even_cell(x, y, z),
        is_even_cell(x, y + 1, z) != is_even_cell(x, y, z),
        is_even_cell(x, y, z + 1) != is_even_cell(x, y, z),
        is_even_cell(0, 0, 0),
        !is_even_cell(1, 0, 0),
{
}

} // verus!
