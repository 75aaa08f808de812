//! The lattice of gradient noise: three random permutations that give every
//! lattice point the index of its gradient.

use vstd::prelude::*;
use crate::random::{
    check_permutation, is_permutation, lemma_permutation_range, random_permutation,
};

verus! {

/// The number of gradients, and the length of each permutation.
pub const POINT_COUNT: usize = 256;

/// The permutations of a noise field, one per axis.
pub struct Perlin {
    pub perm_x: Vec<i32>,
    pub perm_y: Vec<i32>,
    pub perm_z: Vec<i32>,
}

/// The place of a lattice coordinate in a permutation: the coordinate
/// modulo the number of gradients.
pub open spec fn spec_cell(x: int) -> int {
    x % 256
}

impl Perlin {
    /// Whether each of the three tables is a permutation of `0 .. 256`.
    pub open spec fn wf(&self) -> bool {
        &&& is_permutation(self.perm_x@, 256)
        &&& is_permutation(self.perm_y@, 256)
        &&& is_permutation(self.perm_z@, 256)
    }

    /// The index of the gradient at a lattice point: the three entries that
    /// the permutations hold for its coordinates, combined bit by bit with
    /// exclusive or.
    pub open spec fn spec_corner(&self, x: int, y: int, z: int) -> usize {
        (self.perm_x@[spec_cell(x)] as usize) ^ (self.perm_y@[spec_cell(y)] as usize) ^ (
        self.perm_z@[spec_cell(z)] as usize)
    }

    /// A noise field with three fresh random permutations.
    pub fn new() -> (p: Self)
        ensures
            p.wf(),
    {
        Perlin {
            perm_x: Self::generate_perm(),
            perm_y: Self::generate_perm(),
            perm_z: Self::generate_perm(),
        }
    }

    /// A noise field with the three given tables, where each of them is a
    /// permutation of `0 .. 256`, and none otherwise. Tables that are made
    /// from a seed give the same field in every run.
    pub fn from_tables(perm_x: Vec<i32>, perm_y: Vec<i32>, perm_z: Vec<i32>) -> (p: Option<Self>)
        ensures
            p.is_some() <==> is_permutation(perm_x@, 256) && is_permutation(perm_y@, 256)
                && is_permutation(perm_z@, 256),
            p matches Some(field) ==> field.wf() && field.perm_x@ == perm_x@ && field.perm_y@
                == perm_y@ && field.perm_z@ == perm_z@,
    {
        if check_permutation(&perm_x, POINT_COUNT) && check_permutation(&perm_y, POINT_COUNT)
            && check_permutation(&perm_z, POINT_COUNT) {
            Some(Perlin { perm_x, perm_y, perm_z })
        } else {
            None
        }
    }

    /// A random permutation of `0 .. 256`.
    pub fn generate_perm() -> (p: Vec<i32>)
        ensures
            is_permutation(p@, 256),
    {
        random_permutation(POINT_COUNT)
    }

    /// The gradient index of the lattice point `(i + di, j + dj, k + dk)`.
    fn corner(&self, i: i32, di: u8, j: i32, dj: u8, k: i32, dk: u8) -> (c: usize)
        requires
            self.wf(),
            di <= 1,
            dj <= 1,
            dk <= 1,
        ensures
            c == self.spec_corner(i + di, j + dj, k + dk),
            c < 256,
    {
        proof {
            lemma_permutation_range(self.perm_x@, 256);
            lemma_permutation_range(self.perm_y@, 256);
            lemma_permutation_range(self.perm_z@, 256);
        }
        let x: u64 = (i as i64 + di as i64 + 0x1_0000_0000) as u64;
        let y: u64 = (j as i64 + dj as i64 + 0x1_0000_0000) as u64;
        let z: u64 = (k as i64 + dk as i64 + 0x1_0000_0000) as u64;
        let a: usize = self.perm_x[(x % 256) as usize] as usize;
        let b: usize = self.perm_y[(y % 256) as usize] as usize;
        let c: usize = self.perm_z[(z % 256) as usize] as usize;
        assert(a ^ b ^ c < 256) by (bit_vector)
            requires
                a < 256,
                b < 256,
                c < 256,
        ;
        a ^ b ^ c
    }

    /// The gradient indices of the eight corners of the lattice cell whose
    /// lowest corner is `(i, j, k)`. The corner that lies `di`, `dj` and
    /// `dk` steps up along the three axes, each of them zero or one, is at
    /// place `4 * di + 2 * dj + dk`. Coordinates count modulo 256.
    pub fn noise(&self, i: i32, j: i32, k: i32) -> (corners: Vec<usize>)
        requires
            self.wf(),
        ensures
            corners@.len() == 8,
            forall|di: int, dj: int, dk: int|
                0 <= di <= 1 && 0 <= dj <= 1 && 0 <= dk <= 1 ==> #[trigger] corners@[4 * di + 2 * dj
                    + dk] == self.spec_corner(i + di, j + dj, k + dk),
            forall|c: int| 0 <= c < 8 ==> #[trigger] corners@[c] < POINT_COUNT,
    {
        let mut corners: Vec<usize> = Vec::new();
        corners.push(self.corner(i, 0, j, 0, k, 0));
        corners.push(self.corner(i, 0, j, 0, k, 1));
        corners.push(self.corner(i, 0, j, 1, k, 0));
        corners.push(self.corner(i, 0, j, 1, k, 1));
        corners.push(self.corner(i, 1, j, 0, k, 0));
        corners.push(self.corner(i, 1, j, 0, k, 1));
        corners.push(self.corner(i, 1, j, 1, k, 0));
        corners.push(self.corner(i, 1, j, 1, k, 1));
        corners
    }
}

} // verus!
