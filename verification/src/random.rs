//! Random integers.

use vstd::prelude::*;
use rand::Rng;
use rand::seq::SliceRandom;

verus! {

/// `rand::Rng::gen_range` on the thread-local generator, for a half-open
/// range of `u64` that starts at zero. The call panics on an empty range,
/// which `bound > 0` rules out; what it returns lies in the range. Nothing
/// else is claimed of it: two calls may differ.
#[verifier::external_body]
pub(crate) fn draw_below(bound: u64) -> (r: u64)
    requires
        bound > 0,
    ensures
        r < bound,
{
    rand::thread_rng().gen_range(0..bound)
}

/// `rand::seq::SliceRandom::shuffle` on the thread-local generator. The
/// shuffle only swaps elements of the slice, so the vector afterwards holds
/// what it held before, each value as often, in some order.
#[verifier::external_body]
fn shuffle(values: &mut Vec<i32>)
    ensures
        final(values)@.to_multiset() == old(values)@.to_multiset(),
        final(values)@.len() == old(values)@.len(),
{
    values.shuffle(&mut rand::thread_rng());
}

/// The integer that a draw stands for. The range from `min` to `max` is cut
/// into `2 * (max - min)` cells of half a unit, and the draw names one of
/// them; the result is the integer nearest to that cell, the upper one where
/// two are as near.
pub open spec fn spec_int_from_draw(min: int, draw: int) -> int {
    min + (draw + 1) / 2
}

/// The number of half-unit cells between `min` and `max`.
pub open spec fn spec_cells(min: int, max: int) -> int {
    2 * (max - min)
}

/// Rounds a uniformly drawn half-unit cell of the range to an integer. Each
/// integer strictly between `min` and `max` is the result for two cells,
/// `min` and `max` for one each.
pub fn int_from_draw(min: i32, max: i32, draw: u64) -> (r: i32)
    requires
        min < max,
        draw < spec_cells(min as int, max as int),
    ensures
        r == spec_int_from_draw(min as int, draw as int),
        min <= r <= max,
{
    let offset: u64 = (draw + 1) / 2;
    let wide: i64 = min as i64 + offset as i64;
    wide as i32
}

/// A random integer between `min` and `max`, both included: a number drawn
/// uniformly from the range, rounded to the nearest integer. The two ends are
/// half as likely as the integers between them.
pub fn random_int_in_range(min: i32, max: i32) -> (r: i32)
    requires
        min < max,
    ensures
        min <= r <= max,
{
    let cells: u64 = (2 * (max as i64 - min as i64)) as u64;
    let draw = draw_below(cells);
    int_from_draw(min, max, draw)
}

/// The numbers `0, 1, .., n - 1` in a random order.
pub fn random_permutation(n: usize) -> (p: Vec<i32>)
    requires
        n <= i32::MAX,
    ensures
        is_permutation(p@, n as nat),
{
    let mut p: Vec<i32> = Vec::new();
    let mut i: usize = 0;
    while i < n
        invariant
            i <= n,
            n <= i32::MAX,
            p@ == identity(i as nat),
        decreases n - i,
    {
        p.push(i as i32);
        i = i + 1;
    }
    shuffle(&mut p);
    p
}

/// The sequence `0, 1, .., n - 1`.
pub open spec fn identity(n: nat) -> Seq<i32> {
    Seq::new(n, |i: int| i as i32)
}

/// Whether `p` holds each of `0, 1, .., n - 1` exactly once.
pub open spec fn is_permutation(p: Seq<i32>, n: nat) -> bool {
    p.len() == n && p.to_multiset() == identity(n).to_multiset()
}

/// Whether a sequence holds each of `0, 1, .., n - 1` exactly once.
pub fn check_permutation(p: &Vec<i32>, n: usize) -> (r: bool)
    requires
        n <= i32::MAX,
    ensures
        r == is_permutation(p@, n as nat),
{
    if p.len() != n {
        return false;
    }
    let mut seen: Vec<bool> = Vec::new();
    let mut v: usize = 0;
    while v < n
        invariant
            v <= n,
            seen@.len() == v,
            forall|a: int| 0 <= a < v ==> !#[trigger] seen@[a],
        decreases n - v,
    {
        seen.push(false);
        v = v + 1;
    }
    let mut k: usize = 0;
    while k < n
        invariant
            k <= n,
            n <= i32::MAX,
            p@.len() == n,
            seen@.len() == n,
            forall|a: int| 0 <= a < k ==> 0 <= #[trigger] p@[a] < n,
            forall|a: int, b: int| 0 <= a < b < k ==> p@[a] != p@[b],
            forall|x: int|
                0 <= x < n ==> (#[trigger] seen@[x] <==> exists|a: int|
                    0 <= a < k && #[trigger] p@[a] == x),
        decreases n - k,
    {
        let value = p[k];
        if value < 0 || value as usize >= n {
            proof {
                if is_permutation(p@, n as nat) {
                    lemma_permutation_range(p@, n as nat);
                    assert(0 <= p@[k as int] < n);
                }
            }
            return false;
        }
        if seen[value as usize] {
            proof {
                let earlier = choose|a: int| 0 <= a < k && #[trigger] p@[a] == value as int;
                if is_permutation(p@, n as nat) {
                    lemma_permutation_range(p@, n as nat);
                    assert(p@[earlier] != p@[k as int]);
                }
            }
            return false;
        }
        let ghost before = seen@;
        seen.set(value as usize, true);
        proof {
            assert forall|x: int| 0 <= x < n implies (#[trigger] seen@[x] <==> exists|a: int|
                0 <= a < k + 1 && #[trigger] p@[a] == x) by {
                if x == value as int {
                    assert(p@[k as int] == x);
                } else {
                    if before[x] {
                        let a = choose|a: int| 0 <= a < k && #[trigger] p@[a] == x;
                        assert(0 <= a < k + 1 && p@[a] == x);
                    }
                    if exists|a: int| 0 <= a < k + 1 && #[trigger] p@[a] == x {
                        let a = choose|a: int| 0 <= a < k + 1 && #[trigger] p@[a] == x;
                        assert(a != k);
                        assert(0 <= a < k && p@[a] == x);
                    }
                }
            }
        }
        k = k + 1;
    }
    let mut x: usize = 0;
    while x < n
        invariant
            x <= n,
            n <= i32::MAX,
            p@.len() == n,
            seen@.len() == n,
            forall|y: int| 0 <= y < x ==> #[trigger] seen@[y],
            forall|y: int|
                0 <= y < n ==> (#[trigger] seen@[y] <==> exists|a: int|
                    0 <= a < n && #[trigger] p@[a] == y),
        decreases n - x,
    {
        if !seen[x] {
            proof {
                if is_permutation(p@, n as nat) {
                    let id = identity(n as nat);
                    assert(id[x as int] == x as i32);
                    assert(id.contains(x as i32));
                    vstd::seq_lib::to_multiset_contains(id, x as i32);
                    vstd::seq_lib::to_multiset_contains(p@, x as i32);
                    assert(p@.contains(x as i32));
                    let a = choose|a: int| 0 <= a < p@.len() && p@[a] == x as i32;
                    assert(0 <= a < n && p@[a] == x as int);
                }
            }
            return false;
        }
        x = x + 1;
    }
    proof {
        assert forall|v: i32| 0 <= v < n implies #[trigger] p@.contains(v) by {
            assert(seen@[v as int]);
            let a = choose|a: int| 0 <= a < n && #[trigger] p@[a] == v as int;
            assert(p@[a] == v);
        }
        lemma_bijection_is_permutation(p@, n as nat);
    }
    true
}

/// A sequence of `n` numbers below `n`, none of them twice and none of them
/// missing, is a permutation of `0 .. n`.
pub proof fn lemma_bijection_is_permutation(p: Seq<i32>, n: nat)
    requires
        n <= i32::MAX,
        p.len() == n,
        forall|a: int| 0 <= a < n ==> 0 <= #[trigger] p[a] < n,
        p.no_duplicates(),
        forall|v: i32| 0 <= v < n ==> #[trigger] p.contains(v),
    ensures
        is_permutation(p, n),
{
    let id = identity(n);
    assert(id.no_duplicates());
    p.lemma_multiset_has_no_duplicates();
    id.lemma_multiset_has_no_duplicates();
    assert forall|v: i32| p.to_multiset().count(v) == id.to_multiset().count(v) by {
        vstd::seq_lib::to_multiset_contains(p, v);
        vstd::seq_lib::to_multiset_contains(id, v);
        if 0 <= v < n {
            assert(p.contains(v));
            assert(id[v as int] == v);
            assert(id.contains(v));
        } else {
            if p.contains(v) {
                let a = choose|a: int| 0 <= a < p.len() && p[a] == v;
                assert(0 <= p[a] < n);
            }
            if id.contains(v) {
                let a = choose|a: int| 0 <= a < id.len() && id[a] == v;
                assert(id[a] == a as i32);
            }
        }
    }
    assert(p.to_multiset() =~= id.to_multiset());
}

/// A permutation of `0 .. n` holds numbers below `n` only, and none twice.
pub proof fn lemma_permutation_range(p: Seq<i32>, n: nat)
    requires
        n <= i32::MAX,
        is_permutation(p, n),
    ensures
        forall|i: int| 0 <= i < n ==> 0 <= #[trigger] p[i] < n,
        p.no_duplicates(),
{
    let id = identity(n);
    broadcast use vstd::seq_lib::group_to_multiset_ensures;
    assert forall|i: int| 0 <= i < n implies 0 <= #[trigger] p[i] < n by {
        assert(p.contains(p[i]));
        assert(p.to_multiset().count(p[i]) > 0);
        assert(id.to_multiset().count(p[i]) > 0);
        assert(id.contains(p[i]));
        let j = choose|j: int| 0 <= j < id.len() && id[j] == p[i];
        assert(id[j] == j as i32);
    }
    assert(id.no_duplicates());
    id.lemma_multiset_has_no_duplicates();
    p.lemma_multiset_has_no_duplicates_conv();
}

} // verus!
