//! The seeded random source that every draw of the simulation goes through.
//!
//! The generator itself is `rand`'s `SmallRng`. Nothing is assumed about the
//! values it yields beyond the range that was asked for, so every contract
//! built on a draw holds for each value the generator could return.

use crate::geometry::Vector;
use rand::rngs::SmallRng;
use rand::{Rng, RngCore, SeedableRng};
use vstd::prelude::*;

verus! {

/// `rand::rngs::SmallRng`, the generator behind [`Rand`]. Its state is not
/// looked into.
#[verifier::external_type_specification]
#[verifier::external_body]
pub struct ExSmallRng(rand::rngs::SmallRng);

/// A deterministic random source: the same seed and the same sequence of
/// calls give the same sequence of values on one platform and library version.
pub struct Rand(SmallRng);

/// How often [`Rand::vec2`] draws before it settles for the centre.
pub const DISK_ATTEMPTS: u32 = 128;

/// `SmallRng::seed_from_u64` (from `rand`'s `SeedableRng`): builds a
/// generator from an integer seed. Nothing is claimed about the generator.
#[verifier::external_body]
fn seeded(seed: u64) -> (rng: SmallRng) {
    SmallRng::seed_from_u64(seed)
}

/// `RngCore::next_u32` of `SmallRng`: the next 32 random bits. Any value may
/// come back.
#[verifier::external_body]
fn raw_u32(rng: &mut SmallRng) -> (bits: u32) {
    rng.next_u32()
}

/// `RngCore::next_u64` of `SmallRng`: the next 64 random bits. Any value may
/// come back.
#[verifier::external_body]
fn raw_u64(rng: &mut SmallRng) -> (bits: u64) {
    rng.next_u64()
}

/// `RngCore::fill_bytes` of `SmallRng`: overwrites every byte of `dest` with
/// random data. Only the length, which a slice cannot change, is stated.
#[verifier::external_body]
fn raw_fill(rng: &mut SmallRng, dest: &mut [u8])
    ensures
        final(dest)@.len() == old(dest)@.len(),
{
    rng.fill_bytes(dest)
}

/// `Rng::random_range` of `rand` on the half-open range `..bound` of `u64`:
/// it panics on an empty range, which `bound > 0` rules out, and returns a
/// value inside the range.
#[verifier::external_body]
fn raw_below(rng: &mut SmallRng, bound: u64) -> (value: u64)
    requires
        bound > 0,
    ensures
        value < bound,
{
    rng.random_range(..bound)
}

impl Rand {
    /// A source that starts from `seed`.
    pub fn seed_from_u64(seed: u64) -> (rand: Rand) {
        Rand(seeded(seed))
    }

    /// Starts the source anew from `seed`.
    pub fn reseed(&mut self, seed: u64) {
        self.0 = seeded(seed);
    }

    /// The next 32 random bits.
    pub fn next_u32(&mut self) -> (bits: u32) {
        raw_u32(&mut self.0)
    }

    /// The next 64 random bits.
    pub fn next_u64(&mut self) -> (bits: u64) {
        raw_u64(&mut self.0)
    }

    /// Fills `dest` with random bytes.
    pub fn fill_bytes(&mut self, dest: &mut [u8])
        ensures
            final(dest)@.len() == old(dest)@.len(),
    {
        raw_fill(&mut self.0, dest)
    }

    /// A value drawn from `0 .. bound`.
    pub fn below(&mut self, bound: u64) -> (value: u64)
        requires
            bound > 0,
        ensures
            value < bound,
    {
        raw_below(&mut self.0, bound)
    }

    /// A value drawn from `lo .. hi`.
    pub fn range_u64(&mut self, lo: u64, hi: u64) -> (value: u64)
        requires
            lo < hi,
        ensures
            lo <= value < hi,
    {
        let offset: u64 = self.below(hi - lo);
        lo + offset
    }

    /// A value drawn from `lo .. hi`.
    pub fn range_i64(&mut self, lo: i64, hi: i64) -> (value: i64)
        requires
            lo < hi,
        ensures
            lo <= value < hi,
    {
        let width: u64 = (hi as i128 - lo as i128) as u64;
        let offset: u64 = self.below(width);
        (lo as i128 + offset as i128) as i64
    }

    /// A random vector inside the disk of the given radius around the origin.
    ///
    /// Both components are drawn from `-radius .. radius` until the vector
    /// falls inside the disk. After [`DISK_ATTEMPTS`] rejected draws, whose
    /// chance is below one in 10^80, the centre is returned. For the radius
    /// zero nothing is drawn and the centre is returned.
    pub fn vec2(&mut self, radius: u32) -> (v: Vector)
        ensures
            v.len_sq() <= radius * radius,
            in_box(v, radius),
            radius > 0 ==> -radius <= v.x < radius && -radius <= v.y < radius,
            radius == 0 ==> v == Vector::zero(),
            exists|draws: Seq<Vector>| #[trigger] picked_from(draws, radius, v),
    {
        let reach: i64 = radius as i64;
        assert(radius * radius >= 0) by (nonlinear_arith);
        let centre: Vector = Vector { x: 0, y: 0 };
        let ghost mut draws: Seq<Vector> = Seq::empty();
        if radius == 0 {
            assert(picked_from(draws, radius, centre));
            return centre;
        }
        let mut attempt: u32 = 0;
        while attempt < DISK_ATTEMPTS
            invariant
                reach == radius,
                radius > 0,
                attempt <= DISK_ATTEMPTS,
                draws.len() == attempt,
                forall|k: int| 0 <= k < draws.len() ==> in_box(#[trigger] draws[k], radius),
                forall|k: int| 0 <= k < draws.len() ==> !(#[trigger] draws[k]).within(radius),
            decreases DISK_ATTEMPTS - attempt,
        {
            let x: i64 = self.range_i64(-reach, reach);
            let y: i64 = self.range_i64(-reach, reach);
            let v: Vector = Vector { x, y };
            proof {
                draws = draws.push(v);
            }
            if v.is_within(radius) {
                assert(picked_from(draws, radius, v));
                return v;
            }
            attempt = attempt + 1;
        }
        assert(picked_from(draws, radius, centre));
        centre
    }
}

/// `v` lies in the square that [`Rand::vec2`] draws from: each component is
/// at least `-radius` and less than `radius`. For the radius zero the square
/// holds the centre alone.
pub open spec fn in_box(v: Vector, radius: u32) -> bool {
    if radius == 0 {
        v == Vector::zero()
    } else {
        -radius <= v.x < radius && -radius <= v.y < radius
    }
}

/// `v` is what the candidates `draws` lead to: every candidate lies in the
/// square and all but the last outside the disk; `v` is the last one if that
/// lies in the disk, and the centre if [`DISK_ATTEMPTS`] candidates do not.
/// For the radius zero there is no candidate and `v` is the centre.
pub open spec fn picked_from(draws: Seq<Vector>, radius: u32, v: Vector) -> bool {
    &&& draws.len() <= DISK_ATTEMPTS
    &&& forall|k: int| 0 <= k < draws.len() ==> in_box(#[trigger] draws[k], radius)
    &&& forall|k: int| 0 <= k < draws.len() - 1 ==> !(#[trigger] draws[k]).within(radius)
    &&& if radius == 0 {
        draws.len() == 0 && v == Vector::zero()
    } else if draws.len() > 0 && draws.last().within(radius) {
        v == draws.last()
    } else {
        draws.len() == DISK_ATTEMPTS && v == Vector::zero()
    }
}

} // verus!
