//! Constrained placement: points inside a ring around a centre that keep a
//! minimum distance from each other, found by rejection sampling.

use crate::geometry::{lemma_dist_sq_symmetric, squared, Point};
use crate::rng::Rand;
use vstd::prelude::*;

verus! {

/// The ring that points are placed in.
#[derive(Clone, Copy, Debug, PartialEq, Eq, Structural)]
pub struct Generate {
    pub center: Point,
    pub min_radius: u32,
    pub max_radius: u32,
}

/// Why no scene was generated.
#[derive(Clone, Copy, Debug, PartialEq, Eq, Structural)]
pub enum GenerateError {
    /// The square around the centre that candidates are drawn from reaches
    /// beyond the coordinates a point can have.
    OutOfBounds,
    /// The allowed number of candidates was drawn before enough of them were
    /// accepted. A ring too small for the points asked for ends here.
    AttemptsExhausted,
}

impl Generate {
    /// `p` lies in the ring: at least `min_radius` and less than `max_radius`
    /// from the centre.
    pub open spec fn contains(self, p: Point) -> bool {
        self.min_radius * self.min_radius <= p.dist_sq(self.center) < self.max_radius
            * self.max_radius
    }

    /// `p` is at least `clearance` away from each of `placed`.
    pub open spec fn clear_of(p: Point, placed: Seq<Point>, clearance: u32) -> bool {
        forall|j: int| 0 <= j < placed.len() ==> p.dist_sq(#[trigger] placed[j]) >= clearance * clearance
    }

    /// `p` may be placed next to `placed`.
    pub open spec fn admissible(self, placed: Seq<Point>, p: Point, clearance: u32) -> bool {
        self.contains(p) && Self::clear_of(p, placed, clearance)
    }

    /// The points placed once the candidates `draws` have been looked at in
    /// order: a candidate is taken while fewer than `count` points are placed
    /// and it may be placed next to those taken before it.
    pub open spec fn placed_after(self, draws: Seq<Point>, count: nat, clearance: u32) -> Seq<Point>
        decreases draws.len(),
    {
        if draws.len() == 0 {
            Seq::empty()
        } else {
            let before = self.placed_after(draws.drop_last(), count, clearance);
            if before.len() < count && self.admissible(before, draws.last(), clearance) {
                before.push(draws.last())
            } else {
                before
            }
        }
    }

    /// Every point lies in the ring, and any two are at least `clearance` apart.
    pub open spec fn is_scene(self, points: Seq<Point>, clearance: u32) -> bool {
        &&& forall|i: int| 0 <= i < points.len() ==> self.contains(#[trigger] points[i])
        &&& forall|i: int, j: int|
            0 <= i < j < points.len() ==> (#[trigger] points[i]).dist_sq(#[trigger] points[j])
                >= clearance * clearance
    }

    /// The square that candidates are drawn from lies within the coordinates
    /// a point can have.
    pub open spec fn fits(self) -> bool {
        &&& i32::MIN <= self.center.x - self.max_radius
        &&& self.center.x + self.max_radius <= i32::MAX
        &&& i32::MIN <= self.center.y - self.max_radius
        &&& self.center.y + self.max_radius <= i32::MAX
    }

    /// `p` lies in the square that candidates are drawn from.
    pub open spec fn in_square(self, p: Point) -> bool {
        &&& self.center.x - self.max_radius <= p.x <= self.center.x + self.max_radius
        &&& self.center.y - self.max_radius <= p.y <= self.center.y + self.max_radius
    }

    /// `outcome` is what looking at the candidates `draws` leads to: the scene
    /// once `count` points are placed, or failure once `max_attempts`
    /// candidates have not sufficed.
    pub open spec fn explains(
        self,
        draws: Seq<Point>,
        outcome: Result<Vec<Point>, GenerateError>,
        count: nat,
        clearance: u32,
        max_attempts: u64,
    ) -> bool {
        &&& draws.len() <= max_attempts
        &&& forall|k: int| 0 <= k < draws.len() ==> self.in_square(#[trigger] draws[k])
        &&& match outcome {
            Ok(points) => points@ == self.placed_after(draws, count, clearance) && points@.len()
                == count,
            Err(GenerateError::AttemptsExhausted) => draws.len() == max_attempts
                && self.placed_after(draws, count, clearance).len() < count,
            Err(GenerateError::OutOfBounds) => false,
        }
    }

    /// Looking at one more candidate.
    pub proof fn lemma_placed_step(self, draws: Seq<Point>, p: Point, count: nat, clearance: u32)
        ensures
            self.placed_after(draws.push(p), count, clearance) == ({
                let before = self.placed_after(draws, count, clearance);
                if before.len() < count && self.admissible(before, p, clearance) {
                    before.push(p)
                } else {
                    before
                }
            }),
    {
        assert(draws.push(p).drop_last() =~= draws);
    }

    /// Whatever candidates are looked at, the points placed form a scene of at
    /// most `count` points.
    pub proof fn lemma_placed_is_scene(self, draws: Seq<Point>, count: nat, clearance: u32)
        ensures
            self.is_scene(self.placed_after(draws, count, clearance), clearance),
            self.placed_after(draws, count, clearance).len() <= count,
            self.placed_after(draws, count, clearance).len() <= draws.len(),
        decreases draws.len(),
    {
        if draws.len() > 0 {
            self.lemma_placed_is_scene(draws.drop_last(), count, clearance);
            let before = self.placed_after(draws.drop_last(), count, clearance);
            let after = self.placed_after(draws, count, clearance);
            if before.len() < count && self.admissible(before, draws.last(), clearance) {
                assert forall|i: int, j: int| 0 <= i < j < after.len() implies (#[trigger] after[i]).dist_sq(
                    #[trigger] after[j],
                ) >= clearance * clearance by {
                    if j == before.len() {
                        lemma_dist_sq_symmetric(after[i], after[j]);
                        assert(after[i] == before[i]);
                    } else {
                        assert(after[i] == before[i] && after[j] == before[j]);
                    }
                }
                assert forall|i: int| 0 <= i < after.len() implies self.contains(
                    #[trigger] after[i],
                ) by {
                    if i < before.len() {
                        assert(after[i] == before[i]);
                    }
                }
            }
        }
    }

    /// Generation is repeatable: two runs in the same ring with the same
    /// count, clearance and allowance that draw the same candidates end alike,
    /// and where they end with a scene, it is the same scene.
    pub proof fn lemma_same_draws_same_outcome(
        self,
        draws: Seq<Point>,
        first: Result<Vec<Point>, GenerateError>,
        second: Result<Vec<Point>, GenerateError>,
        count: nat,
        clearance: u32,
        max_attempts: u64,
    )
        requires
            self.explains(draws, first, count, clearance, max_attempts),
            self.explains(draws, second, count, clearance, max_attempts),
        ensures
            first is Ok <==> second is Ok,
            first matches Ok(a) ==> second matches Ok(b) && a@ == b@,
            first matches Err(e) ==> second == Err::<Vec<Point>, GenerateError>(e),
    {
    }

    /// Placement is a function of the candidates, and reads them only until
    /// the scene is complete: candidates that follow change nothing.
    pub proof fn lemma_placed_ignores_later_draws(
        self,
        draws: Seq<Point>,
        more: Seq<Point>,
        count: nat,
        clearance: u32,
    )
        requires
            self.placed_after(draws, count, clearance).len() == count,
        ensures
            self.placed_after(draws + more, count, clearance) == self.placed_after(
                draws,
                count,
                clearance,
            ),
        decreases more.len(),
    {
        if more.len() == 0 {
            assert(draws + more =~= draws);
        } else {
            self.lemma_placed_ignores_later_draws(draws, more.drop_last(), count, clearance);
            assert(draws + more =~= (draws + more.drop_last()).push(more.last()));
            self.lemma_placed_step(draws + more.drop_last(), more.last(), count, clearance);
        }
    }
}

impl Generate {
    /// The ring around `center` from `min_radius` up to, but not including,
    /// `max_radius`.
    pub fn new(max_radius: u32, min_radius: u32, center: Point) -> (ring: Generate)
        ensures
            ring == (Generate { center, min_radius, max_radius }),
    {
        Generate { center, min_radius, max_radius }
    }

    /// Tells whether `p` lies in the ring.
    pub fn includes(&self, p: Point) -> (yes: bool)
        ensures
            yes == self.contains(p),
    {
        let d: u128 = p.distance_squared(self.center);
        let inner: u128 = squared(self.min_radius);
        let outer: u128 = squared(self.max_radius);
        inner <= d && d < outer
    }

    /// Tells whether `p` may be placed next to `placed`: it lies in the ring
    /// and at least `clearance` away from each of them.
    pub fn admits(&self, placed: &Vec<Point>, p: Point, clearance: u32) -> (yes: bool)
        ensures
            yes == self.admissible(placed@, p, clearance),
    {
        if !self.includes(p) {
            return false;
        }
        let gap: u128 = squared(clearance);
        let mut j: usize = 0;
        while j < placed.len()
            invariant
                0 <= j <= placed.len(),
                gap == clearance * clearance,
                forall|k: int| 0 <= k < j ==> p.dist_sq(#[trigger] placed@[k]) >= clearance * clearance,
            decreases placed.len() - j,
        {
            if p.distance_squared(placed[j]) < gap {
                return false;
            }
            j = j + 1;
        }
        true
    }

    /// Places up to `count` points from the candidates `draws`, looked at in
    /// order.
    pub fn place(&self, draws: &Vec<Point>, count: usize, clearance: u32) -> (placed: Vec<Point>)
        ensures
            placed@ == self.placed_after(draws@, count as nat, clearance),
            self.is_scene(placed@, clearance),
            placed.len() <= count,
    {
        let mut placed: Vec<Point> = Vec::new();
        let mut i: usize = 0;
        while i < draws.len()
            invariant
                0 <= i <= draws.len(),
                placed@ == self.placed_after(draws@.take(i as int), count as nat, clearance),
                placed.len() <= i,
            decreases draws.len() - i,
        {
            proof {
                self.lemma_placed_step(draws@.take(i as int), draws@[i as int], count as nat, clearance);
                assert(draws@.take(i as int).push(draws@[i as int]) =~= draws@.take(i + 1));
            }
            if placed.len() < count && self.admits(&placed, draws[i], clearance) {
                placed.push(draws[i]);
            }
            i = i + 1;
        }
        proof {
            assert(draws@.take(draws.len() as int) =~= draws@);
            self.lemma_placed_is_scene(draws@, count as nat, clearance);
        }
        placed
    }

    /// Tells whether every candidate that can be drawn is a point.
    pub fn in_bounds(&self) -> (yes: bool)
        ensures
            yes == self.fits(),
    {
        let reach: i64 = self.max_radius as i64;
        let x: i64 = self.center.x as i64;
        let y: i64 = self.center.y as i64;
        i32::MIN as i64 <= x - reach && x + reach <= i32::MAX as i64 && i32::MIN as i64 <= y - reach
            && y + reach <= i32::MAX as i64
    }

    /// Draws a candidate: both coordinates uniformly from the square of half
    /// width `max_radius` around the centre.
    pub fn candidate(&self, rng: &mut Rand) -> (p: Point)
        requires
            self.fits(),
        ensures
            self.in_square(p),
    {
        let reach: i64 = self.max_radius as i64;
        let x: i64 = rng.range_i64(self.center.x as i64 - reach, self.center.x as i64 + reach + 1);
        let y: i64 = rng.range_i64(self.center.y as i64 - reach, self.center.y as i64 + reach + 1);
        Point { x: x as i32, y: y as i32 }
    }

    /// Places `count` points in the ring by rejection sampling.
    ///
    /// Candidates are drawn from the square around the ring and taken where
    /// they lie in the ring and at least `clearance` away from every point
    /// taken before. The search ends with the scene once `count` points are
    /// placed, and with [`GenerateError::AttemptsExhausted`] once
    /// `max_attempts` candidates have been drawn without that: a ring with too
    /// little room for the points asked for never completes, so the caller
    /// sets how long to try. Nothing is drawn for an empty scene.
    pub fn generate(&self, rng: &mut Rand, count: usize, clearance: u32, max_attempts: u64) -> (outcome:
        Result<Vec<Point>, GenerateError>)
        ensures
            count == 0 ==> outcome is Ok,
            outcome == Err::<Vec<Point>, GenerateError>(GenerateError::OutOfBounds) <==> count > 0
                && !self.fits(),
            outcome matches Ok(points) ==> points.len() == count && self.is_scene(
                points@,
                clearance,
            ),
            !(outcome == Err::<Vec<Point>, GenerateError>(GenerateError::OutOfBounds))
                ==> exists|draws: Seq<Point>|
                self.explains(draws, outcome, count as nat, clearance, max_attempts),
    {
        let mut placed: Vec<Point> = Vec::new();
        let ghost mut draws: Seq<Point> = Seq::empty();
        if count == 0 {
            assert(self.explains(draws, Ok(placed), count as nat, clearance, max_attempts));
            assert(self.is_scene(placed@, clearance));
            return Ok(placed);
        }
        if !self.in_bounds() {
            return Err(GenerateError::OutOfBounds);
        }
        let mut attempts: u64 = 0;
        while placed.len() < count && attempts < max_attempts
            invariant
                self.fits(),
                attempts <= max_attempts,
                draws.len() == attempts,
                placed.len() <= count,
                forall|k: int| 0 <= k < draws.len() ==> self.in_square(#[trigger] draws[k]),
                placed@ == self.placed_after(draws, count as nat, clearance),
            decreases max_attempts - attempts,
        {
            let p: Point = self.candidate(rng);
            proof {
                self.lemma_placed_step(draws, p, count as nat, clearance);
                draws = draws.push(p);
            }
            if self.admits(&placed, p, clearance) {
                placed.push(p);
            }
            attempts = attempts + 1;
        }
        proof {
            self.lemma_placed_is_scene(draws, count as nat, clearance);
        }
        if placed.len() == count {
            assert(self.explains(draws, Ok(placed), count as nat, clearance, max_attempts));
            Ok(placed)
        } else {
            assert(self.explains(
                draws,
                Err(GenerateError::AttemptsExhausted),
                count as nat,
                clearance,
                max_attempts,
            ));
            Err(GenerateError::AttemptsExhausted)
        }
    }
}

/// Places `count` points around `center`, each at least `min_radius` and less
/// than `max_radius` away from it and any two at least `clearance` apart, with
/// a random source started from `seed`. See [`Generate::generate`].
pub fn generate(
    seed: u64,
    center: Point,
    min_radius: u32,
    max_radius: u32,
    clearance: u32,
    count: usize,
    max_attempts: u64,
) -> (outcome: Result<Vec<Point>, GenerateError>)
    ensures
        count == 0 ==> outcome is Ok,
        outcome == Err::<Vec<Point>, GenerateError>(GenerateError::OutOfBounds) <==> count > 0 && !(
        Generate { center, min_radius, max_radius }).fits(),
        outcome matches Ok(points) ==> points.len() == count && (Generate {
            center,
            min_radius,
            max_radius,
        }).is_scene(points@, clearance),
        !(outcome == Err::<Vec<Point>, GenerateError>(GenerateError::OutOfBounds))
            ==> exists|draws: Seq<Point>|
            (Generate { center, min_radius, max_radius }).explains(
                draws,
                outcome,
                count as nat,
                clearance,
                max_attempts,
            ),
{
    let mut rng: Rand = Rand::seed_from_u64(seed);
    let ring: Generate = Generate::new(max_radius, min_radius, center);
    ring.generate(&mut rng, count, clearance, max_attempts)
}

} // verus!
