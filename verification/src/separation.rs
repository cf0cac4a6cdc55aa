//! Local repulsion among awake agents.
//!
//! Every awake agent is pushed away from each other awake agent that is
//! closer than the separation radius. The push of one neighbour points from
//! the neighbour to the agent; it is as long as the gain divided by the
//! distance, and never longer than the cap. Two agents on the same point have no direction to part
//! in and do not push each other.

use crate::agent::Agent;
use crate::config::{Config, SeparationMode};
use crate::geometry::{
    abs, lemma_le_from_squares, lemma_norm_sq_bounds, lemma_square_le, norm_sq,
    scaled_toward_zero, squared, toward_zero, Point, Vector,
};
use vstd::arithmetic::div_mod::{lemma_div_is_ordered, lemma_fundamental_div_mod, lemma_mod_bound};
use vstd::prelude::*;

verus! {

/// The most positions that one call may sum the repulsion over, so that the
/// sum of their pushes fits in a component of a vector.
pub const MAX_NEIGHBOURS: usize = 0x7fff_ffff;

/// A push that is not capped stays within the cap: where the squared gain is
/// at most the squared cap times `n`, the components `a * gain / n` and
/// `b * gain / n` of an offset `(a, b)` of squared length `n` have squares
/// that add up to at most the squared cap.
proof fn lemma_uncapped(a: nat, b: nat, gain: nat, cap: nat, n: nat)
    requires
        n > 0,
        n == a * a + b * b,
        gain * gain <= (cap * cap) * n,
    ensures
        (a * gain) / n <= cap,
        (b * gain) / n <= cap,
        norm_sq(((a * gain) / n) as int, ((b * gain) / n) as int) <= cap * cap,
{
    let d = n as int;
    let p = (a * gain) as int / d;
    let q = (b * gain) as int / d;
    lemma_fundamental_div_mod((a * gain) as int, d);
    lemma_mod_bound((a * gain) as int, d);
    lemma_fundamental_div_mod((b * gain) as int, d);
    lemma_mod_bound((b * gain) as int, d);
    lemma_div_is_ordered(0, (a * gain) as int, d);
    lemma_div_is_ordered(0, (b * gain) as int, d);
    assert(p * d <= a * gain) by (nonlinear_arith)
        requires
            a * gain == d * p + ((a * gain) as int) % d,
            ((a * gain) as int) % d >= 0,
    ;
    assert(q * d <= b * gain) by (nonlinear_arith)
        requires
            b * gain == d * q + ((b * gain) as int) % d,
            ((b * gain) as int) % d >= 0,
    ;
    assert(p * d >= 0 && q * d >= 0) by (nonlinear_arith)
        requires
            p >= 0,
            q >= 0,
            d > 0,
    ;
    lemma_square_le(p * d, (a * gain) as int);
    lemma_square_le(q * d, (b * gain) as int);
    let gg = (gain * gain) as int;
    let kk = (cap * cap) as int;
    assert((p * d) * (p * d) + (q * d) * (q * d) == (p * p + q * q) * (d * d))
        by (nonlinear_arith);
    assert((a * gain) * (a * gain) + (b * gain) * (b * gain) == d * gg) by (nonlinear_arith)
        requires
            d == a * a + b * b,
            gg == gain * gain,
    ;
    assert(d * gg <= kk * (d * d)) by (nonlinear_arith)
        requires
            gg <= kk * d,
            d > 0,
    ;
    let lhs = p * p + q * q;
    let dd = d * d;
    assert(dd > 0) by (nonlinear_arith)
        requires
            dd == d * d,
            d > 0,
    ;
    assert(lhs <= kk) by (nonlinear_arith)
        requires
            lhs * dd <= kk * dd,
            dd > 0,
    ;
    assert(p * p >= 0 && q * q >= 0) by (nonlinear_arith);
    lemma_le_from_squares(p, cap as int);
    lemma_le_from_squares(q, cap as int);
}

impl Config {
    /// A neighbour at the squared distance `d2` is so near that the gain
    /// divided by the distance exceeds the cap.
    pub open spec fn is_capped(self, d2: nat) -> bool {
        self.separation_gain * self.separation_gain > (self.separation_force_cap
            * self.separation_force_cap) * d2
    }

    /// The push that an agent at `at` gets from a neighbour at `other`: the
    /// direction from the neighbour to the agent, as long as the gain divided
    /// by the distance, and no longer than the cap.
    ///
    /// A push that is not capped is the offset times the gain, divided by the
    /// squared distance, each component rounded toward zero. A capped push is
    /// the offset brought to the length of the cap.
    pub open spec fn push_from(self, at: Point, other: Point) -> Vector {
        let d2 = at.dist_sq(other);
        let away = Vector { x: (at.x - other.x) as i64, y: (at.y - other.y) as i64 };
        if 0 < d2 < self.separation_radius * self.separation_radius {
            if self.is_capped(d2 as nat) {
                away.shrunk(self.separation_force_cap as nat)
            } else {
                Vector {
                    x: toward_zero(away.x as int, self.separation_gain as nat, d2 as nat) as i64,
                    y: toward_zero(away.y as int, self.separation_gain as nat, d2 as nat) as i64,
                }
            }
        } else {
            Vector::zero()
        }
    }

    /// The first component of the pushes that an agent at `at` gets from the
    /// first `upto` of `others`, summed.
    pub open spec fn repulsion_x(self, at: Point, others: Seq<Point>, upto: int) -> int
        decreases upto,
    {
        if upto <= 0 {
            0
        } else {
            self.repulsion_x(at, others, upto - 1) + self.push_from(at, others[upto - 1]).x
        }
    }

    /// The second component of the pushes that an agent at `at` gets from the
    /// first `upto` of `others`, summed.
    pub open spec fn repulsion_y(self, at: Point, others: Seq<Point>, upto: int) -> int
        decreases upto,
    {
        if upto <= 0 {
            0
        } else {
            self.repulsion_y(at, others, upto - 1) + self.push_from(at, others[upto - 1]).y
        }
    }

    /// The repulsion that an agent at `at` gets from all of `others`.
    pub open spec fn repulsion(self, at: Point, others: Seq<Point>) -> Vector {
        Vector {
            x: self.repulsion_x(at, others, others.len() as int) as i64,
            y: self.repulsion_y(at, others, others.len() as int) as i64,
        }
    }

    /// No push is stronger than the cap.
    pub proof fn lemma_push_bounded(self, at: Point, other: Point)
        ensures
            self.push_from(at, other).len_sq() <= self.separation_force_cap
                * self.separation_force_cap,
            abs(self.push_from(at, other).x as int) <= self.separation_force_cap,
            abs(self.push_from(at, other).y as int) <= self.separation_force_cap,
            at == other ==> self.push_from(at, other) == Vector::zero(),
    {
        let cap = self.separation_force_cap as nat;
        let gain = self.separation_gain as nat;
        let d2 = at.dist_sq(other);
        let dx = at.x - other.x;
        let dy = at.y - other.y;
        lemma_norm_sq_bounds(dx, dy);
        assert(cap * cap >= 0) by (nonlinear_arith);
        if 0 < d2 < self.separation_radius * self.separation_radius {
            let v = Vector { x: dx as i64, y: dy as i64 };
            if self.is_capped(d2 as nat) {
                v.lemma_shrunk(cap);
            } else {
                lemma_uncapped(abs(dx) as nat, abs(dy) as nat, gain, cap, d2 as nat);
                let r = self.push_from(at, other);
                assert(abs(r.x as int) == (abs(dx) * gain) / d2);
                assert(abs(r.y as int) == (abs(dy) * gain) / d2);
                lemma_norm_sq_bounds(r.x as int, r.y as int);
            }
        }
    }

    /// The summed pushes of `upto` neighbours are at most `upto` caps.
    pub proof fn lemma_repulsion_bounded(self, at: Point, others: Seq<Point>, upto: int)
        requires
            0 <= upto,
        ensures
            abs(self.repulsion_x(at, others, upto)) <= upto * self.separation_force_cap,
            abs(self.repulsion_y(at, others, upto)) <= upto * self.separation_force_cap,
        decreases upto,
    {
        let cap = self.separation_force_cap as int;
        if upto > 0 {
            self.lemma_repulsion_bounded(at, others, upto - 1);
            self.lemma_push_bounded(at, others[upto - 1]);
            assert(upto * cap == (upto - 1) * cap + cap) by (nonlinear_arith);
        } else {
            assert(upto * cap == 0) by (nonlinear_arith)
                requires
                    upto == 0,
            ;
        }
    }

    /// Computes the push that an agent at `at` gets from a neighbour at `other`.
    pub fn push(&self, at: Point, other: Point) -> (v: Vector)
        ensures
            v == self.push_from(at, other),
            v.len_sq() <= self.separation_force_cap * self.separation_force_cap,
            abs(v.x as int) <= self.separation_force_cap,
            abs(v.y as int) <= self.separation_force_cap,
    {
        proof {
            self.lemma_push_bounded(at, other);
        }
        let d2: u128 = at.distance_squared(other);
        let reach: u128 = squared(self.separation_radius);
        if d2 == 0 || d2 >= reach {
            return Vector { x: 0, y: 0 };
        }
        let away: Vector = at.offset_from(other);
        let gain: u128 = self.separation_gain as u128;
        let cap_sq: u128 = squared(self.separation_force_cap);
        proof {
            lemma_norm_sq_bounds(away.x as int, away.y as int);
            lemma_square_le(gain as int, 0xffff_ffff_ffff_ffff);
            assert(0xffff_ffff_ffff_ffffint * 0xffff_ffff_ffff_ffffint <= u128::MAX)
                by (nonlinear_arith);
            lemma_square_le(self.separation_force_cap as int, 0xffff_ffff);
            lemma_square_le(self.separation_radius as int, 0xffff_ffff);
            assert(cap_sq * d2 <= (0xffff_ffffint * 0xffff_ffffint) * (0xffff_ffffint
                * 0xffff_ffffint)) by (nonlinear_arith)
                requires
                    0 <= cap_sq <= 0xffff_ffffint * 0xffff_ffffint,
                    0 <= d2 <= 0xffff_ffffint * 0xffff_ffffint,
            ;
            assert((0xffff_ffffint * 0xffff_ffffint) * (0xffff_ffffint * 0xffff_ffffint)
                <= u128::MAX) by (nonlinear_arith);
        }
        if gain * gain > cap_sq * d2 {
            away.scaled_to(self.separation_force_cap)
        } else {
            proof {
                lemma_uncapped(
                    abs(away.x as int) as nat,
                    abs(away.y as int) as nat,
                    gain as nat,
                    self.separation_force_cap as nat,
                    d2 as nat,
                );
            }
            Vector {
                x: scaled_toward_zero(away.x, self.separation_gain, d2),
                y: scaled_toward_zero(away.y, self.separation_gain, d2),
            }
        }
    }

    /// Sums the pushes that an agent at `at` gets from all of `others`.
    pub fn repel(&self, at: Point, others: &Vec<Point>) -> (sum: Vector)
        requires
            others.len() <= MAX_NEIGHBOURS,
        ensures
            sum == self.repulsion(at, others@),
            sum.x == self.repulsion_x(at, others@, others.len() as int),
            sum.y == self.repulsion_y(at, others@, others.len() as int),
    {
        let mut x: i64 = 0;
        let mut y: i64 = 0;
        let mut j: usize = 0;
        while j < others.len()
            invariant
                0 <= j <= others.len() <= MAX_NEIGHBOURS,
                x == self.repulsion_x(at, others@, j as int),
                y == self.repulsion_y(at, others@, j as int),
            decreases others.len() - j,
        {
            let one: Vector = self.push(at, others[j]);
            proof {
                self.lemma_repulsion_bounded(at, others@, j as int);
                self.lemma_repulsion_bounded(at, others@, j + 1);
                let cap = self.separation_force_cap as int;
                assert((j + 1) * cap <= 0x7fff_ffff * 0xffff_ffffint) by (nonlinear_arith)
                    requires
                        0 <= j + 1 <= 0x7fff_ffff,
                        0 <= cap <= 0xffff_ffffint,
                ;
            }
            x = x + one.x;
            y = y + one.y;
            j = j + 1;
        }
        Vector { x, y }
    }
}

/// The sum of two components, held to the range a component can have.
pub open spec fn held_sum(a: i64, b: i64) -> i64 {
    if a + b > i64::MAX {
        i64::MAX
    } else if a + b < i64::MIN {
        i64::MIN
    } else {
        (a + b) as i64
    }
}

fn add_held(a: i64, b: i64) -> (sum: i64)
    ensures
        sum == held_sum(a, b),
{
    let wide: i128 = a as i128 + b as i128;
    if wide > i64::MAX as i128 {
        i64::MAX
    } else if wide < i64::MIN as i128 {
        i64::MIN
    } else {
        wide as i64
    }
}

impl Agent {
    /// This agent once the repulsion `push` has been applied to it. In force
    /// mode the push becomes the force the host is asked to apply. In velocity
    /// mode it is added to the velocity, and the sum is clamped to the speed
    /// band.
    pub open spec fn separated(self, push: Vector, config: Config) -> Agent {
        match config.separation_mode {
            SeparationMode::Force => Agent { force: push, ..self },
            SeparationMode::Velocity => Agent {
                velocity: (Vector {
                    x: held_sum(self.velocity.x, push.x),
                    y: held_sum(self.velocity.y, push.y),
                }).clamped(config.min_speed as nat, config.max_speed as nat),
                ..self
            },
        }
    }

    /// Separation changes one thing about an agent: in force mode the force,
    /// which becomes the push, and in velocity mode the velocity.
    pub proof fn lemma_separated_apart(self, push: Vector, config: Config)
        ensures
            config.separation_mode is Force ==> self.separated(push, config) == (Agent {
                force: push,
                ..self
            }),
            config.separation_mode is Velocity ==> self.separated(push, config) == (Agent {
                velocity: self.separated(push, config).velocity,
                ..self
            }),
    {
    }

    /// In velocity mode the speed of a separated agent lies in the speed band,
    /// whatever the agent's velocity was and whatever pushes it.
    pub proof fn lemma_separated_in_band(self, push: Vector, config: Config)
        requires
            config.min_speed <= config.max_speed,
            config.separation_mode is Velocity,
        ensures
            config.min_speed * config.min_speed <= self.separated(push, config).velocity.len_sq()
                <= config.max_speed * config.max_speed,
    {
        let sum = Vector {
            x: held_sum(self.velocity.x, push.x),
            y: held_sum(self.velocity.y, push.y),
        };
        sum.lemma_clamped_in_band(config.min_speed as nat, config.max_speed as nat);
    }

    /// Applies the repulsion `push` to the agent.
    pub fn separate(self, push: Vector, config: &Config) -> (agent: Agent)
        requires
            config.min_speed <= config.max_speed,
        ensures
            agent == self.separated(push, *config),
            config.separation_mode is Velocity ==> config.min_speed * config.min_speed
                <= agent.velocity.len_sq() <= config.max_speed * config.max_speed,
    {
        match config.separation_mode {
            SeparationMode::Force => Agent { force: push, ..self },
            SeparationMode::Velocity => {
                let sum: Vector = Vector {
                    x: add_held(self.velocity.x, push.x),
                    y: add_held(self.velocity.y, push.y),
                };
                Agent { velocity: sum.clamp_length(config.min_speed, config.max_speed), ..self }
            },
        }
    }
}

} // verus!
