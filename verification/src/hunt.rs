//! What an awake agent does: from time to time it picks a point near the
//! nearest player and heads for it.

use crate::agent::{Agent, Awake, LifecycleState};
use crate::geometry::{lemma_norm_sq_bounds, Point, Vector};
use vstd::prelude::*;

verus! {

/// The vector that leads from `from` to the point `jitter` away from `target`.
pub open spec fn heading(from: Point, target: Point, jitter: Vector) -> Vector {
    Vector {
        x: (target.x - from.x + jitter.x) as i64,
        y: (target.y - from.y + jitter.y) as i64,
    }
}

/// The velocity of an agent at `from` that makes for the point `jitter` away
/// from `target` at `speed`: the direction of the heading, as long as `speed`
/// with each component rounded toward zero. An agent that stands on that
/// point gets no velocity.
pub open spec fn pursuit(from: Point, target: Point, jitter: Vector, speed: u32) -> Vector {
    heading(from, target, jitter).shrunk(speed as nat)
}

/// `jitter` can be added to the difference of two points.
pub open spec fn is_offset(jitter: Vector) -> bool {
    &&& -0xffff_ffff <= jitter.x <= 0xffff_ffff
    &&& -0xffff_ffff <= jitter.y <= 0xffff_ffff
}

/// Computes the velocity of an agent at `from` that makes for the point
/// `jitter` away from `target` at `speed`. Unless the agent stands on that
/// point, its speed is `speed` or less than three units below, and less than
/// two below where the heading is short.
pub fn pursue(from: Point, target: Point, jitter: Vector, speed: u32) -> (velocity: Vector)
    requires
        is_offset(jitter),
    ensures
        velocity == pursuit(from, target, jitter, speed),
        velocity.len_sq() <= speed * speed,
        heading(from, target, jitter).len_sq() > 0 && speed >= 2 && heading(
            from,
            target,
            jitter,
        ).is_short() ==> velocity.len_sq() > (speed - 2) * (speed - 2),
        heading(from, target, jitter).len_sq() > 0 && speed >= 3 ==> velocity.len_sq() > (speed
            - 3) * (speed - 3),
{
    let offset: Vector = target.offset_from(from);
    let aim: Vector = Vector { x: offset.x + jitter.x, y: offset.y + jitter.y };
    aim.scaled_to(speed)
}

/// The speed of a pursuit is the speed asked for or hardly less: unless the
/// agent stands on the point it makes for, less than three units are missing,
/// and less than two where the heading is short.
pub proof fn lemma_pursuit_speed(from: Point, target: Point, jitter: Vector, speed: u32)
    ensures
        pursuit(from, target, jitter, speed).len_sq() <= speed * speed,
        heading(from, target, jitter).len_sq() > 0 && speed >= 2 && heading(
            from,
            target,
            jitter,
        ).is_short() ==> pursuit(from, target, jitter, speed).len_sq() > (speed - 2) * (speed - 2),
        heading(from, target, jitter).len_sq() > 0 && speed >= 3 ==> pursuit(
            from,
            target,
            jitter,
            speed,
        ).len_sq() > (speed - 3) * (speed - 3),
{
    let aim = heading(from, target, jitter);
    aim.lemma_shrunk(speed as nat);
    lemma_norm_sq_bounds(aim.x as int, aim.y as int);
    if aim.len_sq() > 0 {
        aim.lemma_shrunk_near(speed as nat);
    }
}

impl Agent {
    /// Whether an awake agent picks a new target once `delta` has passed.
    pub open spec fn reorients(self, delta: u64) -> bool {
        self.state matches LifecycleState::Awake(Awake { reorient_remaining, .. }) && delta
            >= reorient_remaining
    }

    /// This agent after `delta` of being awake. Where its time to the next
    /// choice of a target runs out, that time starts again at `interval` and
    /// the agent takes the velocity `toward`, if there is one. Otherwise only
    /// the time runs down.
    pub open spec fn hunted(self, delta: u64, interval: u64, toward: Option<Vector>) -> Agent {
        match self.state {
            LifecycleState::Awake(Awake { since, reorient_remaining }) => {
                if delta >= reorient_remaining {
                    Agent {
                        state: LifecycleState::Awake(Awake { since, reorient_remaining: interval }),
                        velocity: match toward {
                            Some(v) => v,
                            None => self.velocity,
                        },
                        ..self
                    }
                } else {
                    Agent {
                        state: LifecycleState::Awake(Awake {
                            since,
                            reorient_remaining: LifecycleState::run_down(reorient_remaining, delta),
                        }),
                        ..self
                    }
                }
            },
            _ => self,
        }
    }

    /// Tells whether an awake agent picks a new target once `delta` has passed.
    pub fn is_reorienting(&self, delta: u64) -> (yes: bool)
        ensures
            yes == self.reorients(delta),
    {
        match self.state {
            LifecycleState::Awake(Awake { reorient_remaining, .. }) => delta >= reorient_remaining,
            _ => false,
        }
    }

    /// Lets `delta` pass for an awake agent. `interval` and `toward` are taken
    /// only where the agent picks a new target.
    pub fn hunt(self, delta: u64, interval: u64, toward: Option<Vector>) -> (agent: Agent)
        ensures
            agent == self.hunted(delta, interval, toward),
    {
        match self.state {
            LifecycleState::Awake(Awake { since, reorient_remaining }) => {
                if delta >= reorient_remaining {
                    Agent {
                        state: LifecycleState::Awake(Awake { since, reorient_remaining: interval }),
                        velocity: match toward {
                            Some(v) => v,
                            None => self.velocity,
                        },
                        ..self
                    }
                } else {
                    Agent {
                        state: LifecycleState::Awake(Awake {
                            since,
                            reorient_remaining: reorient_remaining - delta,
                        }),
                        ..self
                    }
                }
            },
            _ => self,
        }
    }
}

} // verus!
