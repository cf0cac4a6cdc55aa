//! An agent and its life cycle: sleeping, waking up, awake.

use crate::config::Interval;
use crate::geometry::{Point, Vector};
use crate::rng::Rand;
use vstd::prelude::*;

verus! {

/// An agent that is inert: it does not move, hunt, push or get pushed.
#[derive(Clone, Copy, Debug, PartialEq, Eq, Structural)]
pub struct Sleeping {
    /// When the agent fell asleep.
    pub since: u64,
}

/// An agent that is waking up.
#[derive(Clone, Copy, Debug, PartialEq, Eq, Structural)]
pub struct Awaking {
    /// The agent is awake once this has run down to zero.
    pub remaining: u64,
    /// Carried for the host; the simulation never reads it.
    pub spin_rate: u32,
}

/// An agent that hunts.
#[derive(Clone, Copy, Debug, PartialEq, Eq, Structural)]
pub struct Awake {
    /// When the agent became awake.
    pub since: u64,
    /// The agent picks a new target once this has run down to zero.
    pub reorient_remaining: u64,
}

/// Where an agent stands in its life cycle. An agent carries exactly one of
/// the three tags at any time.
#[derive(Clone, Copy, Debug, PartialEq, Eq, Structural)]
pub enum LifecycleState {
    Sleeping(Sleeping),
    Awaking(Awaking),
    Awake(Awake),
}

impl Awaking {
    /// The beginning of waking up, with a delay drawn from `delay_range`.
    pub fn new(rand: &mut Rand, delay_range: &Interval, spin_rate: u32) -> (awaking: Awaking)
        requires
            delay_range.is_valid(),
        ensures
            delay_range.contains(awaking.remaining),
            awaking.spin_rate == spin_rate,
    {
        Awaking { remaining: delay_range.draw(rand), spin_rate }
    }
}

/// One autonomous agent.
#[derive(Clone, Copy, Debug, PartialEq, Eq, Structural)]
pub struct Agent {
    /// The host's handle for the agent; the simulation only carries it.
    pub id: u64,
    pub position: Point,
    pub state: LifecycleState,
    /// Drawn when the agent becomes awake; the simulation never reads it.
    pub wake_seed: u32,
    /// The velocity the agent wants to have.
    pub velocity: Vector,
    pub angular_velocity: i64,
    /// The force the host is asked to apply.
    pub force: Vector,
}

impl LifecycleState {
    /// Tells whether this is the `Sleeping` tag.
    pub fn is_sleeping(&self) -> (yes: bool)
        ensures
            yes == (*self is Sleeping),
    {
        match self {
            LifecycleState::Sleeping(Sleeping { .. }) => true,
            _ => false,
        }
    }

    /// Tells whether this is the `Awaking` tag.
    pub fn is_awaking(&self) -> (yes: bool)
        ensures
            yes == (*self is Awaking),
    {
        match self {
            LifecycleState::Awaking(Awaking { .. }) => true,
            _ => false,
        }
    }

    /// Tells whether this is the `Awake` tag.
    pub fn is_awake(&self) -> (yes: bool)
        ensures
            yes == (*self is Awake),
    {
        match self {
            LifecycleState::Awake(Awake { .. }) => true,
            _ => false,
        }
    }

    /// What a timer that stands at `remaining` shows after `delta` has passed.
    pub open spec fn run_down(remaining: u64, delta: u64) -> u64 {
        if delta >= remaining {
            0
        } else {
            (remaining - delta) as u64
        }
    }
}

impl Agent {
    /// An agent as it is created: asleep since time zero, at rest.
    pub open spec fn asleep_at(id: u64, position: Point) -> Agent {
        Agent {
            id,
            position,
            state: LifecycleState::Sleeping(Sleeping { since: 0 }),
            wake_seed: 0,
            velocity: Vector::zero(),
            angular_velocity: 0,
            force: Vector::zero(),
        }
    }

    /// Creates an agent that is asleep since time zero and at rest.
    pub fn new(id: u64, position: Point) -> (agent: Agent)
        ensures
            agent == Agent::asleep_at(id, position),
    {
        Agent {
            id,
            position,
            state: LifecycleState::Sleeping(Sleeping { since: 0 }),
            wake_seed: 0,
            velocity: Vector { x: 0, y: 0 },
            angular_velocity: 0,
            force: Vector { x: 0, y: 0 },
        }
    }

    /// This agent once it has begun to wake up, with `delay` to go.
    pub open spec fn woken(self, delay: u64, spin_rate: u32) -> Agent {
        Agent { state: LifecycleState::Awaking(Awaking { remaining: delay, spin_rate }), ..self }
    }

    /// This agent after `delta` of waking up: still waking with less time to
    /// go, or awake since `now` with a fresh seed and a target to pick at once.
    pub open spec fn roused(self, now: u64, delta: u64, seed: u32) -> Agent {
        match self.state {
            LifecycleState::Awaking(Awaking { remaining, spin_rate }) => {
                if delta >= remaining {
                    Agent {
                        state: LifecycleState::Awake(Awake { since: now, reorient_remaining: 0 }),
                        wake_seed: seed,
                        ..self
                    }
                } else {
                    Agent {
                        state: LifecycleState::Awaking(Awaking {
                            remaining: (remaining - delta) as u64,
                            spin_rate,
                        }),
                        ..self
                    }
                }
            },
            _ => self,
        }
    }

    /// This agent put to sleep at `now`: at rest, with no force pending.
    pub open spec fn demoted(self, now: u64) -> Agent {
        Agent {
            state: LifecycleState::Sleeping(Sleeping { since: now }),
            velocity: Vector::zero(),
            angular_velocity: 0,
            force: Vector::zero(),
            ..self
        }
    }

    /// Starts the countdown to being awake.
    pub fn begin_waking(self, waking: Awaking) -> (agent: Agent)
        ensures
            agent == self.woken(waking.remaining, waking.spin_rate),
    {
        Agent { state: LifecycleState::Awaking(waking), ..self }
    }

    /// Tells whether an agent that is waking up will be awake once `delta` has
    /// passed.
    pub fn wakes_within(&self, delta: u64) -> (yes: bool)
        ensures
            yes == (self.state matches LifecycleState::Awaking(Awaking { remaining, .. }) && delta
                >= remaining),
    {
        match self.state {
            LifecycleState::Awaking(Awaking { remaining, .. }) => delta >= remaining,
            _ => false,
        }
    }

    /// Lets `delta` pass for an agent that is waking up. `seed` is taken only
    /// if the agent becomes awake.
    pub fn rouse(self, now: u64, delta: u64, seed: u32) -> (agent: Agent)
        ensures
            agent == self.roused(now, delta, seed),
    {
        match self.state {
            LifecycleState::Awaking(Awaking { remaining, spin_rate }) => {
                if delta >= remaining {
                    Agent {
                        state: LifecycleState::Awake(Awake { since: now, reorient_remaining: 0 }),
                        wake_seed: seed,
                        ..self
                    }
                } else {
                    Agent {
                        state: LifecycleState::Awaking(Awaking { remaining: remaining - delta, spin_rate }),
                        ..self
                    }
                }
            },
            _ => self,
        }
    }

    /// Puts the agent to sleep at `now` and brings it to rest.
    pub fn demote(self, now: u64) -> (agent: Agent)
        ensures
            agent == self.demoted(now),
    {
        Agent {
            state: LifecycleState::Sleeping(Sleeping { since: now }),
            velocity: Vector { x: 0, y: 0 },
            angular_velocity: 0,
            force: Vector { x: 0, y: 0 },
            ..self
        }
    }
}

/// An agent carries exactly one of the three tags.
pub proof fn lemma_one_tag(state: LifecycleState)
    ensures
        (state is Sleeping) || (state is Awaking) || (state is Awake),
        !((state is Sleeping) && (state is Awaking)),
        !((state is Sleeping) && (state is Awake)),
        !((state is Awaking) && (state is Awake)),
{
}

/// While an agent wakes up its remaining time never grows, and the tick on
/// which it runs out is the tick on which the agent is awake.
pub proof fn lemma_wake_monotone(agent: Agent, waking: Awaking, now: u64, delta: u64, seed: u32)
    requires
        agent.state == LifecycleState::Awaking(waking),
    ensures
        delta >= waking.remaining ==> agent.roused(now, delta, seed).state == LifecycleState::Awake(
            Awake { since: now, reorient_remaining: 0 },
        ),
        delta < waking.remaining ==> agent.roused(now, delta, seed).state
            == LifecycleState::Awaking(
            Awaking { remaining: (waking.remaining - delta) as u64, spin_rate: waking.spin_rate },
        ),
        agent.roused(now, delta, seed).state matches LifecycleState::Awaking(next)
            ==> 0 < next.remaining <= waking.remaining,
{
}

} // verus!
