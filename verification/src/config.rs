//! Tuning of the simulation.
//!
//! Lengths are in the lattice units of [`crate::geometry::Point`], times in
//! the host's ticks, speeds and forces in units the host integrates.

use crate::rng::Rand;
use vstd::prelude::*;

verus! {

/// A half-open range `lo .. hi` that values are drawn from.
#[derive(Clone, Copy, Debug, PartialEq, Eq, Structural)]
pub struct Interval {
    pub lo: u64,
    pub hi: u64,
}

impl Interval {
    /// The range holds at least one value.
    pub open spec fn is_valid(self) -> bool {
        self.lo < self.hi
    }

    /// `value` lies in the range.
    pub open spec fn contains(self, value: u64) -> bool {
        self.lo <= value < self.hi
    }

    /// Draws a value of the range.
    pub fn draw(&self, rng: &mut Rand) -> (value: u64)
        requires
            self.is_valid(),
        ensures
            self.contains(value),
    {
        rng.range_u64(self.lo, self.hi)
    }
}

/// What becomes of the repulsion among awake agents.
#[derive(Clone, Copy, Debug, PartialEq, Eq, Structural)]
pub enum SeparationMode {
    /// It is added to the velocity, and the sum is clamped to the speed band.
    Velocity,
    /// It is handed to the host as an external force.
    Force,
}

/// The recognised options.
#[derive(Clone, Copy, Debug, PartialEq, Eq, Structural)]
pub struct Config {
    /// How many agents may be awake once admission control has run.
    pub max_awake_agents: usize,
    /// A sleeping agent senses a player that is its nearest candidate within this distance.
    pub sense_radius_player: u32,
    /// A sleeping agent senses an awake agent that is its nearest candidate within this distance.
    pub sense_radius_peer: u32,
    /// Time between sensing a player and waking up.
    pub wake_delay_range_player: Interval,
    /// Time between sensing an awake agent and waking up.
    pub wake_delay_range_peer: Interval,
    /// Time between two choices of a hunting target.
    pub reorient_interval_range: Interval,
    /// Speed of a hunting agent.
    pub hunt_speed_range: Interval,
    /// How far the hunting target may lie from the player.
    pub hunt_jitter_radius: u32,
    /// Awake agents closer than this repel each other.
    pub separation_radius: u32,
    /// The repulsion of one neighbour is this divided by its distance.
    pub separation_gain: u64,
    /// The repulsion of one neighbour never exceeds this.
    pub separation_force_cap: u32,
    /// Whether the repulsion changes the velocity or is handed out as a force.
    pub separation_mode: SeparationMode,
    /// Lower end of the speed band in velocity mode.
    pub min_speed: u32,
    /// Upper end of the speed band in velocity mode.
    pub max_speed: u32,
    /// An agent put back to sleep does not wake before this time has passed.
    pub resleep_guard_duration: u64,
    /// A sleeping agent collides only while a player is within this distance.
    pub collider_radius: u32,
    /// Carried by an agent while it wakes up; the simulation never reads it.
    pub spin_rate: u32,
}

impl Config {
    /// Every range can be drawn from, speeds fit in 32 bits, and the speed
    /// band is not empty.
    pub open spec fn is_valid(self) -> bool {
        &&& self.wake_delay_range_player.is_valid()
        &&& self.wake_delay_range_peer.is_valid()
        &&& self.reorient_interval_range.is_valid()
        &&& self.hunt_speed_range.is_valid()
        &&& self.hunt_speed_range.hi <= 0x1_0000_0000
        &&& self.min_speed <= self.max_speed
    }

    /// Tells whether the options can be used.
    pub fn validate(&self) -> (ok: bool)
        ensures
            ok == self.is_valid(),
    {
        self.wake_delay_range_player.lo < self.wake_delay_range_player.hi
            && self.wake_delay_range_peer.lo < self.wake_delay_range_peer.hi
            && self.reorient_interval_range.lo < self.reorient_interval_range.hi
            && self.hunt_speed_range.lo < self.hunt_speed_range.hi
            && self.hunt_speed_range.hi <= 0x1_0000_0000
            && self.min_speed <= self.max_speed
    }

    /// The stock tuning, for a lattice unit of one world unit and a tick of one
    /// millisecond.
    pub open spec fn stock() -> Config {
        Config {
            max_awake_agents: 256,
            sense_radius_player: 64,
            sense_radius_peer: 128,
            wake_delay_range_player: Interval { lo: 2000, hi: 3000 },
            wake_delay_range_peer: Interval { lo: 500, hi: 1000 },
            reorient_interval_range: Interval { lo: 1000, hi: 2000 },
            hunt_speed_range: Interval { lo: 100, hi: 140 },
            hunt_jitter_radius: 32,
            separation_radius: 64,
            separation_gain: 1_000_000,
            separation_force_cap: 1_000_000,
            separation_mode: SeparationMode::Force,
            min_speed: 0,
            max_speed: 140,
            resleep_guard_duration: 2000,
            collider_radius: 256,
            spin_rate: 0,
        }
    }
}

impl Default for Config {
    fn default() -> (config: Config)
        ensures
            config == Config::stock(),
            config.is_valid(),
    {
        Config {
            max_awake_agents: 256,
            sense_radius_player: 64,
            sense_radius_peer: 128,
            wake_delay_range_player: Interval { lo: 2000, hi: 3000 },
            wake_delay_range_peer: Interval { lo: 500, hi: 1000 },
            reorient_interval_range: Interval { lo: 1000, hi: 2000 },
            hunt_speed_range: Interval { lo: 100, hi: 140 },
            hunt_jitter_radius: 32,
            separation_radius: 64,
            separation_gain: 1_000_000,
            separation_force_cap: 1_000_000,
            separation_mode: SeparationMode::Force,
            min_speed: 0,
            max_speed: 140,
            resleep_guard_duration: 2000,
            collider_radius: 256,
            spin_rate: 0,
        }
    }
}

} // verus!
