//! What a sleeping agent senses: the nearest of the players and the awake
//! agents, and whether it is close enough to wake the sleeper.

use crate::agent::{Agent, LifecycleState, Sleeping};
use crate::config::{Config, Interval};
use crate::geometry::{squared, Point};
use vstd::prelude::*;

verus! {

/// What kind of thing a sleeping agent has sensed.
#[derive(Clone, Copy, Debug, PartialEq, Eq, Structural)]
pub enum CandidateKind {
    Player,
    Peer,
}

/// Something that can wake a sleeping agent.
#[derive(Clone, Copy, Debug, PartialEq, Eq, Structural)]
pub struct Candidate {
    pub position: Point,
    pub kind: CandidateKind,
}

/// `i` is the first position among those that lie nearest to `from`.
pub open spec fn is_nearest(from: Point, positions: Seq<Point>, i: int) -> bool {
    &&& 0 <= i < positions.len()
    &&& forall|j: int|
        0 <= j < positions.len() ==> from.dist_sq(positions[i]) <= from.dist_sq(
            #[trigger] positions[j],
        )
    &&& forall|j: int| 0 <= j < i ==> from.dist_sq(positions[i]) < from.dist_sq(#[trigger] positions[j])
}

/// The index of the position nearest to `from`; of several equally near, the
/// first. Meaningful for a sequence that is not empty.
pub open spec fn nearest_index(from: Point, positions: Seq<Point>) -> int {
    choose|i: int| is_nearest(from, positions, i)
}

/// Only one index satisfies `is_nearest`.
pub proof fn lemma_nearest_unique(from: Point, positions: Seq<Point>, i: int)
    requires
        is_nearest(from, positions, i),
    ensures
        nearest_index(from, positions) == i,
{
    let k = nearest_index(from, positions);
    assert(is_nearest(from, positions, k));
    if k < i {
        assert(from.dist_sq(positions[i]) < from.dist_sq(positions[k]));
        assert(from.dist_sq(positions[k]) <= from.dist_sq(positions[i]));
    } else if i < k {
        assert(from.dist_sq(positions[k]) < from.dist_sq(positions[i]));
        assert(from.dist_sq(positions[i]) <= from.dist_sq(positions[k]));
    }
}

/// Finds the position nearest to `from`; of several equally near, the first.
pub fn nearest(from: Point, positions: &Vec<Point>) -> (found: Option<usize>)
    ensures
        found is None <==> positions.len() == 0,
        found matches Some(i) ==> is_nearest(from, positions@, i as int) && i == nearest_index(
            from,
            positions@,
        ),
{
    if positions.len() == 0 {
        return None;
    }
    let mut best: usize = 0;
    let mut best_d: u128 = from.distance_squared(positions[0]);
    let mut j: usize = 1;
    while j < positions.len()
        invariant
            0 <= best < j <= positions.len(),
            best_d == from.dist_sq(positions@[best as int]),
            forall|k: int| 0 <= k < j ==> best_d <= from.dist_sq(#[trigger] positions@[k]),
            forall|k: int| 0 <= k < best ==> best_d < from.dist_sq(#[trigger] positions@[k]),
        decreases positions.len() - j,
    {
        let d: u128 = from.distance_squared(positions[j]);
        if d < best_d {
            best = j;
            best_d = d;
        }
        j = j + 1;
    }
    proof {
        lemma_nearest_unique(from, positions@, best as int);
    }
    Some(best)
}

/// The positions of a sequence of candidates.
pub open spec fn positions_of(candidates: Seq<Candidate>) -> Seq<Point> {
    candidates.map_values(|c: Candidate| c.position)
}

/// The players followed by the awake agents, each as a candidate.
pub open spec fn candidates_of(players: Seq<Point>, agents: Seq<Agent>) -> Seq<Candidate>
    decreases agents.len(),
{
    if agents.len() == 0 {
        players.map_values(|p: Point| Candidate { position: p, kind: CandidateKind::Player })
    } else {
        let rest = candidates_of(players, agents.drop_last());
        if agents.last().state is Awake {
            rest.push(Candidate { position: agents.last().position, kind: CandidateKind::Peer })
        } else {
            rest
        }
    }
}

impl Config {
    /// How near a candidate of the given kind must be to wake a sleeper.
    pub open spec fn sense_radius(self, kind: CandidateKind) -> u32 {
        match kind {
            CandidateKind::Player => self.sense_radius_player,
            CandidateKind::Peer => self.sense_radius_peer,
        }
    }

    /// How long a sleeper woken by a candidate of the given kind takes to wake.
    pub open spec fn wake_delay_range(self, kind: CandidateKind) -> Interval {
        match kind {
            CandidateKind::Player => self.wake_delay_range_player,
            CandidateKind::Peer => self.wake_delay_range_peer,
        }
    }
}

/// What wakes `agent` at time `now`, if anything does.
///
/// A sleeper wakes when more than the guard time has passed since it fell
/// asleep and the candidate nearest to it lies within the sensing radius of
/// that candidate's kind. A nearest candidate that is too far away shields
/// the sleeper from every other candidate.
pub open spec fn wake_trigger(agent: Agent, now: u64, candidates: Seq<Candidate>, config: Config)
    -> Option<CandidateKind> {
    match agent.state {
        LifecycleState::Sleeping(Sleeping { since }) => {
            if now - since > config.resleep_guard_duration && candidates.len() > 0 {
                let nearest = candidates[nearest_index(agent.position, positions_of(candidates))];
                let radius = config.sense_radius(nearest.kind);
                if agent.position.dist_sq(nearest.position) <= radius * radius {
                    Some(nearest.kind)
                } else {
                    None
                }
            } else {
                None
            }
        },
        _ => None,
    }
}

/// Finds the candidate nearest to `from`; of several equally near, the first.
pub fn nearest_candidate(from: Point, candidates: &Vec<Candidate>) -> (found: Option<usize>)
    ensures
        found is None <==> candidates.len() == 0,
        found matches Some(i) ==> is_nearest(from, positions_of(candidates@), i as int) && i
            == nearest_index(from, positions_of(candidates@)),
{
    if candidates.len() == 0 {
        return None;
    }
    let ghost positions = positions_of(candidates@);
    let mut best: usize = 0;
    let mut best_d: u128 = from.distance_squared(candidates[0].position);
    let mut j: usize = 1;
    while j < candidates.len()
        invariant
            0 <= best < j <= candidates.len(),
            positions == positions_of(candidates@),
            best_d == from.dist_sq(positions[best as int]),
            forall|k: int| 0 <= k < j ==> best_d <= from.dist_sq(#[trigger] positions[k]),
            forall|k: int| 0 <= k < best ==> best_d < from.dist_sq(#[trigger] positions[k]),
        decreases candidates.len() - j,
    {
        let d: u128 = from.distance_squared(candidates[j].position);
        if d < best_d {
            best = j;
            best_d = d;
        }
        j = j + 1;
    }
    proof {
        lemma_nearest_unique(from, positions, best as int);
    }
    Some(best)
}

/// Decides whether `agent` begins to wake at time `now`, and by what.
pub fn sense(agent: &Agent, now: u64, candidates: &Vec<Candidate>, config: &Config) -> (trigger:
    Option<CandidateKind>)
    ensures
        trigger == wake_trigger(*agent, now, candidates@, *config),
{
    match agent.state {
        LifecycleState::Sleeping(Sleeping { since }) => {
            if now <= since || now - since <= config.resleep_guard_duration {
                return None;
            }
            match nearest_candidate(agent.position, candidates) {
                None => None,
                Some(i) => {
                    let found: Candidate = candidates[i];
                    let radius: u32 = match found.kind {
                        CandidateKind::Player => config.sense_radius_player,
                        CandidateKind::Peer => config.sense_radius_peer,
                    };
                    let reach: u128 = squared(radius);
                    if agent.position.distance_squared(found.position) <= reach {
                        Some(found.kind)
                    } else {
                        None
                    }
                },
            }
        },
        _ => None,
    }
}

/// An agent that fell asleep at `then` does not begin to wake at `now` while
/// no more than the guard time has passed since, whatever is near it.
pub proof fn lemma_guard_holds(
    agent: Agent,
    then: u64,
    now: u64,
    candidates: Seq<Candidate>,
    config: Config,
)
    requires
        agent.state == (LifecycleState::Sleeping(Sleeping { since: then })),
        now - then <= config.resleep_guard_duration,
    ensures
        wake_trigger(agent, now, candidates, config) is None,
{
}

/// Whether `agent` takes part in collisions: a sleeper only while the player
/// is within the collider radius, any other agent always.
pub open spec fn collides(agent: Agent, player: Point, config: Config) -> bool {
    !(agent.state is Sleeping) || agent.position.dist_sq(player) <= config.collider_radius
        * config.collider_radius
}

/// Tells whether `agent` takes part in collisions.
pub fn collider_enabled(agent: &Agent, player: Point, config: &Config) -> (yes: bool)
    ensures
        yes == collides(*agent, player, *config),
{
    if agent.state.is_sleeping() {
        agent.position.distance_squared(player) <= squared(config.collider_radius)
    } else {
        true
    }
}

} // verus!
