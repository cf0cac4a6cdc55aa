//! The stages of one simulation step, each over the whole population.
//!
//! A stage reads the population as it stood when the stage began and writes
//! each agent once, so no agent sees another half way through the stage.

use crate::agent::{lemma_wake_monotone, Agent, Awake, Awaking, LifecycleState, Sleeping};
use crate::config::Config;
use crate::geometry::{Point, Vector};
use crate::hunt::{is_offset, pursue, pursuit};
use crate::rng::{in_box, Rand};
use crate::sense::{
    candidates_of, lemma_guard_holds, nearest, nearest_index, sense, wake_trigger, Candidate,
    CandidateKind,
};
use crate::separation::MAX_NEIGHBOURS;
use vstd::prelude::*;

verus! {

/// The positions of the awake agents, in the order of the population.
pub open spec fn awake_positions(agents: Seq<Agent>) -> Seq<Point>
    decreases agents.len(),
{
    if agents.len() == 0 {
        Seq::empty()
    } else if agents.last().state is Awake {
        awake_positions(agents.drop_last()).push(agents.last().position)
    } else {
        awake_positions(agents.drop_last())
    }
}

/// Collects the positions of the awake agents.
pub fn gather_awake(agents: &Vec<Agent>) -> (positions: Vec<Point>)
    ensures
        positions@ == awake_positions(agents@),
        positions.len() <= agents.len(),
{
    let mut positions: Vec<Point> = Vec::new();
    let mut i: usize = 0;
    while i < agents.len()
        invariant
            0 <= i <= agents.len(),
            positions@ == awake_positions(agents@.take(i as int)),
            positions.len() <= i,
        decreases agents.len() - i,
    {
        proof {
            assert(agents@.take(i + 1).drop_last() =~= agents@.take(i as int));
        }
        if agents[i].state.is_awake() {
            positions.push(agents[i].position);
        }
        i = i + 1;
    }
    proof {
        assert(agents@.take(agents.len() as int) =~= agents@);
    }
    positions
}

/// Collects what can wake a sleeper: the players, then the awake agents.
pub fn gather_candidates(players: &Vec<Point>, agents: &Vec<Agent>) -> (candidates: Vec<Candidate>)
    ensures
        candidates@ == candidates_of(players@, agents@),
{
    let mut candidates: Vec<Candidate> = Vec::new();
    let mut i: usize = 0;
    while i < players.len()
        invariant
            0 <= i <= players.len(),
            candidates@ == players@.take(i as int).map_values(
                |p: Point| Candidate { position: p, kind: CandidateKind::Player },
            ),
        decreases players.len() - i,
    {
        let c: Candidate = Candidate { position: players[i], kind: CandidateKind::Player };
        proof {
            assert(players@.take(i + 1).map_values(
                |p: Point| Candidate { position: p, kind: CandidateKind::Player },
            ) =~= candidates@.push(c));
        }
        candidates.push(c);
        i = i + 1;
    }
    proof {
        assert(players@.take(players.len() as int) =~= players@);
        assert(agents@.take(0).len() == 0);
    }
    let mut k: usize = 0;
    while k < agents.len()
        invariant
            0 <= k <= agents.len(),
            candidates@ == candidates_of(players@, agents@.take(k as int)),
        decreases agents.len() - k,
    {
        proof {
            assert(agents@.take(k + 1).drop_last() =~= agents@.take(k as int));
        }
        if agents[k].state.is_awake() {
            candidates.push(Candidate { position: agents[k].position, kind: CandidateKind::Peer });
        }
        k = k + 1;
    }
    proof {
        assert(agents@.take(agents.len() as int) =~= agents@);
    }
    candidates
}

/// `after` is `before` once it has or has not begun to wake: with a trigger
/// its countdown has started at a delay from the range of the trigger's kind,
/// without one it is unchanged.
pub open spec fn woke(before: Agent, after: Agent, trigger: Option<CandidateKind>, config: Config)
    -> bool {
    match trigger {
        None => after == before,
        Some(kind) => exists|delay: u64|
            config.wake_delay_range(kind).contains(delay) && after == #[trigger] before.woken(
                delay,
                config.spin_rate,
            ),
    }
}

/// `after` is `before` once every sleeper has sensed the players and the
/// agents that were awake in `before`.
pub open spec fn sleepers_woken(
    before: Seq<Agent>,
    after: Seq<Agent>,
    players: Seq<Point>,
    now: u64,
    config: Config,
) -> bool {
    &&& after.len() == before.len()
    &&& forall|i: int|
        0 <= i < before.len() ==> woke(
            before[i],
            #[trigger] after[i],
            wake_trigger(before[i], now, candidates_of(players, before), config),
            config,
        )
}

/// Lets every sleeper sense the players and the awake agents. A sleeper that
/// is triggered begins to wake, with a delay drawn from the range of what
/// triggered it.
pub fn wake_sleepers(
    agents: &mut Vec<Agent>,
    rng: &mut Rand,
    players: &Vec<Point>,
    now: u64,
    config: &Config,
)
    requires
        config.is_valid(),
    ensures
        sleepers_woken(old(agents)@, final(agents)@, players@, now, *config),
{
    let ghost before = agents@;
    let candidates: Vec<Candidate> = gather_candidates(players, agents);
    let mut i: usize = 0;
    while i < agents.len()
        invariant
            0 <= i <= agents.len(),
            config.is_valid(),
            agents@.len() == before.len(),
            candidates@ == candidates_of(players@, before),
            forall|k: int| i <= k < before.len() ==> #[trigger] agents@[k] == before[k],
            forall|k: int|
                0 <= k < i ==> woke(
                    before[k],
                    #[trigger] agents@[k],
                    wake_trigger(before[k], now, candidates_of(players@, before), *config),
                    *config,
                ),
        decreases agents.len() - i,
    {
        let agent: Agent = agents[i];
        match sense(&agent, now, &candidates, config) {
            None => {},
            Some(kind) => {
                let waking: Awaking = match kind {
                    CandidateKind::Player => Awaking::new(
                        rng,
                        &config.wake_delay_range_player,
                        config.spin_rate,
                    ),
                    CandidateKind::Peer => Awaking::new(
                        rng,
                        &config.wake_delay_range_peer,
                        config.spin_rate,
                    ),
                };
                let woken: Agent = agent.begin_waking(waking);
                agents.set(i, woken);
                proof {
                    assert(config.wake_delay_range(kind).contains(waking.remaining));
                    assert(woken == before[i as int].woken(waking.remaining, config.spin_rate));
                }
            },
        }
        i = i + 1;
    }
}

/// `after` is `before` once `delta` of waking up has passed, for some seed.
pub open spec fn advanced(before: Agent, after: Agent, now: u64, delta: u64) -> bool {
    exists|seed: u32| after == #[trigger] before.roused(now, delta, seed)
}

/// `after` is `before` once `delta` has passed for every agent that was
/// waking up: each has less time to go, or is awake since `now` with a seed of
/// its own.
pub open spec fn awaking_advanced(before: Seq<Agent>, after: Seq<Agent>, now: u64, delta: u64)
    -> bool {
    &&& after.len() == before.len()
    &&& forall|i: int| 0 <= i < before.len() ==> advanced(before[i], #[trigger] after[i], now, delta)
}

/// Lets `delta` pass for every agent that is waking up. An agent whose time
/// runs out becomes awake on this call and gets a freshly drawn seed.
pub fn advance_awaking(agents: &mut Vec<Agent>, rng: &mut Rand, now: u64, delta: u64)
    ensures
        awaking_advanced(old(agents)@, final(agents)@, now, delta),
{
    let ghost before = agents@;
    let mut i: usize = 0;
    while i < agents.len()
        invariant
            0 <= i <= agents.len(),
            agents@.len() == before.len(),
            forall|k: int| i <= k < before.len() ==> #[trigger] agents@[k] == before[k],
            forall|k: int| 0 <= k < i ==> advanced(before[k], #[trigger] agents@[k], now, delta),
        decreases agents.len() - i,
    {
        let agent: Agent = agents[i];
        let seed: u32 = if agent.wakes_within(delta) {
            rng.next_u32()
        } else {
            0
        };
        let roused: Agent = agent.rouse(now, delta, seed);
        agents.set(i, roused);
        proof {
            assert(agents@[i as int] == before[i as int].roused(now, delta, seed));
        }
        i = i + 1;
    }
}

/// The agent `before` once `delta` of hunting has passed, with the interval,
/// the jitter and the speed that were drawn for it. An agent that picks a new
/// target heads for the nearest player, or keeps its velocity where there is
/// no player.
pub open spec fn hunt_result(
    before: Agent,
    players: Seq<Point>,
    delta: u64,
    interval: u64,
    jitter: Vector,
    speed: u64,
) -> Agent {
    before.hunted(
        delta,
        interval,
        if players.len() > 0 {
            Some(
                pursuit(
                    before.position,
                    players[nearest_index(before.position, players)],
                    jitter,
                    speed as u32,
                ),
            )
        } else {
            None
        },
    )
}

/// `after` is `before` once `delta` of hunting has passed, for some interval
/// from the range of intervals, some jitter within the jitter radius and some
/// speed from the range of speeds.
pub open spec fn hunted(
    before: Agent,
    after: Agent,
    players: Seq<Point>,
    delta: u64,
    config: Config,
) -> bool {
    exists|interval: u64, jitter: Vector, speed: u64|
        {
            &&& config.reorient_interval_range.contains(interval)
            &&& jitter.len_sq() <= config.hunt_jitter_radius * config.hunt_jitter_radius
            &&& in_box(jitter, config.hunt_jitter_radius)
            &&& is_offset(jitter)
            &&& config.hunt_speed_range.contains(speed)
            &&& after == #[trigger] hunt_result(before, players, delta, interval, jitter, speed)
        }
}

/// `after` is `before` once `delta` of hunting has passed for every awake
/// agent.
pub open spec fn players_hunted(
    before: Seq<Agent>,
    after: Seq<Agent>,
    players: Seq<Point>,
    delta: u64,
    config: Config,
) -> bool {
    &&& after.len() == before.len()
    &&& forall|i: int|
        0 <= i < before.len() ==> hunted(before[i], #[trigger] after[i], players, delta, config)
}

/// Lets `delta` pass for every awake agent. An agent whose time to the next
/// choice of a target runs out draws the time to the choice after it; where
/// there is a player, it then draws a point within the jitter radius of the
/// nearest player and a speed, and heads for that point at that speed.
pub fn hunt_players(
    agents: &mut Vec<Agent>,
    rng: &mut Rand,
    players: &Vec<Point>,
    delta: u64,
    config: &Config,
)
    requires
        config.is_valid(),
    ensures
        players_hunted(old(agents)@, final(agents)@, players@, delta, *config),
{
    let ghost before = agents@;
    let mut i: usize = 0;
    while i < agents.len()
        invariant
            0 <= i <= agents.len(),
            config.is_valid(),
            agents@.len() == before.len(),
            forall|k: int| i <= k < before.len() ==> #[trigger] agents@[k] == before[k],
            forall|k: int|
                0 <= k < i ==> hunted(before[k], #[trigger] agents@[k], players@, delta, *config),
        decreases agents.len() - i,
    {
        let agent: Agent = agents[i];
        let mut interval: u64 = config.reorient_interval_range.lo;
        let mut jitter: Vector = Vector { x: 0, y: 0 };
        let mut speed: u64 = config.hunt_speed_range.lo;
        let mut toward: Option<Vector> = None;
        proof {
            assert(config.hunt_jitter_radius * config.hunt_jitter_radius >= 0) by (nonlinear_arith);
        }
        if agent.is_reorienting(delta) {
            interval = config.reorient_interval_range.draw(rng);
            match nearest(agent.position, players) {
                None => {},
                Some(target) => {
                    jitter = rng.vec2(config.hunt_jitter_radius);
                    speed = config.hunt_speed_range.draw(rng);
                    toward = Some(pursue(agent.position, players[target], jitter, speed as u32));
                },
            }
        }
        let next: Agent = agent.hunt(delta, interval, toward);
        agents.set(i, next);
        proof {
            assert(next == hunt_result(before[i as int], players@, delta, interval, jitter, speed));
        }
        i = i + 1;
    }
}

/// `after` is `before` once every awake agent has been pushed by the agents
/// that were awake in `before`. Other agents are unchanged.
pub open spec fn awake_separated(before: Seq<Agent>, after: Seq<Agent>, config: Config) -> bool {
    &&& after.len() == before.len()
    &&& forall|i: int|
        0 <= i < before.len() ==> #[trigger] after[i] == if before[i].state is Awake {
            before[i].separated(
                config.repulsion(before[i].position, awake_positions(before)),
                config,
            )
        } else {
            before[i]
        }
}

/// Applies to every awake agent the repulsion of the other awake agents.
/// Agents that sleep or wake up neither push nor get pushed.
pub fn separate_awake(agents: &mut Vec<Agent>, config: &Config)
    requires
        old(agents).len() <= MAX_NEIGHBOURS,
        config.min_speed <= config.max_speed,
    ensures
        awake_separated(old(agents)@, final(agents)@, *config),
        config.separation_mode is Velocity ==> forall|i: int|
            0 <= i < old(agents)@.len() && old(agents)@[i].state is Awake ==> config.min_speed
                * config.min_speed <= (#[trigger] final(agents)@[i]).velocity.len_sq()
                <= config.max_speed * config.max_speed,
{
    let ghost before = agents@;
    let others: Vec<Point> = gather_awake(agents);
    let mut i: usize = 0;
    while i < agents.len()
        invariant
            0 <= i <= agents.len(),
            config.min_speed <= config.max_speed,
            agents@.len() == before.len(),
            others@ == awake_positions(before),
            others.len() <= MAX_NEIGHBOURS,
            forall|k: int| i <= k < before.len() ==> #[trigger] agents@[k] == before[k],
            forall|k: int|
                0 <= k < i ==> #[trigger] agents@[k] == if before[k].state is Awake {
                    before[k].separated(
                        config.repulsion(before[k].position, awake_positions(before)),
                        *config,
                    )
                } else {
                    before[k]
                },
        decreases agents.len() - i,
    {
        let agent: Agent = agents[i];
        if agent.state.is_awake() {
            let push: Vector = config.repel(agent.position, &others);
            agents.set(i, agent.separate(push, config));
        }
        i = i + 1;
    }
    proof {
        if config.separation_mode is Velocity {
            assert forall|k: int|
                0 <= k < before.len() && before[k].state is Awake implies config.min_speed
                * config.min_speed <= (#[trigger] agents@[k]).velocity.len_sq() <= config.max_speed
                * config.max_speed by {
                before[k].lemma_separated_in_band(
                    config.repulsion(before[k].position, awake_positions(before)),
                    *config,
                );
            }
        }
    }
}

/// A sleeper stays as it is through the stage that wakes sleepers while no
/// more than the guard time has passed since it fell asleep, however near a
/// player or an awake agent may be.
pub proof fn lemma_guarded_sleeper_stays(
    before: Seq<Agent>,
    after: Seq<Agent>,
    players: Seq<Point>,
    now: u64,
    config: Config,
    i: int,
    then: u64,
)
    requires
        sleepers_woken(before, after, players, now, config),
        0 <= i < before.len(),
        before[i].state == LifecycleState::Sleeping(Sleeping { since: then }),
        now - then <= config.resleep_guard_duration,
    ensures
        after[i] == before[i],
{
    lemma_guard_holds(before[i], then, now, candidates_of(players, before), config);
    assert(woke(
        before[i],
        after[i],
        wake_trigger(before[i], now, candidates_of(players, before), config),
        config,
    ));
}

/// Through the stage that lets waking agents run down their time, the time
/// an agent has left never grows, and the agent whose time runs out is awake
/// when the stage ends.
pub proof fn lemma_countdown(
    before: Seq<Agent>,
    after: Seq<Agent>,
    now: u64,
    delta: u64,
    i: int,
    waking: Awaking,
)
    requires
        awaking_advanced(before, after, now, delta),
        0 <= i < before.len(),
        before[i].state == LifecycleState::Awaking(waking),
    ensures
        delta >= waking.remaining ==> after[i].state == LifecycleState::Awake(
            Awake { since: now, reorient_remaining: 0 },
        ),
        delta < waking.remaining ==> after[i].state == LifecycleState::Awaking(
            Awaking { remaining: (waking.remaining - delta) as u64, spin_rate: waking.spin_rate },
        ),
        after[i].state matches LifecycleState::Awaking(next) ==> 0 < next.remaining
            <= waking.remaining,
{
    assert(advanced(before[i], after[i], now, delta));
    let seed = choose|seed: u32| after[i] == #[trigger] before[i].roused(now, delta, seed);
    lemma_wake_monotone(before[i], waking, now, delta, seed);
}

} // verus!
