//! The population and its simulation step.

use crate::admission::{awake_count, enforce, enforced};
use crate::agent::Agent;
use crate::config::Config;
use crate::geometry::Point;
use crate::rng::Rand;
use crate::separation::MAX_NEIGHBOURS;
use crate::stages::{
    advance_awaking, advanced, awake_separated, awaking_advanced, hunt_players, hunted,
    players_hunted, separate_awake, sleepers_woken, wake_sleepers, woke,
};
use vstd::prelude::*;

verus! {

/// All agents of a scene, with the options they are simulated under.
pub struct Swarm {
    pub agents: Vec<Agent>,
    pub config: Config,
}

/// `after` is `before` one simulation step later, by way of the populations
/// `woken`, `advanced`, `hunting` and `separated` that the stages leave behind
/// them: sleepers sense and begin to wake, waking agents run down their time,
/// awake agents hunt, awake agents repel each other, and last the cap on
/// awake agents is enforced by the distance from the first player. With no
/// player the cap is not enforced.
pub open spec fn stepped(
    before: Seq<Agent>,
    woken: Seq<Agent>,
    advanced: Seq<Agent>,
    hunting: Seq<Agent>,
    separated: Seq<Agent>,
    after: Seq<Agent>,
    players: Seq<Point>,
    now: u64,
    delta: u64,
    config: Config,
) -> bool {
    &&& sleepers_woken(before, woken, players, now, config)
    &&& awaking_advanced(woken, advanced, now, delta)
    &&& players_hunted(advanced, hunting, players, delta, config)
    &&& awake_separated(hunting, separated, config)
    &&& if players.len() > 0 {
        enforced(separated, after, config.max_awake_agents as nat, players[0], now)
    } else {
        after == separated
    }
}

/// `after` holds the agents of `before`, each where it was.
pub open spec fn same_agents(before: Seq<Agent>, after: Seq<Agent>) -> bool {
    &&& after.len() == before.len()
    &&& forall|i: int|
        0 <= i < before.len() ==> (#[trigger] after[i]).id == before[i].id && after[i].position
            == before[i].position
}

/// No stage creates, removes, renames or moves an agent.
pub proof fn lemma_step_keeps_agents(
    before: Seq<Agent>,
    woken: Seq<Agent>,
    advanced: Seq<Agent>,
    hunting: Seq<Agent>,
    separated: Seq<Agent>,
    after: Seq<Agent>,
    players: Seq<Point>,
    now: u64,
    delta: u64,
    config: Config,
)
    requires
        stepped(before, woken, advanced, hunting, separated, after, players, now, delta, config),
    ensures
        same_agents(before, after),
{
    assert forall|i: int| 0 <= i < before.len() implies (#[trigger] after[i]).id == before[i].id
        && after[i].position == before[i].position by {
        assert(woke(
            before[i],
            woken[i],
            crate::sense::wake_trigger(
                before[i],
                now,
                crate::sense::candidates_of(players, before),
                config,
            ),
            config,
        ));
        assert(woken[i].id == before[i].id && woken[i].position == before[i].position);
        assert(crate::stages::advanced(woken[i], advanced[i], now, delta));
        assert(advanced[i].id == before[i].id && advanced[i].position == before[i].position);
        assert(hunted(advanced[i], hunting[i], players, delta, config));
        assert(hunting[i].id == before[i].id && hunting[i].position == before[i].position);
        assert(separated[i].id == before[i].id && separated[i].position == before[i].position);
        if players.len() > 0 {
            assert(after[i] == separated[i] || after[i] == separated[i].demoted(now));
        }
    }
}

impl Swarm {
    /// The options are usable and the population is small enough for every
    /// sum of pushes to fit.
    pub open spec fn wf(self) -> bool {
        self.config.is_valid() && self.agents@.len() <= MAX_NEIGHBOURS
    }

    /// An empty population under the given options; nothing where the options
    /// are not usable.
    pub fn new(config: Config) -> (swarm: Option<Swarm>)
        ensures
            swarm is Some <==> config.is_valid(),
            swarm matches Some(s) ==> s.wf() && s.config == config && s.agents@.len() == 0,
    {
        if config.validate() {
            Some(Swarm { agents: Vec::new(), config })
        } else {
            None
        }
    }

    /// Tells whether the population can be simulated.
    pub fn is_well_formed(&self) -> (ok: bool)
        ensures
            ok == self.wf(),
    {
        self.config.validate() && self.agents.len() <= MAX_NEIGHBOURS
    }

    /// Adds a sleeping agent at `position` and returns its index; nothing is
    /// added where the population is full.
    pub fn spawn(&mut self, id: u64, position: Point) -> (index: Option<usize>)
        requires
            old(self).wf(),
        ensures
            final(self).wf(),
            final(self).config == old(self).config,
            index is None <==> old(self).agents@.len() == MAX_NEIGHBOURS,
            index is None ==> final(self).agents@ == old(self).agents@,
            index matches Some(i) ==> i == old(self).agents@.len() && final(self).agents@ == old(self).agents@.push(Agent::asleep_at(id, position)),
    {
        if self.agents.len() >= MAX_NEIGHBOURS {
            return None;
        }
        let index: usize = self.agents.len();
        self.agents.push(Agent::new(id, position));
        Some(index)
    }

    /// Moves the agent at `index` to where the host has found it to be;
    /// nothing happens where there is no such agent.
    pub fn relocate(&mut self, index: usize, position: Point) -> (moved: bool)
        ensures
            final(self).config == old(self).config,
            moved == (index < old(self).agents@.len()),
            !moved ==> final(self).agents@ == old(self).agents@,
            moved ==> final(self).agents@ == old(self).agents@.update(
                index as int,
                Agent { position, ..old(self).agents@[index as int] },
            ),
    {
        if index >= self.agents.len() {
            return false;
        }
        let agent: Agent = self.agents[index];
        self.agents.set(index, Agent { position, ..agent });
        true
    }

    /// Takes the agent at `index` out of the population and returns it. The
    /// last agent takes its place, as with `Vec::swap_remove`. Nothing happens
    /// where there is no such agent.
    pub fn despawn(&mut self, index: usize) -> (removed: Option<Agent>)
        ensures
            final(self).config == old(self).config,
            removed is Some <==> index < old(self).agents@.len(),
            removed is None ==> final(self).agents@ == old(self).agents@,
            removed matches Some(agent) ==> agent == old(self).agents@[index as int] && final(self).agents@ == old(self).agents@.update(index as int, old(self).agents@.last()).drop_last(),
    {
        if index >= self.agents.len() {
            return None;
        }
        Some(self.agents.swap_remove(index))
    }

    /// How many agents are awake.
    pub fn awake(&self) -> (count: usize)
        ensures
            count == awake_count(self.agents@),
    {
        crate::admission::count_awake(&self.agents)
    }

    /// Simulates one step at time `now`, `delta` after the step before it.
    ///
    /// The stages run in a fixed order, each over the population the stage
    /// before it left: sleepers sense the players and the awake agents and
    /// begin to wake; waking agents run down their time and become awake;
    /// awake agents pick targets and velocities; awake agents repel each
    /// other; and the cap on awake agents is enforced, by the distance from
    /// the first player. With no player nothing is put to sleep.
    pub fn tick(&mut self, rng: &mut Rand, players: &Vec<Point>, now: u64, delta: u64)
        requires
            old(self).wf(),
        ensures
            final(self).wf(),
            final(self).config == old(self).config,
            exists|
                woken: Seq<Agent>,
                advanced: Seq<Agent>,
                hunting: Seq<Agent>,
                separated: Seq<Agent>,
            | #[trigger]
                stepped(
                    old(self).agents@,
                    woken,
                    advanced,
                    hunting,
                    separated,
                    final(self).agents@,
                    players@,
                    now,
                    delta,
                    old(self).config,
                ),
            same_agents(old(self).agents@, final(self).agents@),
            players.len() > 0 ==> awake_count(final(self).agents@) <= old(self).config.max_awake_agents,
    {
        let config: Config = self.config;
        let ghost before = self.agents@;
        wake_sleepers(&mut self.agents, rng, players, now, &config);
        let ghost woken = self.agents@;
        advance_awaking(&mut self.agents, rng, now, delta);
        let ghost advanced = self.agents@;
        hunt_players(&mut self.agents, rng, players, delta, &config);
        let ghost hunting = self.agents@;
        separate_awake(&mut self.agents, &config);
        let ghost separated = self.agents@;
        if players.len() > 0 {
            enforce(&mut self.agents, config.max_awake_agents, players[0], now);
        }
        proof {
            assert(stepped(
                before,
                woken,
                advanced,
                hunting,
                separated,
                self.agents@,
                players@,
                now,
                delta,
                config,
            ));
            lemma_step_keeps_agents(
                before,
                woken,
                advanced,
                hunting,
                separated,
                self.agents@,
                players@,
                now,
                delta,
                config,
            );
        }
    }
}

} // verus!
