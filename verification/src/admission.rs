//! Admission control: a cap on how many agents are awake at once.
//!
//! Where more agents are awake than allowed, those farthest from the player
//! are put back to sleep until the cap is met. Of two agents equally far away,
//! the one later in the population goes first.

use crate::agent::{Agent, LifecycleState, Sleeping};
use crate::config::Config;
use crate::geometry::{Point, Vector};
use crate::sense::{lemma_guard_holds, wake_trigger, Candidate};
use vstd::prelude::*;

verus! {

/// How many of `agents` are awake.
pub open spec fn awake_count(agents: Seq<Agent>) -> nat
    decreases agents.len(),
{
    if agents.len() == 0 {
        0
    } else {
        awake_count(agents.drop_last()) + if agents.last().state is Awake {
            1nat
        } else {
            0nat
        }
    }
}

/// Agent `i` is admitted before agent `j`: it is nearer to the player, or
/// equally near and earlier in the population.
pub open spec fn admitted_before(agents: Seq<Agent>, player: Point, i: int, j: int) -> bool {
    let di = agents[i].position.dist_sq(player);
    let dj = agents[j].position.dist_sq(player);
    di < dj || (di == dj && i < j)
}

/// `after` is `before` with the cap `max_awake` enforced at time `now`:
/// nothing changes but that awake agents are put to sleep and brought to rest,
/// as many stay awake as the cap allows, and each agent that stays awake is
/// admitted before each one that does not.
pub open spec fn enforced(
    before: Seq<Agent>,
    after: Seq<Agent>,
    max_awake: nat,
    player: Point,
    now: u64,
) -> bool {
    &&& after.len() == before.len()
    &&& forall|i: int|
        0 <= i < before.len() ==> #[trigger] after[i] == before[i] || (before[i].state is Awake
            && after[i] == before[i].demoted(now))
    &&& awake_count(after) == if awake_count(before) <= max_awake {
        awake_count(before)
    } else {
        max_awake
    }
    &&& forall|i: int, j: int|
        0 <= i < before.len() && 0 <= j < before.len() && (#[trigger] after[i]).state is Awake
            && before[j].state is Awake && !((#[trigger] after[j]).state is Awake)
            ==> admitted_before(before, player, i, j)
}

/// Counting one agent more.
pub proof fn lemma_awake_count_step(agents: Seq<Agent>, n: int)
    requires
        0 <= n < agents.len(),
    ensures
        awake_count(agents.take(n + 1)) == awake_count(agents.take(n)) + if agents[n].state is Awake {
            1nat
        } else {
            0nat
        },
{
    assert(agents.take(n + 1).drop_last() =~= agents.take(n));
}

/// Putting one awake agent to sleep lowers the count by one.
pub proof fn lemma_awake_count_drops(agents: Seq<Agent>, j: int, asleep: Agent)
    requires
        0 <= j < agents.len(),
        agents[j].state is Awake,
        !(asleep.state is Awake),
    ensures
        awake_count(agents.update(j, asleep)) == awake_count(agents) - 1,
    decreases agents.len(),
{
    let changed = agents.update(j, asleep);
    if j == agents.len() - 1 {
        assert(changed.drop_last() =~= agents.drop_last());
    } else {
        lemma_awake_count_drops(agents.drop_last(), j, asleep);
        assert(changed.drop_last() =~= agents.drop_last().update(j, asleep));
    }
}

/// Where the count is zero, no agent is awake.
pub proof fn lemma_awake_count_none(agents: Seq<Agent>, k: int)
    requires
        awake_count(agents) == 0,
        0 <= k < agents.len(),
    ensures
        !(agents[k].state is Awake),
    decreases agents.len(),
{
    if k < agents.len() - 1 {
        lemma_awake_count_none(agents.drop_last(), k);
    }
}

/// Counts the awake agents.
pub fn count_awake(agents: &Vec<Agent>) -> (count: usize)
    ensures
        count == awake_count(agents@),
{
    let mut count: usize = 0;
    let mut i: usize = 0;
    while i < agents.len()
        invariant
            0 <= i <= agents.len(),
            count == awake_count(agents@.take(i as int)),
            count <= i,
        decreases agents.len() - i,
    {
        proof {
            lemma_awake_count_step(agents@, i as int);
        }
        if agents[i].state.is_awake() {
            count = count + 1;
        }
        i = i + 1;
    }
    proof {
        assert(agents@.take(agents.len() as int) =~= agents@);
    }
    count
}

/// Finds the awake agent that every other awake agent is admitted before.
pub fn last_admitted(agents: &Vec<Agent>, player: Point) -> (found: Option<usize>)
    ensures
        found is None <==> awake_count(agents@) == 0,
        found matches Some(j) ==> {
            &&& j < agents.len()
            &&& agents@[j as int].state is Awake
            &&& forall|i: int|
                0 <= i < agents.len() && i != j && (#[trigger] agents@[i]).state is Awake
                    ==> admitted_before(agents@, player, i, j as int)
        },
{
    let mut found: Option<usize> = None;
    let mut far: u128 = 0;
    let mut i: usize = 0;
    while i < agents.len()
        invariant
            0 <= i <= agents.len(),
            found is None <==> awake_count(agents@.take(i as int)) == 0,
            found matches Some(j) ==> {
                &&& j < i
                &&& agents@[j as int].state is Awake
                &&& far == agents@[j as int].position.dist_sq(player)
                &&& forall|k: int|
                    0 <= k < i && k != j && (#[trigger] agents@[k]).state is Awake
                        ==> admitted_before(agents@, player, k, j as int)
            },
        decreases agents.len() - i,
    {
        proof {
            lemma_awake_count_step(agents@, i as int);
        }
        if agents[i].state.is_awake() {
            let d: u128 = agents[i].position.distance_squared(player);
            let takes_over: bool = match found {
                None => true,
                Some(_) => d >= far,
            };
            if takes_over {
                proof {
                    assert forall|k: int|
                        0 <= k < i && (#[trigger] agents@[k]).state is Awake implies admitted_before(
                        agents@,
                        player,
                        k,
                        i as int,
                    ) by {
                        match found {
                            Some(j) => {
                                if k != j {
                                    assert(admitted_before(agents@, player, k, j as int));
                                }
                            },
                            None => {
                                lemma_awake_count_none(agents@.take(i as int), k);
                            },
                        }
                    }
                }
                found = Some(i);
                far = d;
            }
        }
        i = i + 1;
    }
    proof {
        assert(agents@.take(agents.len() as int) =~= agents@);
    }
    found
}

/// Enforces the cap: while more than `max_awake` agents are awake, the one
/// that all others are admitted before is put to sleep at `now` and brought
/// to rest. With no more than `max_awake` agents awake nothing changes.
pub fn enforce(agents: &mut Vec<Agent>, max_awake: usize, player: Point, now: u64)
    ensures
        enforced(old(agents)@, final(agents)@, max_awake as nat, player, now),
{
    let ghost before = agents@;
    let mut awake: usize = count_awake(agents);
    while awake > max_awake
        invariant
            agents@.len() == before.len(),
            awake == awake_count(agents@),
            awake <= awake_count(before),
            awake_count(before) > max_awake ==> awake >= max_awake,
            awake_count(before) <= max_awake ==> awake == awake_count(before),
            forall|i: int|
                0 <= i < before.len() ==> #[trigger] agents@[i] == before[i] || (
                before[i].state is Awake && agents@[i] == before[i].demoted(now)),
            forall|i: int, j: int|
                0 <= i < before.len() && 0 <= j < before.len() && (#[trigger] agents@[i]).state is Awake
                    && before[j].state is Awake && !((#[trigger] agents@[j]).state is Awake)
                    ==> admitted_before(before, player, i, j),
        decreases awake,
    {
        let ghost current = agents@;
        match last_admitted(agents, player) {
            None => {
                // Not reached: an agent is awake.
                return ;
            },
            Some(j) => {
                let asleep: Agent = agents[j].demote(now);
                agents.set(j, asleep);
                proof {
                    lemma_awake_count_drops(current, j as int, asleep);
                    assert(current[j as int] == before[j as int]);
                    assert forall|i: int, k: int|
                        0 <= i < before.len() && 0 <= k < before.len() && (
                        #[trigger] agents@[i]).state is Awake && before[k].state is Awake && !((
                        #[trigger] agents@[k]).state is Awake) implies admitted_before(
                        before,
                        player,
                        i,
                        k,
                    ) by {
                        assert(agents@[i] == current[i]);
                        assert(current[i] == before[i]);
                        if k == j {
                            assert(admitted_before(current, player, i, j as int));
                        } else {
                            assert(agents@[k] == current[k]);
                        }
                    }
                }
                awake = awake - 1;
            },
        }
    }
}

/// Once the cap is enforced, no more agents are awake than it allows, and
/// every agent that was put to sleep for it is at rest.
pub proof fn lemma_cap_holds(
    before: Seq<Agent>,
    after: Seq<Agent>,
    max_awake: nat,
    player: Point,
    now: u64,
)
    requires
        enforced(before, after, max_awake, player, now),
    ensures
        awake_count(after) <= max_awake,
        awake_count(after) <= awake_count(before),
        forall|i: int|
            0 <= i < before.len() && before[i].state is Awake && !((#[trigger] after[i]).state is Awake)
                ==> after[i].state is Sleeping && after[i].velocity == Vector::zero()
                && after[i].angular_velocity == 0 && after[i].force == Vector::zero(),
{
    assert forall|i: int|
        0 <= i < before.len() && before[i].state is Awake && !((#[trigger] after[i]).state is Awake) implies after[i].state is Sleeping
        && after[i].velocity == Vector::zero() && after[i].angular_velocity == 0 && after[i].force
        == Vector::zero() by {
        assert(after[i] == before[i].demoted(now));
    }
}

/// An agent that admission control has put to sleep at `then` does not begin
/// to wake at `now` while no more than the guard time has passed since,
/// however near a player or an awake agent may be.
pub proof fn lemma_resleep_guard(
    before: Seq<Agent>,
    after: Seq<Agent>,
    max_awake: nat,
    player: Point,
    then: u64,
    i: int,
    now: u64,
    candidates: Seq<Candidate>,
    config: Config,
)
    requires
        enforced(before, after, max_awake, player, then),
        0 <= i < before.len(),
        before[i].state is Awake,
        !(after[i].state is Awake),
        now - then <= config.resleep_guard_duration,
    ensures
        after[i].state == (LifecycleState::Sleeping(Sleeping { since: then })),
        after[i].velocity == Vector::zero(),
        after[i].angular_velocity == 0,
        after[i].force == Vector::zero(),
        wake_trigger(after[i], now, candidates, config) is None,
{
    assert(after[i] == before[i].demoted(then));
    lemma_guard_holds(after[i], then, now, candidates, config);
}

} // verus!
