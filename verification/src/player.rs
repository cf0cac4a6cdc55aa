//! The player's record and the score it amounts to.

use vstd::prelude::*;

verus! {

/// What is counted for a player.
#[derive(Clone, Copy, Debug, PartialEq, Eq, Structural)]
pub struct Player {
    /// When the player entered the scene, in ticks.
    pub born: u64,
    /// Points collected from pickups.
    pub bonus_score: u32,
    /// How many agents the player has removed.
    pub kill_count: u32,
    /// Whether the player has reached a safe zone. The score does not count it.
    pub safezone_reached: bool,
}

impl Player {
    /// The score at time `now`: one point for each full second survived, the
    /// bonus collected, and ten points for each kill.
    pub open spec fn points(self, now: u64, ticks_per_second: u64) -> int {
        (now - self.born) / (ticks_per_second as int) + self.bonus_score + self.kill_count * 10
    }

    /// Computes the score at time `now`.
    pub fn score(&self, now: u64, ticks_per_second: u64) -> (points: u32)
        requires
            self.born <= now,
            ticks_per_second > 0,
            self.points(now, ticks_per_second) <= u32::MAX,
        ensures
            points == self.points(now, ticks_per_second),
    {
        let age: u64 = (now - self.born) / ticks_per_second;
        let total: u64 = age + self.bonus_score as u64 + self.kill_count as u64 * 10;
        total as u32
    }

    /// Tells whether the score at time `now` can be computed: the player was
    /// born by then, a second has ticks, and the score fits in 32 bits.
    pub fn can_score(&self, now: u64, ticks_per_second: u64) -> (ok: bool)
        ensures
            ok == (self.born <= now && ticks_per_second > 0 && self.points(now, ticks_per_second)
                <= u32::MAX),
    {
        if self.born > now || ticks_per_second == 0 {
            return false;
        }
        let age: u64 = (now - self.born) / ticks_per_second;
        let rest: u64 = self.bonus_score as u64 + self.kill_count as u64 * 10;
        age <= u32::MAX as u64 && age + rest <= u32::MAX as u64
    }
}

} // verus!
