//! Synthetic opponents. A bot carries an accuracy percentage and a
//! per-question early-answer offset; the decision made from each random
//! draw is a plain function of the draw, so bot behaviour is reproducible
//! from a seeded generator.

use vstd::prelude::*;

verus! {

use crate::robottable::RobotTable;
use crate::rng::rng_below;

/// Lowest accuracy percentage a synthesized bot may get.
pub const MIN_CORRECTION_PERCENT: u32 = 40;

/// Highest accuracy percentage a synthesized bot may get.
pub const MAX_CORRECTION_PERCENT: u32 = 80;

pub struct Robot {
    pub id: String,
    pub name: String,
    pub level: u32,
    pub elo_score: u32,
    pub correct_rate: u32,
    pub next_early_opt_time: i64,
}

/// What a bot answers given a uniform draw from [0, 100): 0 (correct)
/// exactly when the draw falls in the top `rate` values, so a rate of r
/// percent answers correctly with probability r/100.
pub open spec fn opt_result_of_draw(rate: u32, draw: u64) -> u32 {
    if draw as int >= 100 - rate as int {
        0u32
    } else {
        1u32
    }
}

/// A rating moved by `off` points and clamped to the `u32` range.
pub open spec fn clamped_elo(base: u32, off: int) -> int {
    if base + off < 0 {
        0
    } else if base + off > u32::MAX {
        u32::MAX as int
    } else {
        base + off
    }
}

/// The bot's answer decision on a concrete draw.
pub fn opt_result_from_draw(rate: u32, draw: u64) -> (r: u32)
    requires
        draw < 100,
    ensures
        r == opt_result_of_draw(rate, draw),
{
    if rate <= 100 {
        if draw >= (100 - rate) as u64 {
            0
        } else {
            1
        }
    } else {
        0
    }
}

impl Robot {
    /// Resample the early-answer offset uniformly from [1, max_time/2].
    pub fn set_next_opt_wait_time(&mut self, rng: &mut rand::rngs::StdRng, max_time: i64)
        requires
            2 <= max_time,
        ensures
            1 <= final(self).next_early_opt_time <= max_time / 2,
            final(self).id == old(self).id,
            final(self).name == old(self).name,
            final(self).level == old(self).level,
            final(self).elo_score == old(self).elo_score,
            final(self).correct_rate == old(self).correct_rate,
    {
        let half_time = max_time / 2;
        let off = rng_below(rng, half_time as u64);
        self.next_early_opt_time = (off + 1) as i64;
    }

    /// One answer draw: 0 (correct) with probability `correct_rate`/100.
    pub fn get_opt_result(&self, rng: &mut rand::rngs::StdRng) -> (r: u32)
        ensures
            exists|d: u64| d < 100 && r == opt_result_of_draw(self.correct_rate, d),
    {
        let d = rng_below(rng, 100);
        let r = opt_result_from_draw(self.correct_rate, d);
        proof {
            assert(d < 100 && r == opt_result_of_draw(self.correct_rate, d));
        }
        r
    }
}

pub struct RobotController {
    pub robottable: RobotTable,
}

impl RobotController {
    /// Wrap the identity pool read at startup.
    pub fn new(robottable: RobotTable) -> (r: Self)
        ensures
            r.robottable == robottable,
    {
        Self { robottable }
    }

    /// Synthesize an opponent for the given player: the same level, an Elo
    /// within ten points (clamped to the `u32` range), an accuracy drawn
    /// from [40, 80], and a first early-answer offset in [1, Q/2].
    pub fn get_robot(
        &mut self,
        rng: &mut rand::rngs::StdRng,
        competitor_level: u32,
        competitor_elo_score: u32,
        competitor_correct_rate: u32,
        max_opt_wait_time: i64,
    ) -> (r: Robot)
        requires
            2 <= max_opt_wait_time,
        ensures
            r.level == competitor_level,
            MIN_CORRECTION_PERCENT <= r.correct_rate <= MAX_CORRECTION_PERCENT,
            1 <= r.next_early_opt_time <= max_opt_wait_time / 2,
            (exists|off: int|
                -10 <= off <= 10 && r.elo_score as int == #[trigger] clamped_elo(
                    competitor_elo_score,
                    off,
                )),
            final(self).robottable.get_index == (old(self).robottable.get_index + 1) % 4,
            final(self).robottable.back_index == old(self).robottable.back_index,
    {
        let draw = rng_below(rng, 21);
        let off: i64 = draw as i64 - 10;
        let raw: i64 = competitor_elo_score as i64 + off;
        let my_score: u32 = if raw < 0 {
            0
        } else if raw > u32::MAX as i64 {
            u32::MAX
        } else {
            raw as u32
        };
        let rate_draw = rng_below(rng, (MAX_CORRECTION_PERCENT - MIN_CORRECTION_PERCENT + 1) as u64);
        let correct_rate: u32 = MIN_CORRECTION_PERCENT + rate_draw as u32;
        let (id, name) = self.robottable.get_id_name(rng);
        let mut robot = Robot {
            id,
            name,
            level: competitor_level,
            elo_score: my_score,
            correct_rate,
            next_early_opt_time: 1,
        };
        robot.set_next_opt_wait_time(rng, max_opt_wait_time);
        proof {
            let offv = off as int;
            assert(-10 <= offv <= 10 && robot.elo_score as int == clamped_elo(
                competitor_elo_score,
                offv,
            ));
        }
        robot
    }

    /// Return a finished bot's identity to the pool.
    pub fn back_robot(&mut self, robot: Robot)
        ensures
            final(self).robottable.back_index == (old(self).robottable.back_index + 1) % 4,
            final(self).robottable.get_index == old(self).robottable.get_index,
    {
        self.robottable.back_id_name(robot.id, robot.name);
    }
}

} // verus!
