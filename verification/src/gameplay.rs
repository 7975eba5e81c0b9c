//! The round engine: per-game state for two players racing through ten
//! timed questions. Each slot advances by a client answer, a bot answer or
//! a timeout; a game ends when both slots are finished, and the end report
//! carries scores, Elo updates and level changes.

use vstd::prelude::*;

verus! {

use crate::b64::b64_of;
use crate::common::RedisOpt;
use crate::common::Signal;
use crate::common::max_timestamp_ms;
use crate::gamematch::MatchRequest;
use crate::jsontext::chars_to_string;
use crate::jsontext::dec_digits;
use crate::jsontext::enc_obj;
use crate::jsontext::encode_u64_into;
use crate::petable::PERecord;
use crate::petable::PETable;
use crate::petable::elo_gap;
use crate::petable::pet_lookup;
use crate::poemtable::PoemLineRecord;
use crate::poemtable::PoemTable;
use crate::poemtable::enc_script;
use crate::poemtable::script_to_json;
use crate::proto::CGMatchGameOpt;
use crate::proto::GCEndGame;
use crate::proto::GCEndGameV;
use crate::proto::GCStartGame;
use crate::proto::GCStartGameV;
use crate::proto::GCUpdateGame;
use crate::proto::GCUpdateGameV;
use crate::proto::PROTO_GCENDGAME;
use crate::proto::PROTO_GCSTARTGAME;
use crate::proto::PROTO_GCUPDATEGAME;
use crate::proto::ProtoData;
use crate::proto::gc_end_game_fields;
use crate::proto::gc_start_game_fields;
use crate::proto::gc_update_game_fields;
use crate::proto::spec_frame;
use crate::robot::Robot;
use crate::robot::RobotController;
use crate::robot::opt_result_of_draw;

/// Questions per round.
pub const MATCH_POEM_NUM: u32 = 10;

/// Extra wait after each question's answer window, in milliseconds.
pub const POEM_RESULT_WAIT: i64 = 2500;

/// Upper bound accepted for the per-question answer window (one day).
pub open spec fn max_poem_time() -> int {
    86_400_000
}

/// Upper bound accepted for the per-question score.
pub open spec fn max_poem_score() -> int {
    100_000_000
}

/// One player's in-round state. A slot is finished when `next_opt_index`
/// has reached the round length.
pub struct Player {
    pub endpoint_id: Option<String>,
    pub player_id: String,
    pub player_name: String,
    pub player_level: u32,
    pub player_elo_score: u32,
    pub player_correct_rate: u32,
    pub game_start_timestamp: i64,
    pub next_opt_index: i32,
    pub next_opt_timeout_timestamp: i64,
    pub opt_bitmap: u32,
    pub is_dirty: bool,
    pub robot: Option<Robot>,
    pub game_score: u32,
}

/// Score for a correct answer with `remaining` of the `q`-millisecond
/// window left: the fraction of `poem_score` still on the table, rounded
/// down. Out-of-window remainders score nothing.
pub open spec fn opt_score(poem_score: u32, remaining: int, q: int) -> int {
    if 0 <= remaining <= q {
        (poem_score * remaining) / q
    } else {
        0
    }
}

/// Scoring monotonicity: for a correct answer, the score gained never
/// grows as the answer comes later (less remaining time).
pub proof fn lemma_score_monotonic(poem_score: u32, r1: int, r2: int, q: int)
    requires
        q >= 1,
        0 <= r1 <= r2 <= q,
    ensures
        opt_score(poem_score, r1, q) <= opt_score(poem_score, r2, q),
{
    vstd::arithmetic::mul::lemma_mul_inequality(r1, r2, poem_score as int);
    vstd::arithmetic::div_mod::lemma_div_is_ordered(
        poem_score * r1,
        poem_score * r2,
        q,
    );
}

/// A question's score never exceeds the full per-question score.
pub proof fn lemma_opt_score_bound(poem_score: u32, remaining: int, q: int)
    requires
        q >= 1,
    ensures
        0 <= opt_score(poem_score, remaining, q) <= poem_score,
{
    if 0 <= remaining <= q {
        vstd::arithmetic::mul::lemma_mul_inequality(remaining, q, poem_score as int);
        vstd::arithmetic::div_mod::lemma_div_is_ordered(
            poem_score * remaining,
            poem_score * q,
            q,
        );
        vstd::arithmetic::div_mod::lemma_div_multiples_vanish(poem_score as int, q);
        vstd::arithmetic::div_mod::lemma_div_pos_is_pos(poem_score * remaining, q);
        vstd::arithmetic::mul::lemma_mul_nonnegative(poem_score as int, remaining);
    }
}

/// A correct answer at exactly half the window scores exactly half the
/// per-question score (rounded down); ten such answers therefore total
/// ten times that.
pub proof fn lemma_half_window_score(poem_score: u32, q: int)
    requires
        q >= 2,
        q % 2 == 0,
    ensures
        opt_score(poem_score, q / 2, q) == poem_score / 2,
{
    let m = q / 2;
    vstd::arithmetic::div_mod::lemma_fundamental_div_mod(q, 2);
    assert(q == m * 2);
    vstd::arithmetic::div_mod::lemma_div_denominator(poem_score * m, m, 2);
    assert((poem_score * m) / m == poem_score) by {
        vstd::arithmetic::div_mod::lemma_div_multiples_vanish(poem_score as int, m);
        assert(poem_score * m == m * poem_score);
    }
}

/// Well-formedness of a slot under the round's config: the next index stays
/// within the round, no answer bit is set at or above the next index, the
/// score stays within what the answered questions could give, deadlines
/// stay within clock range, and a bot's early offset stays within the
/// window.
pub open spec fn player_wf(p: Player, poem_score: u32, poem_mill_time: int) -> bool {
    &&& 0 <= p.next_opt_index <= MATCH_POEM_NUM
    &&& p.opt_bitmap < (1u32 << (p.next_opt_index as u32))
    &&& p.game_score <= p.next_opt_index * poem_score
    &&& -1 <= p.next_opt_timeout_timestamp <= max_timestamp_ms() + max_poem_time()
        + POEM_RESULT_WAIT
    &&& (p.robot matches Some(rb) ==> 1 <= rb.next_early_opt_time <= poem_mill_time / 2)
}

/// The slot after a client answer: unchanged unless the op names exactly
/// the awaited question with a valid result; then the result bit is
/// recorded, a correct in-window answer scores by remaining time, and the
/// slot advances with a fresh deadline.
pub open spec fn player_after_opt(
    p: Player,
    opt_index: u32,
    opt_result: u32,
    t: int,
    q: int,
    s: u32,
) -> Player {
    if p.next_opt_index < MATCH_POEM_NUM && opt_index == p.next_opt_index && opt_result <= 1 {
        let gained = if opt_result == 0 {
            opt_score(s, p.next_opt_timeout_timestamp - t, q)
        } else {
            0
        };
        Player {
            opt_bitmap: p.opt_bitmap | (opt_result << (p.next_opt_index as u32)),
            next_opt_index: (p.next_opt_index + 1) as i32,
            next_opt_timeout_timestamp: (t + q + POEM_RESULT_WAIT) as i64,
            is_dirty: true,
            game_score: (p.game_score + gained) as u32,
            ..p
        }
    } else {
        p
    }
}

/// The slot after a timeout check at `t`: unchanged unless the slot still
/// awaits a question whose deadline has passed; then that question is
/// marked failed (bit set, no score) and the slot advances.
pub open spec fn player_after_timeout(p: Player, t: int, q: int) -> Player {
    if p.next_opt_index < MATCH_POEM_NUM && t > p.next_opt_timeout_timestamp {
        Player {
            opt_bitmap: p.opt_bitmap | (1u32 << (p.next_opt_index as u32)),
            next_opt_index: (p.next_opt_index + 1) as i32,
            next_opt_timeout_timestamp: (t + q + POEM_RESULT_WAIT) as i64,
            is_dirty: true,
            ..p
        }
    } else {
        p
    }
}

/// In a well-formed slot every bitmap bit at or above the next question's
/// index is zero: only answered questions can carry a result bit.
pub proof fn lemma_no_bits_above_next(p: Player, poem_score: u32, poem_mill_time: int)
    requires
        player_wf(p, poem_score, poem_mill_time),
    ensures
        (p.opt_bitmap >> (p.next_opt_index as u32)) == 0,
{
    let n = p.next_opt_index as u32;
    let bm = p.opt_bitmap;
    assert((bm >> n) == 0) by (bit_vector)
        requires
            n <= 10,
            bm < (1u32 << n),
    ;
}

/// What one bot pass may do to a slot: when the slot belongs to a due,
/// unfinished bot, it commits an answer drawn from [0, 100), scores by the
/// current early offset, advances and resamples the offset; otherwise the
/// slot is untouched.
pub open spec fn player_robot_rel(p0: Player, p1: Player, t: int, q: int, s: u32) -> bool {
    match p0.robot {
        Some(rb) => {
            if p0.next_opt_index < MATCH_POEM_NUM && t >= p0.next_opt_timeout_timestamp
                - rb.next_early_opt_time {
                &&& (exists|d: u64|
                    d < 100 && p1.opt_bitmap == p0.opt_bitmap | (
                    #[trigger] opt_result_of_draw(rb.correct_rate, d) << (p0.next_opt_index
                        as u32)))
                &&& p1.next_opt_index == p0.next_opt_index + 1
                &&& p1.next_opt_timeout_timestamp == t + q + POEM_RESULT_WAIT
                &&& p1.game_score == p0.game_score + opt_score(s, rb.next_early_opt_time as int, q)
                &&& p1.is_dirty
                &&& (p1.robot matches Some(rb2) && rb2.correct_rate == rb.correct_rate && 1
                    <= rb2.next_early_opt_time <= q / 2)
                &&& p1.same_identity(p0)
            } else {
                p1 == p0
            }
        },
        None => p1 == p0,
    }
}

/// Setting one answer bit at the next index keeps every higher bit clear.
proof fn lemma_bitmap_step(bm: u32, r: u32, n: u32)
    requires
        n < 10,
        r <= 1,
        bm < (1u32 << n),
    ensures
        (bm | (r << n)) < (1u32 << (n + 1) as u32),
        (1u32 << n) >= 1,
{
    assert((bm | (r << n)) < (1u32 << (n + 1) as u32) && (1u32 << n) >= 1) by (bit_vector)
        requires
            n < 10,
            r <= 1,
            bm < (1u32 << n),
    ;
}

impl Player {
    /// Identity and connection fields never change during a round.
    pub open spec fn same_identity(self, other: Player) -> bool {
        &&& self.endpoint_id == other.endpoint_id
        &&& self.player_id == other.player_id
        &&& self.player_name == other.player_name
        &&& self.player_level == other.player_level
        &&& self.player_elo_score == other.player_elo_score
        &&& self.player_correct_rate == other.player_correct_rate
        &&& self.game_start_timestamp == other.game_start_timestamp
    }

    /// Has this slot answered (or timed out on) every question?
    pub fn is_all_opt_end(&self) -> (r: bool)
        ensures
            r == (self.next_opt_index >= MATCH_POEM_NUM),
    {
        self.next_opt_index >= MATCH_POEM_NUM as i32
    }

    /// Ingest one client answer; an op for any other index, or with an
    /// invalid result, changes nothing (a protocol error is ignored).
    pub fn on_opt(
        &mut self,
        opt: CGMatchGameOpt,
        curr_timestamp: i64,
        poem_mill_time: i64,
        poem_score: u32,
    )
        requires
            player_wf(*old(self), poem_score, poem_mill_time as int),
            0 <= curr_timestamp <= max_timestamp_ms(),
            1 <= poem_mill_time <= max_poem_time(),
            poem_score <= max_poem_score(),
        ensures
            *final(self) == player_after_opt(
                *old(self),
                opt.opt_index,
                opt.opt_result,
                curr_timestamp as int,
                poem_mill_time as int,
                poem_score,
            ),
            player_wf(*final(self), poem_score, poem_mill_time as int),
    {
        proof {
            lemma_opt_score_bound(
                poem_score,
                old(self).next_opt_timeout_timestamp - curr_timestamp,
                poem_mill_time as int,
            );
        }
        if self.next_opt_index < MATCH_POEM_NUM as i32 && opt.opt_index <= 9 && (opt.opt_index
            as i32) == self.next_opt_index && opt.opt_result <= 1 {
            let n = self.next_opt_index;
            proof {
                lemma_bitmap_step(self.opt_bitmap, opt.opt_result, n as u32);
            }
            self.opt_bitmap = self.opt_bitmap | (opt.opt_result << (n as u32));
            if opt.opt_result == 0 {
                let remaining = self.next_opt_timeout_timestamp - curr_timestamp;
                if remaining >= 0 && remaining <= poem_mill_time {
                    proof {
                        assert((poem_score as int) * (remaining as int) <= 8_640_000_000_000_000)
                            by (nonlinear_arith)
                            requires
                                0 <= poem_score <= 100_000_000,
                                0 <= remaining <= 86_400_000,
                        ;
                    }
                    let got = ((poem_score as u64) * (remaining as u64) / (poem_mill_time as u64))
                        as u32;
                    proof {
                        assert(got as int == opt_score(
                            poem_score,
                            remaining as int,
                            poem_mill_time as int,
                        ));
                        assert(self.game_score + got <= (n + 1) * poem_score && self.game_score
                            + got <= 1_000_000_000) by (nonlinear_arith)
                            requires
                                self.game_score <= n * poem_score,
                                0 <= got <= poem_score,
                                0 <= n <= 9,
                                0 <= poem_score <= 100_000_000,
                        ;
                    }
                    self.game_score = self.game_score + got;
                }
            }
            proof {
                assert(self.game_score <= (n + 1) * poem_score) by (nonlinear_arith)
                    requires
                        self.game_score <= n * poem_score || self.game_score <= (n + 1)
                            * poem_score,
                        n >= 0,
                        self.game_score >= 0,
                        poem_score >= 0,
                ;
            }
            self.next_opt_index = n + 1;
            self.next_opt_timeout_timestamp = curr_timestamp + poem_mill_time + POEM_RESULT_WAIT;
            self.is_dirty = true;
        } else {
            // out-of-order or malformed op: ignored
        }
    }

    /// Advance a bot slot whose early-answer moment has come: commit a
    /// drawn answer, score by the early offset, advance, and resample the
    /// offset for the next question.
    pub fn update_robot_opt(
        &mut self,
        rng: &mut rand::rngs::StdRng,
        curr_timestamp: i64,
        poem_mill_time: i64,
        poem_score: u32,
    )
        requires
            player_wf(*old(self), poem_score, poem_mill_time as int),
            0 <= curr_timestamp <= max_timestamp_ms(),
            2 <= poem_mill_time <= max_poem_time(),
            poem_score <= max_poem_score(),
        ensures
            player_wf(*final(self), poem_score, poem_mill_time as int),
            final(self).same_identity(*old(self)),
            player_robot_rel(
                *old(self),
                *final(self),
                curr_timestamp as int,
                poem_mill_time as int,
                poem_score,
            ),
    {
        let has_due_robot: bool = match &self.robot {
            Some(robot) => self.next_opt_index < MATCH_POEM_NUM as i32 && curr_timestamp
                >= self.next_opt_timeout_timestamp - robot.next_early_opt_time,
            None => false,
        };
        if has_due_robot {
            let n = self.next_opt_index;
            let mut robot = self.robot.take().unwrap();
            let opt_result = robot.get_opt_result(rng);
            proof {
                let d = choose|d: u64|
                    d < 100 && opt_result == opt_result_of_draw(robot.correct_rate, d);
                assert(opt_result <= 1) by {
                    assert(opt_result == opt_result_of_draw(robot.correct_rate, d));
                }
                lemma_bitmap_step(self.opt_bitmap, opt_result, n as u32);
                lemma_opt_score_bound(
                    poem_score,
                    robot.next_early_opt_time as int,
                    poem_mill_time as int,
                );
            }
            self.opt_bitmap = self.opt_bitmap | (opt_result << (n as u32));
            self.is_dirty = true;
            let early = robot.next_early_opt_time;
            robot.set_next_opt_wait_time(rng, poem_mill_time);
            proof {
                assert((poem_score as int) * (early as int) <= 8_640_000_000_000_000)
                    by (nonlinear_arith)
                    requires
                        0 <= poem_score <= 100_000_000,
                        0 <= early <= 86_400_000,
                ;
            }
            let got = ((poem_score as u64) * (early as u64) / (poem_mill_time as u64)) as u32;
            proof {
                assert(got as int == opt_score(poem_score, early as int, poem_mill_time as int));
                assert(self.game_score + got <= (n + 1) * poem_score && self.game_score + got
                    <= 1_000_000_000) by (nonlinear_arith)
                    requires
                        self.game_score <= n * poem_score,
                        0 <= got <= poem_score,
                        0 <= n <= 9,
                        0 <= poem_score <= 100_000_000,
                ;
            }
            self.game_score = self.game_score + got;
            self.next_opt_index = n + 1;
            self.next_opt_timeout_timestamp = curr_timestamp + poem_mill_time + POEM_RESULT_WAIT;
            self.robot = Some(robot);
        }
    }

    /// Mark a missed question failed once its deadline has passed and
    /// advance the slot; a finished slot never changes.
    pub fn update_opt_timeout_status(&mut self, curr_timestamp: i64, poem_mill_time: i64)
        requires
            0 <= curr_timestamp <= max_timestamp_ms(),
            1 <= poem_mill_time <= max_poem_time(),
            0 <= old(self).next_opt_index <= MATCH_POEM_NUM,
            old(self).opt_bitmap < (1u32 << (old(self).next_opt_index as u32)),
        ensures
            *final(self) == player_after_timeout(
                *old(self),
                curr_timestamp as int,
                poem_mill_time as int,
            ),
    {
        if self.next_opt_index < MATCH_POEM_NUM as i32 && curr_timestamp
            > self.next_opt_timeout_timestamp {
            let n = self.next_opt_index;
            proof {
                lemma_bitmap_step(self.opt_bitmap, 1u32, n as u32);
            }
            self.opt_bitmap = self.opt_bitmap | (1u32 << (n as u32));
            self.next_opt_index = n + 1;
            self.next_opt_timeout_timestamp = curr_timestamp + poem_mill_time + POEM_RESULT_WAIT;
            self.is_dirty = true;
        }
    }

    /// A timeout step keeps a slot well formed.
    pub proof fn lemma_timeout_preserves_wf(p: Player, t: int, q: int, s: u32)
        requires
            player_wf(p, s, q),
            0 <= t <= max_timestamp_ms(),
            1 <= q <= max_poem_time(),
        ensures
            player_wf(player_after_timeout(p, t, q), s, q),
    {
        if p.next_opt_index < MATCH_POEM_NUM && t > p.next_opt_timeout_timestamp {
            lemma_bitmap_step(p.opt_bitmap, 1u32, p.next_opt_index as u32);
            assert(p.next_opt_index * s <= (p.next_opt_index + 1) * s) by (nonlinear_arith)
                requires
                    p.next_opt_index >= 0,
                    s >= 0,
            ;
        }
    }

    /// Read and clear the dirty flag.
    pub fn is_dirty(&mut self) -> (r: bool)
        ensures
            r == old(self).is_dirty,
            *final(self) == (Player { is_dirty: false, ..*old(self) }),
    {
        let tmp_is_dirty = self.is_dirty;
        self.is_dirty = false;
        tmp_is_dirty
    }
}

// ---------------------------------------------------------------------------
// a running game
// ---------------------------------------------------------------------------
/// A game in flight: two slots, a start time, and the id
/// `{p1_id}_{p2_id}_{start_ms}`.
pub struct Game {
    pub id: String,
    pub start_timestamp: i64,
    pub player1: Player,
    pub player2: Player,
    pub is_gaming: bool,
    pub is_dirty: bool,
}

pub open spec fn game_wf(g: Game, poem_score: u32, poem_mill_time: int) -> bool {
    player_wf(g.player1, poem_score, poem_mill_time) && player_wf(
        g.player2,
        poem_score,
        poem_mill_time,
    )
}

/// The game after one client answer, routed to the slot whose player id
/// matches; an unknown id changes nothing.
/// The game after one client answer, given only the answer's content.
pub open spec fn game_after_opt_view(
    g: Game,
    v: crate::proto::CGMatchGameOptV,
    t: int,
    q: int,
    s: u32,
) -> Game {
    if v.id == g.player1.player_id@ {
        Game { player1: player_after_opt(g.player1, v.opt_index, v.opt_result, t, q, s), ..g }
    } else if v.id == g.player2.player_id@ {
        Game { player2: player_after_opt(g.player2, v.opt_index, v.opt_result, t, q, s), ..g }
    } else {
        g
    }
}

pub open spec fn game_after_opt(g: Game, opt: CGMatchGameOpt, t: int, q: int, s: u32) -> Game {
    if opt.id@ == g.player1.player_id@ {
        Game {
            player1: player_after_opt(g.player1, opt.opt_index, opt.opt_result, t, q, s),
            ..g
        }
    } else if opt.id@ == g.player2.player_id@ {
        Game {
            player2: player_after_opt(g.player2, opt.opt_index, opt.opt_result, t, q, s),
            ..g
        }
    } else {
        g
    }
}

/// Floor of `32 * (o/2 - e/1000)` where `o_half` counts outcome halves
/// (0 loss, 1 tie, 2 win) and `e_mill` is the expectation in thousandths.
pub open spec fn elo_delta(o_half: int, e_mill: u32) -> int {
    (16000 * o_half - 32 * (e_mill as int)) / 1000
}

/// The updated rating, clamped to the `u32` range.
pub open spec fn new_elo(elo: u32, o_half: int, e_mill: u32) -> int {
    let v = elo + elo_delta(o_half, e_mill);
    if v < 0 {
        0
    } else if v > u32::MAX {
        u32::MAX as int
    } else {
        v
    }
}

/// Outcome in halves for the two scores: win 2, tie 1, loss 0.
pub open spec fn outcome_halves(s1: u32, s2: u32) -> (int, int) {
    if s1 > s2 {
        (2int, 0int)
    } else if s2 > s1 {
        (0int, 2int)
    } else {
        (1int, 1int)
    }
}

/// A won game raises the level by one (saturating at the type's top).
pub open spec fn bump_level(l: u32) -> u32 {
    if l < u32::MAX {
        (l + 1) as u32
    } else {
        l
    }
}

/// Everything the end-of-game report states, as a function of the final
/// game state and the expectation table.
pub open spec fn game_end_view(g: Game, pet: Seq<PERecord>) -> GCEndGameV {
    let ee = pet_lookup(pet, elo_gap(g.player1.player_elo_score, g.player2.player_elo_score));
    let o = outcome_halves(g.player1.game_score, g.player2.game_score);
    GCEndGameV {
        game_id: g.id@,
        player1_id: g.player1.player_id@,
        player1_name: g.player1.player_name@,
        player1_opt_bitmap: g.player1.opt_bitmap,
        player1_game_score: g.player1.game_score,
        player1_new_elo_score: new_elo(g.player1.player_elo_score, o.0, ee.0) as u32,
        player1_new_level: if o.0 == 2 {
            bump_level(g.player1.player_level)
        } else {
            g.player1.player_level
        },
        player2_id: g.player2.player_id@,
        player2_name: g.player2.player_name@,
        player2_opt_bitmap: g.player2.opt_bitmap,
        player2_game_score: g.player2.game_score,
        player2_new_elo_score: new_elo(g.player2.player_elo_score, o.1, ee.1) as u32,
        player2_new_level: if o.1 == 2 {
            bump_level(g.player2.player_level)
        } else {
            g.player2.player_level
        },
    }
}

/// The mid-round report, as a function of the game state.
pub open spec fn game_update_view(g: Game) -> GCUpdateGameV {
    GCUpdateGameV {
        game_id: g.id@,
        player1_id: g.player1.player_id@,
        player1_name: g.player1.player_name@,
        player1_next_opt_index: g.player1.next_opt_index,
        player1_opt_bitmap: g.player1.opt_bitmap,
        player2_id: g.player2.player_id@,
        player2_name: g.player2.player_name@,
        player2_next_opt_index: g.player2.next_opt_index,
        player2_opt_bitmap: g.player2.opt_bitmap,
    }
}

/// What one bot pass may do to a game: each slot steps by the bot
/// relation; everything else is untouched.
pub open spec fn game_robot_rel(g0: Game, g1: Game, t: int, q: int, s: u32) -> bool {
    &&& player_robot_rel(g0.player1, g1.player1, t, q, s)
    &&& player_robot_rel(g0.player2, g1.player2, t, q, s)
    &&& g1.id == g0.id
    &&& g1.start_timestamp == g0.start_timestamp
    &&& g1.is_gaming == g0.is_gaming
    &&& g1.is_dirty == g0.is_dirty
}

/// The game after the timeout pass over both slots.
pub open spec fn game_after_timeout_pass(g: Game, t: int, q: int) -> Game {
    Game {
        player1: player_after_timeout(g.player1, t, q),
        player2: player_after_timeout(g.player2, t, q),
        ..g
    }
}

/// The game after the end-of-round check.
pub open spec fn game_end_checked(g: Game) -> Game {
    let both_finished = g.player1.next_opt_index >= MATCH_POEM_NUM && g.player2.next_opt_index
        >= MATCH_POEM_NUM;
    Game { is_gaming: g.is_gaming && !both_finished, is_dirty: g.is_dirty || both_finished, ..g }
}

/// One game's whole engine step at tick time `t`: a bot pass, then the
/// timeout pass, then the end check.
pub open spec fn game_tick_rel(g0: Game, g2: Game, t: int, q: int, s: u32) -> bool {
    exists|gr: Game|
        #[trigger] game_robot_rel(g0, gr, t, q, s) && g2 == game_end_checked(
            game_after_timeout_pass(gr, t, q),
        )
}

/// Does the tick report this game to its players?
pub open spec fn game_dirty(g: Game) -> bool {
    g.is_dirty || g.player1.is_dirty || g.player2.is_dirty
}

/// The game with all dirty flags read off.
pub open spec fn game_cleared(g: Game) -> Game {
    Game {
        is_dirty: false,
        player1: Player { is_dirty: false, ..g.player1 },
        player2: Player { is_dirty: false, ..g.player2 },
        ..g
    }
}

/// The games a tick keeps, in order: the still-running ones, flags cleared.
pub open spec fn survivors_of(mid: Seq<Game>) -> Seq<Game>
    decreases mid.len(),
{
    if mid.len() == 0 {
        Seq::empty()
    } else if mid.last().is_gaming {
        survivors_of(mid.drop_last()).push(game_cleared(mid.last()))
    } else {
        survivors_of(mid.drop_last())
    }
}

/// The games a tick ends, in order.
pub open spec fn ended_of(mid: Seq<Game>) -> Seq<Game>
    decreases mid.len(),
{
    if mid.len() == 0 {
        Seq::empty()
    } else if mid.last().is_gaming {
        ended_of(mid.drop_last())
    } else {
        ended_of(mid.drop_last()).push(mid.last())
    }
}

/// Is this the mid-round sync frame of game `g`, addressed to its players?
pub open spec fn is_game_sync_sig(sig: Signal, g: Game) -> bool {
    sig matches Signal::Sync(e1, e2, p) && e1 == g.player1.endpoint_id && e2
        == g.player2.endpoint_id && p@ == spec_frame(
        PROTO_GCUPDATEGAME as int,
        b64_of(enc_obj(gc_update_game_fields(game_update_view(g)))),
    )
}

/// Is this the end frame of game `g`, addressed to its players?
pub open spec fn is_game_end_sig(sig: Signal, g: Game, pet: Seq<PERecord>) -> bool {
    sig matches Signal::Sync(e1, e2, p) && e1 == g.player1.endpoint_id && e2
        == g.player2.endpoint_id && p@ == spec_frame(
        PROTO_GCENDGAME as int,
        b64_of(enc_obj(gc_end_game_fields(game_end_view(g, pet)))),
    )
}

/// Everything one engine pass promises, relative to the witness `mid`:
/// per-game stepping, the emitted signal list, the survivor map, and the
/// queued persistence events.
#[verifier::opaque]
pub open spec fn engine_tick_post(
    pre: MatchGameController,
    post: MatchGameController,
    t: int,
    sigs: Seq<Signal>,
    mid: Seq<Game>,
) -> bool {
    let old_games = pre.game_map@;
    let pet = pre.petable.pe_vec@;
    let base = pre.redis_queue@.len() as int;
    &&& mid.len() == old_games.len()
    &&& (forall|k: int|
        0 <= k < mid.len() ==> game_tick_rel(
            old_games[k],
            #[trigger] mid[k],
            t,
            pre.poem_mill_time as int,
            pre.poem_score,
        ))
    &&& post.game_map@ == survivors_of(mid)
    &&& tick_signals_match(sigs, mid, pet)
    &&& post.redis_queue@.len() == base + 2 * ended_of(mid).len() + 1
    &&& (forall|j: int|
        #![trigger ended_of(mid)[j]]
        0 <= j < ended_of(mid).len() ==> ({
            let g = ended_of(mid)[j];
            let v = game_end_view(g, pet);
            &&& (post.redis_queue@[base + 2 * j] matches RedisOpt::GamePlayerData(key1, lvl1)
                && key1@ == g.player1.player_id@ + "_"@ + g.player1.player_name@ && lvl1
                == v.player1_new_level)
            &&& (post.redis_queue@[base + 2 * j + 1] matches RedisOpt::GamePlayerData(key2, lvl2)
                && key2@ == g.player2.player_id@ + "_"@ + g.player2.player_name@ && lvl2
                == v.player2_new_level)
        }))
    &&& (post.redis_queue@.last() matches RedisOpt::GameStatus(n) && n == post.game_map@.len()
        as u32)
}

/// The signal list a tick emits: per game, in map order, one sync frame
/// when the game is dirty followed by one end frame when it ended, and
/// nothing else.
pub open spec fn tick_signals_match(sigs: Seq<Signal>, mid: Seq<Game>, pet: Seq<PERecord>) -> bool
    decreases mid.len(),
{
    if mid.len() == 0 {
        sigs.len() == 0
    } else {
        let g = mid.last();
        let c = (if game_dirty(g) {
            1int
        } else {
            0int
        }) + (if !g.is_gaming {
            1int
        } else {
            0int
        });
        &&& sigs.len() >= c
        &&& tick_signals_match(sigs.take(sigs.len() - c), mid.drop_last(), pet)
        &&& (game_dirty(g) ==> is_game_sync_sig(sigs[sigs.len() - c], g))
        &&& (!g.is_gaming ==> is_game_end_sig(sigs.last(), g, pet))
    }
}

/// Floor division by 1000 on machine integers.
fn floor_div_1000(a: i64) -> (r: i64)
    requires
        -1_000_000_000_000 <= a <= 1_000_000_000_000,
    ensures
        r as int == (a as int) / 1000,
{
    if a >= 0 {
        ((a as u64) / 1000u64) as i64
    } else {
        let m = (-a) as u64;
        let q = (m + 999) / 1000;
        proof {
            lemma_floor_div_1000_neg(m as int);
        }
        -(q as i64)
    }
}

proof fn lemma_floor_div_1000_neg(m: int)
    requires
        1 <= m,
    ensures
        (-m) / 1000 == -((m + 999) / 1000),
{
    vstd::arithmetic::div_mod::lemma_fundamental_div_mod(m, 1000);
    let d = m / 1000;
    let r0 = m % 1000;
    if r0 == 0 {
        vstd::arithmetic::div_mod::lemma_fundamental_div_mod_converse(m + 999, 1000, d, 999);
        vstd::arithmetic::div_mod::lemma_fundamental_div_mod_converse(-m, 1000, -d, 0);
    } else {
        vstd::arithmetic::div_mod::lemma_fundamental_div_mod_converse(
            m + 999,
            1000,
            d + 1,
            r0 - 1,
        );
        vstd::arithmetic::div_mod::lemma_fundamental_div_mod_converse(
            -m,
            1000,
            -(d + 1),
            1000 - r0,
        );
    }
}

/// The updated rating on machine integers.
fn new_elo_exec(elo: u32, o_half: i64, e_mill: u32) -> (r: u32)
    requires
        0 <= o_half <= 2,
    ensures
        r as int == new_elo(elo, o_half as int, e_mill),
{
    let num: i64 = 16000i64 * o_half - 32i64 * (e_mill as i64);
    let delta = floor_div_1000(num);
    let raw: i64 = elo as i64 + delta;
    if raw < 0 {
        0
    } else if raw > u32::MAX as i64 {
        u32::MAX
    } else {
        raw as u32
    }
}

impl Game {
    pub fn new(player1: Player, player2: Player, start_timestamp: i64) -> (r: Game)
        requires
            0 <= start_timestamp <= max_timestamp_ms(),
        ensures
            r.id@ == player1.player_id@ + "_"@ + player2.player_id@ + "_"@ + dec_digits(
                start_timestamp as int,
            ),
            r.start_timestamp == start_timestamp,
            r.player1 == player1,
            r.player2 == player2,
            r.is_gaming,
            !r.is_dirty,
    {
        let mut id = player1.player_id.clone();
        id.append("_");
        id.append(player2.player_id.as_str());
        id.append("_");
        let mut ts_chars: Vec<char> = Vec::new();
        encode_u64_into(&mut ts_chars, start_timestamp as u64);
        let ts_str = chars_to_string(&ts_chars);
        id.append(ts_str.as_str());
        Game { id, start_timestamp, player1, player2, is_gaming: true, is_dirty: false }
    }

    /// Read and clear the game and slot dirty flags.
    pub fn is_dirty(&mut self) -> (r: bool)
        ensures
            r == (old(self).is_dirty || old(self).player1.is_dirty || old(self).player2.is_dirty),
            final(self).is_dirty == false,
            final(self).player1 == (Player { is_dirty: false, ..old(self).player1 }),
            final(self).player2 == (Player { is_dirty: false, ..old(self).player2 }),
            final(self).id == old(self).id,
            final(self).start_timestamp == old(self).start_timestamp,
            final(self).is_gaming == old(self).is_gaming,
    {
        let d1 = self.player1.is_dirty();
        let d2 = self.player2.is_dirty();
        let is_dirty = self.is_dirty || d1 || d2;
        self.is_dirty = false;
        is_dirty
    }

    /// Route one client answer to the slot it names.
    pub fn on_opt(
        &mut self,
        opt: CGMatchGameOpt,
        curr_timestamp: i64,
        poem_mill_time: i64,
        poem_score: u32,
    )
        requires
            game_wf(*old(self), poem_score, poem_mill_time as int),
            0 <= curr_timestamp <= max_timestamp_ms(),
            1 <= poem_mill_time <= max_poem_time(),
            poem_score <= max_poem_score(),
        ensures
            *final(self) == game_after_opt(
                *old(self),
                opt,
                curr_timestamp as int,
                poem_mill_time as int,
                poem_score,
            ),
            game_wf(*final(self), poem_score, poem_mill_time as int),
    {
        if opt.id == self.player1.player_id {
            self.player1.on_opt(opt, curr_timestamp, poem_mill_time, poem_score);
        } else if opt.id == self.player2.player_id {
            self.player2.on_opt(opt, curr_timestamp, poem_mill_time, poem_score);
        }
    }

    /// Flip to ended once both slots are finished.
    pub fn update_end_status(&mut self)
        ensures
            final(self).is_gaming == (old(self).is_gaming && !(old(self).player1.next_opt_index
                >= MATCH_POEM_NUM && old(self).player2.next_opt_index >= MATCH_POEM_NUM)),
            final(self).player1 == old(self).player1,
            final(self).player2 == old(self).player2,
            final(self).id == old(self).id,
            final(self).start_timestamp == old(self).start_timestamp,
            final(self).is_dirty == (old(self).is_dirty || (old(self).player1.next_opt_index
                >= MATCH_POEM_NUM && old(self).player2.next_opt_index >= MATCH_POEM_NUM)),
    {
        if self.player1.is_all_opt_end() && self.player2.is_all_opt_end() {
            self.is_gaming = false;
            self.is_dirty = true;
        }
    }

    pub fn is_game_end(&self) -> (r: bool)
        ensures
            r == !self.is_gaming,
    {
        !self.is_gaming
    }

    /// Let due bots answer in both slots.
    pub fn update_robot_opt(
        &mut self,
        rng: &mut rand::rngs::StdRng,
        curr_timestamp: i64,
        poem_mill_time: i64,
        poem_score: u32,
    )
        requires
            game_wf(*old(self), poem_score, poem_mill_time as int),
            0 <= curr_timestamp <= max_timestamp_ms(),
            2 <= poem_mill_time <= max_poem_time(),
            poem_score <= max_poem_score(),
        ensures
            game_wf(*final(self), poem_score, poem_mill_time as int),
            game_robot_rel(
                *old(self),
                *final(self),
                curr_timestamp as int,
                poem_mill_time as int,
                poem_score,
            ),
    {
        self.player1.update_robot_opt(rng, curr_timestamp, poem_mill_time, poem_score);
        self.player2.update_robot_opt(rng, curr_timestamp, poem_mill_time, poem_score);
    }

    /// Time out missed questions in both slots.
    pub fn update_opt_timeout_status(&mut self, curr_timestamp: i64, poem_mill_time: i64)
        requires
            0 <= old(self).player1.next_opt_index <= MATCH_POEM_NUM,
            0 <= old(self).player2.next_opt_index <= MATCH_POEM_NUM,
            old(self).player1.opt_bitmap < (1u32 << (old(self).player1.next_opt_index as u32)),
            old(self).player2.opt_bitmap < (1u32 << (old(self).player2.next_opt_index as u32)),
            0 <= curr_timestamp <= max_timestamp_ms(),
            1 <= poem_mill_time <= max_poem_time(),
        ensures
            final(self).player1 == player_after_timeout(
                old(self).player1,
                curr_timestamp as int,
                poem_mill_time as int,
            ),
            final(self).player2 == player_after_timeout(
                old(self).player2,
                curr_timestamp as int,
                poem_mill_time as int,
            ),
            final(self).id == old(self).id,
            final(self).is_gaming == old(self).is_gaming,
            final(self).is_dirty == old(self).is_dirty,
            final(self).start_timestamp == old(self).start_timestamp,
    {
        self.player1.update_opt_timeout_status(curr_timestamp, poem_mill_time);
        self.player2.update_opt_timeout_status(curr_timestamp, poem_mill_time);
    }

    /// The mid-round sync frame for this game.
    pub fn gc_update_to_json(&self) -> (r: Option<String>)
        ensures
            r matches Some(s) && s@ == spec_frame(
                PROTO_GCUPDATEGAME as int,
                b64_of(enc_obj(gc_update_game_fields(game_update_view(*self)))),
            ),
    {
        let gc_update_game = GCUpdateGame {
            game_id: self.id.clone(),
            player1_id: self.player1.player_id.clone(),
            player1_name: self.player1.player_name.clone(),
            player1_next_opt_index: self.player1.next_opt_index,
            player1_opt_bitmap: self.player1.opt_bitmap,
            player2_id: self.player2.player_id.clone(),
            player2_name: self.player2.player_name.clone(),
            player2_next_opt_index: self.player2.next_opt_index,
            player2_opt_bitmap: self.player2.opt_bitmap,
        };
        proof {
            assert(gc_update_game@ == game_update_view(*self));
        }
        ProtoData::gc_to_json_string(PROTO_GCUPDATEGAME, gc_update_game)
    }

    /// Settle the game: raise the winner's level, compute both new Elo
    /// ratings from the expectation table, and build the end frame.
    pub fn gc_end_game_to_json(&mut self, petable: &PETable) -> (r: Option<String>)
        ensures
            ({
                let v = game_end_view(*old(self), petable.pe_vec@);
                &&& r matches Some(s) && s@ == spec_frame(
                    PROTO_GCENDGAME as int,
                    b64_of(enc_obj(gc_end_game_fields(v))),
                )
                &&& final(self).player1 == (Player {
                    player_level: v.player1_new_level,
                    ..old(self).player1
                })
                &&& final(self).player2 == (Player {
                    player_level: v.player2_new_level,
                    ..old(self).player2
                })
                &&& final(self).id == old(self).id
                &&& final(self).is_gaming == old(self).is_gaming
                &&& final(self).is_dirty == old(self).is_dirty
                &&& final(self).start_timestamp == old(self).start_timestamp
            }),
    {
        let ghost v = game_end_view(*old(self), petable.pe_vec@);
        let s1 = self.player1.game_score;
        let s2 = self.player2.game_score;
        if s1 > s2 {
            if self.player1.player_level < u32::MAX {
                self.player1.player_level = self.player1.player_level + 1;
            }
        } else if s2 > s1 {
            if self.player2.player_level < u32::MAX {
                self.player2.player_level = self.player2.player_level + 1;
            }
        }
        let (ea, eb, _group) = petable.get_ea_eb(
            self.player1.player_elo_score,
            self.player2.player_elo_score,
        );
        let (o1, o2): (i64, i64) = if s1 > s2 {
            (2, 0)
        } else if s2 > s1 {
            (0, 2)
        } else {
            (1, 1)
        };
        let player1_new_elo_score = new_elo_exec(self.player1.player_elo_score, o1, ea);
        let player2_new_elo_score = new_elo_exec(self.player2.player_elo_score, o2, eb);
        let gc_end_game = GCEndGame {
            game_id: self.id.clone(),
            player1_id: self.player1.player_id.clone(),
            player1_name: self.player1.player_name.clone(),
            player1_opt_bitmap: self.player1.opt_bitmap,
            player1_game_score: self.player1.game_score,
            player1_new_elo_score,
            player1_new_level: self.player1.player_level,
            player2_id: self.player2.player_id.clone(),
            player2_name: self.player2.player_name.clone(),
            player2_opt_bitmap: self.player2.opt_bitmap,
            player2_game_score: self.player2.game_score,
            player2_new_elo_score,
            player2_new_level: self.player2.player_level,
        };
        proof {
            assert(gc_end_game@ == v);
        }
        ProtoData::gc_to_json_string(PROTO_GCENDGAME, gc_end_game)
    }
}

/// First game with the given id, or -1.
pub open spec fn find_game(games: Seq<Game>, gid: Seq<char>) -> int
    decreases games.len(),
{
    if games.len() == 0 {
        -1
    } else if games[0].id@ == gid {
        0
    } else {
        let rest = find_game(games.drop_first(), gid);
        if rest < 0 {
            -1
        } else {
            rest + 1
        }
    }
}

proof fn lemma_find_game_prefix(games: Seq<Game>, gid: Seq<char>, i: int)
    requires
        0 <= i <= games.len(),
        forall|k: int| 0 <= k < i ==> (#[trigger] games[k]).id@ != gid,
    ensures
        i == games.len() ==> find_game(games, gid) == -1,
        i < games.len() && games[i].id@ == gid ==> find_game(games, gid) == i,
    decreases games.len(),
{
    if games.len() > 0 && i > 0 {
        assert(forall|k: int|
            0 <= k < i - 1 ==> (#[trigger] games.drop_first()[k]).id@ != gid);
        lemma_find_game_prefix(games.drop_first(), gid, i - 1);
    }
}

/// The in-round controller: all running games, the static tables, the bot
/// pool, the round config, and the queue of persistence events the game
/// thread hands to the store worker.
pub struct MatchGameController {
    pub game_map: Vec<Game>,
    pub ended_game: Vec<String>,
    pub poem_table: PoemTable,
    pub petable: PETable,
    pub robot_ctrl: RobotController,
    pub redis_queue: Vec<RedisOpt>,
    pub poem_mill_time: i64,
    pub poem_score: u32,
}

impl MatchGameController {
    /// The round config is sane and every running game is well formed.
    pub open spec fn wf(&self) -> bool {
        &&& 2 <= self.poem_mill_time <= max_poem_time()
        &&& self.poem_score <= max_poem_score()
        &&& self.poem_table.wf()
        &&& forall|k: int|
            0 <= k < self.game_map@.len() ==> game_wf(
                #[trigger] self.game_map@[k],
                self.poem_score,
                self.poem_mill_time as int,
            )
    }

    /// Wrap the tables read at startup and the round config.
    pub fn new(
        poem_table: PoemTable,
        petable: PETable,
        robot_ctrl: RobotController,
        poem_mill_time: i64,
        poem_score: u32,
    ) -> (r: Self)
        requires
            poem_table.wf(),
            2 <= poem_mill_time <= max_poem_time(),
            poem_score <= max_poem_score(),
        ensures
            r.wf(),
            r.game_map@.len() == 0,
            r.ended_game@.len() == 0,
            r.redis_queue@.len() == 0,
            r.poem_table == poem_table,
            r.petable == petable,
            r.robot_ctrl == robot_ctrl,
            r.poem_mill_time == poem_mill_time,
            r.poem_score == poem_score,
    {
        Self {
            game_map: Vec::new(),
            ended_game: Vec::new(),
            poem_table,
            petable,
            robot_ctrl,
            redis_queue: Vec::new(),
            poem_mill_time,
            poem_score,
        }
    }

    pub fn game_count(&self) -> (r: usize)
        ensures
            r == self.game_map@.len(),
    {
        self.game_map.len()
    }

    /// Hand the queued persistence events to the store worker.
    pub fn drain_redis_events(&mut self) -> (r: Vec<RedisOpt>)
        ensures
            r@ == old(self).redis_queue@,
            final(self).redis_queue@.len() == 0,
            final(self).game_map == old(self).game_map,
            final(self).poem_mill_time == old(self).poem_mill_time,
            final(self).poem_score == old(self).poem_score,
            final(self).wf() == old(self).wf(),
    {
        let mut out: Vec<RedisOpt> = Vec::new();
        std::mem::swap(&mut out, &mut self.redis_queue);
        out
    }

    /// Route a client answer to the first game carrying its game id (ids
    /// are unique in practice); an unknown id changes nothing.
    #[verifier::loop_isolation(false)]
    pub fn on_opt(&mut self, opt_info: CGMatchGameOpt, curr_timestamp: i64)
        requires
            old(self).wf(),
            0 <= curr_timestamp <= max_timestamp_ms(),
        ensures
            final(self).wf(),
            final(self).poem_mill_time == old(self).poem_mill_time,
            final(self).poem_score == old(self).poem_score,
            final(self).petable.pe_vec@ == old(self).petable.pe_vec@,
            final(self).redis_queue@ == old(self).redis_queue@,
            ({
                let k = find_game(old(self).game_map@, opt_info.game_id@);
                if k < 0 {
                    final(self).game_map@ == old(self).game_map@
                } else {
                    final(self).game_map@ == old(self).game_map@.update(
                        k,
                        game_after_opt(
                            old(self).game_map@[k],
                            opt_info,
                            curr_timestamp as int,
                            old(self).poem_mill_time as int,
                            old(self).poem_score,
                        ),
                    )
                }
            }),
    {
        let n = self.game_map.len();
        let mut i: usize = 0;
        while i < n && !(self.game_map[i].id == opt_info.game_id)
            invariant
                0 <= i <= n,
                n == self.game_map@.len(),
                self == old(self),
                forall|k: int| 0 <= k < i ==> (#[trigger] self.game_map@[k]).id@ != opt_info.game_id@,
            decreases n - i,
        {
            i = i + 1;
        }
        proof {
            lemma_find_game_prefix(self.game_map@, opt_info.game_id@, i as int);
        }
        if i < n {
            let ghost pre = self.game_map@;
            let q = self.poem_mill_time;
            let s = self.poem_score;
            self.game_map[i].on_opt(opt_info, curr_timestamp, q, s);
            proof {
                assert(self.game_map@ =~= pre.update(
                    i as int,
                    game_after_opt(
                        pre[i as int],
                        opt_info,
                        curr_timestamp as int,
                        q as int,
                        s,
                    ),
                ));
            }
        } else {
            assert(self.game_map@ =~= old(self).game_map@);
        }
    }

    /// One engine tick over every game, in map order: bots answer when
    /// due, missed questions time out, and the end check runs
    /// (`game_tick_rel`). Every dirty game emits exactly one sync frame
    /// and every finished game exactly one end frame, sync before end, in
    /// map order (`tick_signals_match`); finished games leave the map in
    /// the same tick, their bot identities return to the pool, and their
    /// two progress rows (slot order) are queued before the final game
    /// count; the surviving games are exactly the still-running ones with
    /// their flags cleared.
    #[verifier::rlimit(100)]
    #[verifier::spinoff_prover]
    pub fn update_games(&mut self, rng: &mut rand::rngs::StdRng, curr_timestamp: i64) -> (r:
        Option<Vec<Signal>>)
        requires
            old(self).wf(),
            0 <= curr_timestamp <= max_timestamp_ms(),
        ensures
            final(self).wf(),
            final(self).poem_mill_time == old(self).poem_mill_time,
            final(self).poem_score == old(self).poem_score,
            final(self).petable.pe_vec@ == old(self).petable.pe_vec@,
            final(self).game_map@.len() <= old(self).game_map@.len(),
            // every surviving game is alive and not finished on both sides
            forall|k: int|
                0 <= k < final(self).game_map@.len() ==> ({
                    let g = #[trigger] final(self).game_map@[k];
                    g.is_gaming && !(g.player1.next_opt_index >= MATCH_POEM_NUM
                        && g.player2.next_opt_index >= MATCH_POEM_NUM)
                }),
            r matches Some(v) ==> v@.len() > 0,
            // the whole tick, relative to the per-game engine step
            ({
                let sigs = match r {
                    Some(v) => v@,
                    None => Seq::<Signal>::empty(),
                };
                exists|mid: Seq<Game>|
                    #![trigger mid.len()]
                    engine_tick_post(*old(self), *final(self), curr_timestamp as int, sigs, mid)
            }),
            // earlier persistence events keep their order
            final(self).redis_queue@.len() >= old(self).redis_queue@.len(),
            final(self).redis_queue@.subrange(0, old(self).redis_queue@.len() as int) == old(
                self,
            ).redis_queue@,
    {
        self.ended_game.clear();
        let mut signals: Vec<Signal> = Vec::new();
        let mut survivors: Vec<Game> = Vec::new();
        let ghost old_games = self.game_map@;
        let ghost old_redis = self.redis_queue@;
        let ghost pet0 = self.petable.pe_vec@;
        let ghost mut mid: Seq<Game> = Seq::empty();
        let q = self.poem_mill_time;
        let s = self.poem_score;
        let mut emitted: bool = false;
        proof {
            assert(self.game_map@ =~= old_games.skip(0));
        }
        while self.game_map.len() > 0
            invariant
                0 <= curr_timestamp <= max_timestamp_ms(),
                old_games == old(self).game_map@,
                old_redis == old(self).redis_queue@,
                pet0 == old(self).petable.pe_vec@,
                q == old(self).poem_mill_time,
                s == old(self).poem_score,
                self.ended_game@.len() >= 0,
                self.poem_mill_time == q,
                self.poem_score == s,
                2 <= q <= max_poem_time(),
                s <= max_poem_score(),
                self.poem_table.wf(),
                self.poem_table == old(self).poem_table,
                self.petable.pe_vec@ == pet0,
                forall|k: int|
                    0 <= k < self.game_map@.len() ==> game_wf(
                        #[trigger] self.game_map@[k],
                        s,
                        q as int,
                    ),
                forall|k: int|
                    0 <= k < survivors@.len() ==> game_wf(#[trigger] survivors@[k], s, q as int)
                        && survivors@[k].is_gaming && !(survivors@[k].player1.next_opt_index
                        >= MATCH_POEM_NUM && survivors@[k].player2.next_opt_index
                        >= MATCH_POEM_NUM),
                self.game_map@ == old_games.skip(old_games.len() - self.game_map@.len()),
                mid.len() == old_games.len() - self.game_map@.len(),
                forall|k: int|
                    0 <= k < mid.len() ==> game_tick_rel(
                        old_games[k],
                        #[trigger] mid[k],
                        curr_timestamp as int,
                        q as int,
                        s,
                    ),
                survivors@ == survivors_of(mid),
                tick_signals_match(signals@, mid, pet0),
                self.redis_queue@.len() == old_redis.len() + 2 * ended_of(mid).len(),
                forall|j: int|
                    #![trigger ended_of(mid)[j]]
                    0 <= j < ended_of(mid).len() ==> ({
                        let g = ended_of(mid)[j];
                        let v = game_end_view(g, pet0);
                        &&& (self.redis_queue@[old_redis.len() + 2 * j] matches RedisOpt::GamePlayerData(key1, lvl1)
                            && key1@ == g.player1.player_id@ + "_"@ + g.player1.player_name@
                            && lvl1 == v.player1_new_level)
                        &&& (self.redis_queue@[old_redis.len() + 2 * j + 1] matches RedisOpt::GamePlayerData(key2, lvl2)
                            && key2@ == g.player2.player_id@ + "_"@ + g.player2.player_name@
                            && lvl2 == v.player2_new_level)
                    }),
                survivors@.len() + self.game_map@.len() <= old_games.len(),
                emitted ==> signals@.len() > 0,
                signals@.len() > 0 ==> emitted,
                self.redis_queue@.subrange(0, old_redis.len() as int) == old_redis,
            decreases self.game_map@.len(),
        {
            let ghost done = old_games.len() - self.game_map@.len();
            let mut game = self.game_map.remove(0);
            proof {
                assert(old_games.skip(done)[0] == old_games[done]);
                assert(old_games.skip(done).drop_first() =~= old_games.skip(done + 1));
            }
            game.update_robot_opt(rng, curr_timestamp, q, s);
            let ghost g_robot = game;
            let ghost p1_pre = game.player1;
            let ghost p2_pre = game.player2;
            game.update_opt_timeout_status(curr_timestamp, q);
            proof {
                Player::lemma_timeout_preserves_wf(p1_pre, curr_timestamp as int, q as int, s);
                Player::lemma_timeout_preserves_wf(p2_pre, curr_timestamp as int, q as int, s);
                assert(game == game_after_timeout_pass(g_robot, curr_timestamp as int, q as int));
            }
            game.update_end_status();
            let ghost g2 = game;
            proof {
                assert(g2 == game_end_checked(
                    game_after_timeout_pass(g_robot, curr_timestamp as int, q as int),
                ));
                assert(game_tick_rel(old_games[done], g2, curr_timestamp as int, q as int, s));
            }
            let dirty = game.is_dirty();
            proof {
                assert(game == game_cleared(g2));
                assert(dirty == game_dirty(g2));
            }
            let ghost sigs_pre = signals@;
            if dirty {
                let sync_json = match game.gc_update_to_json() {
                    Some(j) => j,
                    None => vstd::pervasive::unreached(),
                };
                let ep1 = game.player1.endpoint_id.clone();
                let ep2 = game.player2.endpoint_id.clone();
                let sig = Signal::Sync(ep1, ep2, sync_json);
                proof {
                    assert(game_update_view(game_cleared(g2)) == game_update_view(g2));
                    assert(is_game_sync_sig(sig, g2));
                }
                signals.push(sig);
                emitted = true;
            }
            if game.is_game_end() {
                self.ended_game.push(game.id.clone());
                let ghost g_pre = game;
                let end_json = match game.gc_end_game_to_json(&self.petable) {
                    Some(j) => j,
                    None => vstd::pervasive::unreached(),
                };
                let sig = Signal::Sync(
                    game.player1.endpoint_id.clone(),
                    game.player2.endpoint_id.clone(),
                    end_json,
                );
                proof {
                    assert(game_end_view(g_pre, pet0) == game_end_view(g2, pet0));
                    assert(is_game_end_sig(sig, g2, pet0));
                }
                signals.push(sig);
                emitted = true;
                // persist both players' progress, in slot order
                let mut key1 = game.player1.player_id.clone();
                key1.append("_");
                key1.append(game.player1.player_name.as_str());
                let lvl1 = game.player1.player_level;
                self.redis_queue.push(RedisOpt::GamePlayerData(key1, lvl1));
                let mut key2 = game.player2.player_id.clone();
                key2.append("_");
                key2.append(game.player2.player_name.as_str());
                let lvl2 = game.player2.player_level;
                self.redis_queue.push(RedisOpt::GamePlayerData(key2, lvl2));
                proof {
                    assert(self.redis_queue@.subrange(0, old_redis.len() as int) =~= old_redis);
                    assert(game.player1.player_level == game_end_view(
                        g2,
                        pet0,
                    ).player1_new_level);
                    assert(game.player2.player_level == game_end_view(
                        g2,
                        pet0,
                    ).player2_new_level);
                }
                // the bots' identities go back to the pool
                match game.player1.robot {
                    Some(rb) => self.robot_ctrl.back_robot(rb),
                    None => {},
                }
                match game.player2.robot {
                    Some(rb) => self.robot_ctrl.back_robot(rb),
                    None => {},
                }
            } else {
                survivors.push(game);
            }
            proof {
                let mid2 = mid.push(g2);
                assert(mid2.drop_last() =~= mid);
                assert(mid2.last() == g2);
                assert(survivors@ == survivors_of(mid2)) by {
                    if g2.is_gaming {
                        assert(survivors@ =~= survivors_of(mid).push(game_cleared(g2)));
                    }
                }
                assert(tick_signals_match(signals@, mid2, pet0)) by {
                    let c = (if game_dirty(g2) {
                        1int
                    } else {
                        0int
                    }) + (if !g2.is_gaming {
                        1int
                    } else {
                        0int
                    });
                    assert(signals@.len() == sigs_pre.len() + c);
                    assert(signals@.take(signals@.len() - c) =~= sigs_pre);
                    if game_dirty(g2) {
                        assert(signals@[signals@.len() - c] == sigs_pre.push(
                            signals@[sigs_pre.len() as int],
                        )[sigs_pre.len() as int]);
                    }
                }
                assert(ended_of(mid2) =~= if g2.is_gaming {
                    ended_of(mid)
                } else {
                    ended_of(mid).push(g2)
                });
                mid = mid2;
            }
        }
        proof {
            assert(mid.len() == old_games.len());
        }
        self.game_map = survivors;
        let game_num = self.game_map.len();
        self.redis_queue.push(RedisOpt::GameStatus(game_num as u32));
        proof {
            assert(self.redis_queue@.subrange(0, old_redis.len() as int) =~= old_redis);
            assert(forall|j: int|
                0 <= j < ended_of(mid).len() ==> #[trigger] self.redis_queue@[old_redis.len() + 2
                    * j] == self.redis_queue@.drop_last()[old_redis.len() + 2 * j]
                    && self.redis_queue@[old_redis.len() + 2 * j + 1]
                    == self.redis_queue@.drop_last()[old_redis.len() + 2 * j + 1]);
        }
        let ghost sv = signals@;
        let result: Option<Vec<Signal>> = if emitted {
            Some(signals)
        } else {
            None
        };
        proof {
            reveal(engine_tick_post);
            let sigs_r = match &result {
                Some(v) => v@,
                None => Seq::<Signal>::empty(),
            };
            if !emitted {
                assert(sv =~= Seq::<Signal>::empty());
            }
            assert(sigs_r == sv);
            assert(engine_tick_post(*old(self), *self, curr_timestamp as int, sigs_r, mid));
            assert(exists|m: Seq<Game>|
                #[trigger] engine_tick_post(
                    *old(self),
                    *self,
                    curr_timestamp as int,
                    sigs_r,
                    m,
                ));
        }
        result
    }
}

impl MatchGameController {
    /// Open a game for a matched pair: reset both slots to the first
    /// question with deadline `start + Q + R`, sample a question script by
    /// the first player's level, and emit the start frame to both players.
    /// A failed sampling drops the pair and opens nothing; when the first
    /// player's band is long enough and fully covered by the bank, no
    /// sampling can fail, so the game is owed.
    pub fn start_new_game(
        &mut self,
        rng: &mut rand::rngs::StdRng,
        player1: Player,
        player2: Player,
        curr_timestamp: i64,
    ) -> (r: Option<Signal>)
        requires
            old(self).wf(),
            0 <= curr_timestamp <= max_timestamp_ms(),
            player_wf(player1, old(self).poem_score, old(self).poem_mill_time as int),
            player_wf(player2, old(self).poem_score, old(self).poem_mill_time as int),
            player1.opt_bitmap == 0,
            player1.game_score == 0,
            player2.opt_bitmap == 0,
            player2.game_score == 0,
        ensures
            final(self).wf(),
            final(self).poem_mill_time == old(self).poem_mill_time,
            final(self).poem_score == old(self).poem_score,
            final(self).petable.pe_vec@ == old(self).petable.pe_vec@,
            final(self).redis_queue@.len() >= old(self).redis_queue@.len(),
            final(self).redis_queue@.subrange(0, old(self).redis_queue@.len() as int) == old(
                self,
            ).redis_queue@,
            ({
                let deadline = curr_timestamp + old(self).poem_mill_time + POEM_RESULT_WAIT;
                let p1 = (Player {
                    next_opt_index: 0,
                    next_opt_timeout_timestamp: deadline as i64,
                    ..player1
                });
                let p2 = (Player {
                    next_opt_index: 0,
                    next_opt_timeout_timestamp: deadline as i64,
                    ..player2
                });
                let gid = player1.player_id@ + "_"@ + player2.player_id@ + "_"@ + dec_digits(
                    curr_timestamp as int,
                );
                match r {
                    Some(sig) => {
                        &&& final(self).game_map@.len() == old(self).game_map@.len() + 1
                        &&& final(self).game_map@.drop_last() == old(self).game_map@
                        &&& ({
                            let g = final(self).game_map@.last();
                            g.id@ == gid && g.start_timestamp == curr_timestamp && g.player1 == p1
                                && g.player2 == p2 && g.is_gaming && !g.is_dirty
                        })
                        &&& sig matches Signal::Sync(e1, e2, payload) && e1 == player1.endpoint_id
                            && e2 == player2.endpoint_id && (exists|script: Seq<PoemLineRecord>|
                            script.len() == MATCH_POEM_NUM && payload@ == spec_frame(
                                PROTO_GCSTARTGAME as int,
                                b64_of(
                                    #[trigger] enc_obj(
                                        gc_start_game_fields(
                                            GCStartGameV {
                                                game_id: gid,
                                                player1_id: player1.player_id@,
                                                player1_name: player1.player_name@,
                                                player2_id: player2.player_id@,
                                                player2_name: player2.player_name@,
                                                poem_data_str: enc_script(script),
                                            },
                                        ),
                                    ),
                                ),
                            ))
                    },
                    None => final(self).game_map@ == old(self).game_map@,
                }
            }),
            ({
                let bands = old(self).poem_table.level_vec_map@;
                let bank = old(self).poem_table.level_map@;
                let bk = crate::poemtable::find_band(
                    bands,
                    PoemTable::band_key_of(player1.player_level),
                );
                &&& (bk < 0 ==> r is None)
                &&& (bk >= 0 && MATCH_POEM_NUM > bands[bk].1@.len() ==> r is None)
                &&& (bk >= 0 && MATCH_POEM_NUM <= bands[bk].1@.len() && (forall|k: int|
                    0 <= k < bands[bk].1@.len() ==> crate::poemtable::bank_has_level(
                        bank,
                        #[trigger] bands[bk].1@[k],
                    )) ==> r is Some)
            }),
    {
        let mut player1 = player1;
        let mut player2 = player2;
        player1.next_opt_index = 0;
        player1.next_opt_timeout_timestamp = curr_timestamp + self.poem_mill_time
            + POEM_RESULT_WAIT;
        player2.next_opt_index = 0;
        player2.next_opt_timeout_timestamp = curr_timestamp + self.poem_mill_time
            + POEM_RESULT_WAIT;
        let player_level = player1.player_level;
        let script = match self.poem_table.get_random_game_data(rng, player_level, MATCH_POEM_NUM) {
            Some(script) => script,
            None => {
                assert(self.game_map@ =~= old(self).game_map@);
                assert(self.redis_queue@.subrange(0, old(self).redis_queue@.len() as int)
                    =~= old(self).redis_queue@);
                return None;
            },
        };
        let poem_json_str = script_to_json(&script);
        let game = Game::new(player1, player2, curr_timestamp);
        let gc_start_game = GCStartGame {
            game_id: game.id.clone(),
            player1_id: game.player1.player_id.clone(),
            player1_name: game.player1.player_name.clone(),
            player2_id: game.player2.player_id.clone(),
            player2_name: game.player2.player_name.clone(),
            poem_data_str: poem_json_str,
        };
        let gc_start_game_json_str = match ProtoData::gc_to_json_string(
            PROTO_GCSTARTGAME,
            gc_start_game,
        ) {
            Some(j) => j,
            None => vstd::pervasive::unreached(),
        };
        let signal = Signal::Sync(
            game.player1.endpoint_id.clone(),
            game.player2.endpoint_id.clone(),
            gc_start_game_json_str,
        );
        let ghost pre_map = self.game_map@;
        proof {
            assert((1u32 << 0u32) == 1u32) by (bit_vector);
            assert(player_wf(game.player1, self.poem_score, self.poem_mill_time as int));
            assert(player_wf(game.player2, self.poem_score, self.poem_mill_time as int));
        }
        self.game_map.push(game);
        proof {
            assert(self.game_map@.drop_last() =~= pre_map);
        }
        let game_num = self.game_map.len();
        self.redis_queue.push(RedisOpt::GameStatus(game_num as u32));
        proof {
            assert(self.redis_queue@.subrange(0, old(self).redis_queue@.len() as int) =~= old(
                self,
            ).redis_queue@);
        }
        Some(signal)
    }

    /// Build the bot slot that will face `competitor_player`.
    pub fn create_robot_player(
        &mut self,
        rng: &mut rand::rngs::StdRng,
        competitor_player: &Player,
        curr_timestamp: i64,
        poem_mill_time: i64,
    ) -> (r: Player)
        requires
            2 <= poem_mill_time,
        ensures
            is_bot_slot_for(r, *competitor_player, poem_mill_time as int, curr_timestamp as int),
            r.endpoint_id is None,
            r.player_level == competitor_player.player_level,
            40 <= r.player_correct_rate <= 80,
            (exists|off: int|
                -10 <= off <= 10 && r.player_elo_score as int == #[trigger] crate::robot::clamped_elo(
                    competitor_player.player_elo_score,
                    off,
                )),
            r.game_start_timestamp == curr_timestamp,
            r.next_opt_index == 0,
            r.next_opt_timeout_timestamp == -1,
            r.opt_bitmap == 0,
            !r.is_dirty,
            r.game_score == 0,
            r.robot matches Some(rb) && 1 <= rb.next_early_opt_time <= poem_mill_time / 2
                && rb.correct_rate == r.player_correct_rate,
            final(self).game_map == old(self).game_map,
            final(self).poem_mill_time == old(self).poem_mill_time,
            final(self).poem_score == old(self).poem_score,
            final(self).petable.pe_vec@ == old(self).petable.pe_vec@,
            final(self).poem_table == old(self).poem_table,
            final(self).redis_queue@ == old(self).redis_queue@,
            final(self).ended_game == old(self).ended_game,
            old(self).wf() ==> final(self).wf(),
    {
        let robot = self.robot_ctrl.get_robot(
            rng,
            competitor_player.player_level,
            competitor_player.player_elo_score,
            competitor_player.player_correct_rate,
            poem_mill_time,
        );
        let player = Player {
            endpoint_id: None,
            player_id: robot.id.clone(),
            player_name: robot.name.clone(),
            player_level: robot.level,
            player_elo_score: robot.elo_score,
            player_correct_rate: robot.correct_rate,
            game_start_timestamp: curr_timestamp,
            next_opt_index: 0,
            next_opt_timeout_timestamp: -1,
            opt_bitmap: 0,
            is_dirty: false,
            robot: Some(robot),
            game_score: 0,
        };
        player
    }
}

/// The slot a matchmaking request turns into, before a game resets it.
pub open spec fn player_from_match(match_request: MatchRequest, curr_timestamp: i64) -> Player {
    Player {
        endpoint_id: match_request.endpoint_id,
        player_id: match_request.player_id,
        player_name: match_request.player_name,
        player_level: match_request.player_level,
        player_elo_score: match_request.player_elo_score,
        player_correct_rate: match_request.player_correct_rate,
        game_start_timestamp: curr_timestamp,
        next_opt_index: 0i32,
        next_opt_timeout_timestamp: -1i64,
        opt_bitmap: 0u32,
        is_dirty: false,
        robot: None,
        game_score: 0u32,
    }
}

/// A bot slot fit to face `p1`: no endpoint, the same level, an Elo within
/// ten points, an accuracy in [40, 80], a fresh progress state, and a bot
/// whose early offset fits the window.
pub open spec fn is_bot_slot_for(p2: Player, p1: Player, q: int, t: int) -> bool {
    &&& p2.endpoint_id is None
    &&& p2.player_level == p1.player_level
    &&& (exists|off: int|
        -10 <= off <= 10 && p2.player_elo_score as int == #[trigger] crate::robot::clamped_elo(
            p1.player_elo_score,
            off,
        ))
    &&& 40 <= p2.player_correct_rate <= 80
    &&& p2.game_start_timestamp == t
    &&& p2.next_opt_index == 0
    &&& p2.next_opt_timeout_timestamp == -1
    &&& p2.opt_bitmap == 0
    &&& !p2.is_dirty
    &&& p2.game_score == 0
    &&& (p2.robot matches Some(rb) && 1 <= rb.next_early_opt_time <= q / 2 && rb.correct_rate
        == p2.player_correct_rate)
}

/// A human slot built from a matchmaking request, ready for a new game.
pub fn create_player_from_match(match_request: MatchRequest, curr_timestamp: i64) -> (r: Player)
    ensures
        r == player_from_match(match_request, curr_timestamp),
        r.next_opt_index == 0,
        r.opt_bitmap == 0,
        !r.is_dirty,
        r.robot is None,
        r.game_score == 0,
{
    Player {
        endpoint_id: match_request.endpoint_id,
        player_id: match_request.player_id,
        player_name: match_request.player_name,
        player_level: match_request.player_level,
        player_elo_score: match_request.player_elo_score,
        player_correct_rate: match_request.player_correct_rate,
        game_start_timestamp: curr_timestamp,
        next_opt_index: 0,
        next_opt_timeout_timestamp: -1,
        opt_bitmap: 0,
        is_dirty: false,
        robot: None,
        game_score: 0,
    }
}

} // verus!
