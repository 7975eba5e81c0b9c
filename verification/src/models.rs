//! A compact variant of the in-round state machine: a FIFO match queue and
//! per-slot progress tracked by the last answered index. The transitions
//! mirror the round engine's, with every state change a plain function of
//! the inputs.

use vstd::prelude::*;

verus! {

use std::collections::VecDeque;

use crate::common::max_timestamp_ms;
use crate::jsontext::chars_to_string;
use crate::jsontext::dec_digits;
use crate::jsontext::encode_u64_into;
use crate::proto::CGMatchGameOpt;
use crate::proto::CGStartMatch;

/// Questions per round.
pub const MATCH_POEM_NUM: i32 = 10;

/// A queued match request: the requesting connection, the client's
/// start-match record, and when it arrived.
pub struct MatchingReq {
    pub endpoint_id: String,
    pub cg_match_info: CGStartMatch,
    pub start_match_timestamp: i64,
}

/// A FIFO of pending match requests.
pub struct MatchQueue {
    pub queue: VecDeque<MatchingReq>,
}

impl MatchQueue {
    pub fn new() -> (r: Self)
        ensures
            r.queue@.len() == 0,
    {
        Self { queue: VecDeque::new() }
    }

    /// Arrival time of the oldest request, or -1 when the queue is empty.
    pub fn front_match_timestamp(&self) -> (r: i64)
        ensures
            self.queue@.len() > 0 ==> r == self.queue@[0].start_match_timestamp,
            self.queue@.len() == 0 ==> r == -1,
    {
        if self.queue.len() > 0 {
            self.queue[0].start_match_timestamp
        } else {
            -1
        }
    }

    pub fn add_match(&mut self, matching_req: MatchingReq)
        ensures
            final(self).queue@ == old(self).queue@.push(matching_req),
    {
        self.queue.push_back(matching_req);
    }

    /// Pop the oldest request, if any.
    pub fn get_front(&mut self) -> (r: Option<MatchingReq>)
        ensures
            ({
                let q0 = old(self).queue@;
                let q1 = final(self).queue@;
                &&& (q0.len() > 0 ==> (r matches Some(m) && m == q0[0] && q1 == q0.drop_first()))
                &&& (q0.len() == 0 ==> (r is None && q1 == q0))
            }),
    {
        self.queue.pop_front()
    }

    /// How many requests wait.
    pub fn match_count(&self) -> (r: u32)
        ensures
            self.queue@.len() < 4294967296 ==> r == self.queue@.len(),
    {
        self.queue.len() as u32
    }
}

/// One slot's progress: the last answered index (-1 before the first
/// answer) and the bitmap of wrong or timed-out questions.
pub struct MatchPlayer {
    pub id: String,
    pub endpoint_id: String,
    pub name: String,
    pub last_opt_timestamp: i64,
    pub last_opt_index: i32,
    pub opt_bitmap: u32,
    pub is_dirty: bool,
}

/// The slot's index stays within the round and no bit above the last
/// answered index is set.
pub open spec fn mp_wf(p: MatchPlayer) -> bool {
    &&& -1 <= p.last_opt_index <= MATCH_POEM_NUM - 1
    &&& p.opt_bitmap < (1u32 << ((p.last_opt_index + 1) as u32))
}

/// The slot after one client answer: the in-order answer records its
/// result bit and advances; any other index leaves the progress alone.
/// Either way the slot is marked dirty, so the next sync reports it.
pub open spec fn mp_after_opt(p: MatchPlayer, opt_index: u32, opt_result: u32) -> MatchPlayer {
    if p.last_opt_index + 1 == opt_index && opt_index <= 9 && opt_result <= 1 {
        MatchPlayer {
            last_opt_index: (p.last_opt_index + 1) as i32,
            opt_bitmap: p.opt_bitmap | (opt_result << ((p.last_opt_index + 1) as u32)),
            is_dirty: true,
            ..p
        }
    } else {
        MatchPlayer { is_dirty: true, ..p }
    }
}

/// The slot after a timeout step: the next question is marked failed and
/// the slot advances, unless the round is already over.
pub open spec fn mp_after_timeout(p: MatchPlayer) -> MatchPlayer {
    if p.last_opt_index < MATCH_POEM_NUM - 1 {
        MatchPlayer {
            last_opt_index: (p.last_opt_index + 1) as i32,
            opt_bitmap: p.opt_bitmap | (1u32 << ((p.last_opt_index + 1) as u32)),
            is_dirty: true,
            ..p
        }
    } else {
        p
    }
}

proof fn lemma_mp_bitmap_step(bm: u32, r: u32, n: u32)
    requires
        n < 10,
        r <= 1,
        bm < (1u32 << n),
    ensures
        (bm | (r << n)) < (1u32 << (n + 1) as u32),
{
    assert((bm | (r << n)) < (1u32 << (n + 1) as u32)) by (bit_vector)
        requires
            n < 10,
            r <= 1,
            bm < (1u32 << n),
    ;
}

impl MatchPlayer {
    pub fn new(endpoint_id: String, id: String, name: String, last_opt_timestamp: i64) -> (r:
        MatchPlayer)
        ensures
            r.id == id,
            r.endpoint_id == endpoint_id,
            r.name == name,
            r.last_opt_timestamp == last_opt_timestamp,
            r.last_opt_index == -1,
            r.opt_bitmap == 0,
            !r.is_dirty,
            mp_wf(r),
    {
        proof {
            assert(0u32 < (1u32 << 0u32)) by (bit_vector);
        }
        MatchPlayer {
            id,
            endpoint_id,
            name,
            last_opt_timestamp,
            last_opt_index: -1,
            opt_bitmap: 0,
            is_dirty: false,
        }
    }

    /// Has this slot answered every question?
    pub fn is_all_opt_end(&self) -> (r: bool)
        requires
            self.last_opt_index < i32::MAX,
        ensures
            r == (self.last_opt_index + 1 == MATCH_POEM_NUM),
    {
        self.last_opt_index + 1 == MATCH_POEM_NUM
    }

    /// Ingest one client answer.
    pub fn on_opt(&mut self, opt: CGMatchGameOpt, curr_timestamp: i64)
        requires
            mp_wf(*old(self)),
        ensures
            *final(self) == mp_after_opt(*old(self), opt.opt_index, opt.opt_result),
            mp_wf(*final(self)),
    {
        if opt.opt_index <= 9 && self.last_opt_index + 1 == opt.opt_index as i32 && opt.opt_result
            <= 1 {
            let n = self.last_opt_index + 1;
            proof {
                lemma_mp_bitmap_step(self.opt_bitmap, opt.opt_result, n as u32);
            }
            self.last_opt_index = n;
            self.opt_bitmap = self.opt_bitmap | (opt.opt_result << (n as u32));
        }
        self.is_dirty = true;
    }

    /// Mark the next question failed and advance.
    pub fn update_opt_timeout_status(&mut self, curr_timestamp: i64)
        requires
            mp_wf(*old(self)),
        ensures
            *final(self) == mp_after_timeout(*old(self)),
            mp_wf(*final(self)),
    {
        if self.last_opt_index < MATCH_POEM_NUM - 1 {
            let n = self.last_opt_index + 1;
            proof {
                lemma_mp_bitmap_step(self.opt_bitmap, 1u32, n as u32);
            }
            self.last_opt_index = n;
            self.opt_bitmap = self.opt_bitmap | (1u32 << (n as u32));
            self.is_dirty = true;
        }
    }

    /// Read and clear the dirty flag.
    pub fn is_dirty(&mut self) -> (r: bool)
        ensures
            r == old(self).is_dirty,
            *final(self) == (MatchPlayer { is_dirty: false, ..*old(self) }),
    {
        let tmp_is_dirty = self.is_dirty;
        self.is_dirty = false;
        tmp_is_dirty
    }
}

/// A running game of the compact variant.
pub struct MatchGame {
    pub id: String,
    pub start_timestamp: i64,
    pub player1: MatchPlayer,
    pub player2: MatchPlayer,
    pub is_gaming: bool,
    pub is_dirty: bool,
}

impl MatchGame {
    pub fn new(player1: MatchPlayer, player2: MatchPlayer, start_timestamp: i64) -> (r: MatchGame)
        requires
            0 <= start_timestamp <= max_timestamp_ms(),
        ensures
            r.id@ == player1.id@ + "_"@ + player2.id@ + "_"@ + dec_digits(start_timestamp as int),
            r.start_timestamp == start_timestamp,
            r.player1 == player1,
            r.player2 == player2,
            r.is_gaming,
            !r.is_dirty,
    {
        let mut id = player1.id.clone();
        id.append("_");
        id.append(player2.id.as_str());
        id.append("_");
        let mut ts_chars: Vec<char> = Vec::new();
        encode_u64_into(&mut ts_chars, start_timestamp as u64);
        let ts_str = chars_to_string(&ts_chars);
        id.append(ts_str.as_str());
        MatchGame { id, start_timestamp, player1, player2, is_gaming: true, is_dirty: false }
    }

    /// Read and clear the game and slot dirty flags.
    pub fn is_dirty(&mut self) -> (r: bool)
        ensures
            r == (old(self).is_dirty || old(self).player1.is_dirty || old(self).player2.is_dirty),
            final(self).is_dirty == false,
            final(self).player1 == (MatchPlayer { is_dirty: false, ..old(self).player1 }),
            final(self).player2 == (MatchPlayer { is_dirty: false, ..old(self).player2 }),
            final(self).id == old(self).id,
            final(self).is_gaming == old(self).is_gaming,
    {
        let d1 = self.player1.is_dirty();
        let d2 = self.player2.is_dirty();
        let is_dirty = self.is_dirty || d1 || d2;
        self.is_dirty = false;
        is_dirty
    }

    /// Route one client answer to the slot it names.
    pub fn on_opt(&mut self, opt: CGMatchGameOpt, curr_timestamp: i64)
        requires
            mp_wf(old(self).player1),
            mp_wf(old(self).player2),
        ensures
            mp_wf(final(self).player1),
            mp_wf(final(self).player2),
            ({
                let a0 = old(self).player1;
                let b0 = old(self).player2;
                let a1 = final(self).player1;
                let b1 = final(self).player2;
                &&& (opt.id@ == a0.id@ ==> a1 == mp_after_opt(a0, opt.opt_index, opt.opt_result)
                    && b1 == b0)
                &&& (opt.id@ != a0.id@ && opt.id@ == b0.id@ ==> b1 == mp_after_opt(
                    b0,
                    opt.opt_index,
                    opt.opt_result,
                ) && a1 == a0)
                &&& (opt.id@ != a0.id@ && opt.id@ != b0.id@ ==> a1 == a0 && b1 == b0)
            }),
            final(self).is_gaming == old(self).is_gaming,
            final(self).id == old(self).id,
    {
        if opt.id == self.player1.id {
            self.player1.on_opt(opt, curr_timestamp);
        } else if opt.id == self.player2.id {
            self.player2.on_opt(opt, curr_timestamp);
        }
    }

    /// Flip to ended once both slots are finished.
    pub fn update_end_status(&mut self)
        requires
            old(self).player1.last_opt_index < i32::MAX,
            old(self).player2.last_opt_index < i32::MAX,
        ensures
            final(self).is_gaming == (old(self).is_gaming && !(old(self).player1.last_opt_index
                + 1 == MATCH_POEM_NUM && old(self).player2.last_opt_index + 1 == MATCH_POEM_NUM)),
            final(self).player1 == old(self).player1,
            final(self).player2 == old(self).player2,
            final(self).id == old(self).id,
    {
        if self.player1.is_all_opt_end() && self.player2.is_all_opt_end() {
            self.is_gaming = false;
            self.is_dirty = true;
        }
    }

    pub fn is_game_end(&self) -> (r: bool)
        ensures
            r == !self.is_gaming,
    {
        !self.is_gaming
    }

    /// Time out the next question in both slots.
    pub fn update_opt_timeout_status(&mut self, curr_timestamp: i64)
        requires
            mp_wf(old(self).player1),
            mp_wf(old(self).player2),
        ensures
            final(self).player1 == mp_after_timeout(old(self).player1),
            final(self).player2 == mp_after_timeout(old(self).player2),
            final(self).is_gaming == old(self).is_gaming,
            final(self).id == old(self).id,
    {
        self.player1.update_opt_timeout_status(curr_timestamp);
        self.player2.update_opt_timeout_status(curr_timestamp);
    }
}

} // verus!
