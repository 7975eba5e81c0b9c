//! The matchmaker: a FIFO pending pool paired by Elo proximity under a
//! time-escalating tolerance, with a bot fallback once a lone player has
//! waited long enough. `update_matches` is specified exactly by
//! `mm_decision`, so one pool and one clock admit exactly one emission.

use vstd::prelude::*;

verus! {

use crate::common::max_timestamp_ms;
use crate::petable::PERecord;
use crate::petable::PETable;
use crate::petable::elo_gap;
use crate::petable::pet_lookup;

/// A pending matchmaking request.
pub struct MatchRequest {
    pub endpoint_id: Option<String>,
    pub player_id: String,
    pub player_name: String,
    pub player_level: u32,
    pub player_elo_score: u32,
    pub player_correct_rate: u32,
    pub timestamp: i64,
}

/// The Elo gap between two requests.
pub open spec fn req_gap(a: MatchRequest, b: MatchRequest) -> int {
    elo_gap(a.player_elo_score, b.player_elo_score)
}

/// Best partner for `i` among indices below `upto`: smallest Elo gap,
/// later arrival winning ties; -1 when no candidate exists.
pub open spec fn best_partner_upto(pool: Seq<MatchRequest>, i: int, upto: int) -> int
    decreases upto,
{
    if upto <= 0 {
        -1
    } else {
        let prev = best_partner_upto(pool, i, upto - 1);
        let j = upto - 1;
        if j == i {
            prev
        } else if prev < 0 {
            j
        } else if req_gap(pool[i], pool[j]) <= req_gap(pool[i], pool[prev]) {
            j
        } else {
            prev
        }
    }
}

pub open spec fn best_partner(pool: Seq<MatchRequest>, i: int) -> int {
    best_partner_upto(pool, i, pool.len() as int)
}

/// The admission table: how long a request has waited decides how coarse an
/// Elo-gap group it will accept.
pub open spec fn admit_pair(wait: int, group: int) -> bool {
    (wait <= 1000 && group <= 0) || (wait <= 2500 && group <= 1) || (wait <= 3500 && group <= 2)
        || (wait <= 4500 && group <= 3) || (wait > 4500 && group <= 4)
}

/// Tolerance group of a prospective pair.
pub open spec fn mm_group(pet: Seq<PERecord>, a: MatchRequest, b: MatchRequest) -> int {
    pet_lookup(pet, req_gap(a, b)).2 as int
}

/// The matchmaker's decision, scanning the pool from index `i` in arrival
/// order: `Some((i, j))` emits the pair at `i` and `j`; `Some((i, -1))`
/// emits a solo (bot fallback); `None` waits.
pub open spec fn mm_decision_from(
    pool: Seq<MatchRequest>,
    now: int,
    pet: Seq<PERecord>,
    i: int,
) -> Option<(int, int)>
    decreases pool.len() - i,
{
    if i < 0 || i >= pool.len() {
        None
    } else {
        let j = best_partner(pool, i);
        let wait = now - pool[i].timestamp;
        if j < 0 {
            if wait > 4500 {
                Some((i, -1))
            } else {
                None
            }
        } else if admit_pair(wait, mm_group(pet, pool[i], pool[j])) {
            Some((i, j))
        } else {
            mm_decision_from(pool, now, pet, i + 1)
        }
    }
}

pub open spec fn mm_decision(pool: Seq<MatchRequest>, now: int, pet: Seq<PERecord>) -> Option<
    (int, int),
> {
    mm_decision_from(pool, now, pet, 0)
}

/// Tolerance escalation: whatever the pool, a pair is emitted only when its
/// wait and Elo-gap group satisfy the admission table.
pub proof fn lemma_tolerance_escalation(pool: Seq<MatchRequest>, now: int, pet: Seq<PERecord>)
    ensures
        match mm_decision(pool, now, pet) {
            Some(p) => p.1 >= 0 ==> admit_pair(
                now - pool[p.0].timestamp,
                mm_group(pet, pool[p.0], pool[p.1]),
            ),
            None => true,
        },
{
    lemma_tolerance_escalation_from(pool, now, pet, 0);
}

pub proof fn lemma_tolerance_escalation_from(
    pool: Seq<MatchRequest>,
    now: int,
    pet: Seq<PERecord>,
    i: int,
)
    ensures
        match mm_decision_from(pool, now, pet, i) {
            Some(p) => p.1 >= 0 ==> admit_pair(
                now - pool[p.0].timestamp,
                mm_group(pet, pool[p.0], pool[p.1]),
            ),
            None => true,
        },
    decreases pool.len() - i,
{
    if 0 <= i < pool.len() {
        lemma_tolerance_escalation_from(pool, now, pet, i + 1);
    }
}

/// Pairing determinism: two pools with the same requests, clock and table
/// yield the same emission.
pub proof fn lemma_pairing_determinism(
    pool1: Seq<MatchRequest>,
    pool2: Seq<MatchRequest>,
    now: int,
    pet: Seq<PERecord>,
)
    requires
        pool1 == pool2,
    ensures
        mm_decision(pool1, now, pet) == mm_decision(pool2, now, pet),
{
}

/// Removing a request keeps every remaining arrival time in range.
proof fn lemma_wf_remove(pool: Seq<MatchRequest>, i: int)
    requires
        0 <= i < pool.len(),
        forall|k: int|
            0 <= k < pool.len() ==> 0 <= (#[trigger] pool[k]).timestamp <= max_timestamp_ms(),
    ensures
        forall|k: int|
            0 <= k < pool.remove(i).len() ==> 0 <= (#[trigger] pool.remove(i)[k]).timestamp
                <= max_timestamp_ms(),
{
    pool.remove_ensures(i);
    assert forall|k: int| 0 <= k < pool.remove(i).len() implies 0 <= (#[trigger] pool.remove(
        i,
    )[k]).timestamp <= max_timestamp_ms() by {
        if k < i {
            assert(pool.remove(i)[k] == pool[k]);
        } else {
            assert(pool.remove(i)[k] == pool[k + 1]);
        }
    }
}

pub struct MatchController {
    pub match_vec: Vec<MatchRequest>,
    pub last_update_timestamp: i64,
    pub pe_table: PETable,
}

impl MatchController {
    /// Every pending request carries a sane arrival time.
    pub open spec fn wf(&self) -> bool {
        forall|k: int|
            0 <= k < self.match_vec@.len() ==> 0 <= (#[trigger] self.match_vec@[k]).timestamp
                <= max_timestamp_ms()
    }

    pub fn new(pe_table: PETable) -> (r: Self)
        ensures
            r.match_vec@.len() == 0,
            r.pe_table.pe_vec@ == pe_table.pe_vec@,
            r.last_update_timestamp == -1,
            r.wf(),
    {
        Self { last_update_timestamp: -1, pe_table, match_vec: Vec::new() }
    }

    pub fn add_match(&mut self, match_request: MatchRequest)
        requires
            old(self).wf(),
            0 <= match_request.timestamp <= max_timestamp_ms(),
        ensures
            final(self).wf(),
            final(self).match_vec@ == old(self).match_vec@.push(match_request),
            final(self).pe_table.pe_vec@ == old(self).pe_table.pe_vec@,
            final(self).last_update_timestamp == old(self).last_update_timestamp,
    {
        self.match_vec.push(match_request);
    }

    /// One matchmaking pass: emits at most one pair or solo, exactly as
    /// `mm_decision` dictates, removing the involved requests (the
    /// later-indexed one first, so the other index stays valid).
    #[verifier::loop_isolation(false)]
    pub fn update_matches(&mut self, curr_timestamp: i64) -> (r: Option<
        (Option<MatchRequest>, Option<MatchRequest>),
    >)
        requires
            old(self).wf(),
            0 <= curr_timestamp <= max_timestamp_ms(),
        ensures
            final(self).wf(),
            final(self).pe_table.pe_vec@ == old(self).pe_table.pe_vec@,
            final(self).last_update_timestamp == curr_timestamp,
            ({
                let pool = old(self).match_vec@;
                let pet = old(self).pe_table.pe_vec@;
                match mm_decision(pool, curr_timestamp as int, pet) {
                    None => r is None && final(self).match_vec@ == pool,
                    Some(p) => {
                        &&& r matches Some(q)
                        &&& q.0 matches Some(a) && a == pool[p.0]
                        &&& if p.1 < 0 {
                            q.1 is None && final(self).match_vec@ == pool.remove(p.0)
                        } else {
                            q.1 matches Some(b) && b == pool[p.1] && final(self).match_vec@ == (if p.0
                                < p.1 {
                                pool.remove(p.1).remove(p.0)
                            } else {
                                pool.remove(p.0).remove(p.1)
                            })
                        }
                    },
                }
            }),
    {
        self.last_update_timestamp = curr_timestamp;
        let ghost pool0 = self.match_vec@;
        let ghost pet = self.pe_table.pe_vec@;
        let ghost now = curr_timestamp as int;
        let len = self.match_vec.len();
        if len == 0 {
            return None;
        }
        let mut imain: usize = 0;
        while imain < len
            invariant
                0 <= imain <= len,
                self.match_vec@ == pool0,
                self.pe_table.pe_vec@ == pet,
                self.last_update_timestamp == curr_timestamp,
                mm_decision_from(pool0, now, pet, 0) == mm_decision_from(
                    pool0,
                    now,
                    pet,
                    imain as int,
                ),
            decreases len - imain,
        {
            // find the best partner for imain
            let mut best: usize = 0;
            let mut best_gap: u32 = 0;
            let mut have_best: bool = false;
            let mut icheck: usize = 0;
            while icheck < len
                invariant
                    0 <= icheck <= len,
                    imain < len,
                    self.match_vec@ == pool0,
                    !have_best ==> best_partner_upto(pool0, imain as int, icheck as int) == -1,
                    have_best ==> best < len && best != imain && best_partner_upto(
                        pool0,
                        imain as int,
                        icheck as int,
                    ) == best as int && best_gap as int == req_gap(
                        pool0[imain as int],
                        pool0[best as int],
                    ),
                decreases len - icheck,
            {
                if icheck != imain {
                    let e1 = self.match_vec[imain].player_elo_score;
                    let e2 = self.match_vec[icheck].player_elo_score;
                    let g: u32 = if e1 > e2 {
                        e1 - e2
                    } else {
                        e2 - e1
                    };
                    assert(g as int == req_gap(pool0[imain as int], pool0[icheck as int]));
                    if !have_best || g <= best_gap {
                        best = icheck;
                        best_gap = g;
                        have_best = true;
                    }
                }
                icheck = icheck + 1;
            }
            let wait: i64 = curr_timestamp - self.match_vec[imain].timestamp;
            if have_best {
                let (_ea, _eb, group) = self.pe_table.get_ea_eb(
                    self.match_vec[imain].player_elo_score,
                    self.match_vec[best].player_elo_score,
                );
                assert(group as int == mm_group(pet, pool0[imain as int], pool0[best as int]));
                let matched: bool = (wait <= 1000 && group == 0) || (wait <= 2500 && group <= 1)
                    || (wait <= 3500 && group <= 2) || (wait <= 4500 && group <= 3) || (wait > 4500
                    && group <= 4);
                assert(matched == admit_pair(
                    now - pool0[imain as int].timestamp,
                    mm_group(pet, pool0[imain as int], pool0[best as int]),
                ));
                if matched {
                    assert(mm_decision(pool0, now, pet) == Some((imain as int, best as int)));
                    if imain < best {
                        let b_req = self.match_vec.remove(best);
                        let a_req = self.match_vec.remove(imain);
                        proof {
                            lemma_wf_remove(pool0, best as int);
                            lemma_wf_remove(pool0.remove(best as int), imain as int);
                        }
                        return Some((Some(a_req), Some(b_req)));
                    } else {
                        let a_req = self.match_vec.remove(imain);
                        let b_req = self.match_vec.remove(best);
                        proof {
                            lemma_wf_remove(pool0, imain as int);
                            lemma_wf_remove(pool0.remove(imain as int), best as int);
                        }
                        return Some((Some(a_req), Some(b_req)));
                    }
                }
            } else {
                if wait > 4500 {
                    assert(mm_decision(pool0, now, pet) == Some((imain as int, -1int)));
                    let a_req = self.match_vec.remove(imain);
                    proof {
                        lemma_wf_remove(pool0, imain as int);
                    }
                    return Some((Some(a_req), None));
                }
            }
            imain = imain + 1;
        }
        return None;
    }
}

} // verus!