//! The game thread's decision core. The embedding program owns the network
//! and the clock; it hands every inbound frame to `handle_message` and
//! calls `tick` at its cadence, then delivers the returned signals and the
//! drained persistence events. All rules live here, verified; the loop
//! around it only moves bytes.

use vstd::prelude::*;

verus! {

use crate::b64::b64_of;
use crate::common::Signal;
use crate::common::max_timestamp_ms;
use crate::gamematch::MatchController;
use crate::gamematch::MatchRequest;
use crate::gameplay::Game;
use crate::gameplay::MatchGameController;
use crate::gameplay::POEM_RESULT_WAIT;
use crate::gameplay::Player;
use crate::gameplay::create_player_from_match;
use crate::gameplay::engine_tick_post;
use crate::gameplay::find_game;
use crate::gameplay::game_after_opt;
use crate::gameplay::game_after_opt_view;
use crate::gameplay::game_tick_rel;
use crate::gameplay::is_bot_slot_for;
use crate::gameplay::player_from_match;
use crate::gameplay::survivors_of;
use crate::gameplay::tick_signals_match;
use crate::gamematch::mm_decision;
use crate::jsontext::enc_obj;
use crate::proto::CGMatchGameOptV;
use crate::proto::CGStartMatchV;
use crate::proto::cg_match_game_opt_fields;
use crate::proto::GCStartMatch;
use crate::proto::GCStartMatchV;
use crate::proto::PROTO_CGMATCHGAMEOPT;
use crate::proto::PROTO_CGSTARTMATCH;
use crate::proto::PROTO_GCSTARTMATCH;
use crate::proto::ProtoData;
use crate::proto::cg_start_match_fields;
use crate::proto::gc_start_match_fields;
use crate::proto::spec_dec_frame;
use crate::proto::spec_frame;

/// Is a player id already matching or in a game?
pub open spec fn player_active(m: Seq<(String, i64)>, id: Seq<char>) -> bool {
    exists|k: int| 0 <= k < m.len() && (#[trigger] m[k]).0@ == id
}

/// Does this wire text carry the start-match record `v`?
pub open spec fn is_start_match_frame(t: Seq<char>, v: CGStartMatchV) -> bool {
    spec_dec_frame(t) matches Some(pr) && pr.0 == PROTO_CGSTARTMATCH && pr.1 == b64_of(
        enc_obj(cg_start_match_fields(v)),
    )
}

/// Does this wire text carry the game-answer record `v`?
pub open spec fn is_game_opt_frame(t: Seq<char>, v: CGMatchGameOptV) -> bool {
    spec_dec_frame(t) matches Some(pr) && pr.0 == PROTO_CGMATCHGAMEOPT && pr.1 == b64_of(
        enc_obj(cg_match_game_opt_fields(v)),
    )
}

/// The wire text of the start-match reply carrying `code`.
pub open spec fn start_match_reply(code: i32) -> Seq<char> {
    spec_frame(
        PROTO_GCSTARTMATCH as int,
        b64_of(enc_obj(gc_start_match_fields(GCStartMatchV { code }))),
    )
}

/// Interval between engine/matchmaker updates, in milliseconds.
pub const TICK_MS: i64 = 33;

pub struct GameServer {
    pub gaming_player_map: Vec<(String, i64)>,
    pub match_controller: MatchController,
    pub match_game_controller: MatchGameController,
    pub last_update_timestamp: i64,
}

impl GameServer {
    pub open spec fn wf(&self) -> bool {
        &&& self.match_controller.wf()
        &&& self.match_game_controller.wf()
        &&& 0 <= self.last_update_timestamp <= max_timestamp_ms()
    }

    pub fn new(
        match_controller: MatchController,
        match_game_controller: MatchGameController,
        start_timestamp: i64,
    ) -> (r: Self)
        requires
            match_controller.wf(),
            match_game_controller.wf(),
            0 <= start_timestamp <= max_timestamp_ms(),
        ensures
            r.wf(),
            r.gaming_player_map@.len() == 0,
            r.match_controller == match_controller,
            r.match_game_controller == match_game_controller,
            r.last_update_timestamp == start_timestamp,
    {
        Self {
            gaming_player_map: Vec::new(),
            match_controller,
            match_game_controller,
            last_update_timestamp: start_timestamp,
        }
    }

    /// Handle one inbound frame. A start-match request from a player who is
    /// already active is answered with code -1 and changes nothing; a fresh
    /// one is admitted to the pool and answered with code 0 (replies go
    /// only to a non-empty endpoint). A game answer is routed to the round
    /// engine. A frame whose envelope does not decode, or whose protocol id
    /// is unknown, is dropped and changes nothing; a known id whose payload
    /// is not the encoding of any record changes nothing either, its reply
    /// and routing decided by what the base64 decoder returned.
    #[verifier::loop_isolation(false)]
    pub fn handle_message(
        &mut self,
        endpoint_id: String,
        json_str: String,
        curr_timestamp: i64,
    ) -> (r: Vec<Signal>)
        requires
            old(self).wf(),
            0 <= curr_timestamp <= max_timestamp_ms(),
        ensures
            final(self).wf(),
            final(self).last_update_timestamp == old(self).last_update_timestamp,
            r@.len() <= 1,
            // an undecodable envelope, or an unknown protocol id, is dropped
            ({
                let keep = *final(self) == *old(self) && r@.len() == 0;
                match spec_dec_frame(json_str@) {
                    None => keep,
                    Some(pr) => (pr.0 != PROTO_CGSTARTMATCH && pr.0 != PROTO_CGMATCHGAMEOPT)
                        ==> keep,
                }
            }),
            // what a start-match frame does, for every record it may carry
            forall|v: CGStartMatchV|
                #[trigger] is_start_match_frame(json_str@, v) ==> ({
                    let dup = player_active(old(self).gaming_player_map@, v.id);
                    let code: i32 = if dup {
                        -1i32
                    } else {
                        0i32
                    };
                    &&& (dup ==> final(self).gaming_player_map@ == old(self).gaming_player_map@
                        && final(self).match_controller.match_vec@ == old(
                        self,
                    ).match_controller.match_vec@)
                    &&& (!dup ==> final(self).gaming_player_map@.len() == old(
                        self,
                    ).gaming_player_map@.len() + 1 && final(self).gaming_player_map@.last().0@
                        == v.id && final(self).match_controller.match_vec@.len() == old(
                        self,
                    ).match_controller.match_vec@.len() + 1 && ({
                        let req = final(self).match_controller.match_vec@.last();
                        req.player_id@ == v.id && req.player_name@ == v.name && req.player_level
                            == v.level && req.player_elo_score == v.elo_score
                            && req.player_correct_rate == v.correct_rate && req.timestamp
                            == curr_timestamp
                    }))
                    &&& (endpoint_id@.len() > 0 ==> r@.len() == 1 && (r@[0] matches Signal::Send(
                        e,
                        p,
                    ) && e@ == endpoint_id@ && p@ == start_match_reply(code)))
                    &&& (endpoint_id@.len() == 0 ==> r@.len() == 0)
                }),
            // what a game-answer frame does, for every record it may carry
            forall|v: CGMatchGameOptV|
                #[trigger] is_game_opt_frame(json_str@, v) ==> ({
                    let ctrl0 = old(self).match_game_controller;
                    let ctrl1 = final(self).match_game_controller;
                    let k = find_game(ctrl0.game_map@, v.game_id);
                    &&& r@.len() == 0
                    &&& final(self).gaming_player_map@ == old(self).gaming_player_map@
                    &&& final(self).match_controller.match_vec@ == old(
                        self,
                    ).match_controller.match_vec@
                    &&& (k < 0 ==> ctrl1.game_map@ == ctrl0.game_map@)
                    &&& (k >= 0 ==> ctrl1.game_map@ == ctrl0.game_map@.update(
                        k,
                        game_after_opt_view(
                            ctrl0.game_map@[k],
                            v,
                            curr_timestamp as int,
                            ctrl0.poem_mill_time as int,
                            ctrl0.poem_score,
                        ),
                    ))
                }),
    {
        let mut out: Vec<Signal> = Vec::new();
        let parsed = ProtoData::cg_to_proto_json_str(json_str);
        let (proto_id, proto_json_str) = match parsed {
            Some(p) => p,
            None => {
                return out;
            },
        };
        if proto_id == PROTO_CGSTARTMATCH {
            let match_info = match ProtoData::deserialize_start_match(proto_json_str) {
                Some(mi) => mi,
                None => {
                    return out;
                },
            };
            // duplicate check against the active-player set
            let n = self.gaming_player_map.len();
            let mut i: usize = 0;
            while i < n && !(self.gaming_player_map[i].0 == match_info.id)
                invariant
                    0 <= i <= n,
                    n == self.gaming_player_map@.len(),
                    self == old(self),
                    forall|k: int|
                        0 <= k < i ==> (#[trigger] self.gaming_player_map@[k]).0@
                            != match_info.id@,
                decreases n - i,
            {
                i = i + 1;
            }
            let dup = i < n;
            proof {
                if dup {
                    assert(player_active(self.gaming_player_map@, match_info.id@));
                } else {
                    assert(!player_active(self.gaming_player_map@, match_info.id@));
                }
            }
            let code: i32 = if dup {
                -1
            } else {
                0
            };
            if !dup {
                self.gaming_player_map.push((match_info.id.clone(), curr_timestamp));
                let match_request = MatchRequest {
                    endpoint_id: if endpoint_id.as_str().is_empty() {
                        None
                    } else {
                        Some(endpoint_id.clone())
                    },
                    player_id: match_info.id.clone(),
                    player_name: match_info.name.clone(),
                    player_level: match_info.level,
                    player_elo_score: match_info.elo_score,
                    player_correct_rate: match_info.correct_rate,
                    timestamp: curr_timestamp,
                };
                self.match_controller.add_match(match_request);
            }
            let reply = match ProtoData::gc_to_json_string(
                PROTO_GCSTARTMATCH,
                GCStartMatch { code },
            ) {
                Some(j) => j,
                None => vstd::pervasive::unreached(),
            };
            if !endpoint_id.as_str().is_empty() {
                out.push(Signal::Send(endpoint_id, reply));
            }
            out
        } else if proto_id == PROTO_CGMATCHGAMEOPT {
            let opt_info = match ProtoData::deserialize_game_opt(proto_json_str) {
                Some(oi) => oi,
                None => {
                    return out;
                },
            };
            let ghost ctrl0 = self.match_game_controller;
            self.match_game_controller.on_opt(opt_info, curr_timestamp);
            proof {
                assert forall|v: CGMatchGameOptV|
                    #[trigger] is_game_opt_frame(json_str@, v) implies ({
                    let k = find_game(ctrl0.game_map@, v.game_id);
                    &&& (k < 0 ==> self.match_game_controller.game_map@ == ctrl0.game_map@)
                    &&& (k >= 0 ==> self.match_game_controller.game_map@
                        == ctrl0.game_map@.update(
                        k,
                        game_after_opt_view(
                            ctrl0.game_map@[k],
                            v,
                            curr_timestamp as int,
                            ctrl0.poem_mill_time as int,
                            ctrl0.poem_score,
                        ),
                    ))
                }) by {
                    assert(opt_info@ == v);
                    let k = find_game(ctrl0.game_map@, v.game_id);
                    if k >= 0 {
                        assert(game_after_opt(
                            ctrl0.game_map@[k],
                            opt_info,
                            curr_timestamp as int,
                            ctrl0.poem_mill_time as int,
                            ctrl0.poem_score,
                        ) == game_after_opt_view(
                            ctrl0.game_map@[k],
                            v,
                            curr_timestamp as int,
                            ctrl0.poem_mill_time as int,
                            ctrl0.poem_score,
                        ));
                    }
                }
            }
            out
        } else {
            out
        }
    }

    /// One pass of the game thread's cadence: before `TICK_MS` milliseconds
    /// have passed since the last update nothing at all happens; otherwise
    /// the round engine runs once over every game (its signals come
    /// first), then the matchmaker steps once per `mm_decision`: an
    /// emitted pair opens a game for the two requests, an emitted solo
    /// opens one against a freshly built bot, and the opened game's start
    /// frame is the last returned signal (none on a failed sampling).
    #[verifier::rlimit(60)]
    pub fn tick(&mut self, rng: &mut rand::rngs::StdRng, curr_timestamp: i64) -> (r: Vec<Signal>)
        requires
            old(self).wf(),
            0 <= curr_timestamp <= max_timestamp_ms(),
        ensures
            final(self).wf(),
            ({
                let s0 = *old(self);
                let s1 = *final(self);
                &&& (curr_timestamp - s0.last_update_timestamp < TICK_MS ==> (s1 == s0 && r@.len()
                    == 0))
                &&& (curr_timestamp - s0.last_update_timestamp >= TICK_MS ==> ({
                    let now = curr_timestamp as int;
                    let pool = s0.match_controller.match_vec@;
                    let mpet = s0.match_controller.pe_table.pe_vec@;
                    let q = s0.match_game_controller.poem_mill_time;
                    let deadline = curr_timestamp + q + POEM_RESULT_WAIT;
                    &&& s1.last_update_timestamp == curr_timestamp
                    &&& s1.gaming_player_map@ == s0.gaming_player_map@
                    &&& (exists|mid: Seq<Game>, gn: int|
                        #![trigger mid.len(), r@.subrange(0, gn)]
                        {
                            &&& 0 <= gn <= r@.len()
                            &&& mid.len() == s0.match_game_controller.game_map@.len()
                            &&& (forall|k: int|
                                0 <= k < mid.len() ==> game_tick_rel(
                                    s0.match_game_controller.game_map@[k],
                                    #[trigger] mid[k],
                                    now,
                                    q as int,
                                    s0.match_game_controller.poem_score,
                                ))
                            &&& tick_signals_match(
                                r@.subrange(0, gn),
                                mid,
                                s0.match_game_controller.petable.pe_vec@,
                            )
                            &&& match mm_decision(pool, now, mpet) {
                                None => r@.len() == gn && s1.match_controller.match_vec@ == pool
                                    && s1.match_game_controller.game_map@ == survivors_of(mid),
                                Some(p) => {
                                    &&& s1.match_controller.match_vec@ == (if p.1 < 0 {
                                        pool.remove(p.0)
                                    } else if p.0 < p.1 {
                                        pool.remove(p.1).remove(p.0)
                                    } else {
                                        pool.remove(p.0).remove(p.1)
                                    })
                                    &&& gn <= r@.len() <= gn + 1
                                    &&& (r@.len() == gn
                                        ==> s1.match_game_controller.game_map@ == survivors_of(
                                        mid,
                                    ))
                                    &&& (r@.len() == gn + 1 ==> ({
                                        let p1g = player_from_match(pool[p.0], curr_timestamp);
                                        let gmap = s1.match_game_controller.game_map@;
                                        &&& gmap.len() == survivors_of(mid).len() + 1
                                        &&& gmap.drop_last() == survivors_of(mid)
                                        &&& ({
                                            let g = gmap.last();
                                            &&& g.is_gaming && !g.is_dirty && g.start_timestamp
                                                == curr_timestamp
                                            &&& g.player1 == (Player {
                                                next_opt_index: 0i32,
                                                next_opt_timeout_timestamp: deadline as i64,
                                                ..p1g
                                            })
                                            &&& (p.1 >= 0 ==> g.player2 == (Player {
                                                next_opt_index: 0i32,
                                                next_opt_timeout_timestamp: deadline as i64,
                                                ..player_from_match(pool[p.1], curr_timestamp)
                                            }))
                                            &&& (p.1 < 0 ==> (exists|p2b: Player|
                                                #[trigger] is_bot_slot_for(
                                                    p2b,
                                                    p1g,
                                                    q as int,
                                                    now,
                                                ) && g.player2 == (Player {
                                                    next_opt_index: 0i32,
                                                    next_opt_timeout_timestamp: deadline as i64,
                                                    ..p2b
                                                })))
                                            &&& (r@.last() matches Signal::Sync(e1, e2, _payload)
                                                && e1 == p1g.endpoint_id && e2
                                                == g.player2.endpoint_id)
                                        })
                                    }))
                                },
                            }
                        })
                }))
            }),
    {
        let mut out: Vec<Signal> = Vec::new();
        if curr_timestamp - self.last_update_timestamp >= TICK_MS {
            self.last_update_timestamp = curr_timestamp;
            let ghost mgc0 = self.match_game_controller;
            let ug = self.match_game_controller.update_games(rng, curr_timestamp);
            let ghost mgc1 = self.match_game_controller;
            let ghost gsigs: Seq<Signal> = match &ug {
                Some(v) => v@,
                None => Seq::<Signal>::empty(),
            };
            proof {
                reveal(engine_tick_post);
            }
            let ghost mid = choose|m: Seq<Game>|
                engine_tick_post(mgc0, mgc1, curr_timestamp as int, gsigs, m);
            match ug {
                Some(mut sync_signal_vec) => {
                    out.append(&mut sync_signal_vec);
                },
                None => {},
            }
            proof {
                assert(out@ == gsigs);
            }
            let ghost gn = gsigs.len() as int;
            match self.match_controller.update_matches(curr_timestamp) {
                Some(pair) => {
                    match pair.0 {
                        Some(match_request1) => {
                            let game_player1 = create_player_from_match(
                                match_request1,
                                curr_timestamp,
                            );
                            proof {
                                assert((1u32 << 0u32) == 1u32) by (bit_vector);
                            }
                            let game_player2 = match pair.1 {
                                Some(match_request2) => create_player_from_match(
                                    match_request2,
                                    curr_timestamp,
                                ),
                                None => {
                                    let q = self.match_game_controller.poem_mill_time;
                                    self.match_game_controller.create_robot_player(
                                        rng,
                                        &game_player1,
                                        curr_timestamp,
                                        q,
                                    )
                                },
                            };
                            match self.match_game_controller.start_new_game(
                                rng,
                                game_player1,
                                game_player2,
                                curr_timestamp,
                            ) {
                                Some(start_game_signal) => {
                                    out.push(start_game_signal);
                                },
                                None => {},
                            }
                        },
                        None => {},
                    }
                },
                None => {},
            }
            proof {
                assert(out@.subrange(0, gn) =~= gsigs);
            }
        }
        out
    }
}

} // verus!
