//! Outbound signal and persistence event types shared by the whole core.

use vstd::prelude::*;

verus! {

/// Upper bound on every wall-clock timestamp the core accepts, in
/// milliseconds: far beyond any real date, yet small enough that clock
/// arithmetic can never overflow an `i64`.
pub open spec fn max_timestamp_ms() -> int {
    4_000_000_000_000_000
}

/// An outbound message for the transport layer: either a frame for one
/// endpoint, or a frame synced to both players of a game (a `None` endpoint
/// is a bot or a disconnected player and is silently skipped by the sender).
#[derive(Clone)]
pub enum Signal {
    Send(String, String),
    Sync(Option<String>, Option<String>, String),
}

/// A typed persistence event for the store worker: a player's progress row,
/// the running game count, or the connected client count.
#[derive(Clone)]
pub enum RedisOpt {
    GamePlayerData(String, u32),
    GameStatus(u32),
    ServerStatus(u32),
}

} // verus!
