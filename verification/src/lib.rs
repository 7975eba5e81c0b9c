//! Authoritative game server core for a head-to-head poetry-matching quiz:
//! matchmaking by Elo proximity with time-escalating tolerance and bot
//! fallback, a deterministic per-game round engine over timed questions,
//! and the wire-protocol codec used to talk to clients.

use vstd::prelude::*;

pub mod b64;
pub mod common;
pub mod gamematch;
pub mod gameplay;
pub mod config;
pub mod jsontext;
pub mod models;
pub mod petable;
pub mod poemtable;
pub mod proto;
pub mod rng;
pub mod robot;
pub mod server;
pub mod robottable;

pub use common::RedisOpt;
pub use common::Signal;

verus! {

} // verus!
