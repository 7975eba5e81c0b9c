//! The server's startup configuration. The values are read from disk by
//! the embedding program and handed in as plain data.

use vstd::prelude::*;

verus! {

/// Startup configuration: deployment area, listen port, per-question
/// answer window `poem_mill_time` (ms), per-question score `poem_score`,
/// and the leaderboard key the persistence worker writes under.
pub struct ServerConfig {
    pub area: String,
    pub port: u32,
    pub poem_mill_time: i64,
    pub poem_score: u32,
    pub match_data_key_name: String,
}

} // verus!
