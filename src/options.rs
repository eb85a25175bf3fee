use vstd::prelude::*;

verus! {

pub const HASH_SIZE: usize = 256;

pub const ENABLE_LOGGING: bool = false;

pub const MOVE_OVERHEAD: usize = 0;

/// Settings of the engine.
#[derive(Debug, Clone)]
pub struct EngineOptions {
    /// Size of the transposition table in megabytes.
    pub hash_size: usize,
    pub enable_logging: bool,
    /// Milliseconds kept back from each move's time for the cost of sending the move.
    pub move_overhead: usize,
}

impl Default for EngineOptions {
    fn default() -> (r: EngineOptions)
        ensures
            r.hash_size == HASH_SIZE,
            r.enable_logging == ENABLE_LOGGING,
            r.move_overhead == MOVE_OVERHEAD,
    {
        EngineOptions {
            hash_size: HASH_SIZE,
            enable_logging: ENABLE_LOGGING,
            move_overhead: MOVE_OVERHEAD,
        }
    }
}

} // verus!
