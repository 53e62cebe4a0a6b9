use vstd::prelude::*;

use crate::bytes::Bytes;
use crate::model::Params;

verus! {

/// Protocol version this library writes and understands.
pub const CHAIN_VERSION: u32 = 1;
/// Minimum difficulty of a block that carries a transaction.
pub const BLOCK_DIFFICULTY: u32 = 24;
/// Minimum difficulty of a locker block.
pub const LOCKER_DIFFICULTY: u32 = 18;
/// Height from which locker election applies.
pub const LOCKER_BLOCK_START: u64 = 16;
/// How many blocks above the last full block the locker restriction lasts.
pub const LOCKER_BLOCK_COUNT: u64 = 3;
/// Length in seconds of one locker election window.
pub const LOCKER_BLOCK_INTERVAL: i64 = 300;

/// Chain parameters: the expected genesis hash and the tunable constants.
#[derive(Debug)]
pub struct Settings {
    /// Hash the genesis block must have; empty or all-zero accepts any genesis.
    pub origin: Bytes,
    pub block_difficulty: u32,
    pub locker_difficulty: u32,
    pub locker_block_start: u64,
    pub locker_block_count: u64,
    pub locker_block_interval: i64,
}

impl Settings {
    /// The election formula reduces modulo `index - 2`, so activation must start above 2,
    /// and windows must have a positive length.
    pub open spec fn wf(&self) -> bool {
        self.locker_block_start >= 3 && self.locker_block_interval > 0
    }

    pub open spec fn params(&self) -> Params {
        Params {
            origin: self.origin@,
            block_difficulty: self.block_difficulty,
            locker_difficulty: self.locker_difficulty,
            locker_block_start: self.locker_block_start,
            locker_block_count: self.locker_block_count,
            locker_block_interval: self.locker_block_interval,
        }
    }

    pub fn new(origin: Bytes) -> (r: Settings)
        ensures
            r.wf(),
            r.origin@ == origin@,
            r.block_difficulty == BLOCK_DIFFICULTY,
            r.locker_difficulty == LOCKER_DIFFICULTY,
            r.locker_block_start == LOCKER_BLOCK_START,
            r.locker_block_count == LOCKER_BLOCK_COUNT,
            r.locker_block_interval == LOCKER_BLOCK_INTERVAL,
    {
        Settings {
            origin,
            block_difficulty: BLOCK_DIFFICULTY,
            locker_difficulty: LOCKER_DIFFICULTY,
            locker_block_start: LOCKER_BLOCK_START,
            locker_block_count: LOCKER_BLOCK_COUNT,
            locker_block_interval: LOCKER_BLOCK_INTERVAL,
        }
    }

    pub fn get_origin(&self) -> (r: Bytes)
        ensures
            r@ == self.origin@,
    {
        self.origin.clone()
    }
}

impl Clone for Settings {
    fn clone(&self) -> (r: Settings)
        ensures
            r.params() == self.params(),
    {
        Settings {
            origin: self.origin.clone(),
            block_difficulty: self.block_difficulty,
            locker_difficulty: self.locker_difficulty,
            locker_block_start: self.locker_block_start,
            locker_block_count: self.locker_block_count,
            locker_block_interval: self.locker_block_interval,
        }
    }
}

} // verus!
