use vstd::prelude::*;

use crate::block::{is_genesis_view, BlockView, TransactionView};
use crate::bytes::{all_zero, leading_zeros, tail_value};

verus! {

/// Verdict on a candidate block.
#[derive(PartialEq, Eq, Structural, Debug, Clone, Copy)]
pub enum BlockQuality {
    Good,
    Bad,
    Fork,
    Twin,
    Future,
}

/// The tunable constants of a chain, as the contracts see them.
pub struct Params {
    pub origin: Seq<u8>,
    pub block_difficulty: u32,
    pub locker_difficulty: u32,
    pub locker_block_start: u64,
    pub locker_block_count: u64,
    pub locker_block_interval: i64,
}

/// A stored chain is contiguous: the block at position `i` has index `i`.
pub open spec fn contiguous(s: Seq<BlockView>) -> bool {
    forall|i: int| 0 <= i < s.len() ==> (#[trigger] s[i]).index == i
}

pub open spec fn head_of(s: Seq<BlockView>) -> Option<BlockView> {
    if s.len() == 0 {
        None
    } else {
        Some(s.last())
    }
}

pub open spec fn stored_at(s: Seq<BlockView>, index: int) -> Option<BlockView> {
    if 0 <= index < s.len() {
        Some(s[index])
    } else {
        None
    }
}

/// The stored block of highest index that carries a transaction.
pub open spec fn last_full_of(s: Seq<BlockView>) -> Option<BlockView>
    decreases s.len(),
{
    if s.len() == 0 {
        None
    } else if s.last().transaction is Some {
        Some(s.last())
    } else {
        last_full_of(s.drop_last())
    }
}

pub open spec fn holds_identity(b: BlockView, identity: Seq<u8>) -> bool {
    b.transaction is Some && b.transaction->0.identity == identity
}

/// Every owner ever recorded for `identity` is `requester` (or there is none).
pub open spec fn id_available(s: Seq<BlockView>, identity: Seq<u8>, requester: Seq<u8>) -> bool {
    forall|i: int|
        0 <= i < s.len() && holds_identity(#[trigger] s[i], identity)
            ==> s[i].transaction->0.pub_key == requester
}

/// Some transaction was ever recorded for `identity`.
pub open spec fn id_registered(s: Seq<BlockView>, identity: Seq<u8>) -> bool {
    exists|i: int| 0 <= i < s.len() && holds_identity(#[trigger] s[i], identity)
}

/// The most recent transaction recorded for `identity`.
pub open spec fn latest_transaction(s: Seq<BlockView>, identity: Seq<u8>) -> Option<TransactionView>
    decreases s.len(),
{
    if s.len() == 0 {
        None
    } else if holds_identity(s.last(), identity) {
        s.last().transaction
    } else {
        latest_transaction(s.drop_last(), identity)
    }
}

pub open spec fn dot_count(s: Seq<char>) -> nat
    decreases s.len(),
{
    if s.len() == 0 {
        0
    } else {
        dot_count(s.drop_last()) + if s.last() == '.' { 1nat } else { 0nat }
    }
}

/// Whether `requester` may register `domain`, whose digest is `domain_id`; `zone_id` is
/// the digest of the text after the domain's last dot.
pub open spec fn domain_available(
    s: Seq<BlockView>,
    domain: Seq<char>,
    domain_id: Seq<u8>,
    zone_id: Seq<u8>,
    requester: Seq<u8>,
) -> bool {
    &&& domain.len() > 0
    &&& id_available(s, domain_id, requester)
    &&& (dot_count(domain) == 0 || (dot_count(domain) == 1 && id_registered(s, zone_id)))
}

/// Whole election windows elapsed between `since` and `t` (zero if `t` is not later).
pub open spec fn intervals(t: i64, since: i64, interval: i64) -> nat {
    if t > since {
        ((t - since) / (interval as int)) as nat
    } else {
        0
    }
}

/// Position where the scan for a locker owner starts above block `b`.
pub open spec fn locker_start(b: BlockView, t: i64, interval: i64) -> int {
    let tail = tail_value(b.hash) as int;
    1 + (tail + tail * intervals(t, b.timestamp, interval)) % (b.index as int - 2)
}

/// The owner of the first stored block in `from..to` whose owner is not `owner`.
pub open spec fn first_other_owner(s: Seq<BlockView>, from: int, to: int, owner: Seq<u8>) -> Option<Seq<u8>>
    decreases to - from,
{
    if from >= to {
        None
    } else {
        match stored_at(s, from) {
            Some(b) if b.pub_key != owner => Some(b.pub_key),
            _ => first_other_owner(s, from + 1, to, owner),
        }
    }
}

/// The owner entitled to mine the locker block above `b` at time `t`, if restricted.
pub open spec fn locker_of(p: Params, s: Seq<BlockView>, b: BlockView, t: i64) -> Option<Seq<u8>> {
    if b.hash.len() == 0 || all_zero(b.hash) {
        None
    } else if b.index < p.locker_block_start {
        None
    } else if last_full_of(s) is Some && last_full_of(s)->0.index + p.locker_block_count
        <= b.index {
        None
    } else {
        first_other_owner(s, locker_start(b, t, p.locker_block_interval), b.index as int, b.pub_key)
    }
}

pub open spec fn min_difficulty(p: Params, b: BlockView) -> u32 {
    if b.transaction is Some {
        p.block_difficulty
    } else {
        p.locker_difficulty
    }
}

/// The checks a candidate must pass on its own, before its place in the chain is looked
/// at: time, difficulty, hash, signature, and that its transaction (if any) does not claim
/// an identity held by another owner.
pub open spec fn block_checks_pass(
    p: Params,
    s: Seq<BlockView>,
    b: BlockView,
    now: i64,
    recomputed_hash: Seq<u8>,
    signature_valid: bool,
) -> bool {
    &&& b.timestamp <= now
    &&& b.difficulty >= min_difficulty(p, b)
    &&& leading_zeros(b.hash) >= b.difficulty
    &&& recomputed_hash == b.hash
    &&& signature_valid
    &&& (b.transaction is Some ==> id_available(s, b.transaction->0.identity, b.pub_key))
}

/// Verdict on candidate `b` against stored chain `s` at time `now`, given the hash
/// recomputed from the block's content and whether its signature verified.
pub open spec fn quality(
    p: Params,
    s: Seq<BlockView>,
    b: BlockView,
    now: i64,
    recomputed_hash: Seq<u8>,
    signature_valid: bool,
) -> BlockQuality {
    if block_checks_pass(p, s, b, now, recomputed_hash, signature_valid) {
        linkage(p, s, b)
    } else {
        BlockQuality::Bad
    }
}

/// The chain-linkage rules, applied once the block's own checks have passed.
pub open spec fn linkage(p: Params, s: Seq<BlockView>, b: BlockView) -> BlockQuality {
    match head_of(s) {
        None => {
            if !is_genesis_view(b) {
                BlockQuality::Future
            } else if !all_zero(p.origin) && b.hash != p.origin {
                BlockQuality::Bad
            } else {
                BlockQuality::Good
            }
        },
        Some(last) => {
            if b.timestamp < last.timestamp && b.index > last.index {
                BlockQuality::Bad
            } else if last.index + 1 < b.index {
                BlockQuality::Future
            } else if b.index <= last.index && last.hash == b.hash {
                BlockQuality::Twin
            } else if b.index <= last.index && stored_at(s, b.index as int) is Some {
                if stored_at(s, b.index as int)->0.hash != b.hash {
                    BlockQuality::Fork
                } else {
                    BlockQuality::Twin
                }
            } else if b.transaction is None && locker_of(p, s, last, b.timestamp) is Some
                && locker_of(p, s, last, b.timestamp)->0 != b.pub_key {
                BlockQuality::Bad
            } else {
                BlockQuality::Good
            }
        },
    }
}

} // verus!
