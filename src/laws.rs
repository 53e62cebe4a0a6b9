use vstd::prelude::*;

use crate::block::{is_genesis_view, BlockView};
use crate::bytes::all_zero;
use crate::chain::Chain;
use crate::model::{
    block_checks_pass, contiguous, domain_available, dot_count, holds_identity, id_available,
    linkage, locker_of, quality, BlockQuality, Params,
};

verus! {

/// Classifying the same block twice against the same chain state gives the same verdict.
pub proof fn lemma_classification_deterministic(
    c1: Chain,
    c2: Chain,
    b: BlockView,
    now: i64,
    recomputed_hash: Seq<u8>,
    signature_valid: bool,
)
    requires
        c1.store() == c2.store(),
        c1.params() == c2.params(),
    ensures
        quality(c1.params(), c1.store(), b, now, recomputed_hash, signature_valid) == quality(
            c2.params(),
            c2.store(),
            b,
            now,
            recomputed_hash,
            signature_valid,
        ),
{
}

/// A block classified `Good` has the next index, so appending it stores it.
pub proof fn lemma_good_is_next(
    p: Params,
    s: Seq<BlockView>,
    b: BlockView,
    now: i64,
    recomputed_hash: Seq<u8>,
    signature_valid: bool,
)
    requires
        contiguous(s),
        quality(p, s, b, now, recomputed_hash, signature_valid) == BlockQuality::Good,
    ensures
        b.index == s.len(),
{
    if s.len() > 0 {
        assert(s.last().index == s.len() - 1);
    }
}

/// A block that was accepted and appended is a `Twin` when submitted again, at any
/// later time. (A full block whose transaction names an owner other than the block's
/// signer would, once stored, make its own identity unavailable to that signer, and is
/// left out.)
pub proof fn lemma_resubmitted_block_is_twin(
    p: Params,
    s: Seq<BlockView>,
    b: BlockView,
    now: i64,
    later: i64,
    recomputed_hash: Seq<u8>,
    signature_valid: bool,
)
    requires
        contiguous(s),
        quality(p, s, b, now, recomputed_hash, signature_valid) == BlockQuality::Good,
        now <= later,
        b.transaction is Some ==> b.transaction->0.pub_key == b.pub_key,
    ensures
        quality(p, s.push(b), b, later, recomputed_hash, signature_valid) == BlockQuality::Twin,
{
    lemma_good_is_next(p, s, b, now, recomputed_hash, signature_valid);
    let s2 = s.push(b);
    assert(block_checks_pass(p, s, b, now, recomputed_hash, signature_valid));
    if b.transaction is Some {
        let id = b.transaction->0.identity;
        assert(id_available(s, id, b.pub_key));
        assert forall|i: int| 0 <= i < s2.len() && holds_identity(#[trigger] s2[i], id) implies s2[i].transaction->0.pub_key
            == b.pub_key by {
            if i < s.len() {
                assert(s2[i] == s[i]);
                assert(holds_identity(s[i], id));
                assert(s[i].transaction->0.pub_key == b.pub_key);
            } else {
                assert(s2[i] == b);
            }
        }
    }
}

/// A block at an index that is already stored, with a hash other than the stored
/// block's, is a `Fork` (when it passes its own checks and is not the head's twin).
pub proof fn lemma_conflicting_block_is_fork(
    p: Params,
    s: Seq<BlockView>,
    b: BlockView,
    now: i64,
    recomputed_hash: Seq<u8>,
    signature_valid: bool,
)
    requires
        contiguous(s),
        block_checks_pass(p, s, b, now, recomputed_hash, signature_valid),
        b.index < s.len(),
        s[b.index as int].hash != b.hash,
        s.last().hash != b.hash,
    ensures
        quality(p, s, b, now, recomputed_hash, signature_valid) == BlockQuality::Fork,
{
    assert(s.last().index == s.len() - 1);
}

/// On an empty chain with a non-zero origin, a genesis candidate whose hash is not the
/// origin is `Bad`; one whose hash is the origin and that passes its own checks is `Good`.
pub proof fn lemma_genesis_origin(
    p: Params,
    s: Seq<BlockView>,
    b: BlockView,
    now: i64,
    recomputed_hash: Seq<u8>,
    signature_valid: bool,
)
    requires
        s.len() == 0,
        !all_zero(p.origin),
        is_genesis_view(b),
    ensures
        b.hash != p.origin ==> quality(p, s, b, now, recomputed_hash, signature_valid)
            == BlockQuality::Bad,
        b.hash == p.origin && block_checks_pass(p, s, b, now, recomputed_hash, signature_valid)
            ==> quality(p, s, b, now, recomputed_hash, signature_valid) == BlockQuality::Good,
{
}

/// Once an owner other than `requester` has held `identity`, the identity is never
/// available to `requester` again, whatever blocks follow.
pub proof fn lemma_identity_monotonic(
    s: Seq<BlockView>,
    later: Seq<BlockView>,
    identity: Seq<u8>,
    requester: Seq<u8>,
    i: int,
)
    requires
        0 <= i < s.len(),
        holds_identity(s[i], identity),
        s[i].transaction->0.pub_key != requester,
    ensures
        !id_available(s + later, identity, requester),
{
    assert((s + later)[i] == s[i]);
}

/// A name with two or more dots is never available.
pub proof fn lemma_deep_names_unavailable(
    s: Seq<BlockView>,
    domain: Seq<char>,
    domain_id: Seq<u8>,
    zone_id: Seq<u8>,
    requester: Seq<u8>,
)
    requires
        dot_count(domain) >= 2,
    ensures
        !domain_available(s, domain, domain_id, zone_id, requester),
{
}

/// In particular "a.b.c" is never available, for any key and any chain.
pub proof fn lemma_three_levels_unavailable(
    s: Seq<BlockView>,
    domain_id: Seq<u8>,
    zone_id: Seq<u8>,
    requester: Seq<u8>,
)
    ensures
        !domain_available(s, "a.b.c"@, domain_id, zone_id, requester),
{
    reveal_strlit("a.b.c");
    reveal_with_fuel(dot_count, 6);
    let d = "a.b.c"@;
    assert(d.drop_last().drop_last() =~= seq!['a', '.', 'b']);
    assert(d.drop_last().drop_last().drop_last().drop_last() =~= seq!['a']);
    assert(dot_count(d) == 2);
}

/// Locker election on the same reference block, time and chain gives the same owner.
pub proof fn lemma_locker_deterministic(c1: Chain, c2: Chain, b: BlockView, t: i64)
    requires
        c1.store() == c2.store(),
        c1.params() == c2.params(),
    ensures
        locker_of(c1.params(), c1.store(), b, t) == locker_of(c2.params(), c2.store(), b, t),
{
}

/// A candidate more than one above the head is `Future` (when it passes its own checks
/// and is not older than the head); one exactly one above the head is never `Future`.
pub proof fn lemma_future_gap(
    p: Params,
    s: Seq<BlockView>,
    b: BlockView,
    now: i64,
    recomputed_hash: Seq<u8>,
    signature_valid: bool,
)
    requires
        contiguous(s),
        s.len() > 0,
    ensures
        b.index > s.len() && b.timestamp >= s.last().timestamp && block_checks_pass(
            p,
            s,
            b,
            now,
            recomputed_hash,
            signature_valid,
        ) ==> quality(p, s, b, now, recomputed_hash, signature_valid) == BlockQuality::Future,
        b.index == s.len() ==> quality(p, s, b, now, recomputed_hash, signature_valid)
            != BlockQuality::Future,
        b.index == s.len() ==> linkage(p, s, b) != BlockQuality::Future,
{
    assert(s.last().index == s.len() - 1);
}

} // verus!
