use vstd::prelude::*;
use vstd::string::StrSliceExecFns;

use crate::block::{
    block_view, transaction_data, transaction_view, Block, BlockView, Transaction,
};
use crate::bytes::Bytes;
use crate::clock::now_timestamp;
use crate::model::{
    contiguous, dot_count, domain_available, first_other_owner, head_of, holds_identity, id_available,
    id_registered, last_full_of, latest_transaction, locker_of, locker_start, quality, stored_at,
    BlockQuality, Params,
};
use crate::settings::{Settings, CHAIN_VERSION};

verus! {

/// Why a stored chain could not be taken up again.
#[derive(PartialEq, Eq, Structural, Debug, Clone, Copy)]
pub enum ChainError {
    /// The stored blocks do not run 0, 1, 2, ... without gaps.
    BrokenStore,
    /// The newest stored block was written by a later protocol version.
    UnsupportedVersion { stored: u32, running: u32 },
}

/// The ledger: an ordered store of blocks, the caches kept over it, and the
/// best height heard of from peers.
pub struct Chain {
    settings: Settings,
    pub version: u32,
    blocks: Vec<Block>,
    last_full: Option<usize>,
    max_height: u64,
    zones: Vec<Bytes>,
}

pub open spec fn views(v: Seq<Block>) -> Seq<BlockView> {
    v.map_values(|b: Block| b@)
}

impl Chain {
    /// The stored blocks, oldest first.
    pub closed spec fn store(&self) -> Seq<BlockView> {
        views(self.blocks@)
    }

    pub closed spec fn params(&self) -> Params {
        self.settings.params()
    }

    pub closed spec fn max_height_spec(&self) -> u64 {
        self.max_height
    }

    pub closed spec fn wf(&self) -> bool {
        &&& self.settings.wf()
        &&& contiguous(self.store())
        &&& match self.last_full {
            Some(p) => p < self.blocks@.len() && last_full_of(self.store()) == Some(
                self.store()[p as int],
            ),
            None => last_full_of(self.store()) is None,
        }
        &&& forall|z: int|
            0 <= z < self.zones@.len() ==> id_registered(self.store(), (#[trigger] self.zones@[z])@)
    }

    /// What a well-formed chain gives the laws: its store is contiguous and its
    /// parameters are usable.
    pub proof fn lemma_wf(&self)
        requires
            self.wf(),
        ensures
            contiguous(self.store()),
            self.params().locker_block_start >= 3,
            self.params().locker_block_interval > 0,
    {
    }

    pub fn new(settings: &Settings) -> (r: Chain)
        requires
            settings.wf(),
        ensures
            r.wf(),
            r.store() == Seq::<BlockView>::empty(),
            r.params() == settings.params(),
            r.max_height_spec() == 0,
    {
        let r = Chain {
            settings: settings.clone(),
            version: CHAIN_VERSION,
            blocks: Vec::new(),
            last_full: None,
            max_height: 0,
            zones: Vec::new(),
        };
        assert(r.store() =~= Seq::<BlockView>::empty());
        r
    }

    /// Appends `block` when its index is the next one; otherwise changes nothing.
    /// Returns whether the block was stored.
    pub fn add_block(&mut self, block: Block) -> (r: bool)
        requires
            old(self).wf(),
        ensures
            final(self).wf(),
            r == (block.index == old(self).store().len()),
            r ==> final(self).store() == old(self).store().push(block@),
            !r ==> final(self).store() == old(self).store(),
            final(self).params() == old(self).params(),
            final(self).max_height_spec() == old(self).max_height_spec(),
    {
        if block.index as u128 != self.blocks.len() as u128 {
            return false;
        }
        let ghost s0 = self.store();
        let ghost bv = block@;
        let full = block.transaction.is_some();
        self.blocks.push(block);
        proof {
            assert(self.store() =~= s0.push(bv));
            assert(self.store().drop_last() =~= s0);
        }
        if full {
            self.last_full = Some(self.blocks.len() - 1);
        }
        proof {
            let s1 = self.store();
            assert forall|z: int| 0 <= z < self.zones@.len() implies id_registered(
                s1,
                (#[trigger] self.zones@[z])@,
            ) by {
                let id = self.zones@[z]@;
                let i = choose|i: int| 0 <= i < s0.len() && holds_identity(#[trigger] s0[i], id);
                assert(holds_identity(s1[i], id));
            }
        }
        true
    }

    /// True iff every owner ever recorded for `identity` is `public_key`.
    pub fn is_id_available(&self, identity: &Bytes, public_key: &Bytes) -> (r: bool)
        requires
            self.wf(),
        ensures
            r == id_available(self.store(), identity@, public_key@),
    {
        let ghost s = self.store();
        let mut i: usize = 0;
        while i < self.blocks.len()
            invariant
                s == self.store(),
                s.len() == self.blocks@.len(),
                0 <= i <= s.len(),
                forall|j: int|
                    0 <= j < i && holds_identity(#[trigger] s[j], identity@)
                        ==> s[j].transaction->0.pub_key == public_key@,
            decreases s.len() - i,
        {
            if let Some(t) = &self.blocks[i].transaction {
                if t.identity.same(identity) && !t.pub_key.same(public_key) {
                    assert(holds_identity(s[i as int], identity@));
                    return false;
                }
            }
            i += 1;
        }
        true
    }

    /// The owner entitled to mine the locker block above `block` at time `timestamp`,
    /// or `None` when anyone may.
    pub fn get_block_locker(&self, block: &Block, timestamp: i64) -> (r: Option<Bytes>)
        requires
            self.wf(),
        ensures
            r matches Some(k) ==> locker_of(self.params(), self.store(), block@, timestamp) == Some(
                k@,
            ),
            r is None ==> locker_of(self.params(), self.store(), block@, timestamp) is None,
    {
        let ghost s = self.store();
        let ghost p = self.params();
        if block.hash.is_empty() || block.hash.is_zero() {
            return None;
        }
        if block.index < self.settings.locker_block_start {
            return None;
        }
        if let Some(pos) = self.last_full {
            let b = &self.blocks[pos];
            if b.index as u128 + self.settings.locker_block_count as u128 <= block.index as u128 {
                return None;
            }
        }
        let interval = self.settings.locker_block_interval;
        let intervals: u128 = if timestamp > block.timestamp {
            let diff: u128 = (timestamp as i128 - block.timestamp as i128) as u128;
            let q = diff / (interval as u128);
            assert(q <= diff) by (nonlinear_arith)
                requires
                    q == diff / (interval as u128),
                    interval >= 1,
            ;
            q
        } else {
            0
        };
        let tail = block.hash.get_tail_u64() as u128;
        assert(tail * intervals <= 0xffff_ffff_ffff_ffffu128 * 0xffff_ffff_ffff_ffffu128)
            by (nonlinear_arith)
            requires
                tail <= 0xffff_ffff_ffff_ffffu128,
                intervals <= 0xffff_ffff_ffff_ffffu128,
        ;
        let m: u128 = (block.index - 2) as u128;
        let start: u64 = 1 + ((tail + tail * intervals) % m) as u64;
        assert(start == locker_start(block@, timestamp, p.locker_block_interval));
        assert(locker_of(p, s, block@, timestamp) == first_other_owner(
            s,
            start as int,
            block.index as int,
            block.pub_key@,
        ));
        let mut index: u64 = start;
        while index < block.index
            invariant
                p == self.params(),
                locker_of(p, s, block@, timestamp) == first_other_owner(
                    s,
                    start as int,
                    block.index as int,
                    block.pub_key@,
                ),
                s == self.store(),
                s.len() == self.blocks@.len(),
                start <= index <= block.index,
                first_other_owner(s, start as int, block.index as int, block.pub_key@)
                    == first_other_owner(s, index as int, block.index as int, block.pub_key@),
            decreases block.index - index,
        {
            if (index as u128) < self.blocks.len() as u128 {
                let b = &self.blocks[index as usize];
                if !b.pub_key.same(&block.pub_key) {
                    assert(s[index as int] == b@);
                    assert(stored_at(s, index as int) == Some(b@));
                    assert(first_other_owner(s, index as int, block.index as int, block.pub_key@)
                        == Some(b.pub_key@));
                    return Some(b.pub_key.clone());
                }
            }
            index += 1;
        }
        None
    }

    /// Classifies a candidate block at time `now`. `recomputed_hash` is the hash of the
    /// block's content as the hashing primitive computes it, and `signature_valid` whether
    /// the block's signature verified under its public key.
    pub fn check_new_block_at(
        &self,
        block: &Block,
        now: i64,
        recomputed_hash: &Bytes,
        signature_valid: bool,
    ) -> (r: BlockQuality)
        requires
            self.wf(),
        ensures
            r == quality(
                self.params(),
                self.store(),
                block@,
                now,
                recomputed_hash@,
                signature_valid,
            ),
    {
        let ghost s = self.store();
        if block.timestamp > now {
            return BlockQuality::Bad;
        }
        let difficulty = match block.transaction {
            None => self.settings.locker_difficulty,
            Some(_) => self.settings.block_difficulty,
        };
        if block.difficulty < difficulty {
            return BlockQuality::Bad;
        }
        if !block.hash.has_leading_zero_bits(block.difficulty) {
            return BlockQuality::Bad;
        }
        if !recomputed_hash.same(&block.hash) {
            return BlockQuality::Bad;
        }
        if !signature_valid {
            return BlockQuality::Bad;
        }
        if let Some(transaction) = &block.transaction {
            if !self.is_id_available(&transaction.identity, &block.pub_key) {
                return BlockQuality::Bad;
            }
        }
        let n = self.blocks.len();
        if n == 0 {
            if !block.is_genesis() {
                return BlockQuality::Future;
            }
            if !self.settings.origin.is_zero() && !block.hash.same(&self.settings.origin) {
                return BlockQuality::Bad;
            }
            return BlockQuality::Good;
        }
        let last = &self.blocks[n - 1];
        assert(head_of(s) == Some(last@));
        if block.timestamp < last.timestamp && block.index > last.index {
            return BlockQuality::Bad;
        }
        if last.index as u128 + 1 < block.index as u128 {
            return BlockQuality::Future;
        }
        if block.index <= last.index {
            if last.hash.same(&block.hash) {
                return BlockQuality::Twin;
            }
            if (block.index as u128) < n as u128 {
                let mine = &self.blocks[block.index as usize];
                assert(stored_at(s, block.index as int) == Some(mine@));
                return if !mine.hash.same(&block.hash) {
                    BlockQuality::Fork
                } else {
                    BlockQuality::Twin
                };
            }
        }
        if block.transaction.is_none() {
            if let Some(locker) = self.get_block_locker(last, block.timestamp) {
                if !locker.same(&block.pub_key) {
                    return BlockQuality::Bad;
                }
            }
        }
        BlockQuality::Good
    }

    /// Classifies a candidate block against the current time.
    pub fn check_new_block(&self, block: &Block, recomputed_hash: &Bytes, signature_valid: bool) -> (r:
        BlockQuality)
        requires
            self.wf(),
        ensures
            exists|now: i64|
                r == quality(
                    self.params(),
                    self.store(),
                    block@,
                    now,
                    recomputed_hash@,
                    signature_valid,
                ),
    {
        let now = now_timestamp();
        self.check_new_block_at(block, now, recomputed_hash, signature_valid)
    }

    /// True iff some transaction was ever recorded for `zone_identity`, the digest of a
    /// zone name. A zone once found is remembered; registrations are never revoked.
    pub fn is_zone_in_blockchain(&mut self, zone_identity: &Bytes) -> (r: bool)
        requires
            old(self).wf(),
        ensures
            final(self).wf(),
            r == id_registered(old(self).store(), zone_identity@),
            final(self).store() == old(self).store(),
            final(self).params() == old(self).params(),
            final(self).max_height_spec() == old(self).max_height_spec(),
    {
        let ghost s = self.store();
        let mut z: usize = 0;
        while z < self.zones.len()
            invariant
                self.wf(),
                s == self.store(),
                s == old(self).store(),
                self.params() == old(self).params(),
                self.max_height_spec() == old(self).max_height_spec(),
                0 <= z <= self.zones@.len(),
            decreases self.zones@.len() - z,
        {
            if self.zones[z].same(zone_identity) {
                assert(id_registered(s, self.zones@[z as int]@));
                return true;
            }
            z += 1;
        }
        let mut i: usize = 0;
        while i < self.blocks.len()
            invariant
                self.wf(),
                s == self.store(),
                s == old(self).store(),
                self.params() == old(self).params(),
                self.max_height_spec() == old(self).max_height_spec(),
                s.len() == self.blocks@.len(),
                0 <= i <= s.len(),
                forall|j: int| 0 <= j < i ==> !holds_identity(#[trigger] s[j], zone_identity@),
            decreases s.len() - i,
        {
            if let Some(t) = &self.blocks[i].transaction {
                if t.identity.same(zone_identity) {
                    assert(holds_identity(s[i as int], zone_identity@));
                    assert(id_registered(s, zone_identity@));
                    let ghost old_zones = self.zones@;
                    self.zones.push(zone_identity.clone());
                    assert(self.store() == s);
                    assert forall|k: int| 0 <= k < self.zones@.len() implies id_registered(
                        s,
                        (#[trigger] self.zones@[k])@,
                    ) by {
                        if k < old_zones.len() {
                            assert(self.zones@[k] == old_zones[k]);
                        }
                    }
                    return true;
                }
            }
            i += 1;
        }
        false
    }

    /// Whether `public_key` may register `domain`. `domain_identity` is the digest of the
    /// whole domain and `zone_identity` the digest of its zone (see `domain_zone`; any
    /// value will do for a name without a dot).
    /// Names of three or more levels are never available.
    pub fn is_domain_available(
        &mut self,
        domain: &str,
        domain_identity: &Bytes,
        zone_identity: &Bytes,
        public_key: &Bytes,
    ) -> (r: bool)
        requires
            old(self).wf(),
        ensures
            final(self).wf(),
            r == domain_available(
                old(self).store(),
                domain@,
                domain_identity@,
                zone_identity@,
                public_key@,
            ),
            final(self).store() == old(self).store(),
            final(self).params() == old(self).params(),
            final(self).max_height_spec() == old(self).max_height_spec(),
    {
        let len = domain.unicode_len();
        if len == 0 {
            return false;
        }
        if !self.is_id_available(domain_identity, public_key) {
            return false;
        }
        let dots = count_dots(domain);
        if dots > 1 {
            return false;
        }
        if dots == 1 {
            return self.is_zone_in_blockchain(zone_identity);
        }
        true
    }
}

/// The number of dots in `s`, counted up to two.
fn count_dots(s: &str) -> (r: u8)
    ensures
        r <= 2,
        r < 2 ==> r == dot_count(s@),
        r == 2 ==> dot_count(s@) >= 2,
{
    let len = s.unicode_len();
    let mut count: u8 = 0;
    let mut i: usize = 0;
    while i < len
        invariant
            len == s@.len(),
            0 <= i <= len,
            count < 2,
            count == dot_count(s@.subrange(0, i as int)),
        decreases len - i,
    {
        let c = s.get_char(i);
        assert(s@.subrange(0, i + 1).drop_last() =~= s@.subrange(0, i as int));
        if c == '.' {
            count += 1;
            if count == 2 {
                proof {
                    lemma_dot_count_prefix(s@, i + 1);
                }
                return 2;
            }
        }
        i += 1;
    }
    assert(s@.subrange(0, len as int) =~= s@);
    count
}

/// The zone of a second-level name: the text after its only dot. `None` for a name with
/// no dot or with two or more.
pub fn domain_zone(domain: &str) -> (r: Option<String>)
    ensures
        r is Some <==> dot_count(domain@) == 1,
        r matches Some(z) ==> exists|k: int|
            0 <= k < domain@.len() && domain@[k] == '.' && z@ == domain@.subrange(
                k + 1,
                domain@.len() as int,
            ),
{
    let len = domain.unicode_len();
    let mut count: u8 = 0;
    let mut last: usize = 0;
    let mut i: usize = 0;
    while i < len
        invariant
            len == domain@.len(),
            0 <= i <= len,
            count <= 1,
            count == dot_count(domain@.subrange(0, i as int)),
            count == 1 ==> last < i && domain@[last as int] == '.',
        decreases len - i,
    {
        let c = domain.get_char(i);
        assert(domain@.subrange(0, i + 1).drop_last() =~= domain@.subrange(0, i as int));
        if c == '.' {
            if count == 1 {
                proof {
                    lemma_dot_count_prefix(domain@, i + 1);
                }
                return None;
            }
            count = 1;
            last = i;
        }
        i += 1;
    }
    assert(domain@.subrange(0, len as int) =~= domain@);
    if count == 0 {
        return None;
    }
    let zone = domain.substring_char(last + 1, len);
    Some(zone.to_owned())
}

proof fn lemma_dot_count_prefix(s: Seq<char>, k: int)
    requires
        0 <= k <= s.len(),
    ensures
        dot_count(s.subrange(0, k)) <= dot_count(s),
    decreases s.len() - k,
{
    if k < s.len() {
        lemma_dot_count_prefix(s, k + 1);
        assert(s.subrange(0, k + 1).drop_last() =~= s.subrange(0, k));
    } else {
        assert(s.subrange(0, k) =~= s);
    }
}

impl Chain {
    /// The stored block with this index.
    pub fn get_block(&self, index: u64) -> (r: Option<Block>)
        requires
            self.wf(),
        ensures
            block_view(r) == stored_at(self.store(), index as int),
    {
        if (index as u128) < self.blocks.len() as u128 {
            Some(self.blocks[index as usize].clone())
        } else {
            None
        }
    }

    /// The stored block of highest index that carries a transaction.
    pub fn get_last_full_block(&self) -> (r: Option<Block>)
        requires
            self.wf(),
        ensures
            block_view(r) == last_full_of(self.store()),
    {
        match self.last_full {
            Some(p) => Some(self.blocks[p].clone()),
            None => None,
        }
    }

    /// The stored block of highest index.
    pub fn last_block(&self) -> (r: Option<Block>)
        requires
            self.wf(),
        ensures
            block_view(r) == head_of(self.store()),
    {
        let n = self.blocks.len();
        if n == 0 {
            None
        } else {
            Some(self.blocks[n - 1].clone())
        }
    }

    /// Index of the highest stored block, zero when nothing is stored.
    pub fn height(&self) -> (r: u64)
        requires
            self.wf(),
        ensures
            r == match head_of(self.store()) {
                Some(b) => b.index,
                None => 0,
            },
    {
        let n = self.blocks.len();
        if n == 0 {
            0
        } else {
            self.blocks[n - 1].index
        }
    }

    /// Hash of the highest stored block, empty when nothing is stored.
    pub fn last_hash(&self) -> (r: Bytes)
        requires
            self.wf(),
        ensures
            r@ == match head_of(self.store()) {
                Some(b) => b.hash,
                None => Seq::<u8>::empty(),
            },
    {
        let n = self.blocks.len();
        if n == 0 {
            Bytes::empty()
        } else {
            self.blocks[n - 1].hash.clone()
        }
    }

    /// The best height known, which may exceed the stored height while syncing.
    pub fn max_height(&self) -> (r: u64)
        ensures
            r == self.max_height_spec(),
    {
        self.max_height
    }

    pub fn update_max_height(&mut self, height: u64)
        requires
            old(self).wf(),
        ensures
            final(self).wf(),
            final(self).max_height_spec() == if height > old(self).max_height_spec() {
                height
            } else {
                old(self).max_height_spec()
            },
            final(self).store() == old(self).store(),
            final(self).params() == old(self).params(),
    {
        if height > self.max_height {
            self.max_height = height;
        }
    }

    /// The most recent transaction recorded for `identity`, the digest of `domain`;
    /// `None` for an empty domain. Whether the transaction's confirmation matches the
    /// domain is for the signature layer to check.
    pub fn get_domain_transaction(&self, domain: &str, identity: &Bytes) -> (r: Option<Transaction>)
        requires
            self.wf(),
        ensures
            domain@.len() == 0 ==> r is None,
            domain@.len() > 0 ==> transaction_view(r) == latest_transaction(
                self.store(),
                identity@,
            ),
    {
        if domain.unicode_len() == 0 {
            return None;
        }
        let ghost s = self.store();
        let mut i: usize = self.blocks.len();
        assert(s.subrange(0, i as int) =~= s);
        while i > 0
            invariant
                domain@.len() > 0,
                s == self.store(),
                s.len() == self.blocks@.len(),
                0 <= i <= s.len(),
                latest_transaction(s, identity@) == latest_transaction(
                    s.subrange(0, i as int),
                    identity@,
                ),
            decreases i,
        {
            let ghost prefix = s.subrange(0, i as int);
            assert(prefix.last() == s[i - 1]);
            assert(prefix.drop_last() =~= s.subrange(0, i - 1));
            if let Some(t) = &self.blocks[i - 1].transaction {
                if t.identity.same(identity) {
                    return Some(t.clone());
                }
            }
            i -= 1;
        }
        None
    }

    /// The data of the most recent transaction for `domain` (see `get_domain_transaction`).
    pub fn get_domain_info(&self, domain: &str, identity: &Bytes) -> (r: Option<String>)
        requires
            self.wf(),
        ensures
            domain@.len() == 0 ==> r is None,
            domain@.len() > 0 ==> (match r {
                Some(d) => transaction_data(latest_transaction(self.store(), identity@)) == Some(
                    d@,
                ),
                None => latest_transaction(self.store(), identity@) is None,
            }),
    {
        match self.get_domain_transaction(domain, identity) {
            None => None,
            Some(transaction) => Some(transaction.data),
        }
    }

    /// Takes up a chain from its stored blocks, oldest first. Fails when the blocks do
    /// not run 0, 1, 2, ... or when the newest was written by a later protocol version;
    /// an older one is accepted as it is.
    pub fn restore(settings: &Settings, stored: Vec<Block>) -> (r: Result<Chain, ChainError>)
        requires
            settings.wf(),
        ensures
            !contiguous(views(stored@)) <==> r == Err::<Chain, ChainError>(ChainError::BrokenStore),
            r matches Err(ChainError::UnsupportedVersion { stored: v, running }) ==> (
            contiguous(views(stored@)) && stored@.len() > 0 && v == stored@.last().version
                && running == CHAIN_VERSION && v > CHAIN_VERSION),
            contiguous(views(stored@)) && stored@.len() > 0 && stored@.last().version
                > CHAIN_VERSION ==> r is Err,
            r is Ok <==> (contiguous(views(stored@)) && (stored@.len() == 0
                || stored@.last().version <= CHAIN_VERSION)),
            r matches Ok(c) ==> {
                &&& c.wf()
                &&& c.store() == views(stored@)
                &&& c.params() == settings.params()
                &&& c.max_height_spec() == if stored@.len() == 0 {
                    0
                } else {
                    stored@.last().index
                }
            },
    {
        let mut chain = Chain::new(settings);
        let ghost all = views(stored@);
        let mut i: usize = 0;
        while i < stored.len()
            invariant
                chain.wf(),
                chain.params() == settings.params(),
                chain.max_height_spec() == 0,
                all == views(stored@),
                0 <= i <= stored@.len(),
                chain.store() == all.subrange(0, i as int),
            decreases stored@.len() - i,
        {
            let block = stored[i].clone();
            if !chain.add_block(block) {
                assert(all[i as int].index != i);
                return Err(ChainError::BrokenStore);
            }
            i += 1;
            assert(chain.store() =~= all.subrange(0, i as int));
        }
        assert(all.subrange(0, i as int) =~= all);
        let n = stored.len();
        if n > 0 {
            let last = &stored[n - 1];
            if last.version > CHAIN_VERSION {
                return Err(ChainError::UnsupportedVersion { stored: last.version, running: CHAIN_VERSION });
            }
            chain.max_height = last.index;
        }
        Ok(chain)
    }
}

} // verus!
