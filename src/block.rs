use vstd::prelude::*;

use crate::bytes::{all_zero, Bytes};

verus! {

/// A name registration or update, embedded in a full block.
#[derive(Debug)]
pub struct Transaction {
    pub identity: Bytes,
    pub confirmation: Bytes,
    pub method: String,
    pub data: String,
    pub pub_key: Bytes,
}

pub struct TransactionView {
    pub identity: Seq<u8>,
    pub confirmation: Seq<u8>,
    pub method: Seq<char>,
    pub data: Seq<char>,
    pub pub_key: Seq<u8>,
}

impl View for Transaction {
    type V = TransactionView;

    open spec fn view(&self) -> TransactionView {
        TransactionView {
            identity: self.identity@,
            confirmation: self.confirmation@,
            method: self.method@,
            data: self.data@,
            pub_key: self.pub_key@,
        }
    }
}

impl Clone for Transaction {
    fn clone(&self) -> (r: Transaction)
        ensures
            r@ == self@,
    {
        Transaction {
            identity: self.identity.clone(),
            confirmation: self.confirmation.clone(),
            method: self.method.clone(),
            data: self.data.clone(),
            pub_key: self.pub_key.clone(),
        }
    }
}

/// A ledger entry; a block with a transaction is "full", one without is a "locker" block.
#[derive(Debug)]
pub struct Block {
    pub index: u64,
    pub timestamp: i64,
    pub version: u32,
    pub difficulty: u32,
    pub random: u32,
    pub nonce: u64,
    pub transaction: Option<Transaction>,
    pub prev_block_hash: Bytes,
    pub hash: Bytes,
    pub pub_key: Bytes,
    pub signature: Bytes,
}

pub struct BlockView {
    pub index: u64,
    pub timestamp: i64,
    pub version: u32,
    pub difficulty: u32,
    pub random: u32,
    pub nonce: u64,
    pub transaction: Option<TransactionView>,
    pub prev_block_hash: Seq<u8>,
    pub hash: Seq<u8>,
    pub pub_key: Seq<u8>,
    pub signature: Seq<u8>,
}

pub open spec fn transaction_view(t: Option<Transaction>) -> Option<TransactionView> {
    match t {
        Some(t) => Some(t@),
        None => None,
    }
}

pub open spec fn block_view(b: Option<Block>) -> Option<BlockView> {
    match b {
        Some(b) => Some(b@),
        None => None,
    }
}

pub open spec fn transaction_data(t: Option<TransactionView>) -> Option<Seq<char>> {
    match t {
        Some(t) => Some(t.data),
        None => None,
    }
}

impl View for Block {
    type V = BlockView;

    open spec fn view(&self) -> BlockView {
        BlockView {
            index: self.index,
            timestamp: self.timestamp,
            version: self.version,
            difficulty: self.difficulty,
            random: self.random,
            nonce: self.nonce,
            transaction: transaction_view(self.transaction),
            prev_block_hash: self.prev_block_hash@,
            hash: self.hash@,
            pub_key: self.pub_key@,
            signature: self.signature@,
        }
    }
}

/// The first block of a chain: index zero, no transaction, and no predecessor
/// (an empty or all-zero previous hash).
pub open spec fn is_genesis_view(b: BlockView) -> bool {
    b.index == 0 && b.transaction is None && all_zero(b.prev_block_hash)
}

impl Clone for Block {
    fn clone(&self) -> (r: Block)
        ensures
            r@ == self@,
    {
        let transaction = match &self.transaction {
            Some(t) => Some(t.clone()),
            None => None,
        };
        Block {
            index: self.index,
            timestamp: self.timestamp,
            version: self.version,
            difficulty: self.difficulty,
            random: self.random,
            nonce: self.nonce,
            transaction,
            prev_block_hash: self.prev_block_hash.clone(),
            hash: self.hash.clone(),
            pub_key: self.pub_key.clone(),
            signature: self.signature.clone(),
        }
    }
}

impl Block {
    pub fn is_genesis(&self) -> (r: bool)
        ensures
            r == is_genesis_view(self@),
    {
        self.index == 0 && self.transaction.is_none() && self.prev_block_hash.is_zero()
    }
}

} // verus!
