//! Blocks and the proof-of-work search that seals them.
use crate::encoding::{block_bytes, copy_bytes, copy_txs, encode_block, encode_prefix, push_u32, Transaction};
use crate::hashing::{bytes_eq, has_leading_zeros, hash_bytes, hash_of, meets_difficulty};
use vstd::prelude::*;

verus! {

/// The number of leading `'0'` hex characters a block hash must have.
pub const DIFFICULTY: usize = 4;

/// A block of the chain. `hash` and `previous_hash` hold lowercase hex text.
#[derive(Clone, Debug)]
pub struct Block {
    pub index: u32,
    pub timestamp: i64,
    pub transactions: Vec<Transaction>,
    pub previous_hash: Vec<u8>,
    pub hash: Vec<u8>,
    pub nonce: u32,
}

/// The hash of a block with the given fields.
pub open spec fn fields_hash(
    index: u32,
    timestamp: i64,
    txs: Seq<Transaction>,
    prev: Seq<u8>,
    nonce: u32,
) -> Seq<u8> {
    hash_of(block_bytes(index, timestamp, txs, prev, nonce))
}

/// Whether `nonce` solves the puzzle for the given fields at difficulty `d`.
pub open spec fn solves(
    index: u32,
    timestamp: i64,
    txs: Seq<Transaction>,
    prev: Seq<u8>,
    nonce: u32,
    d: nat,
) -> bool {
    meets_difficulty(fields_hash(index, timestamp, txs, prev, nonce), d)
}

/// No `u32` nonce solves the puzzle for the given fields at difficulty `d`.
pub open spec fn unsolvable(index: u32, timestamp: i64, txs: Seq<Transaction>, prev: Seq<u8>, d: nat) -> bool {
    forall|n: u32| !#[trigger] solves(index, timestamp, txs, prev, n, d)
}

/// The hash recomputed from a block's stored fields.
pub open spec fn block_hash(b: Block) -> Seq<u8> {
    fields_hash(b.index, b.timestamp, b.transactions@, b.previous_hash@, b.nonce)
}

/// A block is sealed at difficulty `d` when its stored hash is the hash of
/// its fields and meets the difficulty.
pub open spec fn sealed(b: Block, d: nat) -> bool {
    b.hash@ == block_hash(b) && meets_difficulty(b.hash@, d)
}

/// No nonce below `b.nonce` solves the puzzle for `b`'s other fields.
pub open spec fn least_nonce(b: Block, d: nat) -> bool {
    forall|n: u32|
        n < b.nonce ==> !solves(b.index, b.timestamp, b.transactions@, b.previous_hash@, n, d)
}

/// Relies on `chrono::Utc::now` and `DateTime::timestamp`: the current time
/// in seconds since the Unix epoch. Nothing is known of its value.
#[verifier::external_body]
pub(crate) fn now_timestamp() -> (r: i64) {
    chrono::Utc::now().timestamp()
}

impl Block {
    /// Searches nonces upward from zero for the first one whose hash meets
    /// difficulty `d`, with every other field fixed. `None` when no `u32`
    /// nonce does.
    pub fn mine(
        index: u32,
        timestamp: i64,
        transactions: Vec<Transaction>,
        previous_hash: Vec<u8>,
        d: usize,
    ) -> (r: Option<Block>)
        ensures
            match r {
                Some(b) => {
                    &&& b.index == index
                    &&& b.timestamp == timestamp
                    &&& b.transactions@ == transactions@
                    &&& b.previous_hash@ == previous_hash@
                    &&& sealed(b, d as nat)
                    &&& least_nonce(b, d as nat)
                },
                None => unsolvable(index, timestamp, transactions@, previous_hash@, d as nat),
            },
    {
        let prefix = encode_prefix(index, timestamp, &transactions, &previous_hash);
        let mut nonce: u32 = 0;
        loop
            invariant
                prefix@ == crate::encoding::prefix_bytes(index, timestamp, transactions@, previous_hash@),
                forall|n: u32|
                    n < nonce ==> !solves(index, timestamp, transactions@, previous_hash@, n, d as nat),
            decreases u32::MAX - nonce,
        {
            let mut data = copy_bytes(&prefix);
            push_u32(&mut data, nonce);
            let h = hash_bytes(&data);
            if has_leading_zeros(&h, d) {
                let b = Block { index, timestamp, transactions, previous_hash, hash: h, nonce };
                return Some(b);
            }
            if nonce == u32::MAX {
                assert forall|n: u32|
                    !solves(index, timestamp, transactions@, previous_hash@, n, d as nat) by {
                    if n == nonce {
                    }
                }
                return None;
            }
            nonce = nonce + 1;
        }
    }

    /// Mines a block at the default difficulty, stamped with the current time.
    pub fn new(index: u32, transactions: Vec<Transaction>, previous_hash: Vec<u8>) -> (r: Option<Block>)
        ensures
            match r {
                Some(b) => {
                    &&& b.index == index
                    &&& b.transactions@ == transactions@
                    &&& b.previous_hash@ == previous_hash@
                    &&& sealed(b, DIFFICULTY as nat)
                    &&& least_nonce(b, DIFFICULTY as nat)
                },
                None => exists|ts: i64|
                    unsolvable(index, ts, transactions@, previous_hash@, DIFFICULTY as nat),
            },
    {
        let timestamp = now_timestamp();
        let ghost txs = transactions@;
        let ghost prev = previous_hash@;
        let r = Block::mine(index, timestamp, transactions, previous_hash, DIFFICULTY);
        if r.is_none() {
            assert(unsolvable(index, timestamp, txs, prev, DIFFICULTY as nat));
        }
        r
    }

    /// Recomputes the hash from the block's stored fields.
    pub fn calculate_hash(&self) -> (r: Vec<u8>)
        ensures
            r@ == block_hash(*self),
            r@.len() == 64,
    {
        let data = encode_block(self.index, self.timestamp, &self.transactions, &self.previous_hash, self.nonce);
        hash_bytes(&data)
    }

    /// Whether the stored hash is the hash of the block's fields and meets
    /// difficulty `d`.
    pub fn is_sealed(&self, d: usize) -> (r: bool)
        ensures
            r == sealed(*self, d as nat),
    {
        let h = self.calculate_hash();
        bytes_eq(&self.hash, &h) && has_leading_zeros(&self.hash, d)
    }

    /// A copy of the block.
    pub fn duplicate(&self) -> (r: Block)
        ensures
            r.index == self.index,
            r.timestamp == self.timestamp,
            r.transactions@ == self.transactions@,
            r.previous_hash@ == self.previous_hash@,
            r.hash@ == self.hash@,
            r.nonce == self.nonce,
    {
        Block {
            index: self.index,
            timestamp: self.timestamp,
            transactions: copy_txs(&self.transactions),
            previous_hash: copy_bytes(&self.previous_hash),
            hash: copy_bytes(&self.hash),
            nonce: self.nonce,
        }
    }
}

} // verus!
