//! The canonical byte encoding of a block's fields, which the block hash is
//! computed over. Integers are big-endian; sequences carry their length first.
use vstd::prelude::*;

verus! {

/// Who sends or receives a transfer: the system (the sender of mining
/// rewards) or a wallet with a numeric address.
#[derive(Clone, Copy, Debug, PartialEq, Eq, Structural)]
pub enum Account {
    System,
    Wallet(u64),
}

/// The number of units in one token. Amounts and balances are counted in
/// units, so a token divides into a hundred million parts.
pub const COIN: u64 = 100_000_000;

/// A transfer of `amount` units from one account to another.
#[derive(Clone, Copy, Debug, PartialEq, Eq, Structural)]
pub struct Transaction {
    pub from: Account,
    pub to: Account,
    pub amount: u64,
}

impl Transaction {
    /// A transfer record; no check is made here.
    pub fn new(from: Account, to: Account, amount: u64) -> (r: Transaction)
        ensures
            r == (Transaction { from, to, amount }),
    {
        Transaction { from, to, amount }
    }
}

pub open spec fn u32_be(x: u32) -> Seq<u8> {
    seq![(x >> 24u32) as u8, (x >> 16u32) as u8, (x >> 8u32) as u8, x as u8]
}

pub open spec fn u64_be(x: u64) -> Seq<u8> {
    seq![
        (x >> 56u64) as u8,
        (x >> 48u64) as u8,
        (x >> 40u64) as u8,
        (x >> 32u64) as u8,
        (x >> 24u64) as u8,
        (x >> 16u64) as u8,
        (x >> 8u64) as u8,
        x as u8,
    ]
}

/// `System` is one zero byte; a wallet is a one byte, then its address.
pub open spec fn account_bytes(a: Account) -> Seq<u8> {
    match a {
        Account::System => seq![0u8],
        Account::Wallet(id) => seq![1u8] + u64_be(id),
    }
}

pub open spec fn tx_bytes(t: Transaction) -> Seq<u8> {
    account_bytes(t.from) + account_bytes(t.to) + u64_be(t.amount)
}

/// The transactions' encodings, one after the other, in order.
pub open spec fn txs_bytes(s: Seq<Transaction>) -> Seq<u8>
    decreases s.len(),
{
    if s.len() == 0 {
        Seq::empty()
    } else {
        txs_bytes(s.drop_last()) + tx_bytes(s.last())
    }
}

/// Everything of a block's encoding but the nonce.
pub open spec fn prefix_bytes(index: u32, timestamp: i64, txs: Seq<Transaction>, prev: Seq<u8>) -> Seq<u8> {
    u32_be(index) + u64_be(timestamp as u64) + u64_be(txs.len() as u64) + txs_bytes(txs) + u64_be(
        prev.len() as u64,
    ) + prev
}

/// The encoding of a block's fields that its hash is computed over.
pub open spec fn block_bytes(
    index: u32,
    timestamp: i64,
    txs: Seq<Transaction>,
    prev: Seq<u8>,
    nonce: u32,
) -> Seq<u8> {
    prefix_bytes(index, timestamp, txs, prev) + u32_be(nonce)
}

pub fn push_u32(buf: &mut Vec<u8>, x: u32)
    ensures
        final(buf)@ == old(buf)@ + u32_be(x),
{
    buf.push((x >> 24u32) as u8);
    buf.push((x >> 16u32) as u8);
    buf.push((x >> 8u32) as u8);
    buf.push(x as u8);
    assert(final(buf)@ =~= old(buf)@ + u32_be(x));
}

pub fn push_u64(buf: &mut Vec<u8>, x: u64)
    ensures
        final(buf)@ == old(buf)@ + u64_be(x),
{
    buf.push((x >> 56u64) as u8);
    buf.push((x >> 48u64) as u8);
    buf.push((x >> 40u64) as u8);
    buf.push((x >> 32u64) as u8);
    buf.push((x >> 24u64) as u8);
    buf.push((x >> 16u64) as u8);
    buf.push((x >> 8u64) as u8);
    buf.push(x as u8);
    assert(final(buf)@ =~= old(buf)@ + u64_be(x));
}

pub fn push_bytes(buf: &mut Vec<u8>, b: &Vec<u8>)
    ensures
        final(buf)@ == old(buf)@ + b@,
{
    let mut i: usize = 0;
    while i < b.len()
        invariant
            i <= b.len(),
            buf@ == old(buf)@ + b@.take(i as int),
        decreases b.len() - i,
    {
        buf.push(b[i]);
        assert(b@.take(i as int + 1) =~= b@.take(i as int).push(b@[i as int]));
        i = i + 1;
    }
    assert(b@.take(b.len() as int) =~= b@);
}

/// A copy of a byte string.
pub fn copy_bytes(b: &Vec<u8>) -> (r: Vec<u8>)
    ensures
        r@ == b@,
{
    let mut r: Vec<u8> = Vec::new();
    push_bytes(&mut r, b);
    assert(r@ =~= b@);
    r
}

/// A copy of a list of transactions.
pub fn copy_txs(s: &Vec<Transaction>) -> (r: Vec<Transaction>)
    ensures
        r@ == s@,
{
    let mut r: Vec<Transaction> = Vec::new();
    let mut i: usize = 0;
    while i < s.len()
        invariant
            i <= s.len(),
            r@ == s@.take(i as int),
        decreases s.len() - i,
    {
        r.push(s[i]);
        assert(s@.take(i as int + 1) =~= s@.take(i as int).push(s@[i as int]));
        i = i + 1;
    }
    assert(s@.take(s.len() as int) =~= s@);
    r
}

pub fn push_account(buf: &mut Vec<u8>, a: Account)
    ensures
        final(buf)@ == old(buf)@ + account_bytes(a),
{
    match a {
        Account::System => {
            buf.push(0u8);
            assert(final(buf)@ =~= old(buf)@ + account_bytes(a));
        },
        Account::Wallet(id) => {
            buf.push(1u8);
            push_u64(buf, id);
            assert(final(buf)@ =~= old(buf)@ + account_bytes(a));
        },
    }
}

pub fn push_tx(buf: &mut Vec<u8>, t: Transaction)
    ensures
        final(buf)@ == old(buf)@ + tx_bytes(t),
{
    push_account(buf, t.from);
    push_account(buf, t.to);
    push_u64(buf, t.amount);
    assert(final(buf)@ =~= old(buf)@ + tx_bytes(t));
}

/// Encodes everything of a block but its nonce.
pub fn encode_prefix(index: u32, timestamp: i64, txs: &Vec<Transaction>, prev: &Vec<u8>) -> (r: Vec<u8>)
    ensures
        r@ == prefix_bytes(index, timestamp, txs@, prev@),
{
    let mut buf: Vec<u8> = Vec::new();
    push_u32(&mut buf, index);
    push_u64(&mut buf, timestamp as u64);
    push_u64(&mut buf, txs.len() as u64);
    let ghost head = buf@;
    let mut i: usize = 0;
    while i < txs.len()
        invariant
            i <= txs.len(),
            buf@ == head + txs_bytes(txs@.take(i as int)),
        decreases txs.len() - i,
    {
        push_tx(&mut buf, txs[i]);
        proof {
            assert(txs@.take(i as int + 1).drop_last() =~= txs@.take(i as int));
            assert(buf@ =~= head + txs_bytes(txs@.take(i as int + 1)));
        }
        i = i + 1;
    }
    assert(txs@.take(txs.len() as int) =~= txs@);
    push_u64(&mut buf, prev.len() as u64);
    push_bytes(&mut buf, prev);
    assert(buf@ =~= prefix_bytes(index, timestamp, txs@, prev@));
    buf
}

/// Encodes a block's fields.
pub fn encode_block(
    index: u32,
    timestamp: i64,
    txs: &Vec<Transaction>,
    prev: &Vec<u8>,
    nonce: u32,
) -> (r: Vec<u8>)
    ensures
        r@ == block_bytes(index, timestamp, txs@, prev@, nonce),
{
    let mut buf = encode_prefix(index, timestamp, txs, prev);
    push_u32(&mut buf, nonce);
    buf
}

} // verus!
