//! The ledger: a chain of sealed blocks, a queue of admitted transfers, a
//! balance table kept equal to a replay of the chain, and the mining reward.
use crate::balances::{
    apply_txs, balance_in, find, fits, has_entry, lemma_lookup_absent, lookup, minted, set_balance,
    total, txs_delta, unique, BalanceEntry,
};
use crate::block::{block_hash, least_nonce, now_timestamp, sealed, solves, unsolvable, Block, DIFFICULTY};
use crate::encoding::{copy_bytes, copy_txs, Account, Transaction, COIN};
use crate::hashing::{bytes_eq, has_leading_zeros, meets_difficulty};
use rand::Rng;
use vstd::prelude::*;

verus! {

/// The reward of the first blocks after genesis: 100 tokens.
pub const MINING_REWARD: u64 = 100 * COIN;

/// The number of blocks after which the reward is halved.
pub const HALVING_INTERVAL: u32 = 10;

/// How many addresses `create_wallet` draws before it gives up.
pub const WALLET_DRAWS: u32 = 8;

/// The stand-in for the previous hash of the genesis block: the text `"0"`.
pub open spec fn root_hash() -> Seq<u8> {
    seq![48u8]
}

/// What each block adds to the balance of `a`, summed over the chain.
pub open spec fn chain_delta(c: Seq<Block>, a: Account) -> int
    decreases c.len(),
{
    if c.len() == 0 {
        0
    } else {
        chain_delta(c.drop_last(), a) + txs_delta(c.last().transactions@, a)
    }
}

/// Every block after the first is sealed at difficulty `d` and names the
/// hash of the block before it.
pub open spec fn chain_valid(c: Seq<Block>, d: nat) -> bool {
    forall|i: int|
        1 <= i < c.len() ==> sealed(c[i], d) && (#[trigger] c[i].previous_hash)@ == c[i - 1].hash@
}

/// The reward transaction of a block mined by `miner`.
pub open spec fn coinbase(miner: Account, reward: u64) -> Transaction {
    Transaction { from: Account::System, to: miner, amount: reward }
}

/// The reward after the chain has grown to `len` blocks: halved when `len`
/// is a multiple of a non-zero interval.
pub open spec fn next_reward(reward: u64, interval: u32, len: nat) -> u64 {
    if interval > 0 && len % (interval as nat) == 0 {
        (reward / 2) as u64
    } else {
        reward
    }
}

/// Two blocks with the same fields.
pub open spec fn same_block(x: Block, y: Block) -> bool {
    &&& x.index == y.index
    &&& x.timestamp == y.timestamp
    &&& x.transactions@ == y.transactions@
    &&& x.previous_hash@ == y.previous_hash@
    &&& x.hash@ == y.hash@
    &&& x.nonce == y.nonce
}

/// Appending a sealed block that links to the last one keeps a chain valid
/// and its indices equal to positions, and adds the block's transactions to
/// every replayed balance.
proof fn lemma_extend_chain(c: Seq<Block>, b: Block, d: nat)
    requires
        c.len() >= 1,
        chain_valid(c, d),
        forall|i: int| 0 <= i < c.len() ==> #[trigger] c[i].index == i,
        b.index == c.len(),
        sealed(b, d),
        b.previous_hash@ == c.last().hash@,
    ensures
        chain_valid(c.push(b), d),
        forall|i: int| 0 <= i < c.push(b).len() ==> #[trigger] c.push(b)[i].index == i,
        forall|a: Account| #[trigger] chain_delta(c.push(b), a) == chain_delta(c, a) + txs_delta(b.transactions@, a),
{
    let n = c.push(b);
    assert(n.drop_last() =~= c);
    assert forall|i: int| 0 <= i < n.len() implies #[trigger] n[i].index == i by {
        if i < c.len() {
            assert(n[i] == c[i]);
        }
    }
    assert forall|i: int| 1 <= i < n.len() implies sealed(n[i], d) && (#[trigger] n[i].previous_hash)@
        == n[i - 1].hash@ by {
        if i < c.len() {
            assert(n[i] == c[i]);
            assert(n[i - 1] == c[i - 1]);
            assert(sealed(c[i], d));
        } else {
            assert(n[i - 1] == c[c.len() - 1]);
        }
    }
}

/// Which check a block failed during validation.
#[derive(Clone, Copy, Debug, PartialEq, Eq, Structural)]
pub enum FaultKind {
    /// The stored hash is not the hash of the block's fields.
    HashMismatch,
    /// The previous hash is not the stored hash of the block before.
    BrokenLink,
    /// The stored hash lacks the required leading zeros.
    InsufficientWork,
}

/// The first block of a chain that fails validation, and the first check it
/// fails.
#[derive(Clone, Copy, Debug, PartialEq, Eq, Structural)]
pub struct ChainFault {
    pub index: usize,
    pub kind: FaultKind,
}

/// The first check that block `i` fails, if any: its hash, then its link,
/// then its difficulty.
pub open spec fn block_fault(c: Seq<Block>, i: int, d: nat) -> Option<FaultKind> {
    if c[i].hash@ != block_hash(c[i]) {
        Some(FaultKind::HashMismatch)
    } else if c[i].previous_hash@ != c[i - 1].hash@ {
        Some(FaultKind::BrokenLink)
    } else if !meets_difficulty(c[i].hash@, d) {
        Some(FaultKind::InsufficientWork)
    } else {
        None
    }
}

/// Validates a chain at difficulty `d`, block 1 onward: `None` when it is
/// valid, else the first failing block and its first failed check.
pub fn first_fault(chain: &Vec<Block>, d: usize) -> (r: Option<ChainFault>)
    ensures
        r is None <==> chain_valid(chain@, d as nat),
        match r {
            Some(f) => {
                &&& 1 <= f.index < chain@.len()
                &&& block_fault(chain@, f.index as int, d as nat) == Some(f.kind)
                &&& forall|j: int| 1 <= j < f.index ==> block_fault(chain@, j, d as nat) is None
            },
            None => true,
        },
{
    let mut i: usize = 1;
    while i < chain.len()
        invariant
            1 <= i,
            forall|j: int| 1 <= j < i && j < chain@.len() ==> block_fault(chain@, j, d as nat) is None,
        decreases chain.len() - i,
    {
        let b = &chain[i];
        let h = b.calculate_hash();
        let kind = if !bytes_eq(&b.hash, &h) {
            Some(FaultKind::HashMismatch)
        } else if !bytes_eq(&b.previous_hash, &chain[i - 1].hash) {
            Some(FaultKind::BrokenLink)
        } else if !has_leading_zeros(&b.hash, d) {
            Some(FaultKind::InsufficientWork)
        } else {
            None
        };
        match kind {
            Some(k) => {
                assert(block_fault(chain@, i as int, d as nat) == Some(k));
                assert(!chain_valid(chain@, d as nat)) by {
                    assert(!(sealed(chain@[i as int], d as nat) && chain@[i as int].previous_hash@
                        == chain@[i - 1].hash@));
                }
                return Some(ChainFault { index: i, kind: k });
            },
            None => {},
        }
        i = i + 1;
    }
    assert forall|j: int| 1 <= j < chain@.len() implies sealed(chain@[j], d as nat)
        && (#[trigger] chain@[j].previous_hash)@ == chain@[j - 1].hash@ by {
        assert(block_fault(chain@, j, d as nat) is None);
    }
    None
}

/// Whether every block from index 1 on is sealed at difficulty `d` and
/// names the hash of the block before it.
pub fn chain_is_valid(chain: &Vec<Block>, d: usize) -> (r: bool)
    ensures
        r == chain_valid(chain@, d as nat),
{
    first_fault(chain, d).is_none()
}

/// How the ledger is set up: the first reward, the halving interval (zero:
/// the reward never changes) and the difficulty of the mining puzzle.
#[derive(Clone, Copy, Debug, PartialEq, Eq, Structural)]
pub struct LedgerConfig {
    pub initial_reward: u64,
    pub halving_interval: u32,
    pub difficulty: usize,
}

impl LedgerConfig {
    /// A reward of 100 tokens, halved every 10 blocks, at difficulty 4.
    pub fn standard() -> (r: LedgerConfig)
        ensures
            r.initial_reward == MINING_REWARD,
            r.halving_interval == HALVING_INTERVAL,
            r.difficulty == DIFFICULTY,
    {
        LedgerConfig {
            initial_reward: MINING_REWARD,
            halving_interval: HALVING_INTERVAL,
            difficulty: DIFFICULTY,
        }
    }
}

/// Why mining did not add a block.
#[derive(Clone, Copy, Debug, PartialEq, Eq, Structural)]
pub enum MineError {
    /// The chain holds as many blocks as a `u32` index can number.
    ChainFull,
    /// Some balance would leave the range of `i128`.
    BalanceOverflow,
    /// No `u32` nonce solves the puzzle for the block.
    NoNonce,
}

/// `r` is the error `e`.
pub open spec fn fails_with(r: Result<Block, MineError>, e: MineError) -> bool {
    match r {
        Ok(_) => false,
        Err(x) => x == e,
    }
}

/// Two ledgers in the same observable state.
pub open spec fn same_state(x: Ledger, y: Ledger) -> bool {
    &&& x.blocks() == y.blocks()
    &&& x.queue() == y.queue()
    &&& x.reward() == y.reward()
    &&& x.interval() == y.interval()
    &&& x.pow_difficulty() == y.pow_difficulty()
    &&& forall|a: Account| #[trigger] x.balance(a) == y.balance(a)
    &&& forall|a: Account| #[trigger] x.registered(a) == y.registered(a)
    &&& x.balance_total() == y.balance_total()
}

/// The transactions of the next block mined by `miner`: the queue, then the
/// reward.
pub open spec fn block_txs(l: Ledger, miner: Account) -> Seq<Transaction> {
    l.queue().push(coinbase(miner, l.reward()))
}

/// When mining the queue at `timestamp` for `miner` fails, and with which
/// error: the chain is full; else some balance would overflow; else no nonce
/// solves the block.
pub open spec fn mine_errors(l: Ledger, miner: Account, timestamp: i64, r: Result<Block, MineError>) -> bool {
    let txs = block_txs(l, miner);
    let len = l.blocks().len();
    let prev = l.blocks().last().hash@;
    &&& fails_with(r, MineError::ChainFull) <==> len > u32::MAX
    &&& len <= u32::MAX ==> (fails_with(r, MineError::BalanceOverflow) <==> !l.can_apply(txs))
    &&& len <= u32::MAX && l.can_apply(txs) ==> (fails_with(r, MineError::NoNonce) <==> forall|k: u32|
        !#[trigger] solves(len as u32, timestamp, txs, prev, k, l.pow_difficulty()))
}

/// What a successful mining of the queue at `timestamp` for `miner` returns
/// (`b`) and makes of ledger `l` (`n`).
pub open spec fn mine_success(l: Ledger, n: Ledger, miner: Account, timestamp: i64, b: Block) -> bool {
    let txs = block_txs(l, miner);
    let len = l.blocks().len();
    let d = l.pow_difficulty();
    &&& b.index == len
    &&& b.timestamp == timestamp
    &&& b.transactions@ == txs
    &&& b.previous_hash@ == l.blocks().last().hash@
    &&& sealed(b, d)
    &&& least_nonce(b, d)
    &&& n.blocks().len() == len + 1
    &&& n.blocks().drop_last() == l.blocks()
    &&& same_block(n.blocks().last(), b)
    &&& n.queue().len() == 0
    &&& n.reward() == next_reward(l.reward(), l.interval(), len + 1)
    &&& n.interval() == l.interval()
    &&& n.pow_difficulty() == d
    &&& forall|a: Account| #[trigger] n.balance(a) == l.balance(a) + txs_delta(txs, a)
    &&& n.balance_total() == l.balance_total() + minted(txs)
    &&& forall|a: Account| #[trigger] l.registered(a) ==> n.registered(a)
}

/// What mining the queue at `timestamp` for `miner` does to ledger `l`,
/// giving `n` and the result `r`.
#[verifier::opaque]
pub open spec fn mine_outcome(
    l: Ledger,
    n: Ledger,
    miner: Account,
    timestamp: i64,
    r: Result<Block, MineError>,
) -> bool {
    &&& mine_errors(l, miner, timestamp, r)
    &&& match r {
        Ok(b) => mine_success(l, n, miner, timestamp, b),
        Err(_) => same_state(l, n),
    }
}

/// A failed mining attempt leaves the ledger as it was.
proof fn lemma_err_outcome(l: Ledger, miner: Account, timestamp: i64, e: MineError)
    requires
        l.wf(),
        e == MineError::ChainFull <==> l.blocks().len() > u32::MAX,
        e == MineError::BalanceOverflow ==> l.blocks().len() <= u32::MAX && !l.can_apply(block_txs(l, miner)),
        e == MineError::NoNonce ==> l.blocks().len() <= u32::MAX && l.can_apply(block_txs(l, miner))
            && forall|k: u32| !#[trigger] solves(l.blocks().len() as u32, timestamp, block_txs(l, miner), l.blocks().last().hash@, k, l.pow_difficulty()),
    ensures
        mine_outcome(l, l, miner, timestamp, Err(e)),
{
    reveal(mine_outcome);
}

/// A successful mining attempt has the outcome that `mine_outcome` states.
proof fn lemma_ok_outcome(l: Ledger, n: Ledger, miner: Account, timestamp: i64, block: Block, out: Block)
    requires
        l.wf(),
        l.chain@.len() <= u32::MAX,
        l.can_apply(block_txs(l, miner)),
        block.index == l.chain@.len(),
        block.timestamp == timestamp,
        block.transactions@ == block_txs(l, miner),
        block.previous_hash@ == l.chain@.last().hash@,
        sealed(block, l.difficulty as nat),
        least_nonce(block, l.difficulty as nat),
        same_block(block, out),
        n.chain@ == l.chain@.push(block),
        forall|a: Account| #[trigger]
            lookup(n.balances@, a) == lookup(l.balances@, a) + txs_delta(block.transactions@, a),
        total(n.balances@) == total(l.balances@) + minted(block.transactions@),
        forall|a: Account| has_entry(l.balances@, a) ==> has_entry(n.balances@, a),
        n.pending@.len() == 0,
        n.reward == next_reward(l.reward, l.halving_interval, l.chain@.len() + 1),
        n.halving_interval == l.halving_interval,
        n.difficulty == l.difficulty,
    ensures
        mine_outcome(l, n, miner, timestamp, Ok(out)),
{
    reveal(mine_outcome);
    let d = l.difficulty as nat;
    let txs = block_txs(l, miner);
    let len = l.blocks().len();
    let r = Ok::<Block, MineError>(out);
    assert(n.chain@.drop_last() =~= l.chain@);
    assert(n.chain@.last() == block);
    assert(sealed(out, d));
    assert(least_nonce(out, d));
    assert(solves(len as u32, timestamp, txs, l.blocks().last().hash@, block.nonce, l.pow_difficulty()));
    assert(mine_errors(l, miner, timestamp, r));
    assert(mine_success(l, n, miner, timestamp, out));
    assert(mine_outcome(l, n, miner, timestamp, r));
}

pub struct Ledger {
    chain: Vec<Block>,
    pending: Vec<Transaction>,
    balances: Vec<BalanceEntry>,
    reward: u64,
    halving_interval: u32,
    difficulty: usize,
}

/// Relies on `rand::thread_rng` and `Rng::gen::<u64>`: a random address.
/// Nothing is known of its value.
#[verifier::external_body]
fn random_address() -> (r: u64) {
    rand::thread_rng().gen::<u64>()
}

impl Ledger {
    /// The blocks, genesis first.
    pub closed spec fn blocks(&self) -> Seq<Block> {
        self.chain@
    }

    /// The transfers admitted and not yet mined, in order of admission.
    pub closed spec fn queue(&self) -> Seq<Transaction> {
        self.pending@
    }

    /// The reward of the next block.
    pub closed spec fn reward(&self) -> u64 {
        self.reward
    }

    pub closed spec fn interval(&self) -> u32 {
        self.halving_interval
    }

    pub closed spec fn pow_difficulty(&self) -> nat {
        self.difficulty as nat
    }

    /// The recorded balance of `a`.
    pub closed spec fn balance(&self, a: Account) -> int {
        lookup(self.balances@, a)
    }

    /// The sum of all recorded balances.
    pub closed spec fn balance_total(&self) -> int {
        total(self.balances@)
    }

    /// Whether `a` has a recorded balance.
    pub closed spec fn registered(&self, a: Account) -> bool {
        has_entry(self.balances@, a)
    }

    /// Whether mining `txs` next keeps every balance within `i128`.
    pub closed spec fn can_apply(&self, txs: Seq<Transaction>) -> bool {
        fits(self.balances@, txs)
    }

    /// The ledger's invariant: a genesis block, valid links and seals, block
    /// indices equal to positions, and balances equal to a replay of the chain.
    pub closed spec fn wf(&self) -> bool {
        &&& self.chain@.len() >= 1
        &&& self.chain@.len() <= u32::MAX as nat + 1
        &&& self.chain@[0].transactions@.len() == 0
        &&& self.chain@[0].previous_hash@ == root_hash()
        &&& sealed(self.chain@[0], self.difficulty as nat)
        &&& forall|i: int| 0 <= i < self.chain@.len() ==> #[trigger] self.chain@[i].index == i
        &&& chain_valid(self.chain@, self.difficulty as nat)
        &&& unique(self.balances@)
        &&& forall|a: Account| #[trigger] lookup(self.balances@, a) == chain_delta(self.chain@, a)
    }

    /// A ledger whose genesis block is stamped `timestamp` and mined at the
    /// configured difficulty. `None` when no `u32` nonce solves it.
    pub fn create_at(config: LedgerConfig, timestamp: i64) -> (r: Option<Ledger>)
        ensures
            r is None <==> unsolvable(0, timestamp, Seq::empty(), root_hash(), config.difficulty as nat),
            match r {
                Some(l) => {
                    &&& l.wf()
                    &&& l.blocks().len() == 1
                    &&& l.blocks()[0].index == 0
                    &&& l.blocks()[0].timestamp == timestamp
                    &&& l.blocks()[0].transactions@.len() == 0
                    &&& l.blocks()[0].previous_hash@ == root_hash()
                    &&& sealed(l.blocks()[0], config.difficulty as nat)
                    &&& least_nonce(l.blocks()[0], config.difficulty as nat)
                    &&& l.queue().len() == 0
                    &&& l.reward() == config.initial_reward
                    &&& l.interval() == config.halving_interval
                    &&& l.pow_difficulty() == config.difficulty
                    &&& forall|a: Account| l.balance(a) == 0 && !l.registered(a)
                },
                None => true,
            },
    {
        let root: Vec<u8> = vec![48u8];
        let txs: Vec<Transaction> = Vec::new();
        assert(root@ =~= root_hash());
        assert(txs@ =~= Seq::<Transaction>::empty());
        let genesis = Block::mine(0, timestamp, txs, root, config.difficulty);
        match genesis {
            None => None,
            Some(g) => {
                assert(solves(0, timestamp, Seq::empty(), root_hash(), g.nonce, config.difficulty as nat));
                let mut chain: Vec<Block> = Vec::new();
                chain.push(g);
                let l = Ledger {
                    chain,
                    pending: Vec::new(),
                    balances: Vec::new(),
                    reward: config.initial_reward,
                    halving_interval: config.halving_interval,
                    difficulty: config.difficulty,
                };
                proof {
                    assert(l.chain@.drop_last() =~= Seq::<Block>::empty());
                    assert(l.chain@[0].transactions@ =~= Seq::<Transaction>::empty());
                    assert forall|a: Account| #[trigger]
                        lookup(l.balances@, a) == chain_delta(l.chain@, a) by {
                        assert(chain_delta(l.chain@.drop_last(), a) == 0);
                        assert(l.chain@.last() == g);
                        assert(txs_delta(g.transactions@, a) == 0);
                    }
                }
                Some(l)
            },
        }
    }

    /// A ledger with the given configuration, its genesis block stamped with
    /// the current time.
    pub fn with_config(config: LedgerConfig) -> (r: Option<Ledger>)
        ensures
            match r {
                Some(l) => {
                    &&& l.wf()
                    &&& l.blocks().len() == 1
                    &&& l.blocks()[0].index == 0
                    &&& l.blocks()[0].transactions@.len() == 0
                    &&& l.blocks()[0].previous_hash@ == root_hash()
                    &&& sealed(l.blocks()[0], config.difficulty as nat)
                    &&& least_nonce(l.blocks()[0], config.difficulty as nat)
                    &&& l.queue().len() == 0
                    &&& l.reward() == config.initial_reward
                    &&& l.interval() == config.halving_interval
                    &&& l.pow_difficulty() == config.difficulty
                    &&& forall|a: Account| l.balance(a) == 0 && !l.registered(a)
                },
                None => exists|ts: i64|
                    unsolvable(0, ts, Seq::empty(), root_hash(), config.difficulty as nat),
            },
    {
        let timestamp = now_timestamp();
        let r = Ledger::create_at(config, timestamp);
        if r.is_none() {
            assert(unsolvable(0, timestamp, Seq::empty(), root_hash(), config.difficulty as nat));
        }
        r
    }

    /// A ledger with the standard configuration.
    pub fn new() -> (r: Option<Ledger>)
        ensures
            match r {
                Some(l) => {
                    &&& l.wf()
                    &&& l.blocks().len() == 1
                    &&& l.blocks()[0].index == 0
                    &&& l.blocks()[0].transactions@.len() == 0
                    &&& l.blocks()[0].previous_hash@ == root_hash()
                    &&& sealed(l.blocks()[0], DIFFICULTY as nat)
                    &&& least_nonce(l.blocks()[0], DIFFICULTY as nat)
                    &&& l.queue().len() == 0
                    &&& l.reward() == MINING_REWARD
                    &&& l.interval() == HALVING_INTERVAL
                    &&& l.pow_difficulty() == DIFFICULTY
                    &&& forall|a: Account| l.balance(a) == 0 && !l.registered(a)
                },
                None => exists|ts: i64| unsolvable(0, ts, Seq::empty(), root_hash(), DIFFICULTY as nat),
            },
    {
        Ledger::with_config(LedgerConfig::standard())
    }

    /// The balance of `a`: what the chain's transactions credit it, less what
    /// they debit it; zero for an account never seen.
    pub fn get_balance(&self, a: Account) -> (r: i128)
        requires
            self.wf(),
        ensures
            r == self.balance(a),
            r == chain_delta(self.blocks(), a),
    {
        balance_in(&self.balances, a)
    }

    /// Registers wallet `id` with a zero balance. `None`, with nothing
    /// changed, when it is already registered.
    pub fn register_wallet(&mut self, id: u64) -> (r: Option<Account>)
        requires
            old(self).wf(),
        ensures
            final(self).wf(),
            r is Some <==> !old(self).registered(Account::Wallet(id)),
            final(self).blocks() == old(self).blocks(),
            final(self).queue() == old(self).queue(),
            final(self).reward() == old(self).reward(),
            final(self).interval() == old(self).interval(),
            final(self).pow_difficulty() == old(self).pow_difficulty(),
            forall|a: Account| #[trigger] final(self).balance(a) == old(self).balance(a),
            final(self).balance_total() == old(self).balance_total(),
            match r {
                Some(a) => {
                    &&& a == Account::Wallet(id)
                    &&& final(self).balance(a) == 0
                    &&& forall|x: Account| #[trigger]
                        final(self).registered(x) == (old(self).registered(x) || x == a)
                },
                None => forall|x: Account| #[trigger]
                    final(self).registered(x) == old(self).registered(x),
            },
    {
        let a = Account::Wallet(id);
        match find(&self.balances, a) {
            Some(_) => None,
            None => {
                proof {
                    lemma_lookup_absent(self.balances@, a);
                }
                set_balance(&mut self.balances, a, 0);
                Some(a)
            },
        }
    }

    /// Registers a wallet under a random address not registered before, with
    /// a zero balance. `None`, with nothing changed, when every one of
    /// `WALLET_DRAWS` draws hit a registered address.
    pub fn create_wallet(&mut self) -> (r: Option<Account>)
        requires
            old(self).wf(),
        ensures
            final(self).wf(),
            final(self).blocks() == old(self).blocks(),
            final(self).queue() == old(self).queue(),
            final(self).reward() == old(self).reward(),
            final(self).interval() == old(self).interval(),
            final(self).pow_difficulty() == old(self).pow_difficulty(),
            forall|a: Account| #[trigger] final(self).balance(a) == old(self).balance(a),
            (forall|x: Account| !old(self).registered(x)) ==> r is Some,
            match r {
                Some(a) => {
                    &&& a != Account::System
                    &&& !old(self).registered(a)
                    &&& final(self).balance(a) == 0
                    &&& forall|x: Account| #[trigger]
                        final(self).registered(x) == (old(self).registered(x) || x == a)
                },
                None => {
                    &&& exists|x: Account| old(self).registered(x)
                    &&& forall|x: Account| #[trigger]
                        final(self).registered(x) == old(self).registered(x)
                },
            },
    {
        let mut draws: u32 = 0;
        while draws < WALLET_DRAWS
            invariant
                self.wf(),
                self.blocks() == old(self).blocks(),
                self.queue() == old(self).queue(),
                self.reward() == old(self).reward(),
                self.interval() == old(self).interval(),
                self.pow_difficulty() == old(self).pow_difficulty(),
                forall|a: Account| #[trigger] self.balance(a) == old(self).balance(a),
                forall|x: Account| #[trigger] self.registered(x) == old(self).registered(x),
                draws > 0 ==> exists|x: Account| old(self).registered(x),
            decreases WALLET_DRAWS - draws,
        {
            let id = random_address();
            let r = self.register_wallet(id);
            if r.is_some() {
                proof {
                    lemma_unregistered_zero(*old(self), Account::Wallet(id));
                }
                return r;
            }
            assert(old(self).registered(Account::Wallet(id)));
            draws = draws + 1;
        }
        None
    }

    /// Appends a block already checked to fit, installs the balances that
    /// its transactions give, empties the queue and halves the reward when due.
    #[verifier::rlimit(30)]
    fn commit(&mut self, block: Block, new_bal: Vec<BalanceEntry>)
        requires
            old(self).wf(),
            old(self).chain@.len() <= u32::MAX,
            block.index == old(self).chain@.len(),
            sealed(block, old(self).difficulty as nat),
            block.previous_hash@ == old(self).chain@.last().hash@,
            unique(new_bal@),
            forall|a: Account| #[trigger]
                lookup(new_bal@, a) == lookup(old(self).balances@, a) + txs_delta(block.transactions@, a),
        ensures
            final(self).wf(),
            final(self).chain@ == old(self).chain@.push(block),
            final(self).balances@ == new_bal@,
            final(self).pending@.len() == 0,
            final(self).reward == next_reward(old(self).reward, old(self).halving_interval, old(self).chain@.len() + 1),
            final(self).halving_interval == old(self).halving_interval,
            final(self).difficulty == old(self).difficulty,
    {
        let ghost old_chain = self.chain@;
        proof {
            lemma_extend_chain(old_chain, block, self.difficulty as nat);
        }
        self.chain.push(block);
        self.balances = new_bal;
        self.pending = Vec::new();
        if self.halving_interval > 0 && self.chain.len() % (self.halving_interval as usize) == 0 {
            self.reward = self.reward / 2;
        }
        proof {
            assert(self.chain@ == old_chain.push(block));
            assert(self.chain@[0] == old_chain[0]);
            assert forall|a: Account| #[trigger]
                lookup(self.balances@, a) == chain_delta(self.chain@, a) by {
                assert(lookup(old(self).balances@, a) == chain_delta(old_chain, a));
            }
        }
    }

    /// Mines the queue, with a reward transaction to `miner` appended, into
    /// a block stamped `timestamp`; appends it, applies its transactions to
    /// the balances, empties the queue and halves the reward when the chain
    /// length becomes a multiple of the halving interval. On an error nothing
    /// changes.
    pub fn mine_pending_at(&mut self, miner: Account, timestamp: i64) -> (r: Result<Block, MineError>)
        requires
            old(self).wf(),
        ensures
            final(self).wf(),
            mine_outcome(*old(self), *final(self), miner, timestamp, r),
    {
        let len = self.chain.len();
        if len > u32::MAX as usize {
            proof {
                lemma_err_outcome(*self, miner, timestamp, MineError::ChainFull);
            }
            return Err(MineError::ChainFull);
        }
        let mut txs = copy_txs(&self.pending);
        txs.push(Transaction::new(Account::System, miner, self.reward));
        assert(txs@ =~= block_txs(*self, miner));
        let new_bal = match apply_txs(&self.balances, &txs) {
            None => {
                proof {
                    lemma_err_outcome(*self, miner, timestamp, MineError::BalanceOverflow);
                }
                return Err(MineError::BalanceOverflow);
            },
            Some(n) => n,
        };
        let prev = copy_bytes(&self.chain[len - 1].hash);
        let block = match Block::mine(len as u32, timestamp, txs, prev, self.difficulty) {
            None => {
                proof {
                    lemma_err_outcome(*self, miner, timestamp, MineError::NoNonce);
                }
                return Err(MineError::NoNonce);
            },
            Some(b) => b,
        };
        let out = block.duplicate();
        let ghost before = *self;
        self.commit(block, new_bal);
        proof {
            lemma_ok_outcome(before, *self, miner, timestamp, block, out);
        }
        Ok(out)
    }

    /// Mines the queue as `mine_pending_at` does, stamping the block with the
    /// current time.
    pub fn mine_pending(&mut self, miner: Account) -> (r: Result<Block, MineError>)
        requires
            old(self).wf(),
        ensures
            final(self).wf(),
            exists|timestamp: i64| mine_outcome(*old(self), *final(self), miner, timestamp, r),
    {
        let timestamp = now_timestamp();
        self.mine_pending_at(miner, timestamp)
    }

    /// Validates the chain at the ledger's difficulty; the first failing
    /// block and check when it is not valid.
    pub fn validate(&self) -> (r: Option<ChainFault>)
        requires
            self.wf(),
        ensures
            r is None <==> chain_valid(self.blocks(), self.pow_difficulty()),
            r is None,
    {
        first_fault(&self.chain, self.difficulty)
    }

    /// Whether the chain is valid at the ledger's difficulty. Mining keeps it
    /// so.
    pub fn is_chain_valid(&self) -> (r: bool)
        requires
            self.wf(),
        ensures
            r == chain_valid(self.blocks(), self.pow_difficulty()),
            r,
    {
        chain_is_valid(&self.chain, self.difficulty)
    }

    /// The blocks, genesis first.
    pub fn list_chain(&self) -> (r: &Vec<Block>)
        ensures
            r@ == self.blocks(),
    {
        &self.chain
    }

    /// The transfers waiting to be mined, in order of admission.
    pub fn pending_transactions(&self) -> (r: &Vec<Transaction>)
        ensures
            r@ == self.queue(),
    {
        &self.pending
    }

    /// The reward of the next block.
    pub fn current_reward(&self) -> (r: u64)
        ensures
            r == self.reward(),
    {
        self.reward
    }

    /// The number of leading `'0'` characters a block hash must have.
    pub fn difficulty(&self) -> (r: usize)
        ensures
            r == self.pow_difficulty(),
    {
        self.difficulty
    }

    /// Queues `tx` unless its sender, other than the system, has a recorded
    /// balance below the amount. The balance is not debited here: only mining
    /// changes balances.
    pub fn add_transaction(&mut self, tx: Transaction) -> (r: bool)
        requires
            old(self).wf(),
        ensures
            final(self).wf(),
            r == (tx.from == Account::System || old(self).balance(tx.from) >= tx.amount),
            r ==> final(self).queue() == old(self).queue().push(tx),
            !r ==> final(self).queue() == old(self).queue(),
            final(self).blocks() == old(self).blocks(),
            final(self).reward() == old(self).reward(),
            final(self).interval() == old(self).interval(),
            final(self).pow_difficulty() == old(self).pow_difficulty(),
            forall|a: Account| #[trigger] final(self).balance(a) == old(self).balance(a),
            forall|a: Account| #[trigger] final(self).registered(a) == old(self).registered(a),
            final(self).balance_total() == old(self).balance_total(),
    {
        if tx.from != Account::System && balance_in(&self.balances, tx.from) < tx.amount as i128 {
            return false;
        }
        self.pending.push(tx);
        true
    }
}


/// An account with no recorded balance has balance zero.
pub proof fn lemma_unregistered_zero(l: Ledger, a: Account)
    requires
        !l.registered(a),
    ensures
        l.balance(a) == 0,
{
    lemma_lookup_absent(l.balances@, a);
}

/// Balances are a cache of the chain: in a ledger every recorded balance
/// equals the sum of what the chain's transactions credit and debit it.
pub proof fn lemma_balances_replay(l: Ledger)
    requires
        l.wf(),
    ensures
        forall|a: Account| #[trigger] l.balance(a) == chain_delta(l.blocks(), a),
{
}

/// A ledger's chain is valid: every block after the first is sealed and
/// names the hash of the block before it.
pub proof fn lemma_ledger_chain_valid(l: Ledger)
    requires
        l.wf(),
    ensures
        chain_valid(l.blocks(), l.pow_difficulty()),
        forall|i: int| 1 <= i < l.blocks().len() ==> #[trigger] l.blocks()[i].previous_hash@ == l.blocks()[i - 1].hash@,
        l.blocks().len() >= 1,
        l.blocks()[0].index == 0,
{
    assert(l.chain@[0].index == 0);
}

/// The hash of a block is a function of its fields: two blocks with the
/// same index, timestamp, transactions, previous hash and nonce have the
/// same hash.
pub proof fn lemma_hash_determined(x: Block, y: Block)
    requires
        x.index == y.index,
        x.timestamp == y.timestamp,
        x.transactions@ == y.transactions@,
        x.previous_hash@ == y.previous_hash@,
        x.nonce == y.nonce,
    ensures
        block_hash(x) == block_hash(y),
{
}

/// Replacing the previous hash of a block after the first with anything but
/// the hash of the block before it makes the chain invalid.
pub proof fn lemma_broken_link_detected(c: Seq<Block>, d: nat, i: int, b: Block)
    requires
        1 <= i < c.len(),
        b.previous_hash@ != c[i - 1].hash@,
    ensures
        !chain_valid(c.update(i, b), d),
{
    let u = c.update(i, b);
    assert(u[i].previous_hash@ != u[i - 1].hash@);
}

/// In a valid chain, changing the stored hash of a block after the first,
/// with its other fields kept, makes the chain invalid.
pub proof fn lemma_altered_hash_detected(c: Seq<Block>, d: nat, i: int, b: Block)
    requires
        chain_valid(c, d),
        1 <= i < c.len(),
        b.index == c[i].index,
        b.timestamp == c[i].timestamp,
        b.transactions@ == c[i].transactions@,
        b.previous_hash@ == c[i].previous_hash@,
        b.nonce == c[i].nonce,
        b.hash@ != c[i].hash@,
    ensures
        !chain_valid(c.update(i, b), d),
{
    let u = c.update(i, b);
    assert(c[i].previous_hash@ == c[i - 1].hash@);
    assert(sealed(c[i], d));
    assert(block_hash(b) == block_hash(c[i]));
    assert(!sealed(u[i], d));
}

/// In a valid chain, changing the stored hash of any block that has a
/// successor breaks the successor's link, so the chain becomes invalid.
pub proof fn lemma_altered_predecessor_detected(c: Seq<Block>, d: nat, i: int, b: Block)
    requires
        chain_valid(c, d),
        0 <= i < c.len() - 1,
        b.hash@ != c[i].hash@,
    ensures
        !chain_valid(c.update(i, b), d),
{
    let u = c.update(i, b);
    assert(c[i + 1].previous_hash@ == c[i].hash@);
    assert(u[i + 1] == c[i + 1]);
    assert(u[i + 1].previous_hash@ != u[i].hash@);
}

proof fn lemma_minted_without_system(s: Seq<Transaction>)
    requires
        forall|i: int| 0 <= i < s.len() ==> #[trigger] s[i].from != Account::System,
    ensures
        minted(s) == 0,
    decreases s.len(),
{
    if s.len() > 0 {
        assert forall|i: int| 0 <= i < s.drop_last().len() implies #[trigger] s.drop_last()[i].from
            != Account::System by {
            assert(s.drop_last()[i] == s[i]);
        }
        lemma_minted_without_system(s.drop_last());
        assert(s.last().from != Account::System);
    }
}

/// Mining creates exactly the reward: when no queued transfer comes from the
/// system account, the sum of all balances after a successful mining is the
/// sum before plus the reward paid in the block.
pub proof fn lemma_mining_conserves(l: Ledger, n: Ledger, miner: Account, timestamp: i64, b: Block)
    requires
        l.wf(),
        mine_outcome(l, n, miner, timestamp, Ok(b)),
        forall|i: int| 0 <= i < l.queue().len() ==> #[trigger] l.queue()[i].from != Account::System,
    ensures
        n.balance_total() == l.balance_total() + l.reward(),
        b.transactions@.last() == coinbase(miner, l.reward()),
        n.balance_total() == l.balance_total() + b.transactions@.last().amount,
{
    reveal(mine_outcome);
    let txs = block_txs(l, miner);
    lemma_minted_without_system(l.queue());
    assert(txs.drop_last() =~= l.queue());
    assert(minted(txs) == l.reward());
}

} // verus!
