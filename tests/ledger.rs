use powledger::balances::{apply_txs, BalanceEntry};
use powledger::block::{Block, DIFFICULTY};
use powledger::encoding::{encode_block, Account, Transaction, COIN};
use powledger::hashing::{has_leading_zeros, hash_bytes, to_hex};
use powledger::ledger::{chain_is_valid, first_fault, FaultKind, Ledger, LedgerConfig, MineError};

fn easy(reward: u64, interval: u32) -> Ledger {
    Ledger::with_config(LedgerConfig { initial_reward: reward, halving_interval: interval, difficulty: 1 }).unwrap()
}

fn wallet(l: &mut Ledger) -> Account {
    l.create_wallet().unwrap()
}

#[test]
fn genesis_invariant() {
    let l = Ledger::new().unwrap();
    let chain = l.list_chain();
    assert_eq!(chain.len(), 1);
    assert_eq!(chain[0].index, 0);
    assert!(chain[0].transactions.is_empty());
    assert_eq!(chain[0].previous_hash, b"0".to_vec());
    assert_eq!(chain[0].hash.len(), 64);
    assert!(chain[0].hash.starts_with(b"0000"));
    assert_eq!(chain[0].hash, chain[0].calculate_hash());
    assert!(chain[0].is_sealed(DIFFICULTY));
    assert!(l.pending_transactions().is_empty());
    assert_eq!(l.current_reward(), 100 * COIN);
    assert!(l.is_chain_valid());
}

#[test]
fn hash_determinism() {
    let txs = vec![Transaction::new(Account::System, Account::Wallet(7), 5)];
    let a = Block::mine(3, 1_700_000_000, txs.clone(), b"abc".to_vec(), 2).unwrap();
    let b = Block::mine(3, 1_700_000_000, txs.clone(), b"abc".to_vec(), 2).unwrap();
    assert_eq!(a.hash, b.hash);
    assert_eq!(a.nonce, b.nonce);
    assert_eq!(a.calculate_hash(), a.calculate_hash());
    let data = encode_block(3, 1_700_000_000, &txs, &b"abc".to_vec(), a.nonce);
    assert_eq!(hash_bytes(&data), a.hash);
    let other = encode_block(3, 1_700_000_001, &txs, &b"abc".to_vec(), a.nonce);
    assert_ne!(hash_bytes(&other), a.hash);
}

#[test]
fn proof_of_work_first_nonce() {
    let txs = vec![Transaction::new(Account::Wallet(1), Account::Wallet(2), 9)];
    let prev = b"00ff".to_vec();
    let b = Block::mine(1, 42, txs.clone(), prev.clone(), 2).unwrap();
    assert!(b.hash.starts_with(b"00"));
    assert!(b.is_sealed(2));
    for n in 0..b.nonce {
        let h = hash_bytes(&encode_block(1, 42, &txs, &prev, n));
        assert!(!has_leading_zeros(&h, 2));
    }
    assert_eq!(b.index, 1);
    assert_eq!(b.timestamp, 42);
    assert_eq!(b.transactions, txs);
    assert_eq!(b.previous_hash, prev);
}

#[test]
fn sha256_of_abc() {
    let h = hash_bytes(&b"abc".to_vec());
    assert_eq!(
        String::from_utf8(h).unwrap(),
        "ba7816bf8f01cfea414140de5dae2223b00361a396177a9cb410ff61f20015ad"
    );
}

#[test]
fn hex_rendering() {
    assert_eq!(to_hex(&vec![0x00, 0x0f, 0xa0, 0xff]), b"000fa0ff".to_vec());
    assert!(to_hex(&vec![]).is_empty());
    assert!(has_leading_zeros(&b"00ab".to_vec(), 2));
    assert!(!has_leading_zeros(&b"0ab".to_vec(), 2));
    assert!(!has_leading_zeros(&b"0".to_vec(), 2));
    assert!(has_leading_zeros(&b"".to_vec(), 0));
}

#[test]
fn block_encoding_layout() {
    let txs = vec![Transaction::new(Account::System, Account::Wallet(0x0102), 3)];
    let got = encode_block(1, 2, &txs, &b"0".to_vec(), 4);
    let want: Vec<u8> = vec![
        0, 0, 0, 1, // index
        0, 0, 0, 0, 0, 0, 0, 2, // timestamp
        0, 0, 0, 0, 0, 0, 0, 1, // transaction count
        0, // from: system
        1, 0, 0, 0, 0, 0, 0, 1, 2, // to: wallet 0x0102
        0, 0, 0, 0, 0, 0, 0, 3, // amount
        0, 0, 0, 0, 0, 0, 0, 1, // previous hash length
        48, // "0"
        0, 0, 0, 4, // nonce
    ];
    assert_eq!(got, want);
}

#[test]
fn chain_links_and_tampering() {
    let mut l = easy(100, 0);
    let a = wallet(&mut l);
    let b = wallet(&mut l);
    l.mine_pending(a).unwrap();
    assert!(l.add_transaction(Transaction::new(a, b, 30)));
    l.mine_pending(b).unwrap();
    l.mine_pending(a).unwrap();
    let chain = l.list_chain().clone();
    assert_eq!(chain.len(), 4);
    for i in 1..chain.len() {
        assert_eq!(chain[i].previous_hash, chain[i - 1].hash);
        assert_eq!(chain[i].index as usize, i);
    }
    assert!(chain_is_valid(&chain, 1));
    assert_eq!(first_fault(&chain, 1), None);

    let mut t = chain.clone();
    t[2].transactions[0].amount = 3000;
    assert!(!chain_is_valid(&t, 1));
    assert_eq!(first_fault(&t, 1).unwrap().index, 2);
    assert_eq!(first_fault(&t, 1).unwrap().kind, FaultKind::HashMismatch);

    let mut t = chain.clone();
    t[3].previous_hash = b"0".to_vec();
    assert!(!chain_is_valid(&t, 1));

    let mut t = chain.clone();
    t[1].hash[5] = if t[1].hash[5] == b'a' { b'b' } else { b'a' };
    let f = first_fault(&t, 1).unwrap();
    assert_eq!(f.index, 1);
    assert_eq!(f.kind, FaultKind::HashMismatch);

    let mut t = chain.clone();
    t[0].hash = b"0123".to_vec();
    let f = first_fault(&t, 1).unwrap();
    assert_eq!(f.index, 1);
    assert_eq!(f.kind, FaultKind::BrokenLink);

    let mut t = chain.clone();
    t[2].nonce = t[2].nonce.wrapping_add(1);
    assert!(!chain_is_valid(&t, 1));

    assert!(!chain_is_valid(&chain, 64 + 1));
    assert_eq!(first_fault(&chain, 65).unwrap().kind, FaultKind::InsufficientWork);
}

#[test]
fn balance_conservation() {
    let mut l = easy(100, 0);
    let a = wallet(&mut l);
    let b = wallet(&mut l);
    let c = wallet(&mut l);
    let sum = |l: &Ledger| l.get_balance(a) + l.get_balance(b) + l.get_balance(c);
    l.mine_pending(a).unwrap();
    assert_eq!(sum(&l), 100);
    assert!(l.add_transaction(Transaction::new(a, b, 40)));
    assert!(l.add_transaction(Transaction::new(a, c, 25)));
    let before = sum(&l);
    let blk = l.mine_pending(c).unwrap();
    assert_eq!(blk.transactions.len(), 3);
    assert_eq!(*blk.transactions.last().unwrap(), Transaction::new(Account::System, c, 100));
    assert_eq!(sum(&l), before + 100);
    assert_eq!(l.get_balance(a), 35);
    assert_eq!(l.get_balance(b), 40);
    assert_eq!(l.get_balance(c), 125);
}

#[test]
fn admission_rejection() {
    let mut l = easy(100, 0);
    let a = wallet(&mut l);
    let b = wallet(&mut l);
    assert!(!l.add_transaction(Transaction::new(a, b, 50)));
    assert!(l.pending_transactions().is_empty());
    l.mine_pending(a).unwrap();
    assert!(l.add_transaction(Transaction::new(a, b, 50)));
    assert_eq!(l.pending_transactions().len(), 1);
    assert!(!l.add_transaction(Transaction::new(b, a, 1)));
    assert_eq!(l.pending_transactions().len(), 1);
    assert!(l.add_transaction(Transaction::new(Account::System, b, 1_000)));
    assert_eq!(l.pending_transactions().len(), 2);
}

#[test]
fn double_spend_within_one_block() {
    let mut l = easy(100, 0);
    let a = wallet(&mut l);
    let b = wallet(&mut l);
    l.mine_pending(a).unwrap();
    assert!(l.add_transaction(Transaction::new(a, b, 80)));
    assert!(l.add_transaction(Transaction::new(a, b, 80)));
    l.mine_pending(b).unwrap();
    assert_eq!(l.get_balance(a), -60);
    assert_eq!(l.get_balance(b), 260);
    assert!(l.is_chain_valid());
}

#[test]
fn reward_halving() {
    let mut l = easy(100 * COIN, 10);
    let m = wallet(&mut l);
    let mut rewards: Vec<u64> = Vec::new();
    for _ in 0..32 {
        let b = l.mine_pending(m).unwrap();
        rewards.push(b.transactions.last().unwrap().amount);
    }
    // rewards[k] is the coinbase of block index k + 1
    assert_eq!(rewards[8], 100 * COIN);
    assert_eq!(rewards[9], 50 * COIN);
    assert_eq!(rewards[10], 50 * COIN);
    assert_eq!(rewards[18], 50 * COIN);
    assert_eq!(rewards[19], 25 * COIN);
    assert_eq!(rewards[20], 25 * COIN);
    assert_eq!(rewards[29], 12 * COIN + COIN / 2);
    assert_eq!(rewards[31], 1_250_000_000);
    assert_eq!(l.current_reward(), 1_250_000_000);
    assert!(l.is_chain_valid());
}

#[test]
fn constant_reward_without_halving() {
    let mut l = easy(100, 0);
    let m = wallet(&mut l);
    for _ in 0..12 {
        let b = l.mine_pending(m).unwrap();
        assert_eq!(b.transactions.last().unwrap().amount, 100);
    }
    assert_eq!(l.get_balance(m), 1200);
}

#[test]
fn wallet_scenario() {
    let mut l = Ledger::new().unwrap();
    let a = wallet(&mut l);
    let b = wallet(&mut l);
    assert_ne!(a, b);
    assert_ne!(a, Account::System);
    assert_eq!(l.get_balance(a), 0);
    let ten = 10 * COIN;
    assert!(!l.add_transaction(Transaction::new(a, b, ten)));
    l.mine_pending(a).unwrap();
    assert_eq!(l.get_balance(a), 100 * COIN as i128);
    assert!(l.add_transaction(Transaction::new(a, b, ten)));
    l.mine_pending(b).unwrap();
    assert_eq!(l.get_balance(b), 110 * COIN as i128);
    assert_eq!(l.get_balance(a), 90 * COIN as i128);
    assert!(l.is_chain_valid());
    assert_eq!(l.list_chain().len(), 3);
}

#[test]
fn fractional_amounts() {
    let mut l = easy(100 * COIN, 0);
    let a = wallet(&mut l);
    let b = wallet(&mut l);
    l.mine_pending(a).unwrap();
    assert!(l.add_transaction(Transaction::new(a, b, COIN / 4)));
    l.mine_pending(a).unwrap();
    assert_eq!(l.get_balance(b), 25_000_000);
    assert_eq!(l.get_balance(a), 200 * COIN as i128 - 25_000_000);
}

#[test]
fn register_wallet_twice() {
    let mut l = easy(100, 0);
    assert_eq!(l.register_wallet(5), Some(Account::Wallet(5)));
    assert_eq!(l.register_wallet(5), None);
    assert_eq!(l.get_balance(Account::Wallet(5)), 0);
    assert_eq!(l.get_balance(Account::Wallet(6)), 0);
}

#[test]
fn mining_at_a_given_time() {
    let mut l = Ledger::create_at(LedgerConfig { initial_reward: 7, halving_interval: 0, difficulty: 1 }, 1000).unwrap();
    assert_eq!(l.list_chain()[0].timestamp, 1000);
    let m = Account::Wallet(9);
    let b = l.mine_pending_at(m, 2000).unwrap();
    assert_eq!(b.timestamp, 2000);
    assert_eq!(b.index, 1);
    assert_eq!(b.previous_hash, l.list_chain()[0].hash);
    assert_eq!(l.get_balance(m), 7);
    let again = Ledger::create_at(LedgerConfig { initial_reward: 7, halving_interval: 0, difficulty: 1 }, 1000).unwrap();
    assert_eq!(again.list_chain()[0].hash, l.list_chain()[0].hash);
}

#[test]
fn balance_overflow_is_reported() {
    let table = vec![BalanceEntry { account: Account::Wallet(1), amount: i128::MAX - 5 }];
    let ok = vec![Transaction::new(Account::System, Account::Wallet(1), 5)];
    let applied = apply_txs(&table, &ok).unwrap();
    assert_eq!(applied[0].amount, i128::MAX);
    let too_much = vec![Transaction::new(Account::System, Account::Wallet(1), 6)];
    assert!(apply_txs(&table, &too_much).is_none());
    let low = vec![BalanceEntry { account: Account::Wallet(2), amount: i128::MIN + 1 }];
    let debit = vec![Transaction::new(Account::Wallet(2), Account::Wallet(3), 2)];
    assert!(apply_txs(&low, &debit).is_none());
    let self_transfer = vec![Transaction::new(Account::Wallet(2), Account::Wallet(2), 2)];
    assert_eq!(apply_txs(&low, &self_transfer).unwrap()[0].amount, i128::MIN + 1);
}

#[test]
fn block_new_uses_default_difficulty() {
    let b = Block::new(5, vec![], b"0".to_vec()).unwrap();
    assert_eq!(b.index, 5);
    assert!(b.hash.starts_with(b"0000"));
    assert!(b.is_sealed(DIFFICULTY));
    let c = b.duplicate();
    assert_eq!(c.hash, b.hash);
    assert_eq!(c.nonce, b.nonce);
}

#[test]
fn standard_configuration_and_validation() {
    let cfg = LedgerConfig::standard();
    assert_eq!(cfg, LedgerConfig { initial_reward: 100 * COIN, halving_interval: 10, difficulty: 4 });
    let mut l = easy(10, 0);
    assert_eq!(l.difficulty(), 1);
    l.mine_pending(Account::Wallet(3)).unwrap();
    assert_eq!(l.validate(), None);
    assert!(!matches!(l.mine_pending(Account::Wallet(3)), Err(MineError::ChainFull)));
}
