//! The balance table: one entry per account, unique by account, with what a
//! transaction or a list of them does to it.
use crate::encoding::{Account, Transaction};
use vstd::prelude::*;

verus! {

/// The recorded balance of one account. Balances may go below zero: a
/// sender's balance is checked when a transfer is queued, not when it is mined.
#[derive(Clone, Copy, Debug, PartialEq, Eq, Structural)]
pub struct BalanceEntry {
    pub account: Account,
    pub amount: i128,
}

/// No account has two entries.
pub open spec fn unique(s: Seq<BalanceEntry>) -> bool {
    forall|i: int, j: int|
        0 <= i < j < s.len() ==> #[trigger] s[i].account != #[trigger] s[j].account
}

/// The balance recorded for `a`; zero for an account with no entry.
pub open spec fn lookup(s: Seq<BalanceEntry>, a: Account) -> int
    decreases s.len(),
{
    if s.len() == 0 {
        0
    } else if s.last().account == a {
        s.last().amount as int
    } else {
        lookup(s.drop_last(), a)
    }
}

/// Whether `a` has an entry.
pub open spec fn has_entry(s: Seq<BalanceEntry>, a: Account) -> bool {
    exists|i: int| 0 <= i < s.len() && s[i].account == a
}

/// The sum of all recorded balances.
pub open spec fn total(s: Seq<BalanceEntry>) -> int
    decreases s.len(),
{
    if s.len() == 0 {
        0
    } else {
        total(s.drop_last()) + s.last().amount
    }
}

/// What a transaction adds to the balance of `a`: the amount when `a`
/// receives it, less the amount when `a` sends it. The system account is
/// never debited.
pub open spec fn tx_delta(t: Transaction, a: Account) -> int {
    (if t.to == a {
        t.amount as int
    } else {
        0int
    }) - (if t.from != Account::System && t.from == a {
        t.amount as int
    } else {
        0int
    })
}

/// What a list of transactions adds to the balance of `a`.
pub open spec fn txs_delta(s: Seq<Transaction>, a: Account) -> int
    decreases s.len(),
{
    if s.len() == 0 {
        0
    } else {
        txs_delta(s.drop_last(), a) + tx_delta(s.last(), a)
    }
}

/// The sum of the amounts that the system account sends: the only transfers
/// that create value.
pub open spec fn minted(s: Seq<Transaction>) -> int
    decreases s.len(),
{
    if s.len() == 0 {
        0
    } else {
        minted(s.drop_last()) + if s.last().from == Account::System {
            s.last().amount as int
        } else {
            0int
        }
    }
}

pub open spec fn in_i128(v: int) -> bool {
    i128::MIN <= v <= i128::MAX
}

/// Applying `txs` to the table one after another keeps every balance within
/// the range of `i128` after each transaction.
pub open spec fn fits(s: Seq<BalanceEntry>, txs: Seq<Transaction>) -> bool {
    forall|k: int, a: Account|
        0 < k <= txs.len() ==> in_i128(lookup(s, a) + #[trigger] txs_delta(txs.take(k), a))
}

pub proof fn lemma_lookup_in_range(s: Seq<BalanceEntry>, a: Account)
    ensures
        in_i128(lookup(s, a)),
    decreases s.len(),
{
    if s.len() > 0 {
        lemma_lookup_in_range(s.drop_last(), a);
    }
}

pub proof fn lemma_lookup_found(s: Seq<BalanceEntry>, i: int)
    requires
        unique(s),
        0 <= i < s.len(),
    ensures
        lookup(s, s[i].account) == s[i].amount,
    decreases s.len(),
{
    if i < s.len() - 1 {
        assert(s[i].account != s[s.len() - 1].account);
        assert(s.drop_last()[i] == s[i]);
        lemma_lookup_found(s.drop_last(), i);
    }
}

pub proof fn lemma_lookup_absent(s: Seq<BalanceEntry>, a: Account)
    requires
        !has_entry(s, a),
    ensures
        lookup(s, a) == 0,
    decreases s.len(),
{
    if s.len() > 0 {
        assert(s.last().account != a);
        assert forall|i: int| 0 <= i < s.drop_last().len() implies s.drop_last()[i].account != a by {
            assert(s.drop_last()[i] == s[i]);
        }
        lemma_lookup_absent(s.drop_last(), a);
    }
}

pub proof fn lemma_update(s: Seq<BalanceEntry>, i: int, e: BalanceEntry)
    requires
        unique(s),
        0 <= i < s.len(),
        s[i].account == e.account,
    ensures
        unique(s.update(i, e)),
        forall|x: Account|
            #[trigger] lookup(s.update(i, e), x) == if x == e.account {
                e.amount as int
            } else {
                lookup(s, x)
            },
        total(s.update(i, e)) == total(s) - s[i].amount + e.amount,
    decreases s.len(),
{
    let u = s.update(i, e);
    assert forall|p: int, q: int| 0 <= p < q < u.len() implies #[trigger] u[p].account
        != #[trigger] u[q].account by {
        assert(s[p].account != s[q].account);
    }
    if i == s.len() - 1 {
        assert(u.drop_last() =~= s.drop_last());
        assert forall|x: Account| #[trigger] lookup(u, x) == if x == e.account {
            e.amount as int
        } else {
            lookup(s, x)
        } by {}
    } else {
        assert(u.drop_last() =~= s.drop_last().update(i, e));
        assert(unique(s.drop_last()));
        lemma_update(s.drop_last(), i, e);
        assert(s.last().account != e.account);
        assert forall|x: Account| #[trigger] lookup(u, x) == if x == e.account {
            e.amount as int
        } else {
            lookup(s, x)
        } by {
            assert(lookup(s.drop_last().update(i, e), x) == if x == e.account {
                e.amount as int
            } else {
                lookup(s.drop_last(), x)
            });
        }
    }
}

pub proof fn lemma_push(s: Seq<BalanceEntry>, e: BalanceEntry)
    requires
        unique(s),
        !has_entry(s, e.account),
    ensures
        unique(s.push(e)),
        forall|x: Account|
            #[trigger] lookup(s.push(e), x) == if x == e.account {
                e.amount as int
            } else {
                lookup(s, x)
            },
        total(s.push(e)) == total(s) + e.amount,
{
    let u = s.push(e);
    assert(u.drop_last() =~= s);
    assert forall|p: int, q: int| 0 <= p < q < u.len() implies #[trigger] u[p].account
        != #[trigger] u[q].account by {
        if q == s.len() {
            assert(u[p] == s[p]);
        }
    }
}

/// Finds the entry of `a`.
pub fn find(v: &Vec<BalanceEntry>, a: Account) -> (r: Option<usize>)
    ensures
        match r {
            Some(i) => i < v@.len() && v@[i as int].account == a,
            None => !has_entry(v@, a),
        },
{
    let mut i: usize = 0;
    while i < v.len()
        invariant
            i <= v.len(),
            forall|j: int| 0 <= j < i ==> v@[j].account != a,
        decreases v.len() - i,
    {
        if v[i].account == a {
            return Some(i);
        }
        i = i + 1;
    }
    None
}

/// The balance recorded for `a`, zero when it has no entry.
pub fn balance_in(v: &Vec<BalanceEntry>, a: Account) -> (r: i128)
    requires
        unique(v@),
    ensures
        r == lookup(v@, a),
{
    match find(v, a) {
        Some(i) => {
            proof {
                lemma_lookup_found(v@, i as int);
            }
            v[i].amount
        },
        None => {
            proof {
                lemma_lookup_absent(v@, a);
            }
            0
        },
    }
}

/// Records `value` as the balance of `a`, adding an entry when it has none.
pub fn set_balance(v: &mut Vec<BalanceEntry>, a: Account, value: i128)
    requires
        unique(old(v)@),
    ensures
        unique(final(v)@),
        forall|x: Account|
            #[trigger] lookup(final(v)@, x) == if x == a {
                value as int
            } else {
                lookup(old(v)@, x)
            },
        total(final(v)@) == total(old(v)@) - lookup(old(v)@, a) + value,
        has_entry(final(v)@, a),
        forall|x: Account| has_entry(old(v)@, x) ==> has_entry(final(v)@, x),
        forall|x: Account| has_entry(final(v)@, x) ==> has_entry(old(v)@, x) || x == a,
{
    let e = BalanceEntry { account: a, amount: value };
    match find(v, a) {
        Some(i) => {
            proof {
                lemma_lookup_found(v@, i as int);
                lemma_update(v@, i as int, e);
            }
            v.set(i, e);
            assert(final(v)@[i as int].account == a);
            assert forall|x: Account| has_entry(old(v)@, x) implies has_entry(final(v)@, x) by {
                let j = choose|j: int| 0 <= j < old(v)@.len() && old(v)@[j].account == x;
                assert(final(v)@[j].account == old(v)@[j].account);
            }
            assert forall|x: Account| has_entry(final(v)@, x) implies has_entry(old(v)@, x) || x == a by {
                let j = choose|j: int| 0 <= j < final(v)@.len() && final(v)@[j].account == x;
                assert(final(v)@[j].account == old(v)@[j].account);
            }
        },
        None => {
            proof {
                lemma_lookup_absent(v@, a);
                lemma_push(v@, e);
            }
            v.push(e);
            assert(final(v)@[old(v)@.len() as int].account == a);
            assert forall|x: Account| has_entry(old(v)@, x) implies has_entry(final(v)@, x) by {
                let j = choose|j: int| 0 <= j < old(v)@.len() && old(v)@[j].account == x;
                assert(final(v)@[j] == old(v)@[j]);
            }
            assert forall|x: Account| has_entry(final(v)@, x) implies has_entry(old(v)@, x) || x == a by {
                let j = choose|j: int| 0 <= j < final(v)@.len() && final(v)@[j].account == x;
                if j < old(v)@.len() {
                    assert(final(v)@[j] == old(v)@[j]);
                }
            }
        },
    }
}

/// Applies `txs` in order to a copy of the table: each recipient gains the
/// amount and each sender other than the system loses it. `None` when some
/// balance would leave the range of `i128` along the way.
pub fn apply_txs(v: &Vec<BalanceEntry>, txs: &Vec<Transaction>) -> (r: Option<Vec<BalanceEntry>>)
    requires
        unique(v@),
    ensures
        r is Some <==> fits(v@, txs@),
        match r {
            Some(n) => {
                &&& unique(n@)
                &&& forall|a: Account| #[trigger]
                    lookup(n@, a) == lookup(v@, a) + txs_delta(txs@, a)
                &&& total(n@) == total(v@) + minted(txs@)
                &&& forall|a: Account| has_entry(v@, a) ==> has_entry(n@, a)
            },
            None => true,
        },
{
    let mut cur = copy_entries(v);
    let mut i: usize = 0;
    while i < txs.len()
        invariant
            i <= txs.len(),
            unique(cur@),
            forall|a: Account| #[trigger]
                lookup(cur@, a) == lookup(v@, a) + txs_delta(txs@.take(i as int), a),
            total(cur@) == total(v@) + minted(txs@.take(i as int)),
            forall|k: int, a: Account|
                0 < k <= i ==> in_i128(lookup(v@, a) + #[trigger] txs_delta(txs@.take(k), a)),
            forall|a: Account| has_entry(v@, a) ==> has_entry(cur@, a),
        decreases txs.len() - i,
    {
        let t = txs[i];
        let ghost before = cur@;
        let ghost next = txs@.take(i as int + 1);
        assert(next.drop_last() =~= txs@.take(i as int));
        assert(next.last() == t);
        let amt = t.amount as i128;
        if t.from == Account::System {
            let b = balance_in(&cur, t.to);
            if b > i128::MAX - amt {
                assert(!in_i128(lookup(v@, t.to) + txs_delta(next, t.to)));
                return None;
            }
            set_balance(&mut cur, t.to, b + amt);
        } else if t.from != t.to {
            let b = balance_in(&cur, t.from);
            if b < i128::MIN + amt {
                assert(!in_i128(lookup(v@, t.from) + txs_delta(next, t.from)));
                return None;
            }
            set_balance(&mut cur, t.from, b - amt);
            let c = balance_in(&cur, t.to);
            if c > i128::MAX - amt {
                assert(!in_i128(lookup(v@, t.to) + txs_delta(next, t.to)));
                return None;
            }
            set_balance(&mut cur, t.to, c + amt);
        }
        proof {
            assert forall|a: Account| #[trigger]
                lookup(cur@, a) == lookup(v@, a) + txs_delta(next, a) by {}
            assert forall|k: int, a: Account|
                0 < k <= i + 1 implies in_i128(lookup(v@, a) + #[trigger] txs_delta(txs@.take(k), a)) by {
                if k == i + 1 {
                    lemma_lookup_in_range(cur@, a);
                }
            }
        }
        i = i + 1;
    }
    assert(txs@.take(txs.len() as int) =~= txs@);
    Some(cur)
}

/// A copy of the table.
pub fn copy_entries(v: &Vec<BalanceEntry>) -> (r: Vec<BalanceEntry>)
    ensures
        r@ == v@,
{
    let mut r: Vec<BalanceEntry> = Vec::new();
    let mut i: usize = 0;
    while i < v.len()
        invariant
            i <= v.len(),
            r@ == v@.take(i as int),
        decreases v.len() - i,
    {
        r.push(v[i]);
        assert(v@.take(i as int + 1) =~= v@.take(i as int).push(v@[i as int]));
        i = i + 1;
    }
    assert(v@.take(v.len() as int) =~= v@);
    r
}

} // verus!
