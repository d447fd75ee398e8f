//! The ledger store: per-user token balances and the append-only
//! transaction log.
//!
//! Balances are unsigned machine integers mutated only through checked
//! arithmetic, so no balance is ever observably negative.  `transfer`
//! composes a debit and a credit as one atomic unit: either both balances
//! change or neither does.  Transaction ids are assigned by a monotonically
//! increasing counter and are never reused.

use vstd::prelude::*;

use crate::principal::Principal;

verus! {

/// One balance record: the owner and the tokens it holds.
#[derive(Clone, Copy, PartialEq, Eq, Structural, Debug)]
pub struct Account {
    pub owner: Principal,
    pub amount: u64,
}

/// An immutable record that a purchase happened: the single source of
/// truth for the payment of `amount` from `buyer` to `seller`.
#[derive(Clone, Copy, PartialEq, Eq, Structural, Debug)]
pub struct Transaction {
    pub id: u64,
    pub buyer: Principal,
    pub seller: Principal,
    pub amount: u64,
    pub listing_id: u64,
}

/// Why a ledger operation was refused.
#[derive(Clone, Copy, PartialEq, Eq, Structural, Debug)]
pub enum LedgerError {
    /// The debited principal has no balance record at all.
    NoBalance,
    /// The debited amount exceeds the current balance.
    InsufficientFunds,
    /// The credited balance would exceed the numeric range.
    Overflow,
    /// A read-only lookup found nothing under the given key.
    NotFound,
}

/// The balance of `p` in `s`, reading the first record owned by `p`,
/// or 0 when there is none.
pub open spec fn balance_in(s: Seq<Account>, p: Principal) -> u64
    decreases s.len(),
{
    if s.len() == 0 {
        0
    } else if s[0].owner == p {
        s[0].amount
    } else {
        balance_in(s.skip(1), p)
    }
}

/// Whether `s` holds a balance record owned by `p`.
pub open spec fn has_owner(s: Seq<Account>, p: Principal) -> bool
    decreases s.len(),
{
    if s.len() == 0 {
        false
    } else {
        s[0].owner == p || has_owner(s.skip(1), p)
    }
}

/// The total token supply held across all records of `s`.
pub open spec fn sum_amounts(s: Seq<Account>) -> int
    decreases s.len(),
{
    if s.len() == 0 {
        0
    } else {
        s[0].amount + sum_amounts(s.skip(1))
    }
}

/// No balance is ever observably negative: every balance that can be read
/// out of a ledger is a machine integer at or above zero.
pub proof fn lemma_balance_nonnegative(s: Seq<Account>, p: Principal)
    ensures
        0 <= balance_in(s, p),
{
}

/// An owner without a record holds nothing.
proof fn lemma_absent_balance(s: Seq<Account>, q: Principal)
    requires
        !has_owner(s, q),
    ensures
        balance_in(s, q) == 0,
    decreases s.len(),
{
    if s.len() > 0 {
        lemma_absent_balance(s.skip(1), q);
    }
}

/// Updating the first record owned by `a.owner`, without changing the
/// owner, rewrites that owner's balance and nobody else's.
proof fn lemma_balance_update(s: Seq<Account>, i: int, a: Account, q: Principal)
    requires
        0 <= i < s.len(),
        a.owner == s[i].owner,
        forall|j: int| 0 <= j < i ==> (#[trigger] s[j]).owner != a.owner,
    ensures
        balance_in(s.update(i, a), q) == if q == a.owner {
            a.amount
        } else {
            balance_in(s, q)
        },
        has_owner(s.update(i, a), q) == has_owner(s, q),
        sum_amounts(s.update(i, a)) == sum_amounts(s) - s[i].amount + a.amount,
    decreases i,
{
    if i == 0 {
        assert(s.update(0, a)[0] == a);
        assert(s.update(0, a).skip(1) =~= s.skip(1));
    } else {
        assert(s.update(i, a)[0] == s[0]);
        assert(s.update(i, a).skip(1) =~= s.skip(1).update(i - 1, a));
        assert(forall|j: int| 0 <= j < i - 1 ==> (#[trigger] s.skip(1)[j]).owner != a.owner);
        assert(s.skip(1)[i - 1] == s[i]);
        lemma_balance_update(s.skip(1), i - 1, a, q);
    }
}

/// Appending a record for a fresh owner gives that owner its amount as
/// balance and leaves every other balance and the rest of the bookkeeping
/// facts in place.
proof fn lemma_balance_push(s: Seq<Account>, a: Account, q: Principal)
    ensures
        balance_in(s.push(a), q) == if has_owner(s, q) {
            balance_in(s, q)
        } else if q == a.owner {
            a.amount
        } else {
            0u64
        },
        has_owner(s.push(a), q) == (has_owner(s, q) || q == a.owner),
        sum_amounts(s.push(a)) == sum_amounts(s) + a.amount,
    decreases s.len(),
{
    if s.len() == 0 {
        assert(s.push(a).len() == 1);
        assert(s.push(a)[0] == a);
        assert(s.push(a).skip(1) =~= Seq::<Account>::empty());
        assert(!has_owner(s.push(a).skip(1), q));
        assert(balance_in(s.push(a).skip(1), q) == 0);
        assert(sum_amounts(s.push(a).skip(1)) == 0);
    } else {
        assert(s.push(a)[0] == s[0]);
        assert(s.push(a).skip(1) =~= s.skip(1).push(a));
        lemma_balance_push(s.skip(1), a, q);
    }
}

/// Each transaction record carries its position in the log as its id.
pub open spec fn ids_in_order(t: Seq<Transaction>) -> bool {
    forall|i: int| 0 <= i < t.len() ==> (#[trigger] t[i]).id == i
}

/// Between the records `pre` and the records `post`, no owner other
/// than `a` and `b` saw its balance or the existence of its record
/// change.
pub open spec fn balances_agree_except(
    pre: Seq<Account>,
    post: Seq<Account>,
    a: Principal,
    b: Principal,
) -> bool {
    forall|q: Principal|
        q != a && q != b ==> #[trigger] balance_in(post, q) == balance_in(pre, q) && (has_owner(
            post,
            q,
        ) <==> has_owner(pre, q))
}

/// The ledger store: balance records plus the transaction log.
pub struct Ledger {
    balances: Vec<Account>,
    transactions: Vec<Transaction>,
}

impl Ledger {
    /// The balance records, in the order their owners first received tokens.
    pub closed spec fn accounts(self) -> Seq<Account> {
        self.balances@
    }

    /// The transaction log, in the order the transactions were recorded.
    pub closed spec fn transactions(self) -> Seq<Transaction> {
        self.transactions@
    }

    /// Whether `p` holds a balance record.
    pub open spec fn has_account(self, p: Principal) -> bool {
        has_owner(self.accounts(), p)
    }

    /// The balance of `p`, or 0 when `p` has no record.
    pub open spec fn balance_of(self, p: Principal) -> u64 {
        balance_in(self.accounts(), p)
    }

    /// The total token supply across all balances.
    pub open spec fn total_supply(self) -> int {
        sum_amounts(self.accounts())
    }

    /// The id every transaction record carries equals its position in the
    /// log, so ids count up from zero and are never reused.
    pub open spec fn wf(self) -> bool {
        ids_in_order(self.transactions())
    }

    /// An empty ledger: no balances, no transactions.
    pub fn new() -> (l: Ledger)
        ensures
            l.wf(),
            l.accounts().len() == 0,
            l.transactions().len() == 0,
    {
        Ledger { balances: Vec::new(), transactions: Vec::new() }
    }

    /// Finds the position of the first balance record owned by `p`.
    fn find_account(&self, p: Principal) -> (r: Option<usize>)
        ensures
            match r {
                Some(i) => {
                    &&& i < self.accounts().len()
                    &&& self.accounts()[i as int].owner == p
                    &&& self.accounts()[i as int].amount == self.balance_of(p)
                    &&& self.has_account(p)
                    &&& forall|j: int| 0 <= j < i ==> (#[trigger] self.accounts()[j]).owner != p
                },
                None => !self.has_account(p) && self.balance_of(p) == 0,
            },
    {
        let ghost s = self.accounts();
        proof {
            assert(s.skip(0) =~= s);
        }
        let mut i: usize = 0;
        while i < self.balances.len()
            invariant
                i <= s.len(),
                s == self.accounts(),
                balance_in(s, p) == balance_in(s.skip(i as int), p),
                has_owner(s, p) == has_owner(s.skip(i as int), p),
                forall|j: int| 0 <= j < i ==> (#[trigger] s[j]).owner != p,
            decreases s.len() - i,
        {
            if self.balances[i].owner == p {
                proof {
                    assert(s.skip(i as int)[0] == s[i as int]);
                    assert(balance_in(s.skip(i as int), p) == s[i as int].amount);
                    assert(has_owner(s.skip(i as int), p));
                }
                return Some(i);
            }
            proof {
                assert(s.skip(i as int)[0] == s[i as int]);
                assert(s.skip(i as int).skip(1) =~= s.skip(i as int + 1));
            }
            i = i + 1;
        }
        proof {
            assert(s.skip(s.len() as int).len() == 0);
            assert(balance_in(s.skip(s.len() as int), p) == 0);
            assert(!has_owner(s.skip(s.len() as int), p));
        }
        None
    }

    /// Lazily creates a zero balance for `p` if it has none, then adds
    /// `amount` to it; refused only when the result would exceed the
    /// numeric range.  Minting is the only operation that raises the total
    /// token supply.
    pub fn credit(&mut self, p: Principal, amount: u64) -> (r: Result<(), LedgerError>)
        requires
            old(self).wf(),
        ensures
            final(self).wf(),
            final(self).transactions() == old(self).transactions(),
            match r {
                Ok(()) => {
                    &&& old(self).balance_of(p) + amount <= u64::MAX
                    &&& final(self).has_account(p)
                    &&& final(self).balance_of(p) == old(self).balance_of(p) + amount
                    &&& balances_agree_except(old(self).accounts(), final(self).accounts(), p, p)
                    &&& final(self).total_supply() == old(self).total_supply() + amount
                },
                Err(e) => {
                    &&& e == LedgerError::Overflow
                    &&& old(self).balance_of(p) + amount > u64::MAX
                    &&& final(self).accounts() == old(self).accounts()
                },
            },
    {
        let ghost s = self.accounts();
        match self.find_account(p) {
            Some(i) => {
                let bal = self.balances[i].amount;
                if bal > u64::MAX - amount {
                    return Err(LedgerError::Overflow);
                }
                let updated = Account { owner: p, amount: bal + amount };
                self.balances[i] = updated;
                proof {
                    assert(self.accounts() == s.update(i as int, updated));
                    lemma_balance_update(s, i as int, updated, p);
                    assert(balances_agree_except(s, s.update(i as int, updated), p, p)) by {
                        assert forall|q: Principal| q != p implies #[trigger] balance_in(
                            s.update(i as int, updated),
                            q,
                        ) == balance_in(s, q) && (has_owner(s.update(i as int, updated), q)
                            <==> has_owner(s, q)) by {
                            lemma_balance_update(s, i as int, updated, q);
                        }
                    }
                }
                Ok(())
            },
            None => {
                let fresh = Account { owner: p, amount };
                self.balances.push(fresh);
                proof {
                    assert(self.accounts() == s.push(fresh));
                    lemma_balance_push(s, fresh, p);
                    assert(balances_agree_except(s, s.push(fresh), p, p)) by {
                        assert forall|q: Principal| q != p implies #[trigger] balance_in(
                            s.push(fresh),
                            q,
                        ) == balance_in(s, q) && (has_owner(s.push(fresh), q) <==> has_owner(
                            s,
                            q,
                        )) by {
                            lemma_balance_push(s, fresh, q);
                            if !has_owner(s, q) {
                                lemma_absent_balance(s, q);
                            }
                        }
                    }
                }
                Ok(())
            },
        }
    }

    /// Subtracts `amount` from the balance of `p`; refused when `p` has no
    /// record or holds less than `amount`, in which case nothing changes.
    pub fn debit(&mut self, p: Principal, amount: u64) -> (r: Result<(), LedgerError>)
        requires
            old(self).wf(),
        ensures
            final(self).wf(),
            final(self).transactions() == old(self).transactions(),
            match r {
                Ok(()) => {
                    &&& old(self).has_account(p)
                    &&& amount <= old(self).balance_of(p)
                    &&& final(self).has_account(p)
                    &&& final(self).balance_of(p) == old(self).balance_of(p) - amount
                    &&& balances_agree_except(old(self).accounts(), final(self).accounts(), p, p)
                    &&& final(self).total_supply() == old(self).total_supply() - amount
                },
                Err(e) => {
                    &&& final(self).accounts() == old(self).accounts()
                    &&& (e == LedgerError::NoBalance <==> !old(self).has_account(p))
                    &&& (e == LedgerError::InsufficientFunds <==> old(self).has_account(p)
                        && old(self).balance_of(p) < amount)
                    &&& (e == LedgerError::NoBalance || e == LedgerError::InsufficientFunds)
                },
            },
    {
        let ghost s = self.accounts();
        match self.find_account(p) {
            Some(i) => {
                let bal = self.balances[i].amount;
                if bal < amount {
                    return Err(LedgerError::InsufficientFunds);
                }
                let updated = Account { owner: p, amount: bal - amount };
                self.balances[i] = updated;
                proof {
                    assert(self.accounts() == s.update(i as int, updated));
                    lemma_balance_update(s, i as int, updated, p);
                    assert(balances_agree_except(s, s.update(i as int, updated), p, p)) by {
                        assert forall|q: Principal| q != p implies #[trigger] balance_in(
                            s.update(i as int, updated),
                            q,
                        ) == balance_in(s, q) && (has_owner(s.update(i as int, updated), q)
                            <==> has_owner(s, q)) by {
                            lemma_balance_update(s, i as int, updated, q);
                        }
                    }
                }
                Ok(())
            },
            None => Err(LedgerError::NoBalance),
        }
    }

    /// Moves `amount` from `from` to `to` as one atomic unit: on any
    /// refusal neither balance has changed, and on success the two
    /// balances change by exactly `amount` while the total supply and
    /// every other balance stay as they were.
    #[verifier::rlimit(100)]
    pub fn transfer(&mut self, from: Principal, to: Principal, amount: u64) -> (r: Result<
        (),
        LedgerError,
    >)
        requires
            old(self).wf(),
        ensures
            final(self).wf(),
            final(self).transactions() == old(self).transactions(),
            r is Ok ==> old(self).has_account(from) && amount <= old(self).balance_of(from) && (
            from == to || old(self).balance_of(to) + amount <= u64::MAX) && final(self).total_supply() == old(self).total_supply(),
            r is Ok && from == to ==> final(self).accounts() == old(self).accounts(),
            r is Ok && from != to ==> final(self).has_account(from) && final(self).has_account(to)
                && final(self).balance_of(from) == old(self).balance_of(from) - amount && final(self).balance_of(to) == old(self).balance_of(to) + amount,
            r is Ok && from != to ==> balances_agree_except(old(self).accounts(), final(self).accounts(), from, to),
            r is Err ==> final(self).accounts() == old(self).accounts(),
            r matches Err(e) ==> (e == LedgerError::NoBalance <==> !old(self).has_account(from)) && (
            e == LedgerError::InsufficientFunds <==> old(self).has_account(from) && old(self).balance_of(from) < amount) && (e == LedgerError::Overflow <==> old(self).has_account(
                from,
            ) && amount <= old(self).balance_of(from) && from != to && old(self).balance_of(to)
                + amount > u64::MAX) && (e == LedgerError::NoBalance || e
                == LedgerError::InsufficientFunds || e == LedgerError::Overflow),
    {
        let ghost s = self.accounts();
        let fi = match self.find_account(from) {
            Some(i) => i,
            None => { return Err(LedgerError::NoBalance); },
        };
        let from_amt = self.balances[fi].amount;
        if from_amt < amount {
            return Err(LedgerError::InsufficientFunds);
        }
        if from == to {
            return Ok(());
        }
        let debited = Account { owner: from, amount: from_amt - amount };
        match self.find_account(to) {
            Some(ti) => {
                let to_amt = self.balances[ti].amount;
                if to_amt > u64::MAX - amount {
                    return Err(LedgerError::Overflow);
                }
                let credited = Account { owner: to, amount: to_amt + amount };
                self.balances[fi] = debited;
                let ghost s1 = s.update(fi as int, debited);
                self.balances[ti] = credited;
                proof {
                    assert(self.accounts() == s1.update(ti as int, credited));
                    assert(forall|j: int|
                        0 <= j < s1.len() ==> (#[trigger] s1[j]).owner == s[j].owner);
                    assert(s1[ti as int].owner == to);
                    lemma_balance_update(s, fi as int, debited, from);
                    lemma_balance_update(s, fi as int, debited, to);
                    lemma_balance_update(s1, ti as int, credited, to);
                    lemma_balance_update(s1, ti as int, credited, from);
                    assert(balances_agree_except(s, s1.update(ti as int, credited), from, to))
                        by {
                        assert forall|q: Principal| q != from && q != to implies #[trigger] balance_in(
                            s1.update(ti as int, credited),
                            q,
                        ) == balance_in(s, q) && (has_owner(s1.update(ti as int, credited), q)
                            <==> has_owner(s, q)) by {
                            lemma_balance_update(s, fi as int, debited, q);
                            lemma_balance_update(s1, ti as int, credited, q);
                        }
                    }
                }
                Ok(())
            },
            None => {
                let credited = Account { owner: to, amount };
                self.balances[fi] = debited;
                let ghost s1 = s.update(fi as int, debited);
                self.balances.push(credited);
                proof {
                    assert(self.accounts() == s1.push(credited));
                    lemma_balance_update(s, fi as int, debited, from);
                    lemma_balance_update(s, fi as int, debited, to);
                    lemma_balance_push(s1, credited, from);
                    lemma_balance_push(s1, credited, to);
                    lemma_absent_balance(s, to);
                    assert(balances_agree_except(s, s1.push(credited), from, to)) by {
                        assert forall|q: Principal| q != from && q != to implies #[trigger] balance_in(
                            s1.push(credited),
                            q,
                        ) == balance_in(s, q) && (has_owner(s1.push(credited), q) <==> has_owner(
                            s,
                            q,
                        )) by {
                            lemma_balance_update(s, fi as int, debited, q);
                            lemma_balance_push(s1, credited, q);
                            if !has_owner(s1, q) {
                                lemma_absent_balance(s1, q);
                            }
                        }
                    }
                }
                Ok(())
            },
        }
    }

    /// Appends a transaction with a freshly assigned id and returns that
    /// id.  A pure append: it never fails and touches no balance, so it is
    /// called only after `transfer` has validated and moved the funds.
    pub fn record_transaction(
        &mut self,
        buyer: Principal,
        seller: Principal,
        amount: u64,
        listing_id: u64,
    ) -> (id: u64)
        requires
            old(self).wf(),
        ensures
            final(self).wf(),
            final(self).accounts() == old(self).accounts(),
            id as int == old(self).transactions().len(),
            final(self).transactions() == old(self).transactions().push(
                Transaction { id, buyer, seller, amount, listing_id },
            ),
    {
        let ghost t = self.transactions@;
        let id = self.transactions.len() as u64;
        self.transactions.push(Transaction { id, buyer, seller, amount, listing_id });
        proof {
            let tx = Transaction { id, buyer, seller, amount, listing_id };
            assert(t == old(self).transactions());
            assert(ids_in_order(t));
            assert(self.transactions@ == t.push(tx));
            assert forall|i: int| 0 <= i < t.push(tx).len() implies (#[trigger] t.push(tx)[i]).id
                == i by {
                if i < t.len() {
                    assert(t.push(tx)[i] == t[i]);
                } else {
                    assert(t.push(tx)[i] == tx);
                }
            }
            assert(ids_in_order(t.push(tx)));
        }
        id
    }

    /// The balance of `p`, or `NotFound` when `p` never received tokens.
    pub fn get_balance(&self, p: Principal) -> (r: Result<u64, LedgerError>)
        ensures
            match r {
                Ok(b) => self.has_account(p) && b == self.balance_of(p),
                Err(e) => e == LedgerError::NotFound && !self.has_account(p),
            },
    {
        match self.find_account(p) {
            Some(i) => Ok(self.balances[i].amount),
            None => Err(LedgerError::NotFound),
        }
    }

    /// The transaction recorded under `id`, or `NotFound` when no
    /// transaction with that id was ever recorded.
    pub fn get_transaction(&self, id: u64) -> (r: Result<Transaction, LedgerError>)
        requires
            self.wf(),
        ensures
            match r {
                Ok(t) => id < self.transactions().len() && t == self.transactions()[id as int]
                    && t.id == id,
                Err(e) => e == LedgerError::NotFound && id >= self.transactions().len(),
            },
    {
        if id < self.transactions.len() as u64 {
            let i = id as usize;
            proof {
                assert(i as int == id as int);
            }
            Ok(self.transactions[i])
        } else {
            Err(LedgerError::NotFound)
        }
    }

    /// Every balance record, for snapshotting the store.
    pub fn accounts_list(&self) -> (r: Vec<Account>)
        ensures
            r@ == self.accounts(),
    {
        let mut r: Vec<Account> = Vec::new();
        let mut i: usize = 0;
        while i < self.balances.len()
            invariant
                i <= self.accounts().len(),
                r@ == self.accounts().take(i as int),
            decreases self.accounts().len() - i,
        {
            r.push(self.balances[i]);
            proof {
                assert(self.accounts().take(i as int + 1) =~= self.accounts().take(
                    i as int,
                ).push(self.accounts()[i as int]));
            }
            i = i + 1;
        }
        proof {
            assert(self.accounts().take(self.accounts().len() as int) =~= self.accounts());
        }
        r
    }

    /// The whole transaction log, for snapshotting the store.
    pub fn transactions_list(&self) -> (r: Vec<Transaction>)
        ensures
            r@ == self.transactions(),
    {
        let mut r: Vec<Transaction> = Vec::new();
        let mut i: usize = 0;
        while i < self.transactions.len()
            invariant
                i <= self.transactions().len(),
                r@ == self.transactions().take(i as int),
            decreases self.transactions().len() - i,
        {
            r.push(self.transactions[i]);
            proof {
                assert(self.transactions().take(i as int + 1) =~= self.transactions().take(
                    i as int,
                ).push(self.transactions()[i as int]));
            }
            i = i + 1;
        }
        proof {
            assert(self.transactions().take(self.transactions().len() as int)
                =~= self.transactions());
        }
        r
    }
}

/// Exactly one transaction record carries any given id: two positions of
/// the log with the same id are the same position.
pub proof fn lemma_transaction_ids_unique(l: Ledger, i: int, j: int)
    requires
        l.wf(),
        0 <= i < l.transactions().len(),
        0 <= j < l.transactions().len(),
        l.transactions()[i].id == l.transactions()[j].id,
    ensures
        i == j,
{
}

} // verus!
