//! The receipt store: immutable proofs of purchase keyed by transaction.
//!
//! Generation is idempotent on the transaction id: asking twice for a
//! receipt for the same transaction stores one receipt, never two, so a
//! caller may safely retry after a failed or doubtful delivery.

use vstd::prelude::*;

use crate::principal::Principal;

verus! {

/// An immutable proof of purchase, derived one-to-one from a transaction.
#[derive(Clone, Copy, PartialEq, Eq, Structural, Debug)]
pub struct Receipt {
    pub id: u64,
    pub transaction_id: u64,
    pub buyer: Principal,
    pub seller: Principal,
    pub amount: u64,
    pub listing_id: u64,
}

/// Why a receipt lookup was refused.
#[derive(Clone, Copy, PartialEq, Eq, Structural, Debug)]
pub enum ReceiptError {
    /// No receipt was ever stored under the given id.
    NotFound,
}

/// The first receipt of `s` recording the transaction `tid`, if any.
pub open spec fn receipt_for(s: Seq<Receipt>, tid: u64) -> Option<Receipt>
    decreases s.len(),
{
    if s.len() == 0 {
        None
    } else if s[0].transaction_id == tid {
        Some(s[0])
    } else {
        receipt_for(s.skip(1), tid)
    }
}

/// Each receipt carries its position in the store as its id.
pub open spec fn receipt_ids_in_order(s: Seq<Receipt>) -> bool {
    forall|i: int| 0 <= i < s.len() ==> (#[trigger] s[i]).id == i
}

/// No two stored receipts record the same transaction.
pub open spec fn distinct_transactions(s: Seq<Receipt>) -> bool {
    forall|i: int, j: int|
        0 <= i < j < s.len() ==> (#[trigger] s[i]).transaction_id != (
        #[trigger] s[j]).transaction_id
}

/// The receipts of `s` that belong to the listing `lid`, in order.
pub open spec fn receipts_for_listing(s: Seq<Receipt>, lid: u64) -> Seq<Receipt>
    decreases s.len(),
{
    if s.len() == 0 {
        Seq::empty()
    } else if s.last().listing_id == lid {
        receipts_for_listing(s.drop_last(), lid).push(s.last())
    } else {
        receipts_for_listing(s.drop_last(), lid)
    }
}

/// The receipt store.
pub struct ReceiptStore {
    receipts: Vec<Receipt>,
}

impl ReceiptStore {
    /// The stored receipts, in the order they were generated.
    pub closed spec fn receipts(self) -> Seq<Receipt> {
        self.receipts@
    }

    /// Ids equal positions, and each transaction is recorded by at most
    /// one receipt.
    pub open spec fn wf(self) -> bool {
        receipt_ids_in_order(self.receipts()) && distinct_transactions(self.receipts())
    }

    /// An empty receipt store.
    pub fn new() -> (s: ReceiptStore)
        ensures
            s.wf(),
            s.receipts().len() == 0,
    {
        ReceiptStore { receipts: Vec::new() }
    }

    /// Finds the position of the receipt recording transaction `tid`.
    fn find_by_transaction(&self, tid: u64) -> (r: Option<usize>)
        ensures
            match r {
                Some(i) => {
                    &&& i < self.receipts().len()
                    &&& receipt_for(self.receipts(), tid) == Some(self.receipts()[i as int])
                    &&& self.receipts()[i as int].transaction_id == tid
                },
                None => {
                    &&& receipt_for(self.receipts(), tid) is None
                    &&& forall|j: int|
                        0 <= j < self.receipts().len() ==> (
                        #[trigger] self.receipts()[j]).transaction_id != tid
                },
            },
    {
        let ghost s = self.receipts();
        proof {
            assert(s.skip(0) =~= s);
        }
        let mut i: usize = 0;
        while i < self.receipts.len()
            invariant
                i <= s.len(),
                s == self.receipts(),
                receipt_for(s, tid) == receipt_for(s.skip(i as int), tid),
                forall|j: int| 0 <= j < i ==> (#[trigger] s[j]).transaction_id != tid,
            decreases s.len() - i,
        {
            if self.receipts[i].transaction_id == tid {
                proof {
                    assert(s.skip(i as int)[0] == s[i as int]);
                }
                return Some(i);
            }
            proof {
                assert(s.skip(i as int)[0] == s[i as int]);
                assert(s.skip(i as int).skip(1) =~= s.skip(i as int + 1));
            }
            i = i + 1;
        }
        proof {
            assert(s.skip(s.len() as int).len() == 0);
        }
        None
    }

    /// Stores a receipt for transaction `transaction_id`, or, when one
    /// already exists for it, returns that receipt's id without storing
    /// anything: retrying after an unsure delivery never duplicates a
    /// financial record.
    pub fn generate(
        &mut self,
        transaction_id: u64,
        buyer: Principal,
        seller: Principal,
        amount: u64,
        listing_id: u64,
    ) -> (id: u64)
        requires
            old(self).wf(),
        ensures
            final(self).wf(),
            match receipt_for(old(self).receipts(), transaction_id) {
                Some(rc) => final(self).receipts() == old(self).receipts() && id == rc.id,
                None => {
                    &&& id as int == old(self).receipts().len()
                    &&& final(self).receipts() == old(self).receipts().push(
                        Receipt { id, transaction_id, buyer, seller, amount, listing_id },
                    )
                },
            },
    {
        let ghost s = self.receipts();
        match self.find_by_transaction(transaction_id) {
            Some(i) => self.receipts[i].id,
            None => {
                let id = self.receipts.len() as u64;
                let rc = Receipt { id, transaction_id, buyer, seller, amount, listing_id };
                self.receipts.push(rc);
                proof {
                    assert forall|i: int| 0 <= i < self.receipts@.len() implies (
                    #[trigger] self.receipts@[i]).id == i by {
                        if i < s.len() {
                            assert(self.receipts@[i] == s[i]);
                        } else {
                            assert(self.receipts@[i] == rc);
                        }
                    }
                    assert forall|i: int, j: int| 0 <= i < j < self.receipts@.len() implies (
                    #[trigger] self.receipts@[i]).transaction_id != (
                    #[trigger] self.receipts@[j]).transaction_id by {
                        if j < s.len() {
                            assert(self.receipts@[i] == s[i] && self.receipts@[j] == s[j]);
                        } else {
                            assert(self.receipts@[i] == s[i] && self.receipts@[j] == rc);
                        }
                    }
                }
                id
            },
        }
    }

    /// The receipt stored under `id`, or `NotFound` when no receipt with
    /// that id was ever stored.
    pub fn get(&self, id: u64) -> (r: Result<Receipt, ReceiptError>)
        requires
            self.wf(),
        ensures
            match r {
                Ok(rc) => id < self.receipts().len() && rc == self.receipts()[id as int] && rc.id
                    == id,
                Err(e) => e == ReceiptError::NotFound && id >= self.receipts().len(),
            },
    {
        if id < self.receipts.len() as u64 {
            let i = id as usize;
            proof {
                assert(i as int == id as int);
            }
            Ok(self.receipts[i])
        } else {
            Err(ReceiptError::NotFound)
        }
    }

    /// All receipts that belong to the listing `listing_id`, in order.
    pub fn get_by_listing(&self, listing_id: u64) -> (r: Vec<Receipt>)
        ensures
            r@ == receipts_for_listing(self.receipts(), listing_id),
    {
        let ghost s = self.receipts();
        let mut r: Vec<Receipt> = Vec::new();
        let mut i: usize = 0;
        proof {
            assert(s.take(0) =~= Seq::<Receipt>::empty());
        }
        while i < self.receipts.len()
            invariant
                i <= s.len(),
                s == self.receipts(),
                r@ == receipts_for_listing(s.take(i as int), listing_id),
            decreases s.len() - i,
        {
            proof {
                assert(s.take(i as int + 1).drop_last() =~= s.take(i as int));
                assert(s.take(i as int + 1).last() == s[i as int]);
            }
            if self.receipts[i].listing_id == listing_id {
                r.push(self.receipts[i]);
            }
            i = i + 1;
        }
        proof {
            assert(s.take(s.len() as int) =~= s);
        }
        r
    }

    /// Every stored receipt, for snapshotting the store.
    pub fn list_all(&self) -> (r: Vec<Receipt>)
        ensures
            r@ == self.receipts(),
    {
        let mut r: Vec<Receipt> = Vec::new();
        let mut i: usize = 0;
        while i < self.receipts.len()
            invariant
                i <= self.receipts().len(),
                r@ == self.receipts().take(i as int),
            decreases self.receipts().len() - i,
        {
            r.push(self.receipts[i]);
            proof {
                assert(self.receipts().take(i as int + 1) =~= self.receipts().take(i as int).push(
                    self.receipts()[i as int],
                ));
            }
            i = i + 1;
        }
        proof {
            assert(self.receipts().take(self.receipts().len() as int) =~= self.receipts());
        }
        r
    }
}

/// At most one stored receipt records any given transaction: two
/// positions of a well-formed store holding the same transaction id are
/// the same position.
pub proof fn lemma_at_most_one_receipt_per_transaction(st: ReceiptStore, i: int, j: int)
    requires
        st.wf(),
        0 <= i < st.receipts().len(),
        0 <= j < st.receipts().len(),
        st.receipts()[i].transaction_id == st.receipts()[j].transaction_id,
    ensures
        i == j,
{
}

} // verus!
