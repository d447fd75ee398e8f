//! The purchase saga: the cross-store sequence behind a purchase.
//!
//! The orchestrator holds no state of its own; it drives the four stores
//! in a fixed order chosen so that the irreversible step comes first and
//! everything after it can degrade without rollback:
//!
//! 1. validate the listing; 2. move the funds atomically; 3. mark the
//! listing sold; 4. record the transaction; 5. generate the receipt;
//! 6. notify buyer and seller.
//!
//! A failure in steps 1 or 2 aborts with no side effect at all.  Once the
//! funds have moved, steps 3 and 4 always complete; steps 5 and 6 live in
//! stores that may be unreachable, so the caller reports which of those
//! stores its transport could reach, and the saga returns the skipped
//! steps as degraded follow-ups to retry instead of rolling back.

use vstd::prelude::*;

use crate::ledger::Ledger;
use crate::ledger::Transaction;
use crate::ledger::balances_agree_except;
use crate::listing::ListingStatus;
use crate::listing::ListingStore;
use crate::listing::statuses_evolve;
use crate::listing::with_status;
use crate::notification::NotificationStore;
use crate::principal::Principal;
use crate::receipt::Receipt;
use crate::receipt::ReceiptError;
use crate::receipt::ReceiptStore;
use crate::receipt::receipt_for;

verus! {

/// Why a purchase was refused, with no side effect left behind.
#[derive(Clone, Copy, PartialEq, Eq, Structural, Debug)]
pub enum PurchaseError {
    /// No listing was ever created under the given id.
    ListingNotFound,
    /// The listing exists but is not open for sale.
    NotForSale,
    /// The buyer cannot pay: no balance record, not enough tokens, or the
    /// seller's balance would overflow.
    PaymentFailed,
    /// The listing changed state under a purchase whose funds had already
    /// moved; surfaced distinctly because it must be reconciled by hand,
    /// never retried.  The saga's ordering makes it unreachable here.
    CriticalInconsistency,
}

/// A downstream step the saga skipped because its store was unreachable;
/// the caller may retry it out of band.
#[derive(Clone, Copy, PartialEq, Eq, Structural, Debug)]
pub enum DegradedStep {
    Receipt,
    Notification,
}

/// The outcome of a successful purchase: the recorded transaction id,
/// plus the degraded steps still owed to downstream stores.
#[derive(Debug)]
pub struct PurchaseReceipt {
    pub transaction_id: u64,
    pub degraded_steps: Vec<DegradedStep>,
}

/// The character for one decimal digit.
pub open spec fn spec_digit(d: nat) -> char {
    if d == 0 {
        '0'
    } else if d == 1 {
        '1'
    } else if d == 2 {
        '2'
    } else if d == 3 {
        '3'
    } else if d == 4 {
        '4'
    } else if d == 5 {
        '5'
    } else if d == 6 {
        '6'
    } else if d == 7 {
        '7'
    } else if d == 8 {
        '8'
    } else {
        '9'
    }
}

/// The decimal rendering of `x`, most significant digit first.
pub open spec fn spec_dec(x: nat) -> Seq<char>
    decreases x,
{
    if x < 10 {
        seq![spec_digit(x)]
    } else {
        spec_dec(x / 10).push(spec_digit(x % 10))
    }
}

fn digit_str(d: u64) -> (s: &'static str)
    requires
        d < 10,
    ensures
        s@ == seq![spec_digit(d as nat)],
{
    if d == 0 {
        proof {
            reveal_strlit("0");
            assert("0"@ =~= seq![spec_digit(0)]);
        }
        "0"
    } else if d == 1 {
        proof {
            reveal_strlit("1");
            assert("1"@ =~= seq![spec_digit(1)]);
        }
        "1"
    } else if d == 2 {
        proof {
            reveal_strlit("2");
            assert("2"@ =~= seq![spec_digit(2)]);
        }
        "2"
    } else if d == 3 {
        proof {
            reveal_strlit("3");
            assert("3"@ =~= seq![spec_digit(3)]);
        }
        "3"
    } else if d == 4 {
        proof {
            reveal_strlit("4");
            assert("4"@ =~= seq![spec_digit(4)]);
        }
        "4"
    } else if d == 5 {
        proof {
            reveal_strlit("5");
            assert("5"@ =~= seq![spec_digit(5)]);
        }
        "5"
    } else if d == 6 {
        proof {
            reveal_strlit("6");
            assert("6"@ =~= seq![spec_digit(6)]);
        }
        "6"
    } else if d == 7 {
        proof {
            reveal_strlit("7");
            assert("7"@ =~= seq![spec_digit(7)]);
        }
        "7"
    } else if d == 8 {
        proof {
            reveal_strlit("8");
            assert("8"@ =~= seq![spec_digit(8)]);
        }
        "8"
    } else {
        proof {
            reveal_strlit("9");
            assert("9"@ =~= seq![spec_digit(9)]);
        }
        "9"
    }
}

/// Renders `x` in decimal.
fn u64_to_dec(x: u64) -> (s: String)
    ensures
        s@ == spec_dec(x as nat),
    decreases x,
{
    if x < 10 {
        String::from_str(digit_str(x))
    } else {
        proof {
            assert(x / 10 < x) by (nonlinear_arith)
                requires
                    x >= 10,
            ;
        }
        let mut s = u64_to_dec(x / 10);
        s.append(digit_str(x % 10));
        proof {
            assert(s@ =~= spec_dec(x as nat));
        }
        s
    }
}

/// What the buyer is told when a purchase completes.
pub open spec fn buyer_receipt_text(listing_id: u64, amount: u64) -> Seq<char> {
    "receipt: purchase of listing "@ + spec_dec(listing_id as nat) + " complete, "@ + spec_dec(
        amount as nat,
    ) + " tokens sent"@
}

/// What the seller is told when one of their listings sells.
pub open spec fn seller_receipt_text(listing_id: u64, amount: u64) -> Seq<char> {
    "receipt: listing "@ + spec_dec(listing_id as nat) + " sold, "@ + spec_dec(amount as nat)
        + " tokens received"@
}

fn buyer_receipt_message(listing_id: u64, amount: u64) -> (m: String)
    ensures
        m@ == buyer_receipt_text(listing_id, amount),
{
    let mut m = String::from_str("receipt: purchase of listing ");
    let id_dec = u64_to_dec(listing_id);
    m.append(id_dec.as_str());
    m.append(" complete, ");
    let amount_dec = u64_to_dec(amount);
    m.append(amount_dec.as_str());
    m.append(" tokens sent");
    proof {
        assert(m@ =~= buyer_receipt_text(listing_id, amount));
    }
    m
}

fn seller_receipt_message(listing_id: u64, amount: u64) -> (m: String)
    ensures
        m@ == seller_receipt_text(listing_id, amount),
{
    let mut m = String::from_str("receipt: listing ");
    let id_dec = u64_to_dec(listing_id);
    m.append(id_dec.as_str());
    m.append(" sold, ");
    let amount_dec = u64_to_dec(amount);
    m.append(amount_dec.as_str());
    m.append(" tokens received");
    proof {
        assert(m@ =~= seller_receipt_text(listing_id, amount));
    }
    m
}

/// Whether the ledger lets `price` move from `buyer` to `seller`: the
/// buyer holds enough tokens and the seller's balance has room.
pub open spec fn can_pay(l: Ledger, buyer: Principal, seller: Principal, price: u64) -> bool {
    l.has_account(buyer) && price <= l.balance_of(buyer) && (buyer == seller || l.balance_of(seller)
        + price <= u64::MAX)
}

/// The creator of the listing stored under `id`, who is paid when it sells.
pub open spec fn seller_of(ls: ListingStore, id: u64) -> Principal {
    ls.listings()[id as int].creator
}

/// Whether a purchase of listing `listing_id` by `buyer` at `price` goes
/// through: the listing exists, is open for sale, and the payment clears.
pub open spec fn purchase_allowed(
    ledger: Ledger,
    listings: ListingStore,
    buyer: Principal,
    listing_id: u64,
    price: u64,
) -> bool {
    &&& (listing_id as int) < listings.listings().len()
    &&& listings.listings()[listing_id as int].status == ListingStatus::Active
    &&& can_pay(ledger, buyer, seller_of(listings, listing_id), price)
}

/// The transaction id a successful purchase will record.
pub open spec fn next_tid(l: Ledger) -> u64 {
    l.transactions().len() as u64
}

/// The degraded steps reported when the given downstream stores were
/// unreachable: the receipt first, then one entry per skipped
/// notification.
pub open spec fn expected_degraded(
    receipt_store_up: bool,
    buyer_notes_up: bool,
    seller_notes_up: bool,
) -> Seq<DegradedStep> {
    (if receipt_store_up {
        Seq::empty()
    } else {
        seq![DegradedStep::Receipt]
    }) + (if buyer_notes_up {
        Seq::empty()
    } else {
        seq![DegradedStep::Notification]
    }) + (if seller_notes_up {
        Seq::empty()
    } else {
        seq![DegradedStep::Notification]
    })
}

/// Buys listing `listing_id` for `buyer` at `price`, paying the listing's
/// creator.  Payment moves first and atomically; an abort therefore
/// leaves every store exactly as it was.  Once the payment has moved the
/// listing is marked sold and the transaction recorded, unconditionally;
/// the receipt and the two notifications are then issued to whichever of
/// their stores the caller's transport reports reachable, and the skipped
/// ones are returned as degraded steps to retry out of band.
#[verifier::rlimit(100)]
pub fn purchase(
    ledger: &mut Ledger,
    listings: &mut ListingStore,
    receipts: &mut ReceiptStore,
    notes: &mut NotificationStore,
    buyer: Principal,
    listing_id: u64,
    price: u64,
    now: u64,
    receipt_store_up: bool,
    buyer_notes_up: bool,
    seller_notes_up: bool,
) -> (r: Result<PurchaseReceipt, PurchaseError>)
    requires
        old(ledger).wf(),
        old(listings).wf(),
        old(receipts).wf(),
        old(notes).wf(),
    ensures
        final(ledger).wf(),
        final(listings).wf(),
        final(receipts).wf(),
        final(notes).wf(),
        statuses_evolve(old(listings).listings(), final(listings).listings()),
        r is Ok <==> purchase_allowed(*old(ledger), *old(listings), buyer, listing_id, price),
        r matches Ok(pr) ==> pr.transaction_id == next_tid(*old(ledger)) && final(ledger).transactions() == old(ledger).transactions().push(
            Transaction {
                id: pr.transaction_id,
                buyer,
                seller: seller_of(*old(listings), listing_id),
                amount: price,
                listing_id,
            },
        ),
        r is Ok ==> final(ledger).total_supply() == old(ledger).total_supply(),
        r is Ok && buyer != seller_of(*old(listings), listing_id) ==> final(ledger).balance_of(
            buyer,
        ) == old(ledger).balance_of(buyer) - price && final(ledger).balance_of(
            seller_of(*old(listings), listing_id),
        ) == old(ledger).balance_of(seller_of(*old(listings), listing_id)) + price
            && balances_agree_except(
            old(ledger).accounts(),
            final(ledger).accounts(),
            buyer,
            seller_of(*old(listings), listing_id),
        ),
        r is Ok && buyer == seller_of(*old(listings), listing_id) ==> final(ledger).accounts()
            == old(ledger).accounts(),
        r is Ok ==> final(listings).listings() == old(listings).listings().update(
            listing_id as int,
            with_status(old(listings).listings()[listing_id as int], ListingStatus::Sold),
        ),
        r is Ok && receipt_store_up && receipt_for(old(receipts).receipts(), next_tid(*old(ledger)))
            is None ==> final(receipts).receipts() == old(receipts).receipts().push(
            Receipt {
                id: old(receipts).receipts().len() as u64,
                transaction_id: next_tid(*old(ledger)),
                buyer,
                seller: seller_of(*old(listings), listing_id),
                amount: price,
                listing_id,
            },
        ),
        r is Ok && receipt_store_up && receipt_for(old(receipts).receipts(), next_tid(*old(ledger)))
            is Some ==> final(receipts).receipts() == old(receipts).receipts(),
        !(r is Ok && receipt_store_up) ==> final(receipts).receipts() == old(receipts).receipts(),
        r is Ok ==> final(notes).notes().len() == old(notes).notes().len() + (
        if buyer_notes_up {
            1int
        } else {
            0int
        }) + (if seller_notes_up {
            1int
        } else {
            0int
        }) && final(notes).notes().take(old(notes).notes().len() as int) == old(notes).notes(),
        r is Ok && buyer_notes_up ==> {
            let n = final(notes).notes()[old(notes).notes().len() as int];
            n.recipient == buyer && n.message@ == buyer_receipt_text(listing_id, price) && n.timestamp == now
        },
        r is Ok && seller_notes_up ==> {
            let n = final(notes).notes()[old(notes).notes().len() as int + (
            if buyer_notes_up {
                1int
            } else {
                0int
            })];
            n.recipient == seller_of(*old(listings), listing_id) && n.message@
                == seller_receipt_text(listing_id, price) && n.timestamp == now
        },
        !(r is Ok) ==> final(notes).notes() == old(notes).notes(),
        r matches Ok(pr) ==> pr.degraded_steps@ == expected_degraded(
            receipt_store_up,
            buyer_notes_up,
            seller_notes_up,
        ),
        r is Err ==> final(ledger).accounts() == old(ledger).accounts() && final(ledger).transactions() == old(ledger).transactions() && final(listings).listings() == old(listings).listings(),
        r matches Err(e) ==> (e == PurchaseError::ListingNotFound <==> listing_id >= old(listings).listings().len()) && (e == PurchaseError::NotForSale <==> listing_id < old(listings).listings().len() && old(listings).listings()[listing_id as int].status
            != ListingStatus::Active) && (e == PurchaseError::PaymentFailed <==> listing_id < old(listings).listings().len() && old(listings).listings()[listing_id as int].status
            == ListingStatus::Active && !can_pay(
            *old(ledger),
            buyer,
            seller_of(*old(listings), listing_id),
            price,
        )) && e != PurchaseError::CriticalInconsistency,
{
    let l = match listings.get(listing_id) {
        Ok(l) => l,
        Err(_) => {
            return Err(PurchaseError::ListingNotFound);
        },
    };
    match l.status {
        ListingStatus::Active => (),
        ListingStatus::Sold => {
            return Err(PurchaseError::NotForSale);
        },
        ListingStatus::Archived => {
            return Err(PurchaseError::NotForSale);
        },
    }
    let seller = l.creator;
    match ledger.transfer(buyer, seller, price) {
        Ok(()) => (),
        Err(_) => {
            return Err(PurchaseError::PaymentFailed);
        },
    }
    let tid = match listings.reserve_for_sale(listing_id) {
        Ok(()) => ledger.record_transaction(buyer, seller, price, listing_id),
        Err(_) => {
            return Err(PurchaseError::CriticalInconsistency);
        },
    };
    let mut degraded: Vec<DegradedStep> = Vec::new();
    if receipt_store_up {
        let _receipt_id = receipts.generate(tid, buyer, seller, price, listing_id);
    } else {
        degraded.push(DegradedStep::Receipt);
    }
    if buyer_notes_up {
        notes.enqueue(buyer, buyer_receipt_message(listing_id, price), now);
    } else {
        degraded.push(DegradedStep::Notification);
    }
    if seller_notes_up {
        notes.enqueue(seller, seller_receipt_message(listing_id, price), now);
    } else {
        degraded.push(DegradedStep::Notification);
    }
    proof {
        assert(degraded@ =~= expected_degraded(receipt_store_up, buyer_notes_up, seller_notes_up));
        assert(notes.notes().take(old(notes).notes().len() as int) =~= old(notes).notes());
    }
    Ok(PurchaseReceipt { transaction_id: tid, degraded_steps: degraded })
}

/// Re-sends the two notifications owed for an already stored receipt:
/// the buyer's copy first, then the seller's.  This is the out-of-band
/// retry path for a purchase whose notifications degraded.
pub fn send_receipts(
    receipts: &ReceiptStore,
    notes: &mut NotificationStore,
    receipt_id: u64,
    now: u64,
) -> (r: Result<(), ReceiptError>)
    requires
        receipts.wf(),
        old(notes).wf(),
    ensures
        final(notes).wf(),
        r is Ok <==> receipt_id < receipts.receipts().len(),
        r is Ok ==> final(notes).notes().len() == old(notes).notes().len() + 2 && final(notes).notes().take(old(notes).notes().len() as int) == old(notes).notes(),
        r is Ok ==> {
            let b = final(notes).notes()[old(notes).notes().len() as int];
            let s = final(notes).notes()[old(notes).notes().len() as int + 1];
            b.recipient == receipts.receipts()[receipt_id as int].buyer && b.message@
                == buyer_receipt_text(
                receipts.receipts()[receipt_id as int].listing_id,
                receipts.receipts()[receipt_id as int].amount,
            ) && b.timestamp == now && s.recipient
                == receipts.receipts()[receipt_id as int].seller && s.message@
                == seller_receipt_text(
                receipts.receipts()[receipt_id as int].listing_id,
                receipts.receipts()[receipt_id as int].amount,
            ) && s.timestamp == now
        },
        r is Err ==> final(notes).notes() == old(notes).notes(),
        r matches Err(e) ==> e == ReceiptError::NotFound,
{
    let rc = match receipts.get(receipt_id) {
        Ok(rc) => rc,
        Err(e) => {
            return Err(e);
        },
    };
    notes.enqueue(rc.buyer, buyer_receipt_message(rc.listing_id, rc.amount), now);
    notes.enqueue(rc.seller, seller_receipt_message(rc.listing_id, rc.amount), now);
    proof {
        assert(notes.notes().take(old(notes).notes().len() as int) =~= old(notes).notes());
    }
    Ok(())
}

} // verus!
