use marketplace::ledger::Ledger;
use marketplace::ledger::LedgerError;
use marketplace::listing::ListingError;
use marketplace::listing::ListingStatus;
use marketplace::listing::ListingStore;
use marketplace::notification::NotificationStore;
use marketplace::principal::Principal;
use marketplace::receipt::ReceiptStore;

#[test]
fn credit_creates_account_lazily() {
    let mut ledger = Ledger::new();
    let alice = Principal::new(1);
    assert!(matches!(ledger.get_balance(alice), Err(LedgerError::NotFound)));
    assert!(ledger.credit(alice, 25).is_ok());
    assert_eq!(ledger.get_balance(alice), Ok(25));
    assert!(ledger.credit(alice, 5).is_ok());
    assert_eq!(ledger.get_balance(alice), Ok(30));
}

#[test]
fn credit_refuses_overflow() {
    let mut ledger = Ledger::new();
    let alice = Principal::new(1);
    assert!(ledger.credit(alice, u64::MAX).is_ok());
    assert_eq!(ledger.credit(alice, 1), Err(LedgerError::Overflow));
    assert_eq!(ledger.get_balance(alice), Ok(u64::MAX));
}

#[test]
fn debit_requires_an_account() {
    let mut ledger = Ledger::new();
    let alice = Principal::new(1);
    assert_eq!(ledger.debit(alice, 1), Err(LedgerError::NoBalance));
}

#[test]
fn debit_never_goes_below_zero() {
    let mut ledger = Ledger::new();
    let alice = Principal::new(1);
    ledger.credit(alice, 10).unwrap();
    assert_eq!(ledger.debit(alice, 11), Err(LedgerError::InsufficientFunds));
    assert_eq!(ledger.get_balance(alice), Ok(10));
    assert!(ledger.debit(alice, 10).is_ok());
    assert_eq!(ledger.get_balance(alice), Ok(0));
}

#[test]
fn transfer_moves_exactly_the_amount() {
    let mut ledger = Ledger::new();
    let alice = Principal::new(1);
    let bob = Principal::new(2);
    ledger.credit(alice, 100).unwrap();
    ledger.credit(bob, 7).unwrap();
    assert!(ledger.transfer(alice, bob, 40).is_ok());
    assert_eq!(ledger.get_balance(alice), Ok(60));
    assert_eq!(ledger.get_balance(bob), Ok(47));
}

#[test]
fn transfer_to_a_fresh_account_creates_it() {
    let mut ledger = Ledger::new();
    let alice = Principal::new(1);
    let bob = Principal::new(2);
    ledger.credit(alice, 100).unwrap();
    assert!(ledger.transfer(alice, bob, 40).is_ok());
    assert_eq!(ledger.get_balance(bob), Ok(40));
}

#[test]
fn transfer_atomic_abort_on_insufficient_funds() {
    let mut ledger = Ledger::new();
    let alice = Principal::new(1);
    let bob = Principal::new(2);
    ledger.credit(alice, 10).unwrap();
    ledger.credit(bob, 3).unwrap();
    assert_eq!(ledger.transfer(alice, bob, 40), Err(LedgerError::InsufficientFunds));
    assert_eq!(ledger.get_balance(alice), Ok(10));
    assert_eq!(ledger.get_balance(bob), Ok(3));
}

#[test]
fn transfer_atomic_abort_on_overflow() {
    let mut ledger = Ledger::new();
    let alice = Principal::new(1);
    let bob = Principal::new(2);
    ledger.credit(alice, 100).unwrap();
    ledger.credit(bob, u64::MAX).unwrap();
    assert_eq!(ledger.transfer(alice, bob, 1), Err(LedgerError::Overflow));
    assert_eq!(ledger.get_balance(alice), Ok(100));
    assert_eq!(ledger.get_balance(bob), Ok(u64::MAX));
}

#[test]
fn transfer_to_self_changes_nothing() {
    let mut ledger = Ledger::new();
    let alice = Principal::new(1);
    ledger.credit(alice, 10).unwrap();
    assert!(ledger.transfer(alice, alice, 10).is_ok());
    assert_eq!(ledger.get_balance(alice), Ok(10));
}

#[test]
fn recorded_transactions_come_back_by_id() {
    let mut ledger = Ledger::new();
    let alice = Principal::new(1);
    let bob = Principal::new(2);
    assert!(matches!(ledger.get_transaction(0), Err(LedgerError::NotFound)));
    let id = ledger.record_transaction(alice, bob, 12, 3);
    assert_eq!(id, 0);
    let t = ledger.get_transaction(0).unwrap();
    assert_eq!(t.id, 0);
    assert_eq!(t.buyer, alice);
    assert_eq!(t.seller, bob);
    assert_eq!(t.amount, 12);
    assert_eq!(t.listing_id, 3);
    let second = ledger.record_transaction(bob, alice, 1, 4);
    assert_eq!(second, 1);
}

#[test]
fn listings_are_created_active_with_fresh_ids() {
    let mut listings = ListingStore::new();
    let sara = Principal::new(9);
    let first = listings.create(sara, "lamp".to_string(), vec![1, 2]);
    let second = listings.create(sara, "rug".to_string(), vec![]);
    assert_eq!(first, 0);
    assert_eq!(second, 1);
    let l = listings.get(0).unwrap();
    assert_eq!(l.id, 0);
    assert_eq!(l.creator, sara);
    assert_eq!(l.status, ListingStatus::Active);
    assert_eq!(l.text, "lamp");
    assert_eq!(l.image, vec![1, 2]);
    assert!(matches!(listings.get(2), Err(ListingError::NotFound)));
}

#[test]
fn only_the_creator_archives() {
    let mut listings = ListingStore::new();
    let sara = Principal::new(9);
    let rival = Principal::new(10);
    let id = listings.create(sara, "lamp".to_string(), vec![]);
    assert_eq!(listings.archive(id, rival), Err(ListingError::NotCreator));
    assert_eq!(listings.get(id).unwrap().status, ListingStatus::Active);
    assert!(listings.archive(id, sara).is_ok());
    assert_eq!(listings.get(id).unwrap().status, ListingStatus::Archived);
}

#[test]
fn archiving_twice_is_idempotent() {
    let mut listings = ListingStore::new();
    let sara = Principal::new(9);
    let id = listings.create(sara, "lamp".to_string(), vec![]);
    assert!(listings.archive(id, sara).is_ok());
    assert!(listings.archive(id, sara).is_ok());
    assert_eq!(listings.get(id).unwrap().status, ListingStatus::Archived);
}

#[test]
fn a_sold_listing_cannot_be_archived() {
    let mut listings = ListingStore::new();
    let sara = Principal::new(9);
    let id = listings.create(sara, "lamp".to_string(), vec![]);
    assert!(listings.reserve_for_sale(id).is_ok());
    assert_eq!(listings.archive(id, sara), Err(ListingError::AlreadySold));
    assert_eq!(listings.get(id).unwrap().status, ListingStatus::Sold);
}

#[test]
fn reserve_for_sale_needs_an_active_listing() {
    let mut listings = ListingStore::new();
    let sara = Principal::new(9);
    assert_eq!(listings.reserve_for_sale(0), Err(ListingError::NotFound));
    let id = listings.create(sara, "lamp".to_string(), vec![]);
    assert!(listings.reserve_for_sale(id).is_ok());
    assert_eq!(listings.reserve_for_sale(id), Err(ListingError::NotForSale));
    let archived = listings.create(sara, "rug".to_string(), vec![]);
    listings.archive(archived, sara).unwrap();
    assert_eq!(listings.reserve_for_sale(archived), Err(ListingError::NotForSale));
}

#[test]
fn update_entry_replaces_only_what_is_given() {
    let mut listings = ListingStore::new();
    let sara = Principal::new(9);
    assert_eq!(
        listings.update_entry(0, Some("x".to_string()), None),
        Err(ListingError::NotFound)
    );
    let id = listings.create(sara, "lamp".to_string(), vec![1]);
    assert!(listings.update_entry(id, Some("floor lamp".to_string()), None).is_ok());
    let l = listings.get(id).unwrap();
    assert_eq!(l.text, "floor lamp");
    assert_eq!(l.image, vec![1]);
    assert!(listings.update_entry(id, None, Some(vec![2, 3])).is_ok());
    let l = listings.get(id).unwrap();
    assert_eq!(l.text, "floor lamp");
    assert_eq!(l.image, vec![2, 3]);
}

#[test]
fn modify_entry_checks_the_creator() {
    let mut listings = ListingStore::new();
    let sara = Principal::new(9);
    let rival = Principal::new(10);
    let id = listings.create(sara, "lamp".to_string(), vec![]);
    assert_eq!(
        listings.modify_entry(id, rival, Some("mine".to_string()), None),
        Err(ListingError::NotCreator)
    );
    assert_eq!(listings.get(id).unwrap().text, "lamp");
    assert!(listings.modify_entry(id, sara, Some("hers".to_string()), None).is_ok());
    assert_eq!(listings.get(id).unwrap().text, "hers");
}

#[test]
fn listing_queries_filter_by_status() {
    let mut listings = ListingStore::new();
    let sara = Principal::new(9);
    let a = listings.create(sara, "a".to_string(), vec![]);
    let b = listings.create(sara, "b".to_string(), vec![]);
    let c = listings.create(sara, "c".to_string(), vec![]);
    listings.reserve_for_sale(b).unwrap();
    listings.archive(c, sara).unwrap();
    let active = listings.list_active();
    assert_eq!(active.len(), 1);
    assert_eq!(active[0].id, a);
    let all = listings.list_all();
    assert_eq!(all.len(), 3);
    assert_eq!(all[1].status, ListingStatus::Sold);
    assert_eq!(all[2].status, ListingStatus::Archived);
}

#[test]
fn receipt_generation_is_idempotent_per_transaction() {
    let mut receipts = ReceiptStore::new();
    let alice = Principal::new(1);
    let bob = Principal::new(2);
    let first = receipts.generate(7, alice, bob, 40, 0);
    let again = receipts.generate(7, alice, bob, 40, 0);
    assert_eq!(first, again);
    let other = receipts.generate(8, alice, bob, 9, 1);
    assert_ne!(first, other);
    let rc = receipts.get(first).unwrap();
    assert_eq!(rc.transaction_id, 7);
    assert_eq!(rc.buyer, alice);
    assert_eq!(rc.seller, bob);
    assert_eq!(rc.amount, 40);
    assert_eq!(receipts.get_by_listing(0).len(), 1);
}

#[test]
fn receipts_are_looked_up_by_listing() {
    let mut receipts = ReceiptStore::new();
    let alice = Principal::new(1);
    let bob = Principal::new(2);
    receipts.generate(1, alice, bob, 10, 5);
    receipts.generate(2, alice, bob, 11, 6);
    receipts.generate(3, bob, alice, 12, 5);
    let for_five = receipts.get_by_listing(5);
    assert_eq!(for_five.len(), 2);
    assert_eq!(for_five[0].transaction_id, 1);
    assert_eq!(for_five[1].transaction_id, 3);
    assert!(receipts.get(99).is_err());
}

#[test]
fn notifications_keep_per_recipient_order() {
    let mut notes = NotificationStore::new();
    let alice = Principal::new(1);
    let bob = Principal::new(2);
    notes.enqueue(alice, "first".to_string(), 100);
    notes.enqueue(bob, "other".to_string(), 101);
    notes.enqueue(alice, "second".to_string(), 102);
    let inbox = notes.drain(alice);
    assert_eq!(inbox.len(), 2);
    assert_eq!(inbox[0].message, "first");
    assert_eq!(inbox[0].timestamp, 100);
    assert_eq!(inbox[1].message, "second");
    let again = notes.drain(alice);
    assert_eq!(again.len(), 2);
}

#[test]
fn receipt_messages_reach_both_parties() {
    let mut notes = NotificationStore::new();
    let sara = Principal::new(9);
    let buyer = Principal::new(1);
    notes.send_receipt_to_creator(sara, "sold: lamp".to_string(), 5);
    notes.send_receipt_to_buyer(buyer, "bought: lamp".to_string(), 6);
    assert_eq!(notes.drain(sara).len(), 1);
    assert_eq!(notes.drain(sara)[0].message, "sold: lamp");
    assert_eq!(notes.drain(buyer)[0].message, "bought: lamp");
}
