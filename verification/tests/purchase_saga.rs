use marketplace::ledger::Ledger;
use marketplace::ledger::LedgerError;
use marketplace::listing::ListingStatus;
use marketplace::listing::ListingStore;
use marketplace::notification::NotificationStore;
use marketplace::principal::Principal;
use marketplace::receipt::ReceiptStore;
use marketplace::saga::DegradedStep;
use marketplace::saga::PurchaseError;
use marketplace::saga::purchase;
use marketplace::saga::send_receipts;

#[test]
fn successful_purchase_moves_money_and_records_everything() {
    let mut ledger = Ledger::new();
    let mut listings = ListingStore::new();
    let mut receipts = ReceiptStore::new();
    let mut notes = NotificationStore::new();
    let buyer = Principal::new(1);
    let seller = Principal::new(2);
    ledger.credit(buyer, 100).unwrap();
    let listing = listings.create(seller, "lamp".to_string(), vec![7]);

    let pr = purchase(
        &mut ledger, &mut listings, &mut receipts, &mut notes,
        buyer, listing, 40, 1000, true, true, true,
    )
    .unwrap();

    assert_eq!(ledger.get_balance(buyer), Ok(60));
    assert_eq!(ledger.get_balance(seller), Ok(40));
    assert_eq!(listings.get(listing).unwrap().status, ListingStatus::Sold);
    let t = ledger.get_transaction(pr.transaction_id).unwrap();
    assert_eq!(t.buyer, buyer);
    assert_eq!(t.seller, seller);
    assert_eq!(t.amount, 40);
    assert_eq!(t.listing_id, listing);
    assert!(pr.degraded_steps.is_empty());
    let stored = receipts.get_by_listing(listing);
    assert_eq!(stored.len(), 1);
    assert_eq!(stored[0].transaction_id, pr.transaction_id);
    let buyer_inbox = notes.drain(buyer);
    assert_eq!(buyer_inbox.len(), 1);
    assert_eq!(
        buyer_inbox[0].message,
        "receipt: purchase of listing 0 complete, 40 tokens sent"
    );
    assert_eq!(buyer_inbox[0].timestamp, 1000);
    let seller_inbox = notes.drain(seller);
    assert_eq!(seller_inbox.len(), 1);
    assert_eq!(
        seller_inbox[0].message,
        "receipt: listing 0 sold, 40 tokens received"
    );
}

#[test]
fn aborted_purchase_leaves_no_trace() {
    let mut ledger = Ledger::new();
    let mut listings = ListingStore::new();
    let mut receipts = ReceiptStore::new();
    let mut notes = NotificationStore::new();
    let buyer = Principal::new(1);
    let seller = Principal::new(2);
    ledger.credit(buyer, 10).unwrap();
    let listing = listings.create(seller, "lamp".to_string(), vec![]);

    let r = purchase(
        &mut ledger, &mut listings, &mut receipts, &mut notes,
        buyer, listing, 40, 1000, true, true, true,
    );

    assert_eq!(r.unwrap_err(), PurchaseError::PaymentFailed);
    assert_eq!(ledger.get_balance(buyer), Ok(10));
    assert!(matches!(ledger.get_balance(seller), Err(LedgerError::NotFound)));
    assert_eq!(listings.get(listing).unwrap().status, ListingStatus::Active);
    assert!(matches!(ledger.get_transaction(0), Err(LedgerError::NotFound)));
    assert!(receipts.get_by_listing(listing).is_empty());
    assert!(notes.drain(buyer).is_empty());
}

#[test]
fn purchase_of_a_missing_listing_is_refused() {
    let mut ledger = Ledger::new();
    let mut listings = ListingStore::new();
    let mut receipts = ReceiptStore::new();
    let mut notes = NotificationStore::new();
    let buyer = Principal::new(1);
    ledger.credit(buyer, 100).unwrap();

    let r = purchase(
        &mut ledger, &mut listings, &mut receipts, &mut notes,
        buyer, 0, 40, 1000, true, true, true,
    );

    assert_eq!(r.unwrap_err(), PurchaseError::ListingNotFound);
    assert_eq!(ledger.get_balance(buyer), Ok(100));
}

#[test]
fn purchase_of_a_sold_listing_is_refused() {
    let mut ledger = Ledger::new();
    let mut listings = ListingStore::new();
    let mut receipts = ReceiptStore::new();
    let mut notes = NotificationStore::new();
    let buyer = Principal::new(1);
    let other = Principal::new(3);
    let seller = Principal::new(2);
    ledger.credit(buyer, 100).unwrap();
    ledger.credit(other, 100).unwrap();
    let listing = listings.create(seller, "lamp".to_string(), vec![]);
    purchase(
        &mut ledger, &mut listings, &mut receipts, &mut notes,
        other, listing, 40, 999, true, true, true,
    )
    .unwrap();

    let r = purchase(
        &mut ledger, &mut listings, &mut receipts, &mut notes,
        buyer, listing, 40, 1000, true, true, true,
    );

    assert_eq!(r.unwrap_err(), PurchaseError::NotForSale);
    assert_eq!(ledger.get_balance(buyer), Ok(100));
    assert_eq!(ledger.get_balance(seller), Ok(40));
}

#[test]
fn unreachable_receipt_store_degrades_without_rollback() {
    let mut ledger = Ledger::new();
    let mut listings = ListingStore::new();
    let mut receipts = ReceiptStore::new();
    let mut notes = NotificationStore::new();
    let buyer = Principal::new(1);
    let seller = Principal::new(2);
    ledger.credit(buyer, 100).unwrap();
    let listing = listings.create(seller, "lamp".to_string(), vec![]);

    let pr = purchase(
        &mut ledger, &mut listings, &mut receipts, &mut notes,
        buyer, listing, 40, 1000, false, true, true,
    )
    .unwrap();

    assert_eq!(pr.degraded_steps, vec![DegradedStep::Receipt]);
    assert_eq!(ledger.get_balance(buyer), Ok(60));
    assert_eq!(listings.get(listing).unwrap().status, ListingStatus::Sold);
    assert!(ledger.get_transaction(pr.transaction_id).is_ok());
    assert!(receipts.get_by_listing(listing).is_empty());
    assert_eq!(notes.drain(buyer).len(), 1);
}

#[test]
fn unreachable_notifications_degrade_without_rollback() {
    let mut ledger = Ledger::new();
    let mut listings = ListingStore::new();
    let mut receipts = ReceiptStore::new();
    let mut notes = NotificationStore::new();
    let buyer = Principal::new(1);
    let seller = Principal::new(2);
    ledger.credit(buyer, 100).unwrap();
    let listing = listings.create(seller, "lamp".to_string(), vec![]);

    let pr = purchase(
        &mut ledger, &mut listings, &mut receipts, &mut notes,
        buyer, listing, 40, 1000, true, false, false,
    )
    .unwrap();

    assert_eq!(
        pr.degraded_steps,
        vec![DegradedStep::Notification, DegradedStep::Notification]
    );
    assert_eq!(receipts.get_by_listing(listing).len(), 1);
    assert!(notes.drain(buyer).is_empty());
    assert!(notes.drain(seller).is_empty());
}

#[test]
fn retrying_the_receipt_after_degradation_stores_one_receipt() {
    let mut ledger = Ledger::new();
    let mut listings = ListingStore::new();
    let mut receipts = ReceiptStore::new();
    let mut notes = NotificationStore::new();
    let buyer = Principal::new(1);
    let seller = Principal::new(2);
    ledger.credit(buyer, 100).unwrap();
    let listing = listings.create(seller, "lamp".to_string(), vec![]);
    let pr = purchase(
        &mut ledger, &mut listings, &mut receipts, &mut notes,
        buyer, listing, 40, 1000, false, true, true,
    )
    .unwrap();

    let first = receipts.generate(pr.transaction_id, buyer, seller, 40, listing);
    let second = receipts.generate(pr.transaction_id, buyer, seller, 40, listing);

    assert_eq!(first, second);
    assert_eq!(receipts.get_by_listing(listing).len(), 1);
}

#[test]
fn send_receipts_notifies_buyer_and_seller() {
    let mut receipts = ReceiptStore::new();
    let mut notes = NotificationStore::new();
    let buyer = Principal::new(1);
    let seller = Principal::new(2);
    assert!(send_receipts(&receipts, &mut notes, 0, 50).is_err());
    let rid = receipts.generate(4, buyer, seller, 40, 9);
    send_receipts(&receipts, &mut notes, rid, 50).unwrap();
    let to_buyer = notes.drain(buyer);
    let to_seller = notes.drain(seller);
    assert_eq!(to_buyer.len(), 1);
    assert_eq!(to_seller.len(), 1);
    assert_eq!(
        to_buyer[0].message,
        "receipt: purchase of listing 9 complete, 40 tokens sent"
    );
    assert_eq!(
        to_seller[0].message,
        "receipt: listing 9 sold, 40 tokens received"
    );
    assert_eq!(to_buyer[0].timestamp, 50);
}

#[test]
fn buying_your_own_listing_keeps_your_balance() {
    let mut ledger = Ledger::new();
    let mut listings = ListingStore::new();
    let mut receipts = ReceiptStore::new();
    let mut notes = NotificationStore::new();
    let seller = Principal::new(2);
    ledger.credit(seller, 50).unwrap();
    let listing = listings.create(seller, "lamp".to_string(), vec![]);

    let pr = purchase(
        &mut ledger, &mut listings, &mut receipts, &mut notes,
        seller, listing, 40, 1000, true, true, true,
    )
    .unwrap();

    assert_eq!(ledger.get_balance(seller), Ok(50));
    assert_eq!(listings.get(listing).unwrap().status, ListingStatus::Sold);
    assert!(ledger.get_transaction(pr.transaction_id).is_ok());
    assert_eq!(notes.drain(seller).len(), 2);
}
