//! A small peer-to-peer marketplace: users list items for sale, buyers pay
//! with an internal token balance, and a purchase drives record-keeping
//! (transaction log), proof-of-purchase (receipts) and user-facing
//! notifications across four independently owned stores.
//!
//! The heart of the crate is the purchase saga in [`saga`]: payment moves
//! first, the listing is marked sold second, the transaction is recorded
//! third, and the receipt and notification side effects follow, each of
//! which may degrade without rolling the payment back.

pub mod ledger;
pub mod listing;
pub mod notification;
pub mod principal;
pub mod receipt;
pub mod saga;

pub use principal::Principal;
