//! The notification store: a per-recipient ordered sequence of delivery
//! messages.
//!
//! Purely informational and append-only: enqueueing never fails, reading
//! leaves everything in place, and losing a notification loses no
//! financial state.

use vstd::prelude::*;

use crate::principal::Principal;

verus! {

/// One message addressed to one recipient, stamped by the caller's clock.
#[derive(Debug)]
pub struct Notification {
    pub id: u64,
    pub recipient: Principal,
    pub message: String,
    pub timestamp: u64,
}

/// The notifications of `s` addressed to `p`, oldest first.
pub open spec fn notes_for(s: Seq<Notification>, p: Principal) -> Seq<Notification>
    decreases s.len(),
{
    if s.len() == 0 {
        Seq::empty()
    } else if s.last().recipient == p {
        notes_for(s.drop_last(), p).push(s.last())
    } else {
        notes_for(s.drop_last(), p)
    }
}

/// Each notification carries its position in the store as its id.
pub open spec fn note_ids_in_order(s: Seq<Notification>) -> bool {
    forall|i: int| 0 <= i < s.len() ==> (#[trigger] s[i]).id == i
}

/// Copies a notification record field by field.
fn clone_notification(n: &Notification) -> (r: Notification)
    ensures
        r == *n,
{
    Notification {
        id: n.id,
        recipient: n.recipient,
        message: n.message.clone(),
        timestamp: n.timestamp,
    }
}

/// The notification store.
pub struct NotificationStore {
    notes: Vec<Notification>,
}

impl NotificationStore {
    /// Every notification ever enqueued, oldest first.
    pub closed spec fn notes(self) -> Seq<Notification> {
        self.notes@
    }

    /// Ids equal positions: they count up from zero and are never reused.
    pub open spec fn wf(self) -> bool {
        note_ids_in_order(self.notes())
    }

    /// An empty notification store.
    pub fn new() -> (s: NotificationStore)
        ensures
            s.wf(),
            s.notes().len() == 0,
    {
        NotificationStore { notes: Vec::new() }
    }

    /// Appends `message` to the recipient's ordered sequence, stamped
    /// with `now`, and returns the fresh notification id.  Never fails.
    pub fn enqueue(&mut self, recipient: Principal, message: String, now: u64) -> (id: u64)
        requires
            old(self).wf(),
        ensures
            final(self).wf(),
            id as int == old(self).notes().len(),
            final(self).notes() == old(self).notes().push(
                Notification { id, recipient, message, timestamp: now },
            ),
    {
        let ghost s = self.notes@;
        let id = self.notes.len() as u64;
        self.notes.push(Notification { id, recipient, message, timestamp: now });
        proof {
            assert forall|i: int| 0 <= i < self.notes@.len() implies (
            #[trigger] self.notes@[i]).id == i by {
                if i < s.len() {
                    assert(self.notes@[i] == s[i]);
                }
            }
        }
        id
    }

    /// Hands `receipt` to the creator of a sold listing as a
    /// notification; delivering a receipt message never fails here, so
    /// the fresh notification id is returned.
    pub fn send_receipt_to_creator(&mut self, creator: Principal, receipt: String, now: u64) -> (id:
        u64)
        requires
            old(self).wf(),
        ensures
            final(self).wf(),
            id as int == old(self).notes().len(),
            final(self).notes() == old(self).notes().push(
                Notification { id, recipient: creator, message: receipt, timestamp: now },
            ),
    {
        self.enqueue(creator, receipt, now)
    }

    /// Hands `receipt` to the buyer of a sold listing as a notification.
    pub fn send_receipt_to_buyer(&mut self, buyer: Principal, receipt: String, now: u64) -> (id:
        u64)
        requires
            old(self).wf(),
        ensures
            final(self).wf(),
            id as int == old(self).notes().len(),
            final(self).notes() == old(self).notes().push(
                Notification { id, recipient: buyer, message: receipt, timestamp: now },
            ),
    {
        self.enqueue(buyer, receipt, now)
    }

    /// Copies of all notifications addressed to `recipient`, oldest
    /// first; a non-destructive read meant for polling, so nothing is
    /// consumed.
    pub fn drain(&self, recipient: Principal) -> (r: Vec<Notification>)
        ensures
            r@ == notes_for(self.notes(), recipient),
    {
        let ghost s = self.notes();
        let mut r: Vec<Notification> = Vec::new();
        let mut i: usize = 0;
        proof {
            assert(s.take(0) =~= Seq::<Notification>::empty());
        }
        while i < self.notes.len()
            invariant
                i <= s.len(),
                s == self.notes(),
                r@ == notes_for(s.take(i as int), recipient),
            decreases s.len() - i,
        {
            proof {
                assert(s.take(i as int + 1).drop_last() =~= s.take(i as int));
                assert(s.take(i as int + 1).last() == s[i as int]);
            }
            let n = &self.notes[i];
            if n.recipient == recipient {
                r.push(clone_notification(n));
            }
            i = i + 1;
        }
        proof {
            assert(s.take(s.len() as int) =~= s);
        }
        r
    }

    /// Copies of every notification ever enqueued, for snapshotting the
    /// store.
    pub fn list_all(&self) -> (r: Vec<Notification>)
        ensures
            r@ == self.notes(),
    {
        let mut r: Vec<Notification> = Vec::new();
        let mut i: usize = 0;
        while i < self.notes.len()
            invariant
                i <= self.notes().len(),
                r@ == self.notes().take(i as int),
            decreases self.notes().len() - i,
        {
            r.push(clone_notification(&self.notes[i]));
            proof {
                assert(self.notes().take(i as int + 1) =~= self.notes().take(i as int).push(
                    self.notes()[i as int],
                ));
            }
            i = i + 1;
        }
        proof {
            assert(self.notes().take(self.notes().len() as int) =~= self.notes());
        }
        r
    }
}

} // verus!
