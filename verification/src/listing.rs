//! The listing store: listing records and their lifecycle state.
//!
//! A listing is created `Active` and moves at most once, to `Sold` (only
//! ever by the purchase saga, and only from `Active`) or to `Archived`
//! (only ever by its creator).  Both end states are terminal: no status
//! sequence other than `Active`, `Active Sold` and `Active Archived` can
//! be observed.  Listing ids are assigned by a monotonically increasing
//! counter and are never reused.

use vstd::prelude::*;

use crate::principal::Principal;

verus! {

/// Where a listing stands in its lifecycle.
#[derive(Clone, Copy, PartialEq, Eq, Structural, Debug)]
pub enum ListingStatus {
    Active,
    Sold,
    Archived,
}

/// An item offered for sale.
#[derive(Debug)]
pub struct Listing {
    pub id: u64,
    pub creator: Principal,
    pub status: ListingStatus,
    pub text: String,
    pub image: Vec<u8>,
}

/// Why a listing operation was refused.
#[derive(Clone, Copy, PartialEq, Eq, Structural, Debug)]
pub enum ListingError {
    /// No listing was ever created under the given id.
    NotFound,
    /// Only the creator may archive a listing.
    NotCreator,
    /// The listing is not `Active`, so it cannot be reserved for sale.
    NotForSale,
    /// The listing was sold; a sold listing can no longer be archived.
    AlreadySold,
}

/// Two listings that carry the same data, whether or not they are the
/// same allocation.
pub open spec fn listing_like(a: Listing, b: Listing) -> bool {
    a.id == b.id && a.creator == b.creator && a.status == b.status && a.text@ == b.text@
        && a.image@ == b.image@
}

/// `l` with its status replaced and everything else kept.
pub open spec fn with_status(l: Listing, status: ListingStatus) -> Listing {
    Listing { status, ..l }
}

/// `l` with its text and image replaced by whichever of the two options
/// is supplied, and everything else kept.
pub open spec fn with_content(l: Listing, text: Option<String>, image: Option<Vec<u8>>) -> Listing {
    Listing {
        text: match text {
            Some(t) => t,
            None => l.text,
        },
        image: match image {
            Some(im) => im,
            None => l.image,
        },
        ..l
    }
}

/// The single steps a listing's status may take: stay put, or leave
/// `Active` for one of the two terminal states.
pub open spec fn status_step_ok(pre: ListingStatus, post: ListingStatus) -> bool {
    pre == post || (pre == ListingStatus::Active && (post == ListingStatus::Sold || post
        == ListingStatus::Archived))
}

/// Every listing of `pre` still exists in `post` and its status has only
/// moved along a permitted step.
pub open spec fn statuses_evolve(pre: Seq<Listing>, post: Seq<Listing>) -> bool {
    pre.len() <= post.len() && forall|i: int|
        0 <= i < pre.len() ==> status_step_ok(pre[i].status, (#[trigger] post[i]).status)
}

/// A status that is not `Active` never changes again: both terminal
/// states absorb every permitted step.
pub proof fn lemma_status_terminal(pre: ListingStatus, post: ListingStatus)
    requires
        status_step_ok(pre, post),
        pre != ListingStatus::Active,
    ensures
        post == pre,
{
}

/// Each listing record carries its position in the store as its id.
pub open spec fn listing_ids_in_order(s: Seq<Listing>) -> bool {
    forall|i: int| 0 <= i < s.len() ==> (#[trigger] s[i]).id == i
}

/// Taking an element out and putting another back in the same place is a
/// plain pointwise update.
proof fn lemma_remove_insert_is_update<A>(s: Seq<A>, i: int, a: A)
    requires
        0 <= i < s.len(),
    ensures
        s.remove(i).insert(i, a) =~= s.update(i, a),
{
    s.remove_ensures(i);
    s.remove(i).insert_ensures(i, a);
}

/// Copies a byte string.
fn clone_bytes(v: &Vec<u8>) -> (r: Vec<u8>)
    ensures
        r@ == v@,
{
    let mut r: Vec<u8> = Vec::new();
    let mut i: usize = 0;
    while i < v.len()
        invariant
            i <= v@.len(),
            r@ == v@.take(i as int),
        decreases v@.len() - i,
    {
        r.push(v[i]);
        proof {
            assert(v@.take(i as int + 1) =~= v@.take(i as int).push(v@[i as int]));
        }
        i = i + 1;
    }
    proof {
        assert(v@.take(v@.len() as int) =~= v@);
    }
    r
}

/// Copies a listing record field by field.
fn clone_listing(l: &Listing) -> (r: Listing)
    ensures
        listing_like(r, *l),
{
    Listing {
        id: l.id,
        creator: l.creator,
        status: l.status,
        text: l.text.clone(),
        image: clone_bytes(&l.image),
    }
}

/// The listings existing in `s` that are open for sale, in creation order.
pub open spec fn active_of(s: Seq<Listing>) -> Seq<Listing>
    decreases s.len(),
{
    if s.len() == 0 {
        Seq::empty()
    } else if s.last().status == ListingStatus::Active {
        active_of(s.drop_last()).push(s.last())
    } else {
        active_of(s.drop_last())
    }
}

/// The listing store.
pub struct ListingStore {
    entries: Vec<Listing>,
}

impl ListingStore {
    /// The listing records, in creation order.
    pub closed spec fn listings(self) -> Seq<Listing> {
        self.entries@
    }

    /// Ids equal positions: they count up from zero and are never reused.
    pub open spec fn wf(self) -> bool {
        listing_ids_in_order(self.listings())
    }

    /// An empty listing store.
    pub fn new() -> (s: ListingStore)
        ensures
            s.wf(),
            s.listings().len() == 0,
    {
        ListingStore { entries: Vec::new() }
    }

    /// Creates a listing for `creator` with the given content; it starts
    /// `Active` and gets the next fresh id, which is returned.
    pub fn create(&mut self, creator: Principal, text: String, image: Vec<u8>) -> (id: u64)
        requires
            old(self).wf(),
        ensures
            final(self).wf(),
            id as int == old(self).listings().len(),
            final(self).listings() == old(self).listings().push(
                Listing { id, creator, status: ListingStatus::Active, text, image },
            ),
            statuses_evolve(old(self).listings(), final(self).listings()),
    {
        let ghost s = self.entries@;
        let id = self.entries.len() as u64;
        self.entries.push(Listing { id, creator, status: ListingStatus::Active, text, image });
        proof {
            assert forall|i: int| 0 <= i < self.entries@.len() implies (
            #[trigger] self.entries@[i]).id == i by {
                if i < s.len() {
                    assert(self.entries@[i] == s[i]);
                }
            }
            assert(statuses_evolve(s, self.entries@));
        }
        id
    }

    /// A copy of the listing stored under `id`, or `NotFound` when no
    /// listing with that id was ever created.
    pub fn get(&self, id: u64) -> (r: Result<Listing, ListingError>)
        ensures
            match r {
                Ok(l) => id < self.listings().len() && listing_like(l, self.listings()[id as int]),
                Err(e) => e == ListingError::NotFound && id >= self.listings().len(),
            },
    {
        if id < self.entries.len() as u64 {
            let i = id as usize;
            proof {
                assert(i as int == id as int);
            }
            Ok(clone_listing(&self.entries[i]))
        } else {
            Err(ListingError::NotFound)
        }
    }

    /// Flips an `Active` listing to `Sold`.  Only the purchase saga calls
    /// this, after the payment has moved: success exactly when the listing
    /// exists and is still `Active`, and on any refusal nothing changes.
    pub fn reserve_for_sale(&mut self, id: u64) -> (r: Result<(), ListingError>)
        requires
            old(self).wf(),
        ensures
            final(self).wf(),
            statuses_evolve(old(self).listings(), final(self).listings()),
            match r {
                Ok(()) => {
                    &&& id < old(self).listings().len()
                    &&& old(self).listings()[id as int].status == ListingStatus::Active
                    &&& final(self).listings() == old(self).listings().update(
                        id as int,
                        with_status(old(self).listings()[id as int], ListingStatus::Sold),
                    )
                },
                Err(e) => {
                    &&& final(self).listings() == old(self).listings()
                    &&& (e == ListingError::NotFound <==> id >= old(self).listings().len())
                    &&& (e == ListingError::NotForSale <==> id < old(self).listings().len()
                        && old(self).listings()[id as int].status != ListingStatus::Active)
                    &&& (e == ListingError::NotFound || e == ListingError::NotForSale)
                },
            },
    {
        let ghost s = self.entries@;
        if id >= self.entries.len() as u64 {
            return Err(ListingError::NotFound);
        }
        let i = id as usize;
        proof {
            assert(i as int == id as int);
        }
        match self.entries[i].status {
            ListingStatus::Active => {
                let mut l = self.entries.remove(i);
                l.status = ListingStatus::Sold;
                self.entries.insert(i, l);
                proof {
                    lemma_remove_insert_is_update(s, i as int, with_status(s[i as int], ListingStatus::Sold));
                    assert(self.entries@ == s.update(
                        i as int,
                        with_status(s[i as int], ListingStatus::Sold),
                    ));
                    assert forall|j: int| 0 <= j < self.entries@.len() implies (
                    #[trigger] self.entries@[j]).id == j by {
                        if j != i as int {
                            assert(self.entries@[j] == s[j]);
                        }
                    }
                    assert(statuses_evolve(s, self.entries@));
                }
                Ok(())
            },
            ListingStatus::Sold => Err(ListingError::NotForSale),
            ListingStatus::Archived => Err(ListingError::NotForSale),
        }
    }

    /// Archives a listing: only its creator may do so, a sold listing
    /// cannot be archived, and archiving an archived listing is accepted
    /// and changes nothing.
    pub fn archive(&mut self, id: u64, requester: Principal) -> (r: Result<(), ListingError>)
        requires
            old(self).wf(),
        ensures
            final(self).wf(),
            statuses_evolve(old(self).listings(), final(self).listings()),
            r is Ok <==> id < old(self).listings().len() && requester == old(self).listings()[id as int].creator
                && old(self).listings()[id as int].status != ListingStatus::Sold,
            r is Ok && old(self).listings()[id as int].status == ListingStatus::Active ==> final(self).listings() == old(self).listings().update(
                id as int,
                with_status(old(self).listings()[id as int], ListingStatus::Archived),
            ),
            r is Ok && old(self).listings()[id as int].status == ListingStatus::Archived ==> final(self).listings() == old(self).listings(),
            r is Err ==> final(self).listings() == old(self).listings(),
            r matches Err(e) ==> (e == ListingError::NotFound <==> id >= old(self).listings().len()) && (e == ListingError::NotCreator <==> id < old(self).listings().len() && requester != old(self).listings()[id as int].creator) && (e
                == ListingError::AlreadySold <==> id < old(self).listings().len() && requester
                == old(self).listings()[id as int].creator && old(self).listings()[id as int].status
                == ListingStatus::Sold),
    {
        let ghost s = self.entries@;
        if id >= self.entries.len() as u64 {
            return Err(ListingError::NotFound);
        }
        let i = id as usize;
        proof {
            assert(i as int == id as int);
        }
        if self.entries[i].creator != requester {
            return Err(ListingError::NotCreator);
        }
        match self.entries[i].status {
            ListingStatus::Sold => Err(ListingError::AlreadySold),
            ListingStatus::Archived => Ok(()),
            ListingStatus::Active => {
                let mut l = self.entries.remove(i);
                l.status = ListingStatus::Archived;
                self.entries.insert(i, l);
                proof {
                    lemma_remove_insert_is_update(
                        s,
                        i as int,
                        with_status(s[i as int], ListingStatus::Archived),
                    );
                    assert(self.entries@ == s.update(
                        i as int,
                        with_status(s[i as int], ListingStatus::Archived),
                    ));
                    assert forall|j: int| 0 <= j < self.entries@.len() implies (
                    #[trigger] self.entries@[j]).id == j by {
                        if j != i as int {
                            assert(self.entries@[j] == s[j]);
                        }
                    }
                    assert(statuses_evolve(s, self.entries@));
                }
                Ok(())
            },
        }
    }

    /// Replaces the text and image of the listing stored under `id`,
    /// keeping whichever of the two is not supplied.  No authorization
    /// check: callers that require one use `modify_entry`.
    pub fn update_entry(
        &mut self,
        id: u64,
        new_text: Option<String>,
        new_image: Option<Vec<u8>>,
    ) -> (r: Result<(), ListingError>)
        requires
            old(self).wf(),
        ensures
            final(self).wf(),
            statuses_evolve(old(self).listings(), final(self).listings()),
            r is Ok <==> id < old(self).listings().len(),
            r is Ok ==> final(self).listings() == old(self).listings().update(
                id as int,
                with_content(old(self).listings()[id as int], new_text, new_image),
            ),
            r matches Err(e) ==> e == ListingError::NotFound && final(self).listings() == old(self).listings(),
    {
        let ghost s = self.entries@;
        if id >= self.entries.len() as u64 {
            return Err(ListingError::NotFound);
        }
        let i = id as usize;
        proof {
            assert(i as int == id as int);
        }
        let mut l = self.entries.remove(i);
        match new_text {
            Some(t) => {
                l.text = t;
            },
            None => (),
        }
        match new_image {
            Some(im) => {
                l.image = im;
            },
            None => (),
        }
        self.entries.insert(i, l);
        proof {
            let lv = with_content(s[i as int], new_text, new_image);
            lemma_remove_insert_is_update(s, i as int, lv);
            assert(self.entries@ == s.update(i as int, lv));
            assert forall|j: int| 0 <= j < self.entries@.len() implies (
            #[trigger] self.entries@[j]).id == j by {
                if j != i as int {
                    assert(self.entries@[j] == s[j]);
                }
            }
            assert(statuses_evolve(s, self.entries@));
        }
        Ok(())
    }

    /// Like `update_entry`, but only the creator of the listing may edit
    /// it; anyone else is refused with `NotCreator` and changes nothing.
    pub fn modify_entry(
        &mut self,
        id: u64,
        requester: Principal,
        new_text: Option<String>,
        new_image: Option<Vec<u8>>,
    ) -> (r: Result<(), ListingError>)
        requires
            old(self).wf(),
        ensures
            final(self).wf(),
            statuses_evolve(old(self).listings(), final(self).listings()),
            r is Ok <==> id < old(self).listings().len() && requester == old(self).listings()[id as int].creator,
            r is Ok ==> final(self).listings() == old(self).listings().update(
                id as int,
                with_content(old(self).listings()[id as int], new_text, new_image),
            ),
            r is Err ==> final(self).listings() == old(self).listings(),
            r matches Err(e) ==> (e == ListingError::NotFound <==> id >= old(self).listings().len()) && (e == ListingError::NotCreator <==> id < old(self).listings().len() && requester != old(self).listings()[id as int].creator),
    {
        if id >= self.entries.len() as u64 {
            return Err(ListingError::NotFound);
        }
        let i = id as usize;
        proof {
            assert(i as int == id as int);
        }
        if self.entries[i].creator != requester {
            return Err(ListingError::NotCreator);
        }
        self.update_entry(id, new_text, new_image)
    }

    /// Copies of all listings open for sale, in creation order.
    pub fn list_active(&self) -> (r: Vec<Listing>)
        ensures
            r@.len() == active_of(self.listings()).len(),
            forall|i: int|
                0 <= i < r@.len() ==> listing_like(
                    #[trigger] r@[i],
                    active_of(self.listings())[i],
                ),
    {
        let ghost s = self.entries@;
        let mut r: Vec<Listing> = Vec::new();
        let mut i: usize = 0;
        proof {
            assert(s.take(0) =~= Seq::<Listing>::empty());
        }
        while i < self.entries.len()
            invariant
                i <= s.len(),
                s == self.entries@,
                r@.len() == active_of(s.take(i as int)).len(),
                forall|j: int|
                    0 <= j < r@.len() ==> listing_like(
                        #[trigger] r@[j],
                        active_of(s.take(i as int))[j],
                    ),
            decreases s.len() - i,
        {
            proof {
                assert(s.take(i as int + 1).drop_last() =~= s.take(i as int));
                assert(s.take(i as int + 1).last() == s[i as int]);
            }
            let l = &self.entries[i];
            match l.status {
                ListingStatus::Active => {
                    r.push(clone_listing(l));
                },
                ListingStatus::Sold => (),
                ListingStatus::Archived => (),
            }
            i = i + 1;
        }
        proof {
            assert(s.take(s.len() as int) =~= s);
        }
        r
    }

    /// Copies of all listings ever created, in creation order.
    pub fn list_all(&self) -> (r: Vec<Listing>)
        ensures
            r@.len() == self.listings().len(),
            forall|i: int|
                0 <= i < r@.len() ==> listing_like(#[trigger] r@[i], self.listings()[i]),
    {
        let mut r: Vec<Listing> = Vec::new();
        let mut i: usize = 0;
        while i < self.entries.len()
            invariant
                i <= self.listings().len(),
                r@.len() == i,
                forall|j: int|
                    0 <= j < r@.len() ==> listing_like(#[trigger] r@[j], self.listings()[j]),
            decreases self.listings().len() - i,
        {
            r.push(clone_listing(&self.entries[i]));
            i = i + 1;
        }
        r
    }
}

} // verus!
