//! The engine state and its well-formedness invariant.
//!
//! `CatAuction` holds every persisted table of the auction engine -- the
//! asset registry with its per-owner index, the auctions, the bids, the
//! escrow ledger, the emitted notifications, the id-allocator nonce and
//! the clock.  `wf` is the conjunction of the engine's data-integrity
//! rules; every operation requires it and preserves it.

use vstd::prelude::*;

use crate::escrow::sum_prices;
use crate::ledger::Ledger;
use crate::lookup::{find_by, keys_unique, lemma_find_absent, lemma_find_at};
use crate::types::{Auction, Bid, Event, Kitty};
use crate::TOPMOST_BIDS_LEN;

verus! {

/// One owner's dense index: the ids of the kitties they own, in slot
/// order.  A kitty's `owner_pos` is its slot in this vector.
#[derive(Clone, Debug)]
pub struct OwnerKitties {
    pub owner: u64,
    pub kitty_ids: Vec<u64>,
}

/// The auction engine's whole state.
///
/// `kitties`, `auctions` and `bids` are keyed by the id carried in each
/// record; `owners` is keyed by the owner account.  `ledger` is the
/// account ledger holding every bidder's escrow.  `events` collects the
/// notifications emitted by successful operations, oldest first.  `nonce`
/// feeds the id allocator and only ever grows; `seed` stands for the
/// entropy source mixed into each generated id; `now` is the current
/// time, advanced by `set_timestamp`.
#[derive(Clone, Debug)]
pub struct CatAuction {
    pub kitties: Vec<Kitty>,
    pub owners: Vec<OwnerKitties>,
    pub auctions: Vec<Auction>,
    pub bids: Vec<Bid>,
    pub ledger: Ledger,
    pub events: Vec<Event>,
    pub nonce: u64,
    pub now: u64,
    pub seed: u64,
}

/// Key of a kitty record.
pub open spec fn kitty_key() -> spec_fn(Kitty) -> u64 {
    |k: Kitty| k.id
}

/// Key of an owner-index entry.
pub open spec fn owner_key() -> spec_fn(OwnerKitties) -> u64 {
    |e: OwnerKitties| e.owner
}

/// Key of an auction record.
pub open spec fn auction_key() -> spec_fn(Auction) -> u64 {
    |a: Auction| a.id
}

/// Key of a bid record.
pub open spec fn bid_key() -> spec_fn(Bid) -> u64 {
    |b: Bid| b.id
}

/// A bid's (auction, bidder) pair; at most one bid exists per pair.
pub open spec fn bid_pair_key() -> spec_fn(Bid) -> (u64, u64) {
    |b: Bid| (b.auction_id, b.bidder)
}

/// Whether the auction with id `aid` exists in `auctions` and is ongoing.
pub open spec fn auction_ongoing(auctions: Seq<Auction>, aid: u64) -> bool {
    match find_by(auctions, auction_key(), aid) {
        Some(a) => a.status is Ongoing,
        None => false,
    }
}

/// Selects the bids whose full price `who` currently has in escrow: the
/// bids placed by `who` on ongoing auctions.
pub open spec fn escrow_sel(auctions: Seq<Auction>, who: u64) -> spec_fn(Bid) -> bool {
    |b: Bid| b.bidder == who && auction_ongoing(auctions, b.auction_id)
}

/// One unit above `p`, capped at the largest representable price.
pub open spec fn price_above(p: u64) -> u64 {
    if p == u64::MAX {
        u64::MAX
    } else {
        (p + 1) as u64
    }
}

/// One mixing round of the id allocator's hash.
#[verifier::opaque]
pub open spec fn mix64(h: u64, v: u64) -> u64 {
    (h ^ v).wrapping_mul(0x100000001b3).wrapping_add(0x9e3779b97f4a7c15)
}

impl CatAuction {
    /// The kitty with id `id`, if registered.
    pub open spec fn spec_kitty(self, id: u64) -> Option<Kitty> {
        find_by(self.kitties@, kitty_key(), id)
    }

    /// Whether a kitty with id `id` is registered.
    pub open spec fn has_kitty(self, id: u64) -> bool {
        self.spec_kitty(id) is Some
    }

    /// The registered kitty with id `id`.
    pub open spec fn kitty_of(self, id: u64) -> Kitty {
        self.spec_kitty(id).unwrap()
    }

    /// The auction with id `id`, if recorded.
    pub open spec fn spec_auction(self, id: u64) -> Option<Auction> {
        find_by(self.auctions@, auction_key(), id)
    }

    /// Whether an auction with id `id` is recorded.
    pub open spec fn has_auction(self, id: u64) -> bool {
        self.spec_auction(id) is Some
    }

    /// The recorded auction with id `id`.
    pub open spec fn auction_of(self, id: u64) -> Auction {
        self.spec_auction(id).unwrap()
    }

    /// The bid with id `id`, if recorded.
    pub open spec fn spec_bid(self, id: u64) -> Option<Bid> {
        find_by(self.bids@, bid_key(), id)
    }

    /// Whether a bid with id `id` is recorded.
    pub open spec fn has_bid(self, id: u64) -> bool {
        self.spec_bid(id) is Some
    }

    /// The recorded bid with id `id`.
    pub open spec fn bid_of(self, id: u64) -> Bid {
        self.spec_bid(id).unwrap()
    }

    /// The dense index of `owner`: the ids of their kitties in slot
    /// order; empty when the owner holds nothing.
    pub open spec fn spec_owner_ids(self, owner: u64) -> Seq<u64> {
        match find_by(self.owners@, owner_key(), owner) {
            Some(e) => e.kitty_ids@,
            None => Seq::empty(),
        }
    }

    /// The bid `bidder` holds on auction `aid`, if any.
    pub open spec fn spec_bidder_bid(self, aid: u64, bidder: u64) -> Option<Bid> {
        find_by(self.bids@, bid_pair_key(), (aid, bidder))
    }

    /// What `who` has in escrow: the summed prices of their bids on
    /// ongoing auctions.
    pub open spec fn spec_escrow(self, who: u64) -> int {
        sum_prices(self.bids@, escrow_sel(self.auctions@, who))
    }

    /// The identifier the allocator hands out next for `caller`: the
    /// entropy seed, the caller and the nonce mixed into a fixed-width
    /// hash.
    pub open spec fn spec_alloc_id(self, caller: u64) -> u64 {
        mix64(mix64(mix64(0xcbf29ce484222325, self.seed), caller), self.nonce)
    }

    /// A registered kitty either has no owner at all or carries both an
    /// owner and the slot, within bounds, where that owner's index lists
    /// it.
    pub open spec fn kitty_record_wf(self, k: Kitty) -> bool {
        kitty_record_ok(self.owners@, k)
    }

    /// Kitty ids are unique and every kitty record is well formed.
    pub open spec fn kitties_wf(self) -> bool {
        kitties_ok(self.kitties@, self.owners@)
    }

    /// Owner-index entries are unique per owner and every listed slot is
    /// consistent with the kitty it lists.
    pub open spec fn owners_wf(self) -> bool {
        owners_ok(self.kitties@, self.owners@)
    }

    /// Price of a leaderboard entry: the price of the bid it names.
    pub open spec fn tb_price(self, bid_id: u64) -> u64 {
        price_in(self.bids@, bid_id)
    }

    /// The auction's leaderboard is well formed; see `leaderboard_ok`.
    pub open spec fn leaderboard_wf(self, a: Auction) -> bool {
        leaderboard_ok(self.bids@, a)
    }

    /// The auction record is well formed; see `auction_record_ok`.
    pub open spec fn auction_record_wf(self, a: Auction) -> bool {
        auction_record_ok(self.kitties@, self.bids@, a)
    }

    /// Every auction record is well formed and the lifecycle flags are
    /// consistent; see `auctions_ok`.
    pub open spec fn auctions_wf(self) -> bool {
        auctions_ok(self.kitties@, self.auctions@, self.bids@)
    }

    /// The bid record is well formed; see `bid_record_ok`.
    pub open spec fn bid_record_wf(self, b: Bid) -> bool {
        bid_record_ok(self.kitties@, self.auctions@, b)
    }

    /// Bid ids and (auction, bidder) pairs are unique and every bid
    /// record is well formed.
    pub open spec fn bids_wf(self) -> bool {
        bids_ok(self.kitties@, self.auctions@, self.bids@)
    }

    /// Escrow accounting: every account's reserved balance equals the
    /// summed prices of its bids on ongoing auctions.
    pub open spec fn escrow_wf(self) -> bool {
        escrow_ok(self.ledger, self.auctions@, self.bids@)
    }

    /// The invariant as it stands mid-settlement, after the auction has
    /// closed but before its kitty's flag is cleared: everything holds
    /// except that this one kitty may be marked without an ongoing
    /// auction.
    pub open spec fn wf_except_kitty_flag(self, kid: u64) -> bool {
        &&& self.kitties_wf()
        &&& self.owners_wf()
        &&& keys_unique(self.auctions@, auction_key())
        &&& forall|i: int|
            0 <= i < self.auctions@.len() ==> #[trigger] auction_record_ok(
                self.kitties@,
                self.bids@,
                self.auctions@[i],
            )
        &&& forall|i: int, j: int|
            0 <= i < j < self.auctions@.len() && self.auctions@[i].status is Ongoing
                && self.auctions@[j].status is Ongoing ==> self.auctions@[i].kitty_id
                != self.auctions@[j].kitty_id
        &&& forall|i: int|
            0 <= i < self.kitties@.len() && (#[trigger] self.kitties@[i]).in_auction
                && self.kitties@[i].id != kid ==> exists|j: int|
                0 <= j < self.auctions@.len() && (#[trigger] self.auctions@[j]).status is Ongoing
                    && self.auctions@[j].kitty_id == self.kitties@[i].id
        &&& self.bids_wf()
        &&& self.ledger.wf()
        &&& self.escrow_wf()
    }

    /// The engine's invariant: every table is internally consistent and
    /// consistent with the others, and the ledger's escrow matches the
    /// recorded bids.
    pub open spec fn wf(self) -> bool {
        &&& self.kitties_wf()
        &&& self.owners_wf()
        &&& self.auctions_wf()
        &&& self.bids_wf()
        &&& self.ledger.wf()
        &&& self.escrow_wf()
    }
}

/// The dense index of `owner` within `owners`; empty when the owner has
/// no entry.
pub open spec fn owner_ids_of(owners: Seq<OwnerKitties>, owner: u64) -> Seq<u64> {
    match find_by(owners, owner_key(), owner) {
        Some(e) => e.kitty_ids@,
        None => Seq::empty(),
    }
}

/// The bid named `id` within `bids`.
pub open spec fn bid_in(bids: Seq<Bid>, id: u64) -> Option<Bid> {
    find_by(bids, bid_key(), id)
}

/// Price of the bid named `id` within `bids`.
pub open spec fn price_in(bids: Seq<Bid>, id: u64) -> u64 {
    bid_in(bids, id).unwrap().price
}

/// A kitty record either has no owner at all or carries both an owner
/// and the slot, within bounds, where that owner's index lists it.
pub open spec fn kitty_record_ok(owners: Seq<OwnerKitties>, k: Kitty) -> bool {
    &&& (k.owner is Some <==> k.owner_pos is Some)
    &&& k.owner is Some ==> {
        &&& (k.owner_pos.unwrap() as int) < owner_ids_of(owners, k.owner.unwrap()).len()
        &&& owner_ids_of(owners, k.owner.unwrap())[k.owner_pos.unwrap() as int] == k.id
    }
}

/// Kitty ids are unique and every kitty record is well formed.
pub open spec fn kitties_ok(kitties: Seq<Kitty>, owners: Seq<OwnerKitties>) -> bool {
    &&& keys_unique(kitties, kitty_key())
    &&& forall|i: int| 0 <= i < kitties.len() ==> #[trigger] kitty_record_ok(owners, kitties[i])
}

/// An owner-index slot lists a registered kitty that points straight
/// back at it.
pub open spec fn owner_slot_ok(kitties: Seq<Kitty>, owner: u64, p: int, id: u64) -> bool {
    match find_by(kitties, kitty_key(), id) {
        Some(k) => k.owner == Some(owner) && k.owner_pos == Some(p as u64),
        None => false,
    }
}

/// Owner-index entries are unique per owner and every listed slot is
/// consistent with the kitty it lists.  Together with `kitties_ok` this
/// makes each owner's index dense: slot `p` of owner `o` holds exactly
/// the kitty whose `owner_pos` is `p`.
pub open spec fn owners_ok(kitties: Seq<Kitty>, owners: Seq<OwnerKitties>) -> bool {
    &&& keys_unique(owners, owner_key())
    &&& forall|j: int, p: int|
        0 <= j < owners.len() && 0 <= p < owners[j].kitty_ids@.len() ==> #[trigger] owner_slot_ok(
            kitties,
            owners[j].owner,
            p,
            owners[j].kitty_ids@[p],
        )
}

/// The auction's leaderboard is bounded and duplicate-free and lists
/// only bids of this auction.
pub open spec fn leaderboard_entries_ok(bids: Seq<Bid>, a: Auction) -> bool {
    let tb = a.topmost_bids@;
    &&& tb.len() <= TOPMOST_BIDS_LEN as int
    &&& forall|i: int, j: int| 0 <= i < j < tb.len() ==> tb[i] != tb[j]
    &&& forall|i: int|
        0 <= i < tb.len() ==> (#[trigger] bid_in(bids, tb[i])) is Some && bid_in(
            bids,
            tb[i],
        ).unwrap().auction_id == a.id
}

/// The leaderboard is sorted by descending price and the admission
/// threshold is the base price until the board fills, then one unit
/// above the lowest listed price.
pub open spec fn leaderboard_sorted_ok(bids: Seq<Bid>, a: Auction) -> bool {
    let tb = a.topmost_bids@;
    &&& forall|i: int, j: int|
        0 <= i < j < tb.len() ==> #[trigger] price_in(bids, tb[i]) >= #[trigger] price_in(
            bids,
            tb[j],
        )
    &&& if tb.len() == TOPMOST_BIDS_LEN as int {
        a.price_to_topmost == price_above(price_in(bids, tb[TOPMOST_BIDS_LEN as int - 1]))
    } else {
        a.price_to_topmost == a.base_price
    }
}

/// The whole leaderboard invariant.
pub open spec fn leaderboard_ok(bids: Seq<Bid>, a: Auction) -> bool {
    &&& leaderboard_entries_ok(bids, a)
    &&& leaderboard_sorted_ok(bids, a)
}

/// The parts of an auction record's invariant that survive a price
/// raise: everything but the leaderboard's ordering and threshold.
pub open spec fn auction_record_weak_ok(kitties: Seq<Kitty>, bids: Seq<Bid>, a: Auction) -> bool {
    &&& find_by(kitties, kitty_key(), a.kitty_id) is Some
    &&& find_by(kitties, kitty_key(), a.kitty_id).unwrap().owner is Some
    &&& a.base_price > 0
    &&& a.status is Ongoing ==> find_by(kitties, kitty_key(), a.kitty_id).unwrap().in_auction
    &&& !(a.status is Closed) ==> a.tx is None
    &&& leaderboard_entries_ok(bids, a)
}

/// An auction references a registered, owned kitty, asks a positive base
/// price, marks its kitty while ongoing, carries a settlement record
/// only once closed, and keeps a well-formed leaderboard.
pub open spec fn auction_record_ok(kitties: Seq<Kitty>, bids: Seq<Bid>, a: Auction) -> bool {
    &&& auction_record_weak_ok(kitties, bids, a)
    &&& leaderboard_sorted_ok(bids, a)
}

/// Auction ids are unique, every record is well formed, at most one
/// ongoing auction exists per kitty, and a kitty marked `in_auction` has
/// an ongoing auction.
pub open spec fn auctions_ok(kitties: Seq<Kitty>, auctions: Seq<Auction>, bids: Seq<Bid>) -> bool {
    &&& keys_unique(auctions, auction_key())
    &&& forall|i: int|
        0 <= i < auctions.len() ==> #[trigger] auction_record_ok(kitties, bids, auctions[i])
    &&& forall|i: int, j: int|
        0 <= i < j < auctions.len() && auctions[i].status is Ongoing
            && auctions[j].status is Ongoing ==> auctions[i].kitty_id != auctions[j].kitty_id
    &&& forall|i: int|
        0 <= i < kitties.len() && (#[trigger] kitties[i]).in_auction ==> exists|j: int|
            0 <= j < auctions.len() && (#[trigger] auctions[j]).status is Ongoing
                && auctions[j].kitty_id == kitties[i].id
}

/// A bid belongs to a recorded, never-cancelled auction, stays active,
/// offers at least the base price, and, while its auction is ongoing,
/// does not come from the kitty's owner.
pub open spec fn bid_record_ok(kitties: Seq<Kitty>, auctions: Seq<Auction>, b: Bid) -> bool {
    match find_by(auctions, auction_key(), b.auction_id) {
        Some(a) => {
            &&& b.status is Active
            &&& b.price >= a.base_price
            &&& !(a.status is Cancelled)
            &&& a.status is Ongoing ==> Some(b.bidder) != find_by(
                kitties,
                kitty_key(),
                a.kitty_id,
            ).unwrap().owner
        },
        None => false,
    }
}

/// Bid ids and (auction, bidder) pairs are unique and every bid record
/// is well formed.
pub open spec fn bids_ok(kitties: Seq<Kitty>, auctions: Seq<Auction>, bids: Seq<Bid>) -> bool {
    &&& keys_unique(bids, bid_key())
    &&& keys_unique(bids, bid_pair_key())
    &&& forall|i: int|
        0 <= i < bids.len() ==> #[trigger] bid_record_ok(kitties, auctions, bids[i])
}

/// Escrow accounting: every account's reserved balance equals the
/// summed prices of its bids on ongoing auctions.
pub open spec fn escrow_ok(ledger: Ledger, auctions: Seq<Auction>, bids: Seq<Bid>) -> bool {
    forall|who: u64| #[trigger] ledger.spec_reserved(who) == sum_prices(
        bids,
        escrow_sel(auctions, who),
    )
}

impl CatAuction {
    /// A fresh engine: no kitties, no auctions, no bids, an empty
    /// ledger, no events, the nonce and clock at zero.
    pub fn new(seed: u64) -> (r: CatAuction)
        ensures
            r.wf(),
            r.kitties@ =~= Seq::<Kitty>::empty(),
            r.owners@ =~= Seq::<OwnerKitties>::empty(),
            r.auctions@ =~= Seq::<Auction>::empty(),
            r.bids@ =~= Seq::<Bid>::empty(),
            r.events@ =~= Seq::<Event>::empty(),
            forall|w: u64| r.ledger.spec_free(w) == 0 && r.ledger.spec_reserved(w) == 0,
            r.nonce == 0,
            r.now == 0,
            r.seed == seed,
    {
        let r = CatAuction {
            kitties: Vec::new(),
            owners: Vec::new(),
            auctions: Vec::new(),
            bids: Vec::new(),
            ledger: Ledger::new(),
            events: Vec::new(),
            nonce: 0,
            now: 0,
            seed,
        };
        proof {
            assert forall|who: u64| #[trigger] r.ledger.spec_reserved(who) == r.spec_escrow(
                who,
            ) by {
                assert(r.spec_escrow(who) == 0);
            }
        }
        r
    }

    /// Set the clock.  Models the external timestamp source; nothing
    /// else changes.
    pub fn set_timestamp(&mut self, t: u64)
        ensures
            *final (self) == (CatAuction { now: t, ..*old(self) }),
    {
        self.now = t;
    }

    /// Seed an account's spendable balance.  Models the external
    /// ledger's genesis configuration; refused by precondition once the
    /// account holds escrow that the new balance could not sit beside.
    pub fn set_free_balance(&mut self, who: u64, amount: u64)
        requires
            old(self).wf(),
            amount + old(self).ledger.spec_reserved(who) <= u64::MAX,
        ensures
            final (self).wf(),
            final (self).ledger.spec_free(who) == amount,
            forall|w: u64|
                #[trigger] final (self).ledger.spec_reserved(w) == old(self).ledger.spec_reserved(
                    w,
                ),
            forall|w: u64|
                w != who ==> #[trigger] final (self).ledger.spec_free(w) == old(
                    self,
                ).ledger.spec_free(w),
            *final (self) == (CatAuction { ledger: final (self).ledger, ..*old(self) }),
    {
        self.ledger.set_free_balance(who, amount);
        proof {
            assert forall|w: u64| #[trigger] self.ledger.spec_reserved(w) == sum_prices(
                self.bids@,
                escrow_sel(self.auctions@, w),
            ) by {
                assert(old(self).ledger.spec_reserved(w) == sum_prices(
                    old(self).bids@,
                    escrow_sel(old(self).auctions@, w),
                ));
            }
        }
    }

    /// The identifier the allocator would hand out next for `caller`.
    pub(crate) fn gen_random_hash(&self, caller: u64) -> (r: u64)
        ensures
            r == self.spec_alloc_id(caller),
    {
        proof {
            reveal(mix64);
        }
        let h0: u64 = 0xcbf29ce484222325;
        let h1 = (h0 ^ self.seed).wrapping_mul(0x100000001b3).wrapping_add(0x9e3779b97f4a7c15);
        let h2 = (h1 ^ caller).wrapping_mul(0x100000001b3).wrapping_add(0x9e3779b97f4a7c15);
        (h2 ^ self.nonce).wrapping_mul(0x100000001b3).wrapping_add(0x9e3779b97f4a7c15)
    }

    /// Index of the kitty with id `id` in the registry.
    pub(crate) fn find_kitty_idx(&self, id: u64) -> (r: Option<usize>)
        requires
            keys_unique(self.kitties@, kitty_key()),
        ensures
            match r {
                Some(i) => i < self.kitties@.len() && self.kitties@[i as int].id == id
                    && self.spec_kitty(id) == Some(self.kitties@[i as int]),
                None => !self.has_kitty(id),
            },
    {
        let mut i: usize = 0;
        while i < self.kitties.len()
            invariant
                keys_unique(self.kitties@, kitty_key()),
                i <= self.kitties@.len(),
                forall|j: int| 0 <= j < i ==> self.kitties@[j].id != id,
            decreases self.kitties@.len() - i,
        {
            if self.kitties[i].id == id {
                proof {
                    lemma_find_at(self.kitties@, kitty_key(), i as int);
                }
                return Some(i);
            }
            i += 1;
        }
        proof {
            lemma_find_absent(self.kitties@, kitty_key(), id);
        }
        None
    }

    /// Index of the auction with id `id`.
    pub(crate) fn find_auction_idx(&self, id: u64) -> (r: Option<usize>)
        requires
            keys_unique(self.auctions@, auction_key()),
        ensures
            match r {
                Some(i) => i < self.auctions@.len() && self.auctions@[i as int].id == id
                    && self.spec_auction(id) == Some(self.auctions@[i as int]),
                None => !self.has_auction(id),
            },
    {
        let mut i: usize = 0;
        while i < self.auctions.len()
            invariant
                keys_unique(self.auctions@, auction_key()),
                i <= self.auctions@.len(),
                forall|j: int| 0 <= j < i ==> self.auctions@[j].id != id,
            decreases self.auctions@.len() - i,
        {
            if self.auctions[i].id == id {
                proof {
                    lemma_find_at(self.auctions@, auction_key(), i as int);
                }
                return Some(i);
            }
            i += 1;
        }
        proof {
            lemma_find_absent(self.auctions@, auction_key(), id);
        }
        None
    }

    /// Index of the bid with id `id`.
    pub(crate) fn find_bid_idx(&self, id: u64) -> (r: Option<usize>)
        requires
            keys_unique(self.bids@, bid_key()),
        ensures
            match r {
                Some(i) => i < self.bids@.len() && self.bids@[i as int].id == id && self.spec_bid(
                    id,
                ) == Some(self.bids@[i as int]),
                None => !self.has_bid(id),
            },
    {
        let mut i: usize = 0;
        while i < self.bids.len()
            invariant
                keys_unique(self.bids@, bid_key()),
                i <= self.bids@.len(),
                forall|j: int| 0 <= j < i ==> self.bids@[j].id != id,
            decreases self.bids@.len() - i,
        {
            if self.bids[i].id == id {
                proof {
                    lemma_find_at(self.bids@, bid_key(), i as int);
                }
                return Some(i);
            }
            i += 1;
        }
        proof {
            lemma_find_absent(self.bids@, bid_key(), id);
        }
        None
    }

    /// Index of the bid `bidder` holds on auction `aid`, if any.
    pub(crate) fn find_bid_by_pair(&self, aid: u64, bidder: u64) -> (r: Option<usize>)
        requires
            keys_unique(self.bids@, bid_pair_key()),
        ensures
            match r {
                Some(i) => i < self.bids@.len() && self.bids@[i as int].auction_id == aid
                    && self.bids@[i as int].bidder == bidder && self.spec_bidder_bid(aid, bidder)
                    == Some(self.bids@[i as int]),
                None => self.spec_bidder_bid(aid, bidder) is None,
            },
    {
        let mut i: usize = 0;
        while i < self.bids.len()
            invariant
                keys_unique(self.bids@, bid_pair_key()),
                i <= self.bids@.len(),
                forall|j: int|
                    0 <= j < i ==> !(self.bids@[j].auction_id == aid && self.bids@[j].bidder
                        == bidder),
            decreases self.bids@.len() - i,
        {
            if self.bids[i].auction_id == aid && self.bids[i].bidder == bidder {
                proof {
                    lemma_find_at(self.bids@, bid_pair_key(), i as int);
                }
                return Some(i);
            }
            i += 1;
        }
        proof {
            lemma_find_absent(self.bids@, bid_pair_key(), (aid, bidder));
        }
        None
    }

    /// Index of `owner`'s entry in the owner index.
    pub(crate) fn find_owner_idx(&self, owner: u64) -> (r: Option<usize>)
        requires
            keys_unique(self.owners@, owner_key()),
        ensures
            match r {
                Some(i) => i < self.owners@.len() && self.owners@[i as int].owner == owner
                    && find_by(self.owners@, owner_key(), owner) == Some(self.owners@[i as int]),
                None => find_by(self.owners@, owner_key(), owner) is None,
            },
    {
        let mut i: usize = 0;
        while i < self.owners.len()
            invariant
                keys_unique(self.owners@, owner_key()),
                i <= self.owners@.len(),
                forall|j: int| 0 <= j < i ==> self.owners@[j].owner != owner,
            decreases self.owners@.len() - i,
        {
            if self.owners[i].owner == owner {
                proof {
                    lemma_find_at(self.owners@, owner_key(), i as int);
                }
                return Some(i);
            }
            i += 1;
        }
        proof {
            lemma_find_absent(self.owners@, owner_key(), owner);
        }
        None
    }
}

} // verus!
