//! The auction lifecycle: starting, cancelling, and refreshing the
//! displayed leaderboard snapshot.

use vstd::prelude::*;

use crate::escrow::{lemma_sum_pointwise, sum_prices};
use crate::lookup::{
    find_by, keys_unique, lemma_absent_keys, lemma_find_at, lemma_find_exists, lemma_find_push,
    lemma_find_update,
};
use crate::state::{auction_key, escrow_sel, kitty_key, CatAuction};
use crate::types::{clone_ids, Auction, AuctionError, AuctionStatus, Event, Kitty};
use crate::AUCTION_MIN_DURATION;

verus! {

impl CatAuction {
    /// Whether any bid has been recorded on auction `aid`.
    pub(crate) fn has_bids(&self, aid: u64) -> (r: bool)
        ensures
            r == exists|i: int| 0 <= i < self.bids@.len() && self.bids@[i].auction_id == aid,
    {
        let mut i: usize = 0;
        while i < self.bids.len()
            invariant
                i <= self.bids@.len(),
                forall|j: int| 0 <= j < i ==> self.bids@[j].auction_id != aid,
            decreases self.bids@.len() - i,
        {
            if self.bids[i].auction_id == aid {
                return true;
            }
            i += 1;
        }
        false
    }

    /// Record a new auction.  The caller establishes the whole invariant
    /// afterwards; this helper only appends the record.
    pub(crate) fn add_auction_to_storage(&mut self, auction: Auction)
        requires
            keys_unique(old(self).auctions@, auction_key()),
            !old(self).has_auction(auction.id),
        ensures
            final (self).auctions@ == old(self).auctions@.push(auction),
            keys_unique(final (self).auctions@, auction_key()),
            final (self).spec_auction(auction.id) == Some(auction),
            forall|w: u64|
                w != auction.id ==> final (self).spec_auction(w) == old(self).spec_auction(w),
            final (self).kitties == old(self).kitties,
            final (self).owners == old(self).owners,
            final (self).bids == old(self).bids,
            final (self).ledger == old(self).ledger,
            final (self).events == old(self).events,
            final (self).nonce == old(self).nonce,
            final (self).now == old(self).now,
            final (self).seed == old(self).seed,
    {
        proof {
            lemma_absent_keys(self.auctions@, auction_key(), auction.id);
            lemma_find_push(self.auctions@, auction_key(), auction);
        }
        self.auctions.push(auction);
    }

    /// The account allowed to administer an auction: the current owner
    /// of the kitty on sale.
    pub(crate) fn auction_admin(&self, auction_id: u64) -> (r: u64)
        requires
            self.wf(),
            self.has_auction(auction_id),
        ensures
            Some(r) == self.kitty_of(self.auction_of(auction_id).kitty_id).owner,
    {
        let ai: usize = match self.find_auction_idx(auction_id) {
            Some(ai) => ai,
            None => {
                proof {
                    assert(false);
                }
                0
            },
        };
        proof {
            assert(self.auction_record_wf(self.auctions@[ai as int]));
        }
        let kitty_id = self.auctions[ai].kitty_id;
        let ki: usize = match self.find_kitty_idx(kitty_id) {
            Some(ki) => ki,
            None => {
                proof {
                    assert(false);
                }
                0
            },
        };
        match self.kitties[ki].owner {
            Some(o) => o,
            None => {
                proof {
                    assert(false);
                }
                0
            },
        }
    }

    /// Put a kitty up for auction.  Only the kitty's recorded owner may
    /// start an auction on it; the kitty must not already be on sale;
    /// the end time must lie more than the minimum duration past the
    /// clock; the base price must be positive.  On success the auction
    /// is recorded as ongoing with an empty leaderboard, the admission
    /// threshold starts at the base price, the kitty is marked, and
    /// `AuctionStarted` is emitted.
    pub fn start_auction(
        &mut self,
        sender: u64,
        kitty_id: u64,
        end_time: u64,
        base_price: u64,
    ) -> (r: Result<(), AuctionError>)
        requires
            old(self).wf(),
            old(self).nonce < u64::MAX,
        ensures
            final (self).wf(),
            ({
                let id = old(self).spec_alloc_id(sender);
                if !old(self).has_kitty(kitty_id) {
                    &&& r == Err::<(), AuctionError>(AuctionError::NotFound)
                    &&& *final (self) == *old(self)
                } else if old(self).kitty_of(kitty_id).owner != Some(sender) {
                    &&& r == Err::<(), AuctionError>(AuctionError::Unauthorized)
                    &&& *final (self) == *old(self)
                } else if old(self).kitty_of(kitty_id).in_auction {
                    &&& r == Err::<(), AuctionError>(AuctionError::InvalidState)
                    &&& *final (self) == *old(self)
                } else if end_time <= AUCTION_MIN_DURATION + old(self).now {
                    &&& r == Err::<(), AuctionError>(AuctionError::InvalidInput)
                    &&& *final (self) == *old(self)
                } else if base_price == 0 {
                    &&& r == Err::<(), AuctionError>(AuctionError::InvalidInput)
                    &&& *final (self) == *old(self)
                } else if old(self).has_auction(id) {
                    &&& r == Err::<(), AuctionError>(AuctionError::DuplicateIdentifier)
                    &&& *final (self) == *old(self)
                } else {
                    &&& r == Ok::<(), AuctionError>(())
                    &&& final (self).spec_auction(id) matches Some(a) && a.id == id && a.kitty_id
                        == kitty_id && a.base_price == base_price && a.start_time == old(self).now
                        && a.end_time == end_time && a.status is Ongoing && a.topmost_bids@
                        == Seq::<u64>::empty() && a.price_to_topmost == base_price
                        && a.display_bids@ == Seq::<u64>::empty() && a.display_bids_last_update
                        == old(self).now && a.tx is None
                    &&& forall|w: u64|
                        w != id ==> final (self).spec_auction(w) == old(self).spec_auction(w)
                    &&& final (self).spec_kitty(kitty_id) == Some(
                        Kitty { in_auction: true, ..old(self).kitty_of(kitty_id) },
                    )
                    &&& forall|w: u64|
                        w != kitty_id ==> final (self).spec_kitty(w) == old(self).spec_kitty(w)
                    &&& final (self).owners == old(self).owners
                    &&& final (self).bids == old(self).bids
                    &&& final (self).ledger == old(self).ledger
                    &&& final (self).events@.len() == old(self).events@.len() + 1
                    &&& forall|i: int|
                        0 <= i < old(self).events@.len() ==> final (self).events@[i] == old(
                            self,
                        ).events@[i]
                    &&& final (self).events@.last() == Event::AuctionStarted(
                        sender,
                        kitty_id,
                        id,
                        base_price,
                        end_time,
                    )
                    &&& final (self).nonce == old(self).nonce + 1
                    &&& final (self).now == old(self).now
                    &&& final (self).seed == old(self).seed
                }
            }),
    {
        let ki: usize = match self.find_kitty_idx(kitty_id) {
            Some(ki) => ki,
            None => {
                return Err(AuctionError::NotFound);
            },
        };
        let is_owner = match self.kitties[ki].owner {
            Some(o) => o == sender,
            None => false,
        };
        if !is_owner {
            return Err(AuctionError::Unauthorized);
        }
        if self.kitties[ki].in_auction {
            return Err(AuctionError::InvalidState);
        }
        let now = self.now;
        if now > u64::MAX - AUCTION_MIN_DURATION || end_time <= AUCTION_MIN_DURATION + now {
            return Err(AuctionError::InvalidInput);
        }
        if base_price == 0 {
            return Err(AuctionError::InvalidInput);
        }
        let auction_id = self.gen_random_hash(sender);
        if self.find_auction_idx(auction_id).is_some() {
            return Err(AuctionError::DuplicateIdentifier);
        }
        let auction = Auction {
            id: auction_id,
            kitty_id,
            base_price,
            start_time: now,
            end_time,
            status: AuctionStatus::Ongoing,
            topmost_bids: Vec::new(),
            price_to_topmost: base_price,
            display_bids: Vec::new(),
            display_bids_last_update: now,
            tx: None,
        };
        self.nonce = self.nonce + 1;
        proof {
            lemma_find_update(
                self.kitties@,
                kitty_key(),
                ki as int,
                Kitty { in_auction: true, ..self.kitties@[ki as int] },
            );
        }
        self.kitties[ki].in_auction = true;
        let ghost mid = *self;
        self.add_auction_to_storage(auction);
        self.events.push(
            Event::AuctionStarted(sender, kitty_id, auction_id, base_price, end_time),
        );
        proof {
            self.lemma_start_restores_wf(*old(self), kitty_id, ki as int, auction);
            assert forall|w: u64|
                w != auction_id implies #[trigger] self.spec_auction(w) == old(self).spec_auction(
                w,
            ) by {
                assert(self.spec_auction(w) == mid.spec_auction(w));
            }
            assert forall|w: u64|
                w != kitty_id implies #[trigger] self.spec_kitty(w) == old(self).spec_kitty(w) by {
                assert(find_by(self.kitties@, kitty_key(), w) == find_by(
                    old(self).kitties@,
                    kitty_key(),
                    w,
                ));
            }
        }
        Ok(())
    }

    /// Restores the invariant after marking the kitty and recording the
    /// fresh ongoing auction.
    proof fn lemma_start_restores_wf(self, s0: CatAuction, kitty_id: u64, ki: int, auction: Auction)
        requires
            s0.wf(),
            0 <= ki < s0.kitties@.len(),
            s0.kitties@[ki].id == kitty_id,
            !s0.kitties@[ki].in_auction,
            s0.kitties@[ki].owner is Some,
            !s0.has_auction(auction.id),
            self.kitties@ == s0.kitties@.update(
                ki,
                Kitty { in_auction: true, ..s0.kitties@[ki] },
            ),
            self.owners@ == s0.owners@,
            self.auctions@ == s0.auctions@.push(auction),
            self.bids@ == s0.bids@,
            self.ledger == s0.ledger,
            auction.kitty_id == kitty_id,
            auction.base_price > 0,
            auction.status is Ongoing,
            auction.tx is None,
            auction.topmost_bids@ == Seq::<u64>::empty(),
            auction.price_to_topmost == auction.base_price,
        ensures
            self.wf(),
    {
        let k1 = Kitty { in_auction: true, ..s0.kitties@[ki] };
        lemma_find_at(s0.kitties@, kitty_key(), ki);
        lemma_find_update(s0.kitties@, kitty_key(), ki, k1);
        lemma_absent_keys(s0.auctions@, auction_key(), auction.id);
        lemma_find_push(s0.auctions@, auction_key(), auction);
        assert(find_by(self.kitties@, kitty_key(), kitty_id) == Some(k1));
        // Kitty records: only the flag changed.
        assert forall|i: int|
            0 <= i < self.kitties@.len() implies #[trigger] crate::state::kitty_record_ok(
            self.owners@,
            self.kitties@[i],
        ) by {
            assert(crate::state::kitty_record_ok(s0.owners@, s0.kitties@[i]));
        }
        // Owner slots: the kitty's owner and position are unchanged.
        assert forall|j: int, p: int|
            0 <= j < self.owners@.len() && 0 <= p
                < self.owners@[j].kitty_ids@.len() implies #[trigger] crate::state::owner_slot_ok(
            self.kitties@,
            self.owners@[j].owner,
            p,
            self.owners@[j].kitty_ids@[p],
        ) by {
            let id = self.owners@[j].kitty_ids@[p];
            assert(crate::state::owner_slot_ok(s0.kitties@, s0.owners@[j].owner, p, id));
            if id != kitty_id {
                assert(find_by(self.kitties@, kitty_key(), id) == find_by(
                    s0.kitties@,
                    kitty_key(),
                    id,
                ));
            }
        }
        // Auction records: the fresh auction is consistent, the old ones
        // see the same kitties but for the raised flag.
        assert forall|i: int|
            0 <= i < self.auctions@.len() implies #[trigger] crate::state::auction_record_ok(
            self.kitties@,
            self.bids@,
            self.auctions@[i],
        ) by {
            if i < s0.auctions@.len() {
                let a = s0.auctions@[i];
                assert(crate::state::auction_record_ok(s0.kitties@, s0.bids@, a));
                assert(self.auctions@[i] == a);
                if a.kitty_id != kitty_id {
                    assert(find_by(self.kitties@, kitty_key(), a.kitty_id) == find_by(
                        s0.kitties@,
                        kitty_key(),
                        a.kitty_id,
                    ));
                }
            } else {
                assert(self.auctions@[i] == auction);
                assert(crate::state::leaderboard_ok(self.bids@, auction));
            }
        }
        // At most one ongoing auction per kitty: the kitty was unmarked,
        // so no existing ongoing auction references it.
        assert forall|i: int, j: int|
            0 <= i < j < self.auctions@.len() && self.auctions@[i].status is Ongoing
                && self.auctions@[j].status is Ongoing implies self.auctions@[i].kitty_id
            != self.auctions@[j].kitty_id by {
            if j == s0.auctions@.len() {
                let a = s0.auctions@[i];
                assert(crate::state::auction_record_ok(s0.kitties@, s0.bids@, a));
                if a.kitty_id == kitty_id {
                    assert(find_by(s0.kitties@, kitty_key(), kitty_id) == Some(s0.kitties@[ki]));
                }
            }
        }
        assert forall|i: int|
            0 <= i < self.kitties@.len() && (#[trigger] self.kitties@[i]).in_auction implies exists|j: int|
            0 <= j < self.auctions@.len() && (#[trigger] self.auctions@[j]).status is Ongoing
                && self.auctions@[j].kitty_id == self.kitties@[i].id by {
            if i == ki {
                assert(0 <= s0.auctions@.len() < self.auctions@.len());
                assert((self.auctions@[s0.auctions@.len() as int]).status is Ongoing);
            } else {
                assert(s0.kitties@[i].in_auction);
                let j = choose|j: int|
                    0 <= j < s0.auctions@.len() && (#[trigger] s0.auctions@[j]).status is Ongoing
                        && s0.auctions@[j].kitty_id == s0.kitties@[i].id;
                assert((self.auctions@[j]).status is Ongoing);
            }
        }
        // Bid records: no bid references the fresh auction id, and the
        // kitty that changed has no ongoing auction among the old ones.
        assert forall|i: int|
            0 <= i < self.bids@.len() implies #[trigger] crate::state::bid_record_ok(
            self.kitties@,
            self.auctions@,
            self.bids@[i],
        ) by {
            let b = self.bids@[i];
            assert(crate::state::bid_record_ok(s0.kitties@, s0.auctions@, b));
            assert(b.auction_id != auction.id);
            assert(find_by(self.auctions@, auction_key(), b.auction_id) == find_by(
                s0.auctions@,
                auction_key(),
                b.auction_id,
            ));
            let a = find_by(s0.auctions@, auction_key(), b.auction_id).unwrap();
            if a.status is Ongoing {
                lemma_find_exists(s0.auctions@, auction_key(), b.auction_id);
                let aj = choose|aj: int|
                    0 <= aj < s0.auctions@.len() && s0.auctions@[aj] == find_by(
                        s0.auctions@,
                        auction_key(),
                        b.auction_id,
                    ).unwrap() && auction_key()(s0.auctions@[aj]) == b.auction_id;
                assert(crate::state::auction_record_ok(s0.kitties@, s0.bids@, s0.auctions@[aj]));
                if a.kitty_id == kitty_id {
                    assert(find_by(s0.kitties@, kitty_key(), kitty_id) == Some(s0.kitties@[ki]));
                    assert(false);
                } else {
                    assert(find_by(self.kitties@, kitty_key(), a.kitty_id) == find_by(
                        s0.kitties@,
                        kitty_key(),
                        a.kitty_id,
                    ));
                }
            }
        }
        // Escrow: the fresh auction has no bids, so every selection is
        // unchanged bid for bid.
        assert forall|who: u64| #[trigger] self.ledger.spec_reserved(who) == sum_prices(
            self.bids@,
            escrow_sel(self.auctions@, who),
        ) by {
            assert(s0.ledger.spec_reserved(who) == sum_prices(
                s0.bids@,
                escrow_sel(s0.auctions@, who),
            ));
            assert forall|i: int|
                0 <= i < s0.bids@.len() implies escrow_sel(s0.auctions@, who)(s0.bids@[i])
                == escrow_sel(self.auctions@, who)(s0.bids@[i]) by {
                let b = s0.bids@[i];
                assert(crate::state::bid_record_ok(s0.kitties@, s0.auctions@, b));
                assert(b.auction_id != auction.id);
                assert(find_by(self.auctions@, auction_key(), b.auction_id) == find_by(
                    s0.auctions@,
                    auction_key(),
                    b.auction_id,
                ));
            }
            lemma_sum_pointwise(
                s0.bids@,
                escrow_sel(s0.auctions@, who),
                escrow_sel(self.auctions@, who),
            );
        }
    }

    /// Cancel an auction that nobody has bid on yet.  Only the admin
    /// (the kitty's owner) may cancel, only before the end time, and
    /// only while the auction is ongoing.  On success the auction is
    /// cancelled, the kitty is released, and `AuctionCancelled` is
    /// emitted.
    pub fn cancel_auction(&mut self, sender: u64, auction_id: u64) -> (r: Result<
        (),
        AuctionError,
    >)
        requires
            old(self).wf(),
        ensures
            final (self).wf(),
            ({
                if !old(self).has_auction(auction_id) {
                    &&& r == Err::<(), AuctionError>(AuctionError::NotFound)
                    &&& *final (self) == *old(self)
                } else if !(old(self).auction_of(auction_id).status is Ongoing) {
                    &&& r == Err::<(), AuctionError>(AuctionError::InvalidState)
                    &&& *final (self) == *old(self)
                } else if old(self).kitty_of(old(self).auction_of(auction_id).kitty_id).owner
                    != Some(sender) {
                    &&& r == Err::<(), AuctionError>(AuctionError::Unauthorized)
                    &&& *final (self) == *old(self)
                } else if old(self).now >= old(self).auction_of(auction_id).end_time {
                    &&& r == Err::<(), AuctionError>(AuctionError::InvalidState)
                    &&& *final (self) == *old(self)
                } else if exists|i: int|
                    0 <= i < old(self).bids@.len() && old(self).bids@[i].auction_id
                        == auction_id {
                    &&& r == Err::<(), AuctionError>(AuctionError::InvalidState)
                    &&& *final (self) == *old(self)
                } else {
                    &&& r == Ok::<(), AuctionError>(())
                    &&& final (self).spec_auction(auction_id) == Some(
                        Auction {
                            status: AuctionStatus::Cancelled,
                            ..old(self).auction_of(auction_id)
                        },
                    )
                    &&& forall|w: u64|
                        w != auction_id ==> final (self).spec_auction(w) == old(self).spec_auction(
                            w,
                        )
                    &&& final (self).spec_kitty(old(self).auction_of(auction_id).kitty_id)
                        == Some(
                        Kitty {
                            in_auction: false,
                            ..old(self).kitty_of(old(self).auction_of(auction_id).kitty_id)
                        },
                    )
                    &&& forall|w: u64|
                        w != old(self).auction_of(auction_id).kitty_id
                            ==> final (self).spec_kitty(w) == old(self).spec_kitty(w)
                    &&& final (self).owners == old(self).owners
                    &&& final (self).bids == old(self).bids
                    &&& final (self).ledger == old(self).ledger
                    &&& final (self).events@ == old(self).events@.push(
                        Event::AuctionCancelled(auction_id),
                    )
                    &&& final (self).nonce == old(self).nonce
                    &&& final (self).now == old(self).now
                    &&& final (self).seed == old(self).seed
                }
            }),
    {
        let ai: usize = match self.find_auction_idx(auction_id) {
            Some(ai) => ai,
            None => {
                return Err(AuctionError::NotFound);
            },
        };
        match self.auctions[ai].status {
            AuctionStatus::Ongoing => {},
            _ => {
                return Err(AuctionError::InvalidState);
            },
        }
        let admin = self.auction_admin(auction_id);
        if admin != sender {
            return Err(AuctionError::Unauthorized);
        }
        if self.now >= self.auctions[ai].end_time {
            return Err(AuctionError::InvalidState);
        }
        if self.has_bids(auction_id) {
            return Err(AuctionError::InvalidState);
        }
        let kitty_id = self.auctions[ai].kitty_id;
        let ki: usize = match self.find_kitty_idx(kitty_id) {
            Some(ki) => ki,
            None => {
                proof {
                    assert(self.auction_record_wf(self.auctions@[ai as int]));
                    assert(false);
                }
                0
            },
        };
        proof {
            lemma_find_update(
                self.auctions@,
                auction_key(),
                ai as int,
                Auction { status: AuctionStatus::Cancelled, ..self.auctions@[ai as int] },
            );
        }
        self.auctions[ai].status = AuctionStatus::Cancelled;
        proof {
            lemma_find_update(
                self.kitties@,
                kitty_key(),
                ki as int,
                Kitty { in_auction: false, ..self.kitties@[ki as int] },
            );
        }
        self.kitties[ki].in_auction = false;
        self.events.push(Event::AuctionCancelled(auction_id));
        proof {
            self.lemma_cancel_restores_wf(*old(self), auction_id, ai as int, ki as int);
        }
        Ok(())
    }

    /// Restores the invariant after cancelling a bid-free auction and
    /// releasing its kitty.
    proof fn lemma_cancel_restores_wf(self, s0: CatAuction, aid: u64, ai: int, ki: int)
        requires
            s0.wf(),
            0 <= ai < s0.auctions@.len(),
            s0.auctions@[ai].id == aid,
            s0.auctions@[ai].status is Ongoing,
            0 <= ki < s0.kitties@.len(),
            s0.kitties@[ki].id == s0.auctions@[ai].kitty_id,
            forall|i: int| 0 <= i < s0.bids@.len() ==> s0.bids@[i].auction_id != aid,
            self.auctions@ == s0.auctions@.update(
                ai,
                Auction { status: AuctionStatus::Cancelled, ..s0.auctions@[ai] },
            ),
            self.kitties@ == s0.kitties@.update(
                ki,
                Kitty { in_auction: false, ..s0.kitties@[ki] },
            ),
            self.owners@ == s0.owners@,
            self.bids@ == s0.bids@,
            self.ledger == s0.ledger,
        ensures
            self.wf(),
    {
        let a0 = s0.auctions@[ai];
        let a2 = Auction { status: AuctionStatus::Cancelled, ..a0 };
        let k0 = s0.kitties@[ki];
        let k2 = Kitty { in_auction: false, ..k0 };
        lemma_find_at(s0.auctions@, auction_key(), ai);
        lemma_find_at(s0.kitties@, kitty_key(), ki);
        lemma_find_update(s0.auctions@, auction_key(), ai, a2);
        lemma_find_update(s0.kitties@, kitty_key(), ki, k2);
        assert(crate::state::auction_record_ok(s0.kitties@, s0.bids@, a0));
        assert forall|i: int|
            0 <= i < self.kitties@.len() implies #[trigger] crate::state::kitty_record_ok(
            self.owners@,
            self.kitties@[i],
        ) by {
            assert(crate::state::kitty_record_ok(s0.owners@, s0.kitties@[i]));
        }
        assert forall|j: int, p: int|
            0 <= j < self.owners@.len() && 0 <= p
                < self.owners@[j].kitty_ids@.len() implies #[trigger] crate::state::owner_slot_ok(
            self.kitties@,
            self.owners@[j].owner,
            p,
            self.owners@[j].kitty_ids@[p],
        ) by {
            let id = self.owners@[j].kitty_ids@[p];
            assert(crate::state::owner_slot_ok(s0.kitties@, s0.owners@[j].owner, p, id));
            if id != k0.id {
                assert(find_by(self.kitties@, kitty_key(), id) == find_by(
                    s0.kitties@,
                    kitty_key(),
                    id,
                ));
            }
        }
        assert forall|i: int|
            0 <= i < self.auctions@.len() implies #[trigger] crate::state::auction_record_ok(
            self.kitties@,
            self.bids@,
            self.auctions@[i],
        ) by {
            let a = self.auctions@[i];
            if i == ai {
                assert(crate::state::leaderboard_ok(self.bids@, a2));
            } else {
                assert(a == s0.auctions@[i]);
                assert(crate::state::auction_record_ok(s0.kitties@, s0.bids@, a));
                if a.kitty_id == k0.id {
                    if a.status is Ongoing {
                        // Two ongoing auctions on one kitty is impossible.
                        assert(false);
                    }
                } else {
                    assert(find_by(self.kitties@, kitty_key(), a.kitty_id) == find_by(
                        s0.kitties@,
                        kitty_key(),
                        a.kitty_id,
                    ));
                }
            }
        }
        assert forall|i: int|
            0 <= i < self.kitties@.len() && (#[trigger] self.kitties@[i]).in_auction implies exists|j: int|
            0 <= j < self.auctions@.len() && (#[trigger] self.auctions@[j]).status is Ongoing
                && self.auctions@[j].kitty_id == self.kitties@[i].id by {
            assert(i != ki);
            assert(s0.kitties@[i].in_auction);
            let j = choose|j: int|
                0 <= j < s0.auctions@.len() && (#[trigger] s0.auctions@[j]).status is Ongoing
                    && s0.auctions@[j].kitty_id == s0.kitties@[i].id;
            assert(j != ai);
            assert((self.auctions@[j]).status is Ongoing);
        }
        assert forall|i: int|
            0 <= i < self.bids@.len() implies #[trigger] crate::state::bid_record_ok(
            self.kitties@,
            self.auctions@,
            self.bids@[i],
        ) by {
            let b = self.bids@[i];
            assert(crate::state::bid_record_ok(s0.kitties@, s0.auctions@, b));
            assert(b.auction_id != aid);
            assert(find_by(self.auctions@, auction_key(), b.auction_id) == find_by(
                s0.auctions@,
                auction_key(),
                b.auction_id,
            ));
            let a = find_by(s0.auctions@, auction_key(), b.auction_id).unwrap();
            if a.status is Ongoing {
                lemma_find_exists(s0.auctions@, auction_key(), b.auction_id);
                let aj = choose|aj: int|
                    0 <= aj < s0.auctions@.len() && s0.auctions@[aj] == find_by(
                        s0.auctions@,
                        auction_key(),
                        b.auction_id,
                    ).unwrap() && auction_key()(s0.auctions@[aj]) == b.auction_id;
                assert(crate::state::auction_record_ok(s0.kitties@, s0.bids@, s0.auctions@[aj]));
                if a.kitty_id == k0.id {
                    assert(aj != ai);
                    assert(false);
                } else {
                    assert(find_by(self.kitties@, kitty_key(), a.kitty_id) == find_by(
                        s0.kitties@,
                        kitty_key(),
                        a.kitty_id,
                    ));
                }
            }
        }
        assert forall|who: u64| #[trigger] self.ledger.spec_reserved(who) == sum_prices(
            self.bids@,
            escrow_sel(self.auctions@, who),
        ) by {
            assert(s0.ledger.spec_reserved(who) == sum_prices(
                s0.bids@,
                escrow_sel(s0.auctions@, who),
            ));
            assert forall|i: int|
                0 <= i < s0.bids@.len() implies escrow_sel(s0.auctions@, who)(s0.bids@[i])
                == escrow_sel(self.auctions@, who)(s0.bids@[i]) by {
                let b = s0.bids@[i];
                assert(b.auction_id != aid);
                assert(find_by(self.auctions@, auction_key(), b.auction_id) == find_by(
                    s0.auctions@,
                    auction_key(),
                    b.auction_id,
                ));
            }
            lemma_sum_pointwise(
                s0.bids@,
                escrow_sel(s0.auctions@, who),
                escrow_sel(self.auctions@, who),
            );
        }
    }

    /// Replacing one auction record, keeping its identity, kitty,
    /// status, prices and settlement record, preserves the whole
    /// invariant, provided the new record's leaderboard is well formed.
    pub(crate) proof fn lemma_auction_update_preserves_wf(
        self,
        s0: CatAuction,
        ai: int,
        a2: Auction,
    )
        requires
            s0.wf(),
            0 <= ai < s0.auctions@.len(),
            a2.id == s0.auctions@[ai].id,
            a2.kitty_id == s0.auctions@[ai].kitty_id,
            a2.status == s0.auctions@[ai].status,
            a2.base_price == s0.auctions@[ai].base_price,
            a2.tx == s0.auctions@[ai].tx,
            crate::state::leaderboard_ok(s0.bids@, a2),
            self.auctions@ == s0.auctions@.update(ai, a2),
            self.kitties@ == s0.kitties@,
            self.owners@ == s0.owners@,
            self.bids@ == s0.bids@,
            self.ledger == s0.ledger,
        ensures
            self.wf(),
    {
        let a0 = s0.auctions@[ai];
        lemma_find_at(s0.auctions@, auction_key(), ai);
        lemma_find_update(s0.auctions@, auction_key(), ai, a2);
        assert(crate::state::auction_record_ok(s0.kitties@, s0.bids@, a0));
        assert forall|i: int|
            0 <= i < self.auctions@.len() implies #[trigger] crate::state::auction_record_ok(
            self.kitties@,
            self.bids@,
            self.auctions@[i],
        ) by {
            if i != ai {
                assert(crate::state::auction_record_ok(s0.kitties@, s0.bids@, s0.auctions@[i]));
            }
        }
        assert forall|i: int|
            0 <= i < self.kitties@.len() && (#[trigger] self.kitties@[i]).in_auction implies exists|j: int|
            0 <= j < self.auctions@.len() && (#[trigger] self.auctions@[j]).status is Ongoing
                && self.auctions@[j].kitty_id == self.kitties@[i].id by {
            let j = choose|j: int|
                0 <= j < s0.auctions@.len() && (#[trigger] s0.auctions@[j]).status is Ongoing
                    && s0.auctions@[j].kitty_id == s0.kitties@[i].id;
            assert((self.auctions@[j]).status is Ongoing);
            assert(self.auctions@[j].kitty_id == self.kitties@[i].id);
        }
        assert forall|i: int|
            0 <= i < self.bids@.len() implies #[trigger] crate::state::bid_record_ok(
            self.kitties@,
            self.auctions@,
            self.bids@[i],
        ) by {
            let b = self.bids@[i];
            assert(crate::state::bid_record_ok(s0.kitties@, s0.auctions@, b));
            if b.auction_id != a2.id {
                assert(find_by(self.auctions@, auction_key(), b.auction_id) == find_by(
                    s0.auctions@,
                    auction_key(),
                    b.auction_id,
                ));
            }
        }
        assert forall|who: u64| #[trigger] self.ledger.spec_reserved(who) == sum_prices(
            self.bids@,
            escrow_sel(self.auctions@, who),
        ) by {
            assert(s0.ledger.spec_reserved(who) == sum_prices(
                s0.bids@,
                escrow_sel(s0.auctions@, who),
            ));
            assert forall|i: int|
                0 <= i < s0.bids@.len() implies escrow_sel(s0.auctions@, who)(s0.bids@[i])
                == escrow_sel(self.auctions@, who)(s0.bids@[i]) by {
                let b = s0.bids@[i];
                if b.auction_id != a2.id {
                    assert(find_by(self.auctions@, auction_key(), b.auction_id) == find_by(
                        s0.auctions@,
                        auction_key(),
                        b.auction_id,
                    ));
                }
            }
            lemma_sum_pointwise(
                s0.bids@,
                escrow_sel(s0.auctions@, who),
                escrow_sel(self.auctions@, who),
            );
        }
    }

    /// Copy the live leaderboard into the displayed snapshot, stamping
    /// the refresh time; emits `UpdateDisplayedBids` when `ev` is set.
    /// The throttle is the caller's business.
    pub(crate) fn update_auction_display_bids_nocheck(&mut self, auction_id: u64, ev: bool)
        requires
            old(self).wf(),
            old(self).has_auction(auction_id),
        ensures
            final (self).wf(),
            final (self).spec_auction(auction_id) matches Some(a2)
                && a2 == (Auction {
                display_bids: a2.display_bids,
                display_bids_last_update: old(self).now,
                ..old(self).auction_of(auction_id)
            }) && a2.display_bids@ == old(self).auction_of(auction_id).topmost_bids@,
            forall|w: u64|
                w != auction_id ==> final (self).spec_auction(w) == old(self).spec_auction(w),
            final (self).kitties == old(self).kitties,
            final (self).owners == old(self).owners,
            final (self).bids == old(self).bids,
            final (self).ledger == old(self).ledger,
            ev ==> final (self).events@.len() == old(self).events@.len() + 1 && (forall|i: int|
                0 <= i < old(self).events@.len() ==> final (self).events@[i] == old(
                    self,
                ).events@[i]) && (final (self).events@.last() matches Event::UpdateDisplayedBids(
                w,
                snap,
            ) && w == auction_id && snap@ == old(self).auction_of(auction_id).topmost_bids@),
            !ev ==> final (self).events == old(self).events,
            final (self).nonce == old(self).nonce,
            final (self).now == old(self).now,
            final (self).seed == old(self).seed,
    {
        let ai: usize = match self.find_auction_idx(auction_id) {
            Some(ai) => ai,
            None => {
                proof {
                    assert(false);
                }
                0
            },
        };
        let snap = clone_ids(&self.auctions[ai].topmost_bids);
        let ghost s0 = *self;
        let now = self.now;
        proof {
            lemma_find_update(
                self.auctions@,
                auction_key(),
                ai as int,
                Auction {
                    display_bids: snap,
                    display_bids_last_update: now,
                    ..self.auctions@[ai as int]
                },
            );
        }
        self.auctions[ai].display_bids = snap;
        self.auctions[ai].display_bids_last_update = now;
        proof {
            let a2 = self.auctions@[ai as int];
            assert(self.auctions@ =~= s0.auctions@.update(ai as int, a2));
            assert(crate::state::auction_record_ok(s0.kitties@, s0.bids@, s0.auctions@[ai as int]));
            assert(crate::state::leaderboard_ok(s0.bids@, s0.auctions@[ai as int]));
            assert(crate::state::leaderboard_ok(s0.bids@, a2));
            self.lemma_auction_update_preserves_wf(s0, ai as int, a2);
        }
        if ev {
            let snap2 = clone_ids(&self.auctions[ai].display_bids);
            self.events.push(Event::UpdateDisplayedBids(auction_id, snap2));
        }
    }

    /// Refresh the public leaderboard snapshot.  Anyone may call this;
    /// it is refused while the auction is not ongoing or the display
    /// period has not yet elapsed since the last refresh.  On success
    /// the snapshot is replaced and `UpdateDisplayedBids` is emitted.
    pub fn update_auction_display_bids(&mut self, auction_id: u64) -> (r: Result<
        (),
        AuctionError,
    >)
        requires
            old(self).wf(),
        ensures
            final (self).wf(),
            ({
                if !old(self).has_auction(auction_id) {
                    &&& r == Err::<(), AuctionError>(AuctionError::NotFound)
                    &&& *final (self) == *old(self)
                } else if !(old(self).auction_of(auction_id).status is Ongoing) {
                    &&& r == Err::<(), AuctionError>(AuctionError::InvalidState)
                    &&& *final (self) == *old(self)
                } else if crate::DISPLAY_BIDS_UPDATE_PERIOD + old(self).auction_of(
                    auction_id,
                ).display_bids_last_update > old(self).now {
                    &&& r == Err::<(), AuctionError>(AuctionError::InvalidState)
                    &&& *final (self) == *old(self)
                } else {
                    &&& r == Ok::<(), AuctionError>(())
                    &&& final (self).spec_auction(auction_id) matches Some(a2)
                        && a2 == (Auction {
                        display_bids: a2.display_bids,
                        display_bids_last_update: old(self).now,
                        ..old(self).auction_of(auction_id)
                    }) && a2.display_bids@ == old(self).auction_of(auction_id).topmost_bids@
                    &&& forall|w: u64|
                        w != auction_id ==> final (self).spec_auction(w) == old(self).spec_auction(
                            w,
                        )
                    &&& final (self).kitties == old(self).kitties
                    &&& final (self).owners == old(self).owners
                    &&& final (self).bids == old(self).bids
                    &&& final (self).ledger == old(self).ledger
                    &&& final (self).events@.len() == old(self).events@.len() + 1
                    &&& forall|i: int|
                        0 <= i < old(self).events@.len() ==> final (self).events@[i] == old(
                            self,
                        ).events@[i]
                    &&& (final (self).events@.last() matches Event::UpdateDisplayedBids(w, snap)
                        && w == auction_id && snap@ == old(self).auction_of(
                        auction_id,
                    ).topmost_bids@)
                    &&& final (self).nonce == old(self).nonce
                    &&& final (self).now == old(self).now
                    &&& final (self).seed == old(self).seed
                }
            }),
    {
        let ai: usize = match self.find_auction_idx(auction_id) {
            Some(ai) => ai,
            None => {
                return Err(AuctionError::NotFound);
            },
        };
        match self.auctions[ai].status {
            AuctionStatus::Ongoing => {},
            _ => {
                return Err(AuctionError::InvalidState);
            },
        }
        let last = self.auctions[ai].display_bids_last_update;
        if last > u64::MAX - crate::DISPLAY_BIDS_UPDATE_PERIOD
            || crate::DISPLAY_BIDS_UPDATE_PERIOD + last > self.now {
            return Err(AuctionError::InvalidState);
        }
        self.update_auction_display_bids_nocheck(auction_id, true);
        Ok(())
    }
}

} // verus!
