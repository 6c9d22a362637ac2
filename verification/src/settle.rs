//! The settlement engine: closing an expired auction, paying the
//! seller from the winning bid's escrow, transferring the kitty to the
//! winner, and releasing every other bidder's escrow.

use vstd::prelude::*;

use crate::escrow::{
    lemma_sum_elem, lemma_sum_except_one, lemma_sum_le, lemma_sum_none, lemma_sum_pointwise,
    lemma_sum_push, lemma_sum_single, sum_prices,
};
use crate::lookup::{find_by, keys_unique, lemma_find_at, lemma_find_exists, lemma_find_update};
use crate::state::{auction_key, bid_key, bid_pair_key, escrow_sel, kitty_key, CatAuction};
use crate::types::{clone_ids, Auction, AuctionError, AuctionStatus, AuctionTx, Bid, Event, Kitty};

verus! {

/// Selects `who`'s bids on auction `aid` whose escrow the settlement
/// loop releases; the winner's escrow is settled separately.
pub open spec fn released_sel(aid: u64, skip_winner: Option<u64>, who: u64) -> spec_fn(Bid) -> bool {
    |b: Bid| b.auction_id == aid && b.bidder == who && (match skip_winner {
        Some(w) => b.bidder != w,
        None => true,
    })
}

/// The price of `who`'s bid on auction `aid`; zero without one.
pub open spec fn aid_bid_price(s: CatAuction, aid: u64, who: u64) -> int {
    match s.spec_bidder_bid(aid, who) {
        Some(b) => b.price as int,
        None => 0,
    }
}

impl CatAuction {
    /// Release the escrow of every recorded bid on auction `aid`,
    /// except the winner's when one is given: each such bidder's
    /// reserved balance returns to their free balance.
    pub(crate) fn release_bids(&mut self, aid: u64, skip_winner: Option<u64>)
        requires
            old(self).ledger.wf(),
            keys_unique(old(self).bids@, crate::state::bid_pair_key()),
            forall|who: u64|
                #[trigger] old(self).ledger.spec_reserved(who) >= sum_prices(
                    old(self).bids@,
                    released_sel(aid, skip_winner, who),
                ),
        ensures
            final (self).ledger.wf(),
            forall|who: u64|
                #[trigger] final (self).ledger.spec_reserved(who) == old(self).ledger.spec_reserved(
                    who,
                ) - sum_prices(old(self).bids@, released_sel(aid, skip_winner, who)),
            forall|who: u64|
                #[trigger] final (self).ledger.spec_free(who) == old(self).ledger.spec_free(who)
                    + sum_prices(old(self).bids@, released_sel(aid, skip_winner, who)),
            *final (self) == (CatAuction { ledger: final (self).ledger, ..*old(self) }),
    {
        let ghost bids0 = self.bids@;
        proof {
            assert forall|who: u64| #[trigger] self.ledger.spec_reserved(who)
                == old(self).ledger.spec_reserved(who) - sum_prices(
                bids0.take(0),
                released_sel(aid, skip_winner, who),
            ) && self.ledger.spec_free(who) == old(self).ledger.spec_free(who) + sum_prices(
                bids0.take(0),
                released_sel(aid, skip_winner, who),
            ) by {
                assert(bids0.take(0) =~= Seq::<Bid>::empty());
            }
        }
        let mut i: usize = 0;
        while i < self.bids.len()
            invariant
                i <= self.bids@.len(),
                self.bids@ == bids0,
                self.ledger.wf(),
                keys_unique(bids0, crate::state::bid_pair_key()),
                forall|who: u64|
                    #[trigger] old(self).ledger.spec_reserved(who) >= sum_prices(
                        bids0,
                        released_sel(aid, skip_winner, who),
                    ),
                forall|who: u64|
                    #[trigger] self.ledger.spec_reserved(who) == old(self).ledger.spec_reserved(
                        who,
                    ) - sum_prices(bids0.take(i as int), released_sel(aid, skip_winner, who)),
                forall|who: u64|
                    #[trigger] self.ledger.spec_free(who) == old(self).ledger.spec_free(who)
                        + sum_prices(bids0.take(i as int), released_sel(aid, skip_winner, who)),
                *self == (CatAuction { ledger: self.ledger, ..*old(self) }),
            decreases self.bids@.len() - i,
        {
            let b = self.bids[i];
            let process = b.auction_id == aid && (match skip_winner {
                Some(w) => b.bidder != w,
                None => true,
            });
            proof {
                assert(bids0.take(i as int + 1) =~= bids0.take(i as int).push(bids0[i as int]));
            }
            if process {
                proof {
                    let sel = released_sel(aid, skip_winner, b.bidder);
                    // The bidder's aid bid is unique, so nothing of
                    // theirs was released yet.
                    assert forall|j: int| 0 <= j < bids0.take(i as int).len() implies !sel(
                        bids0.take(i as int)[j],
                    ) by {
                        if sel(bids0.take(i as int)[j]) {
                            assert(crate::state::bid_pair_key()(bids0[j])
                                == crate::state::bid_pair_key()(bids0[i as int]));
                        }
                    }
                    lemma_sum_none(bids0.take(i as int), sel);
                    lemma_sum_elem(bids0, sel, i as int);
                    lemma_sum_push(bids0.take(i as int), sel, bids0[i as int]);
                    assert(self.ledger.spec_reserved(b.bidder) >= b.price);
                }
                let ghost led0 = self.ledger;
                self.ledger.unreserve(b.bidder, b.price);
                proof {
                    assert forall|who: u64| #[trigger] self.ledger.spec_reserved(who) == old(
                        self,
                    ).ledger.spec_reserved(who) - sum_prices(
                        bids0.take(i as int + 1),
                        released_sel(aid, skip_winner, who),
                    ) && self.ledger.spec_free(who) == old(self).ledger.spec_free(who)
                        + sum_prices(
                        bids0.take(i as int + 1),
                        released_sel(aid, skip_winner, who),
                    ) by {
                        lemma_sum_push(
                            bids0.take(i as int),
                            released_sel(aid, skip_winner, who),
                            bids0[i as int],
                        );
                        if who != b.bidder {
                            assert(self.ledger.spec_reserved(who) == led0.spec_reserved(who));
                        }
                    }
                }
            } else {
                proof {
                    assert forall|who: u64| #[trigger] sum_prices(
                        bids0.take(i as int + 1),
                        released_sel(aid, skip_winner, who),
                    ) == sum_prices(bids0.take(i as int), released_sel(aid, skip_winner, who)) by {
                        lemma_sum_push(
                            bids0.take(i as int),
                            released_sel(aid, skip_winner, who),
                            bids0[i as int],
                        );
                    }
                }
            }
            i += 1;
        }
        proof {
            assert(bids0.take(bids0.len() as int) =~= bids0);
        }
    }


    /// The settlement loop releases exactly the price of `who`'s bid on
    /// the auction, if they hold one that it does not skip.
    pub proof fn lemma_rel_sum_is_bid_price(s0: CatAuction, aid: u64, skip_winner: Option<u64>, who: u64)
        requires
            keys_unique(s0.bids@, bid_pair_key()),
            skip_winner matches Some(w) ==> who != w,
        ensures
            sum_prices(s0.bids@, released_sel(aid, skip_winner, who)) == aid_bid_price(
                s0,
                aid,
                who,
            ),
    {
        let sel = released_sel(aid, skip_winner, who);
        if s0.spec_bidder_bid(aid, who) is Some {
            lemma_find_exists(s0.bids@, bid_pair_key(), (aid, who));
            let j = choose|j: int|
                0 <= j < s0.bids@.len() && s0.bids@[j] == find_by(
                    s0.bids@,
                    bid_pair_key(),
                    (aid, who),
                ).unwrap() && bid_pair_key()(s0.bids@[j]) == (aid, who);
            assert(sel(s0.bids@[j]));
            assert forall|k: int| 0 <= k < s0.bids@.len() && k != j implies !sel(s0.bids@[k]) by {
                if sel(s0.bids@[k]) {
                    assert(bid_pair_key()(s0.bids@[k]) == bid_pair_key()(s0.bids@[j]));
                }
            }
            lemma_sum_single(s0.bids@, sel, j);
        } else {
            assert forall|k: int| 0 <= k < s0.bids@.len() implies !sel(s0.bids@[k]) by {
                if sel(s0.bids@[k]) {
                    crate::lookup::lemma_find_at(s0.bids@, bid_pair_key(), k);
                }
            }
            lemma_sum_none(s0.bids@, sel);
        }
    }

    /// Close an expired auction and settle it.  Anyone may call this,
    /// any number of times: closing an already terminal auction is a
    /// no-op success.  When a winner exists, their escrowed price is
    /// paid to the seller, the kitty moves to the winner, and a
    /// settlement record is stored; every other bidder's escrow is
    /// released either way, the displayed leaderboard is refreshed, and
    /// `AuctionClosed` is emitted.  A failed payment leaves everything
    /// untouched so the call can be retried.
    pub fn close_auction_and_tx(&mut self, auction_id: u64) -> (r: Result<(), AuctionError>)
        requires
            old(self).wf(),
        ensures
            final (self).wf(),
            !old(self).has_auction(auction_id) ==> r == Err::<(), AuctionError>(
                AuctionError::NotFound,
            ) && *final (self) == *old(self),
            old(self).has_auction(auction_id) && !(old(self).auction_of(
                auction_id,
            ).status is Ongoing) ==> r == Ok::<(), AuctionError>(()) && *final (self) == *old(
                self,
            ),
            old(self).has_auction(auction_id) && old(self).auction_of(auction_id).status is Ongoing
                && old(self).now < old(self).auction_of(auction_id).end_time ==> r == Err::<
                (),
                AuctionError,
            >(AuctionError::InvalidState) && *final (self) == *old(self),
            ({
                let a0 = old(self).auction_of(auction_id);
                let kid = a0.kitty_id;
                let owner = old(self).kitty_of(kid).owner.unwrap();
                let wb = old(self).bid_of(a0.topmost_bids@[0]);
                old(self).has_auction(auction_id) && a0.status is Ongoing && old(self).now
                    >= a0.end_time && a0.topmost_bids@.len() > 0 && old(self).ledger.spec_free(
                    owner,
                ) + old(self).ledger.spec_reserved(owner) + wb.price > u64::MAX
            }) ==> r == Err::<(), AuctionError>(AuctionError::SettlementTransferFailed)
                && *final (self) == *old(self),
            ({
                let a0 = old(self).auction_of(auction_id);
                let kid = a0.kitty_id;
                let owner = old(self).kitty_of(kid).owner.unwrap();
                let wb = old(self).bid_of(a0.topmost_bids@[0]);
                old(self).has_auction(auction_id) && a0.status is Ongoing && old(self).now
                    >= a0.end_time && a0.topmost_bids@.len() > 0 && old(self).ledger.spec_free(
                    owner,
                ) + old(self).ledger.spec_reserved(owner) + wb.price <= u64::MAX
            }) ==> ({
                let a0 = old(self).auction_of(auction_id);
                let kid = a0.kitty_id;
                let owner = old(self).kitty_of(kid).owner.unwrap();
                let wb = old(self).bid_of(a0.topmost_bids@[0]);
                let winner = wb.bidder;
                let price = wb.price;
                let p = old(self).kitty_of(kid).owner_pos.unwrap() as int;
                let ids0 = old(self).spec_owner_ids(owner);
                let moved = ids0.last();
                &&& r == Ok::<(), AuctionError>(())
                &&& final (self).spec_auction(auction_id) matches Some(a2)
                    && a2 == (Auction {
                    status: AuctionStatus::Closed,
                    tx: Some((AuctionTx { tx_time: old(self).now, winner, tx_price: price })),
                    display_bids: a2.display_bids,
                    display_bids_last_update: old(self).now,
                    ..a0
                }) && a2.display_bids@ == a0.topmost_bids@
                &&& forall|w: u64|
                    w != auction_id ==> final (self).spec_auction(w) == old(self).spec_auction(w)
                &&& final (self).spec_kitty(kid) == Some(
                    (Kitty {
                        owner: Some(winner),
                        owner_pos: Some(old(self).spec_owner_ids(winner).len() as u64),
                        in_auction: false,
                        ..old(self).kitty_of(kid)
                    }),
                )
                &&& moved != kid ==> final (self).spec_kitty(moved) == Some(
                    (Kitty { owner_pos: Some(p as u64), ..old(self).kitty_of(moved) }),
                )
                &&& forall|id: u64|
                    id != kid && id != moved ==> final (self).spec_kitty(id) == old(
                        self,
                    ).spec_kitty(id)
                &&& final (self).spec_owner_ids(owner) == Self::ids_after_swap_remove(ids0, p)
                &&& final (self).spec_owner_ids(winner) == old(self).spec_owner_ids(winner).push(
                    kid,
                )
                &&& forall|w: u64|
                    w != owner && w != winner ==> final (self).spec_owner_ids(w) == old(
                        self,
                    ).spec_owner_ids(w)
                &&& final (self).bids == old(self).bids
                &&& forall|who: u64|
                    #[trigger] final (self).ledger.spec_reserved(who) == old(
                        self,
                    ).ledger.spec_reserved(who) - aid_bid_price(*old(self), auction_id, who)
                &&& forall|who: u64|
                    #[trigger] final (self).ledger.spec_free(who) == old(self).ledger.spec_free(
                        who,
                    ) + aid_bid_price(*old(self), auction_id, who) + (if who == owner {
                        price as int
                    } else {
                        0
                    }) - (if who == winner {
                        price as int
                    } else {
                        0
                    })
                &&& final (self).events@ == old(self).events@.push(
                    Event::AuctionTx(auction_id, kid, owner, winner),
                ).push(Event::AuctionClosed(auction_id))
                &&& final (self).nonce == old(self).nonce
                &&& final (self).now == old(self).now
                &&& final (self).seed == old(self).seed
            }),
            ({
                let a0 = old(self).auction_of(auction_id);
                old(self).has_auction(auction_id) && a0.status is Ongoing && old(self).now
                    >= a0.end_time && a0.topmost_bids@.len() == 0
            }) ==> ({
                let a0 = old(self).auction_of(auction_id);
                let kid = a0.kitty_id;
                &&& r == Ok::<(), AuctionError>(())
                &&& final (self).spec_auction(auction_id) matches Some(a2)
                    && a2 == (Auction {
                    status: AuctionStatus::Closed,
                    display_bids: a2.display_bids,
                    display_bids_last_update: old(self).now,
                    ..a0
                }) && a2.display_bids@ == a0.topmost_bids@
                &&& forall|w: u64|
                    w != auction_id ==> final (self).spec_auction(w) == old(self).spec_auction(w)
                &&& final (self).spec_kitty(kid) == Some(
                    (Kitty { in_auction: false, ..old(self).kitty_of(kid) }),
                )
                &&& forall|w: u64|
                    w != kid ==> final (self).spec_kitty(w) == old(self).spec_kitty(w)
                &&& final (self).owners == old(self).owners
                &&& final (self).bids == old(self).bids
                &&& forall|who: u64|
                    #[trigger] final (self).ledger.spec_reserved(who) == old(
                        self,
                    ).ledger.spec_reserved(who) - aid_bid_price(*old(self), auction_id, who)
                &&& forall|who: u64|
                    #[trigger] final (self).ledger.spec_free(who) == old(self).ledger.spec_free(
                        who,
                    ) + aid_bid_price(*old(self), auction_id, who)
                &&& final (self).events@ == old(self).events@.push(
                    Event::AuctionClosed(auction_id),
                )
                &&& final (self).nonce == old(self).nonce
                &&& final (self).now == old(self).now
                &&& final (self).seed == old(self).seed
            }),
    {
        let ai: usize = match self.find_auction_idx(auction_id) {
            Some(ai) => ai,
            None => {
                return Err(AuctionError::NotFound);
            },
        };
        match self.auctions[ai].status {
            AuctionStatus::Ongoing => {},
            _ => {
                return Ok(());
            },
        }
        if self.now < self.auctions[ai].end_time {
            return Err(AuctionError::InvalidState);
        }
        proof {
            assert(self.auction_record_wf(self.auctions@[ai as int]));
        }
        let kitty_id = self.auctions[ai].kitty_id;
        let ki: usize = match self.find_kitty_idx(kitty_id) {
            Some(ki) => ki,
            None => {
                proof {
                    assert(false);
                }
                0
            },
        };
        let owner: u64 = match self.kitties[ki].owner {
            Some(o) => o,
            None => {
                proof {
                    assert(false);
                }
                0
            },
        };
        let now = self.now;
        if self.auctions[ai].topmost_bids.len() > 0 {
            let wb_id = self.auctions[ai].topmost_bids[0];
            proof {
                assert(crate::state::leaderboard_entries_ok(
                    self.bids@,
                    self.auctions@[ai as int],
                ));
                assert(crate::state::bid_in(self.bids@, wb_id) is Some);
            }
            let wbi: usize = match self.find_bid_idx(wb_id) {
                Some(wbi) => wbi,
                None => {
                    proof {
                        assert(false);
                    }
                    0
                },
            };
            let winner = self.bids[wbi].bidder;
            let price = self.bids[wbi].price;
            proof {
                assert(self.bid_record_wf(self.bids@[wbi as int]));
                lemma_find_at(self.bids@, bid_key(), wbi as int);
                lemma_find_at(self.bids@, bid_pair_key(), wbi as int);
            }
            let of = self.ledger.free_balance(owner);
            let orv = self.ledger.reserved_balance(owner);
            proof {
                crate::ledger::lemma_wf_sum(self.ledger, owner);
            }
            if price > u64::MAX - of - orv {
                return Err(AuctionError::SettlementTransferFailed);
            }
            let ghost s0 = *self;
            proof {
                lemma_sum_elem(
                    self.bids@,
                    escrow_sel(self.auctions@, winner),
                    wbi as int,
                );
                assert(self.ledger.spec_reserved(winner) >= price);
            }
            // Settle the winning bid: release its escrow and pay the
            // seller.
            self.ledger.unreserve(winner, price);
            let ok = self.ledger.transfer(winner, owner, price);
            proof {
                assert(winner != owner);
                assert(ok);
            }
            // Release everyone else's escrow.
            proof {
                assert forall|who: u64| #[trigger] self.ledger.spec_reserved(who) >= sum_prices(
                    self.bids@,
                    released_sel(auction_id, Some(winner), who),
                ) by {
                    let sel_rel = released_sel(auction_id, Some(winner), who);
                    if who == winner {
                        assert forall|j: int|
                            0 <= j < s0.bids@.len() implies !sel_rel(s0.bids@[j]) by {}
                        lemma_sum_none(s0.bids@, sel_rel);
                    } else {
                        assert(self.ledger.spec_reserved(who) == s0.ledger.spec_reserved(who));
                        assert(s0.ledger.spec_reserved(who) == sum_prices(
                            s0.bids@,
                            escrow_sel(s0.auctions@, who),
                        ));
                        lemma_sum_le(s0.bids@, sel_rel, escrow_sel(s0.auctions@, who));
                    }
                }
            }
            self.release_bids(auction_id, Some(winner));
            let ghost s_rel = *self;
            // Close the record and refresh the displayed board.
            let snap = clone_ids(&self.auctions[ai].topmost_bids);
            proof {
                lemma_find_update(
                    self.auctions@,
                    auction_key(),
                    ai as int,
                    Auction {
                        status: AuctionStatus::Closed,
                        tx: Some(AuctionTx { tx_time: now, winner, tx_price: price }),
                        display_bids: snap,
                        display_bids_last_update: now,
                        ..self.auctions@[ai as int]
                    },
                );
            }
            self.auctions[ai].status = AuctionStatus::Closed;
            self.auctions[ai].tx = Some(AuctionTx { tx_time: now, winner, tx_price: price });
            self.auctions[ai].display_bids = snap;
            self.auctions[ai].display_bids_last_update = now;
            proof {
                let a2 = self.auctions@[ai as int];
                assert(self.auctions@ =~= s0.auctions@.update(ai as int, a2));
                assert forall|who: u64| #[trigger] self.ledger.spec_reserved(who)
                    == s0.ledger.spec_reserved(who) - (if who == winner {
                    price as int
                } else {
                    0
                }) - sum_prices(s0.bids@, released_sel(auction_id, Some(winner), who)) by {
                    if who == winner {
                        assert forall|j: int|
                            0 <= j < s0.bids@.len() implies !released_sel(
                            auction_id,
                            Some(winner),
                            who,
                        )(s0.bids@[j]) by {}
                        lemma_sum_none(s0.bids@, released_sel(auction_id, Some(winner), who));
                    }
                }
                self.lemma_close_winner_wf(s0, ai as int, ki as int, wbi as int, winner, price, owner, a2);
            }
            let ghost s_closed = *self;
            self.transfer_kitty_ownership(kitty_id, winner);
            self.events.push(Event::AuctionTx(auction_id, kitty_id, owner, winner));
            self.events.push(Event::AuctionClosed(auction_id));
            proof {
                let a0 = s0.auctions@[ai as int];
                let p = s0.kitty_of(kitty_id).owner_pos.unwrap() as int;
                let ids0 = s0.spec_owner_ids(owner);
                let moved = ids0.last();
                assert(self.spec_auction(auction_id) == s_closed.spec_auction(auction_id));
                assert(s_closed.kitty_of(kitty_id) == s0.kitty_of(kitty_id));
                assert(s_closed.spec_owner_ids(owner) == ids0);
                assert(s_closed.spec_owner_ids(winner) == s0.spec_owner_ids(winner));
                assert(self.spec_kitty(kitty_id) == Some(
                    (Kitty {
                        owner: Some(winner),
                        owner_pos: Some(s0.spec_owner_ids(winner).len() as u64),
                        in_auction: false,
                        ..s0.kitty_of(kitty_id)
                    }),
                ));
                assert(moved != kitty_id ==> s_closed.kitty_of(moved) == s0.kitty_of(moved));
                assert(self.spec_owner_ids(owner) == Self::ids_after_swap_remove(ids0, p));
                assert(self.spec_owner_ids(winner) == s0.spec_owner_ids(winner).push(kitty_id));
                assert forall|w: u64|
                    w != auction_id implies #[trigger] self.spec_auction(w) == s0.spec_auction(
                    w,
                ) by {
                    assert(find_by(s_closed.auctions@, auction_key(), w) == find_by(
                        s0.auctions@,
                        auction_key(),
                        w,
                    ));
                }
                assert forall|id: u64|
                    id != kitty_id && id != s0.spec_owner_ids(owner).last() implies #[trigger] self.spec_kitty(
                    id,
                ) == s0.spec_kitty(id) by {
                    assert(s_closed.spec_kitty(id) == s0.spec_kitty(id));
                }
                assert forall|w: u64|
                    w != owner && w != winner implies #[trigger] self.spec_owner_ids(w)
                    == s0.spec_owner_ids(w) by {
                    assert(s_closed.spec_owner_ids(w) == s0.spec_owner_ids(w));
                }
                assert forall|who: u64|
                    #[trigger] self.ledger.spec_reserved(who) == s0.ledger.spec_reserved(who)
                        - aid_bid_price(s0, auction_id, who) by {
                    if who == winner {
                        assert forall|j: int|
                            0 <= j < s0.bids@.len() implies !released_sel(
                            auction_id,
                            Some(winner),
                            who,
                        )(s0.bids@[j]) by {}
                        lemma_sum_none(s0.bids@, released_sel(auction_id, Some(winner), who));
                        assert(aid_bid_price(s0, auction_id, winner) == price);
                    } else {
                        Self::lemma_rel_sum_is_bid_price(s0, auction_id, Some(winner), who);
                    }
                }
                assert forall|who: u64|
                    #[trigger] self.ledger.spec_free(who) == s0.ledger.spec_free(who)
                        + aid_bid_price(s0, auction_id, who) + (if who == owner {
                        price as int
                    } else {
                        0
                    }) - (if who == winner {
                        price as int
                    } else {
                        0
                    }) by {
                    if who == winner {
                        assert forall|j: int|
                            0 <= j < s0.bids@.len() implies !released_sel(
                            auction_id,
                            Some(winner),
                            who,
                        )(s0.bids@[j]) by {}
                        lemma_sum_none(s0.bids@, released_sel(auction_id, Some(winner), who));
                        assert(aid_bid_price(s0, auction_id, winner) == price);
                    } else {
                        Self::lemma_rel_sum_is_bid_price(s0, auction_id, Some(winner), who);
                    }
                }
                assert(self.events@ =~= s0.events@.push(
                    Event::AuctionTx(auction_id, kitty_id, owner, winner),
                ).push(Event::AuctionClosed(auction_id)));
                assert(moved != kitty_id ==> self.spec_kitty(moved) == Some(
                    (Kitty { owner_pos: Some(p as u64), ..s0.kitty_of(moved) }),
                ));
            }
            Ok(())
        } else {
            let ghost s0 = *self;
            proof {
                assert forall|who: u64| #[trigger] self.ledger.spec_reserved(who) >= sum_prices(
                    self.bids@,
                    released_sel(auction_id, None, who),
                ) by {
                    assert(s0.ledger.spec_reserved(who) == sum_prices(
                        s0.bids@,
                        escrow_sel(s0.auctions@, who),
                    ));
                    lemma_sum_le(
                        s0.bids@,
                        released_sel(auction_id, None, who),
                        escrow_sel(s0.auctions@, who),
                    );
                }
            }
            self.release_bids(auction_id, None);
            let snap = clone_ids(&self.auctions[ai].topmost_bids);
            proof {
                lemma_find_update(
                    self.auctions@,
                    auction_key(),
                    ai as int,
                    Auction {
                        status: AuctionStatus::Closed,
                        display_bids: snap,
                        display_bids_last_update: now,
                        ..self.auctions@[ai as int]
                    },
                );
            }
            self.auctions[ai].status = AuctionStatus::Closed;
            self.auctions[ai].display_bids = snap;
            self.auctions[ai].display_bids_last_update = now;
            proof {
                lemma_find_update(
                    self.kitties@,
                    kitty_key(),
                    ki as int,
                    Kitty { in_auction: false, ..self.kitties@[ki as int] },
                );
            }
            self.kitties[ki].in_auction = false;
            self.events.push(Event::AuctionClosed(auction_id));
            proof {
                let a2 = self.auctions@[ai as int];
                assert(self.auctions@ =~= s0.auctions@.update(ai as int, a2));
                assert(self.kitties@ =~= s0.kitties@.update(
                    ki as int,
                    Kitty { in_auction: false, ..s0.kitties@[ki as int] },
                ));
                self.lemma_close_nobids_wf(s0, ai as int, ki as int, a2);
                assert forall|w: u64|
                    w != auction_id implies #[trigger] self.spec_auction(w) == s0.spec_auction(
                    w,
                ) by {
                    assert(find_by(self.auctions@, auction_key(), w) == find_by(
                        s0.auctions@,
                        auction_key(),
                        w,
                    ));
                }
                assert forall|w: u64|
                    w != kitty_id implies #[trigger] self.spec_kitty(w) == s0.spec_kitty(w) by {
                    assert(find_by(self.kitties@, kitty_key(), w) == find_by(
                        s0.kitties@,
                        kitty_key(),
                        w,
                    ));
                }
                assert forall|who: u64|
                    #[trigger] self.ledger.spec_reserved(who) == s0.ledger.spec_reserved(who)
                        - aid_bid_price(s0, auction_id, who) by {
                    Self::lemma_rel_sum_is_bid_price(s0, auction_id, None, who);
                }
                assert forall|who: u64|
                    #[trigger] self.ledger.spec_free(who) == s0.ledger.spec_free(who)
                        + aid_bid_price(s0, auction_id, who) by {
                    Self::lemma_rel_sum_is_bid_price(s0, auction_id, None, who);
                }
                assert(self.events@ =~= s0.events@.push(Event::AuctionClosed(auction_id)));
            }
            Ok(())
        }
    }

    /// After the funds have moved -- the winner's escrow settled to the
    /// seller, every other bid's escrow released -- and the auction
    /// record closed, everything holds again except that the kitty is
    /// still marked; ownership transfer clears it next.
    proof fn lemma_close_winner_wf(
        self,
        s0: CatAuction,
        ai: int,
        ki: int,
        wbi: int,
        winner: u64,
        price: u64,
        owner: u64,
        a2: Auction,
    )
        requires
            s0.wf(),
            0 <= ai < s0.auctions@.len(),
            s0.auctions@[ai].status is Ongoing,
            0 <= ki < s0.kitties@.len(),
            s0.kitties@[ki].id == s0.auctions@[ai].kitty_id,
            s0.kitties@[ki].owner == Some(owner),
            s0.auctions@[ai].topmost_bids@.len() > 0,
            0 <= wbi < s0.bids@.len(),
            s0.bids@[wbi].id == s0.auctions@[ai].topmost_bids@[0],
            winner == s0.bids@[wbi].bidder,
            price == s0.bids@[wbi].price,
            a2 == (Auction {
                status: AuctionStatus::Closed,
                tx: a2.tx,
                display_bids: a2.display_bids,
                display_bids_last_update: a2.display_bids_last_update,
                ..s0.auctions@[ai]
            }),
            self.auctions@ == s0.auctions@.update(ai, a2),
            self.kitties@ == s0.kitties@,
            self.owners@ == s0.owners@,
            self.bids@ == s0.bids@,
            self.ledger.wf(),
            forall|who: u64|
                #[trigger] self.ledger.spec_reserved(who) == s0.ledger.spec_reserved(who) - (
                if who == winner {
                    price as int
                } else {
                    0
                }) - sum_prices(
                    s0.bids@,
                    released_sel(s0.auctions@[ai].id, Some(winner), who),
                ),
        ensures
            self.wf_except_kitty_flag(s0.auctions@[ai].kitty_id),
            winner != owner,
            self.has_kitty(s0.auctions@[ai].kitty_id),
            self.kitty_of(s0.auctions@[ai].kitty_id).owner == Some(owner),
            forall|x: int|
                0 <= x < self.auctions@.len() && (#[trigger] self.auctions@[x]).status is Ongoing
                    ==> self.auctions@[x].kitty_id != s0.auctions@[ai].kitty_id,
    {
        let a0 = s0.auctions@[ai];
        let aid = a0.id;
        let kid = a0.kitty_id;
        let wb = s0.bids@[wbi];
        lemma_find_at(s0.auctions@, auction_key(), ai);
        lemma_find_update(s0.auctions@, auction_key(), ai, a2);
        lemma_find_at(s0.kitties@, kitty_key(), ki);
        lemma_find_at(s0.bids@, bid_key(), wbi);
        assert(crate::state::auction_record_ok(s0.kitties@, s0.bids@, a0));
        assert(crate::state::bid_in(s0.bids@, a0.topmost_bids@[0]) is Some);
        assert(crate::state::bid_in(s0.bids@, wb.id) == Some(wb));
        assert(wb.auction_id == aid);
        assert(crate::state::bid_record_ok(s0.kitties@, s0.auctions@, wb));
        assert(winner != owner);
        // Auction records.
        assert forall|x: int|
            0 <= x < self.auctions@.len() implies #[trigger] crate::state::auction_record_ok(
            self.kitties@,
            self.bids@,
            self.auctions@[x],
        ) by {
            if x == ai {
                assert(crate::state::leaderboard_entries_ok(s0.bids@, a0));
                assert(a2.topmost_bids@ == a0.topmost_bids@);
                assert(crate::state::leaderboard_entries_ok(self.bids@, a2));
                assert(crate::state::leaderboard_sorted_ok(self.bids@, a2));
            } else {
                assert(crate::state::auction_record_ok(s0.kitties@, s0.bids@, s0.auctions@[x]));
            }
        }
        // Kitties still marked point at their ongoing auctions, except
        // this one.
        assert forall|i: int|
            0 <= i < self.kitties@.len() && (#[trigger] self.kitties@[i]).in_auction
                && self.kitties@[i].id != kid implies exists|j: int|
            0 <= j < self.auctions@.len() && (#[trigger] self.auctions@[j]).status is Ongoing
                && self.auctions@[j].kitty_id == self.kitties@[i].id by {
            assert(s0.kitties@[i].in_auction);
            let j = choose|j: int|
                0 <= j < s0.auctions@.len() && (#[trigger] s0.auctions@[j]).status is Ongoing
                    && s0.auctions@[j].kitty_id == s0.kitties@[i].id;
            assert(j != ai);
            assert((self.auctions@[j]).status is Ongoing);
        }
        // Bid records.
        assert forall|i: int|
            0 <= i < self.bids@.len() implies #[trigger] crate::state::bid_record_ok(
            self.kitties@,
            self.auctions@,
            self.bids@[i],
        ) by {
            let b = self.bids@[i];
            assert(crate::state::bid_record_ok(s0.kitties@, s0.auctions@, b));
            if b.auction_id != aid {
                assert(find_by(self.auctions@, auction_key(), b.auction_id) == find_by(
                    s0.auctions@,
                    auction_key(),
                    b.auction_id,
                ));
            }
        }
        // Escrow: every account's reserve matches the bids that remain
        // on ongoing auctions.
        assert forall|who: u64| #[trigger] self.ledger.spec_reserved(who) == sum_prices(
            self.bids@,
            escrow_sel(self.auctions@, who),
        ) by {
            let sel_old = escrow_sel(s0.auctions@, who);
            let sel_new = escrow_sel(self.auctions@, who);
            let sel_rel = released_sel(aid, Some(winner), who);
            assert(s0.ledger.spec_reserved(who) == sum_prices(s0.bids@, sel_old));
            assert forall|j: int|
                0 <= j < s0.bids@.len() && s0.bids@[j].auction_id != aid implies sel_old(
                s0.bids@[j],
            ) == sel_new(s0.bids@[j]) by {
                assert(find_by(self.auctions@, auction_key(), s0.bids@[j].auction_id) == find_by(
                    s0.auctions@,
                    auction_key(),
                    s0.bids@[j].auction_id,
                ));
            }
            assert(crate::state::auction_ongoing(s0.auctions@, aid));
            assert(!crate::state::auction_ongoing(self.auctions@, aid));
            if who == winner {
                assert forall|j: int| 0 <= j < s0.bids@.len() implies !sel_rel(s0.bids@[j]) by {}
                lemma_sum_none(s0.bids@, sel_rel);
                assert forall|j: int|
                    0 <= j < s0.bids@.len() && j != wbi implies sel_old(s0.bids@[j]) == sel_new(
                    s0.bids@[j],
                ) by {
                    if s0.bids@[j].auction_id == aid && s0.bids@[j].bidder == winner {
                        assert(bid_pair_key()(s0.bids@[j]) == bid_pair_key()(s0.bids@[wbi]));
                    }
                }
                lemma_sum_except_one(s0.bids@, sel_old, sel_new, wbi);
            } else {
                if exists|j: int|
                    0 <= j < s0.bids@.len() && s0.bids@[j].auction_id == aid && s0.bids@[j].bidder
                        == who {
                    let j = choose|j: int|
                        0 <= j < s0.bids@.len() && s0.bids@[j].auction_id == aid
                            && s0.bids@[j].bidder == who;
                    assert forall|k: int|
                        0 <= k < s0.bids@.len() && k != j implies !sel_rel(s0.bids@[k]) by {
                        if sel_rel(s0.bids@[k]) {
                            assert(bid_pair_key()(s0.bids@[k]) == bid_pair_key()(s0.bids@[j]));
                        }
                    }
                    lemma_sum_single(s0.bids@, sel_rel, j);
                    assert forall|k: int|
                        0 <= k < s0.bids@.len() && k != j implies sel_old(s0.bids@[k]) == sel_new(
                        s0.bids@[k],
                    ) by {
                        if s0.bids@[k].auction_id == aid && s0.bids@[k].bidder == who {
                            assert(bid_pair_key()(s0.bids@[k]) == bid_pair_key()(s0.bids@[j]));
                        }
                    }
                    lemma_sum_except_one(s0.bids@, sel_old, sel_new, j);
                } else {
                    lemma_sum_none(s0.bids@, sel_rel);
                    lemma_sum_pointwise(s0.bids@, sel_old, sel_new);
                }
            }
        }
        // No ongoing auction references the kitty any more.
        assert forall|x: int|
            0 <= x < self.auctions@.len() && (#[trigger] self.auctions@[x]).status is Ongoing implies self.auctions@[x].kitty_id
            != kid by {
            if x != ai {
                assert(s0.auctions@[x].status is Ongoing);
                assert(s0.auctions@[ai].status is Ongoing);
            }
        }
    }

    /// After releasing every bid's escrow, closing the record and
    /// clearing the kitty's flag, an auction that never admitted a bid
    /// settles to a well-formed state with ownership unchanged.
    proof fn lemma_close_nobids_wf(self, s0: CatAuction, ai: int, ki: int, a2: Auction)
        requires
            s0.wf(),
            0 <= ai < s0.auctions@.len(),
            s0.auctions@[ai].status is Ongoing,
            0 <= ki < s0.kitties@.len(),
            s0.kitties@[ki].id == s0.auctions@[ai].kitty_id,
            a2 == (Auction {
                status: AuctionStatus::Closed,
                display_bids: a2.display_bids,
                display_bids_last_update: a2.display_bids_last_update,
                ..s0.auctions@[ai]
            }),
            self.auctions@ == s0.auctions@.update(ai, a2),
            self.kitties@ == s0.kitties@.update(
                ki,
                Kitty { in_auction: false, ..s0.kitties@[ki] },
            ),
            self.owners@ == s0.owners@,
            self.bids@ == s0.bids@,
            self.ledger.wf(),
            forall|who: u64|
                #[trigger] self.ledger.spec_reserved(who) == s0.ledger.spec_reserved(who)
                    - sum_prices(s0.bids@, released_sel(s0.auctions@[ai].id, None, who)),
        ensures
            self.wf(),
    {
        let a0 = s0.auctions@[ai];
        let aid = a0.id;
        let k0 = s0.kitties@[ki];
        let k2 = Kitty { in_auction: false, ..k0 };
        lemma_find_at(s0.auctions@, auction_key(), ai);
        lemma_find_update(s0.auctions@, auction_key(), ai, a2);
        lemma_find_at(s0.kitties@, kitty_key(), ki);
        lemma_find_update(s0.kitties@, kitty_key(), ki, k2);
        assert(crate::state::auction_record_ok(s0.kitties@, s0.bids@, a0));
        assert forall|i: int|
            0 <= i < self.kitties@.len() implies #[trigger] crate::state::kitty_record_ok(
            self.owners@,
            self.kitties@[i],
        ) by {
            assert(crate::state::kitty_record_ok(s0.owners@, s0.kitties@[i]));
        }
        assert forall|j: int, p: int|
            0 <= j < self.owners@.len() && 0 <= p
                < self.owners@[j].kitty_ids@.len() implies #[trigger] crate::state::owner_slot_ok(
            self.kitties@,
            self.owners@[j].owner,
            p,
            self.owners@[j].kitty_ids@[p],
        ) by {
            let id = self.owners@[j].kitty_ids@[p];
            assert(crate::state::owner_slot_ok(s0.kitties@, s0.owners@[j].owner, p, id));
            if id != k0.id {
                assert(find_by(self.kitties@, kitty_key(), id) == find_by(
                    s0.kitties@,
                    kitty_key(),
                    id,
                ));
            }
        }
        assert forall|x: int|
            0 <= x < self.auctions@.len() implies #[trigger] crate::state::auction_record_ok(
            self.kitties@,
            self.bids@,
            self.auctions@[x],
        ) by {
            let a = self.auctions@[x];
            if x == ai {
                assert(crate::state::leaderboard_entries_ok(s0.bids@, a0));
                assert(a2.topmost_bids@ == a0.topmost_bids@);
                assert(crate::state::leaderboard_entries_ok(self.bids@, a2));
                assert(crate::state::leaderboard_sorted_ok(self.bids@, a2));
            } else {
                assert(a == s0.auctions@[x]);
                assert(crate::state::auction_record_ok(s0.kitties@, s0.bids@, a));
                if a.kitty_id == k0.id {
                    if a.status is Ongoing {
                        assert(false);
                    }
                } else {
                    assert(find_by(self.kitties@, kitty_key(), a.kitty_id) == find_by(
                        s0.kitties@,
                        kitty_key(),
                        a.kitty_id,
                    ));
                }
            }
        }
        assert forall|i: int|
            0 <= i < self.kitties@.len() && (#[trigger] self.kitties@[i]).in_auction implies exists|j: int|
            0 <= j < self.auctions@.len() && (#[trigger] self.auctions@[j]).status is Ongoing
                && self.auctions@[j].kitty_id == self.kitties@[i].id by {
            assert(i != ki);
            assert(s0.kitties@[i].in_auction);
            let j = choose|j: int|
                0 <= j < s0.auctions@.len() && (#[trigger] s0.auctions@[j]).status is Ongoing
                    && s0.auctions@[j].kitty_id == s0.kitties@[i].id;
            assert(j != ai);
            assert((self.auctions@[j]).status is Ongoing);
        }
        assert forall|i: int|
            0 <= i < self.bids@.len() implies #[trigger] crate::state::bid_record_ok(
            self.kitties@,
            self.auctions@,
            self.bids@[i],
        ) by {
            let b = self.bids@[i];
            assert(crate::state::bid_record_ok(s0.kitties@, s0.auctions@, b));
            if b.auction_id != aid {
                assert(find_by(self.auctions@, auction_key(), b.auction_id) == find_by(
                    s0.auctions@,
                    auction_key(),
                    b.auction_id,
                ));
                let a = find_by(s0.auctions@, auction_key(), b.auction_id).unwrap();
                if a.status is Ongoing {
                    lemma_find_exists(s0.auctions@, auction_key(), b.auction_id);
                    let aj = choose|aj: int|
                        0 <= aj < s0.auctions@.len() && s0.auctions@[aj] == find_by(
                            s0.auctions@,
                            auction_key(),
                            b.auction_id,
                        ).unwrap() && auction_key()(s0.auctions@[aj]) == b.auction_id;
                    assert(crate::state::auction_record_ok(
                        s0.kitties@,
                        s0.bids@,
                        s0.auctions@[aj],
                    ));
                    if a.kitty_id == k0.id {
                        assert(aj != ai);
                        assert(false);
                    } else {
                        assert(find_by(self.kitties@, kitty_key(), a.kitty_id) == find_by(
                            s0.kitties@,
                            kitty_key(),
                            a.kitty_id,
                        ));
                    }
                }
            }
        }
        assert forall|who: u64| #[trigger] self.ledger.spec_reserved(who) == sum_prices(
            self.bids@,
            escrow_sel(self.auctions@, who),
        ) by {
            let sel_old = escrow_sel(s0.auctions@, who);
            let sel_new = escrow_sel(self.auctions@, who);
            let sel_rel = released_sel(aid, None, who);
            assert(s0.ledger.spec_reserved(who) == sum_prices(s0.bids@, sel_old));
            assert forall|j: int|
                0 <= j < s0.bids@.len() && s0.bids@[j].auction_id != aid implies sel_old(
                s0.bids@[j],
            ) == sel_new(s0.bids@[j]) by {
                assert(find_by(self.auctions@, auction_key(), s0.bids@[j].auction_id) == find_by(
                    s0.auctions@,
                    auction_key(),
                    s0.bids@[j].auction_id,
                ));
            }
            assert(crate::state::auction_ongoing(s0.auctions@, aid));
            assert(!crate::state::auction_ongoing(self.auctions@, aid));
            if exists|j: int|
                0 <= j < s0.bids@.len() && s0.bids@[j].auction_id == aid && s0.bids@[j].bidder
                    == who {
                let j = choose|j: int|
                    0 <= j < s0.bids@.len() && s0.bids@[j].auction_id == aid && s0.bids@[j].bidder
                        == who;
                assert forall|k: int|
                    0 <= k < s0.bids@.len() && k != j implies !sel_rel(s0.bids@[k]) by {
                    if sel_rel(s0.bids@[k]) {
                        assert(bid_pair_key()(s0.bids@[k]) == bid_pair_key()(s0.bids@[j]));
                    }
                }
                lemma_sum_single(s0.bids@, sel_rel, j);
                assert forall|k: int|
                    0 <= k < s0.bids@.len() && k != j implies sel_old(s0.bids@[k]) == sel_new(
                    s0.bids@[k],
                ) by {
                    if s0.bids@[k].auction_id == aid && s0.bids@[k].bidder == who {
                        assert(bid_pair_key()(s0.bids@[k]) == bid_pair_key()(s0.bids@[j]));
                    }
                }
                lemma_sum_except_one(s0.bids@, sel_old, sel_new, j);
            } else {
                lemma_sum_none(s0.bids@, sel_rel);
                lemma_sum_pointwise(s0.bids@, sel_old, sel_new);
            }
        }
    }
}

} // verus!
