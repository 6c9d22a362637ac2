//! The engine's standing laws, stated on their own so a reader can see
//! what every reachable state guarantees.  Each follows from `wf`, which
//! every operation requires and preserves.

use vstd::prelude::*;

use crate::escrow::sum_prices;
use crate::lookup::{find_by, lemma_find_exists};
use crate::settle::{aid_bid_price, released_sel};
use crate::state::{auction_key, auction_ongoing, kitty_key, owner_key, price_in, CatAuction};
use crate::TOPMOST_BIDS_LEN;

verus! {

/// Owner-index density: every owned kitty's stored position lies inside
/// its owner's index and that slot names the kitty back; conversely,
/// every slot of every owner's index -- with no gaps, from slot zero to
/// the owner's count -- names a registered kitty that points straight
/// back at the slot.
pub proof fn lemma_owner_index_dense(s: CatAuction)
    requires
        s.wf(),
    ensures
        forall|id: u64|
            #![trigger s.spec_kitty(id)]
            s.has_kitty(id) && s.kitty_of(id).owner is Some ==> (s.kitty_of(
                id,
            ).owner_pos.unwrap() as int) < s.spec_owner_ids(s.kitty_of(id).owner.unwrap()).len()
                && s.spec_owner_ids(s.kitty_of(id).owner.unwrap())[s.kitty_of(
                id,
            ).owner_pos.unwrap() as int] == id,
        forall|o: u64, p: int|
            #![trigger s.spec_owner_ids(o)[p]]
            0 <= p < s.spec_owner_ids(o).len() ==> s.has_kitty(s.spec_owner_ids(o)[p])
                && s.kitty_of(s.spec_owner_ids(o)[p]).owner == Some(o) && s.kitty_of(
                s.spec_owner_ids(o)[p],
            ).owner_pos == Some(p as u64),
{
    assert forall|id: u64|
        #![trigger s.spec_kitty(id)]
        s.has_kitty(id) && s.kitty_of(id).owner is Some implies (s.kitty_of(
        id,
    ).owner_pos.unwrap() as int) < s.spec_owner_ids(s.kitty_of(id).owner.unwrap()).len()
        && s.spec_owner_ids(s.kitty_of(id).owner.unwrap())[s.kitty_of(
        id,
    ).owner_pos.unwrap() as int] == id by {
        if s.spec_kitty(id) is Some {
            lemma_find_exists(s.kitties@, kitty_key(), id);
            let i = choose|i: int|
                0 <= i < s.kitties@.len() && s.kitties@[i] == find_by(
                    s.kitties@,
                    kitty_key(),
                    id,
                ).unwrap() && kitty_key()(s.kitties@[i]) == id;
            assert(crate::state::kitty_record_ok(s.owners@, s.kitties@[i]));
        }
    }
    assert forall|o: u64, p: int|
        #![trigger s.spec_owner_ids(o)[p]]
        0 <= p < s.spec_owner_ids(o).len() implies s.has_kitty(s.spec_owner_ids(o)[p])
        && s.kitty_of(s.spec_owner_ids(o)[p]).owner == Some(o) && s.kitty_of(
        s.spec_owner_ids(o)[p],
    ).owner_pos == Some(p as u64) by {
        assert(find_by(s.owners@, owner_key(), o) is Some);
        lemma_find_exists(s.owners@, owner_key(), o);
        let j = choose|j: int|
            0 <= j < s.owners@.len() && s.owners@[j] == find_by(
                s.owners@,
                owner_key(),
                o,
            ).unwrap() && owner_key()(s.owners@[j]) == o;
        assert(crate::state::owner_slot_ok(
            s.kitties@,
            s.owners@[j].owner,
            p,
            s.owners@[j].kitty_ids@[p],
        ));
    }
}

/// Leaderboard shape: an auction's board never exceeds its capacity,
/// lists distinct recorded bids of that auction only, and is sorted by
/// descending bid price.
pub proof fn lemma_leaderboard_bounded_sorted(s: CatAuction, aid: u64)
    requires
        s.wf(),
        s.has_auction(aid),
    ensures
        s.auction_of(aid).topmost_bids@.len() <= TOPMOST_BIDS_LEN as int,
        forall|i: int, j: int|
            0 <= i < j < s.auction_of(aid).topmost_bids@.len() ==> s.auction_of(
                aid,
            ).topmost_bids@[i] != s.auction_of(aid).topmost_bids@[j],
        forall|i: int|
            #![trigger s.auction_of(aid).topmost_bids@[i]]
            0 <= i < s.auction_of(aid).topmost_bids@.len() ==> s.has_bid(
                s.auction_of(aid).topmost_bids@[i],
            ) && s.bid_of(s.auction_of(aid).topmost_bids@[i]).auction_id == aid,
        forall|i: int, j: int|
            0 <= i < j < s.auction_of(aid).topmost_bids@.len() ==> #[trigger] price_in(
                s.bids@,
                s.auction_of(aid).topmost_bids@[i],
            ) >= #[trigger] price_in(s.bids@, s.auction_of(aid).topmost_bids@[j]),
{
    lemma_find_exists(s.auctions@, auction_key(), aid);
    let i = choose|i: int|
        0 <= i < s.auctions@.len() && s.auctions@[i] == find_by(
            s.auctions@,
            auction_key(),
            aid,
        ).unwrap() && auction_key()(s.auctions@[i]) == aid;
    assert(crate::state::auction_record_ok(s.kitties@, s.bids@, s.auctions@[i]));
    assert forall|k: int|
        #![trigger s.auction_of(aid).topmost_bids@[k]]
        0 <= k < s.auction_of(aid).topmost_bids@.len() implies s.has_bid(
        s.auction_of(aid).topmost_bids@[k],
    ) && s.bid_of(s.auction_of(aid).topmost_bids@[k]).auction_id == aid by {
        assert(crate::state::bid_in(s.bids@, s.auctions@[i].topmost_bids@[k]) is Some);
    }
}

/// Escrow accounting: a bidder's reserved balance equals the summed
/// prices of their bids on ongoing auctions; the part attributable to
/// any one auction is exactly the price of their current bid there, so
/// a raise never double-reserves and a missing bid holds nothing.
pub proof fn lemma_escrow_accounting(s: CatAuction, aid: u64, who: u64)
    requires
        s.wf(),
    ensures
        s.ledger.spec_reserved(who) == s.spec_escrow(who),
        sum_prices(s.bids@, released_sel(aid, None, who)) == aid_bid_price(s, aid, who),
        s.spec_bidder_bid(aid, who) is Some && auction_ongoing(s.auctions@, aid)
            ==> s.ledger.spec_reserved(who) >= s.spec_bidder_bid(aid, who).unwrap().price,
{
    CatAuction::lemma_rel_sum_is_bid_price(s, aid, None, who);
    if s.spec_bidder_bid(aid, who) is Some && auction_ongoing(s.auctions@, aid) {
        lemma_find_exists(s.bids@, crate::state::bid_pair_key(), (aid, who));
        let j = choose|j: int|
            0 <= j < s.bids@.len() && s.bids@[j] == find_by(
                s.bids@,
                crate::state::bid_pair_key(),
                (aid, who),
            ).unwrap() && crate::state::bid_pair_key()(s.bids@[j]) == (aid, who);
        crate::escrow::lemma_sum_elem(s.bids@, crate::state::escrow_sel(s.auctions@, who), j);
    }
}

} // verus!
