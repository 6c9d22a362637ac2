//! The auction lifecycle scenario by scenario: one bid, a full
//! leaderboard, settlement, a bid-free close, and the owner exclusion.

use cat_auction::state::CatAuction;
use cat_auction::types::{AuctionError, AuctionStatus, Event};
use cat_auction::AUCTION_MIN_DURATION;

const A: u64 = 1;
const B: u64 = 2;
const C: u64 = 3;
const D: u64 = 4;
const E: u64 = 5;

const BASE: u64 = 100;
const FUNDS: u64 = 1000;

/// Asset "X" registered for A and put up for auction at base price 100.
fn auction_setup() -> (CatAuction, u64, u64, u64) {
    let mut e = CatAuction::new(7);
    for who in [A, B, C, D, E] {
        e.set_free_balance(who, FUNDS);
    }
    e.create_kitty(A, b"X".to_vec()).unwrap();
    let kitty_id = e.kitty_array(0).unwrap();
    let end_time = e.now + AUCTION_MIN_DURATION + 10;
    e.start_auction(A, kitty_id, end_time, BASE).unwrap();
    let auction_id = e.auction_array(0).unwrap();
    (e, kitty_id, auction_id, end_time)
}

#[test]
fn single_bid_keeps_threshold_and_close_needs_expiry() {
    let (mut e, _kitty_id, auction_id, _end) = auction_setup();

    assert_eq!(e.bid(B, auction_id, 100), Ok(()));

    // NewBid emitted
    assert!(matches!(
        e.events.last().unwrap(),
        Event::NewBid(aid, price) if *aid == auction_id && *price == 100
    ));

    // B's escrow is the full bid price
    assert_eq!(e.reserved_balance(B), 100);
    assert_eq!(e.free_balance(B), FUNDS - 100);

    // leaderboard = [B:100], threshold stays at the base price
    let auction = e.auctions(auction_id).unwrap();
    assert_eq!(auction.topmost_bids.len(), 1);
    let entry = e.bids(auction.topmost_bids[0]).unwrap();
    assert_eq!(entry.bidder, B);
    assert_eq!(entry.price, 100);
    assert_eq!(auction.price_to_topmost, BASE);

    // closing before expiry fails and changes nothing
    assert_eq!(e.close_auction_and_tx(auction_id), Err(AuctionError::InvalidState));
    let auction = e.auctions(auction_id).unwrap();
    assert_eq!(auction.status, AuctionStatus::Ongoing);
    assert_eq!(e.reserved_balance(B), 100);
}

#[test]
fn full_leaderboard_ranks_and_recomputes_threshold() {
    let (mut e, _kitty_id, auction_id, _end) = auction_setup();

    assert_eq!(e.bid(B, auction_id, 100), Ok(()));
    assert_eq!(e.bid(C, auction_id, 150), Ok(()));
    assert_eq!(e.bid(D, auction_id, 120), Ok(()));

    // leaderboard = [C:150, D:120, B:100]; with the board just full,
    // the threshold becomes (price of 3rd entry) + 1 = 101
    let auction = e.auctions(auction_id).unwrap();
    let prices: Vec<(u64, u64)> = auction
        .topmost_bids
        .iter()
        .map(|id| {
            let b = e.bids(*id).unwrap();
            (b.bidder, b.price)
        })
        .collect();
    assert_eq!(prices, vec![(C, 150), (D, 120), (B, 100)]);
    assert_eq!(auction.price_to_topmost, 101);

    // a bid of 101 from E reaches the threshold exactly, so it enters
    // the board, displacing B, and the threshold moves to 102
    assert_eq!(e.bid(E, auction_id, 101), Ok(()));
    let auction = e.auctions(auction_id).unwrap();
    let prices: Vec<(u64, u64)> = auction
        .topmost_bids
        .iter()
        .map(|id| {
            let b = e.bids(*id).unwrap();
            (b.bidder, b.price)
        })
        .collect();
    assert_eq!(prices, vec![(C, 150), (D, 120), (E, 101)]);
    assert_eq!(auction.price_to_topmost, 102);

    // B's displaced bid still holds its escrow until settlement
    assert_eq!(e.reserved_balance(B), 100);
}

#[test]
fn settlement_pays_seller_moves_kitty_and_releases_escrow() {
    let (mut e, kitty_id, auction_id, end_time) = auction_setup();

    assert_eq!(e.bid(B, auction_id, 100), Ok(()));
    assert_eq!(e.bid(C, auction_id, 150), Ok(()));
    assert_eq!(e.bid(D, auction_id, 120), Ok(()));

    e.set_timestamp(end_time);
    assert_eq!(e.close_auction_and_tx(auction_id), Ok(()));

    // winner C's escrow of 150 is released and transferred to A
    assert_eq!(e.reserved_balance(C), 0);
    assert_eq!(e.free_balance(C), FUNDS - 150);
    assert_eq!(e.free_balance(A), FUNDS + 150);

    // B's and D's escrow fully released
    assert_eq!(e.reserved_balance(B), 0);
    assert_eq!(e.free_balance(B), FUNDS);
    assert_eq!(e.reserved_balance(D), 0);
    assert_eq!(e.free_balance(D), FUNDS);

    // ownership transfers to C, the auction flag clears
    let kitty = e.kitties(kitty_id).unwrap();
    assert_eq!(kitty.owner, Some(C));
    assert!(!kitty.in_auction);
    assert_eq!(e.owner_kitties_count(A), 0);
    assert_eq!(e.owner_kitties_count(C), 1);

    // the auction is closed with a settlement record {winner: C, 150}
    let auction = e.auctions(auction_id).unwrap();
    assert_eq!(auction.status, AuctionStatus::Closed);
    let tx = auction.tx.unwrap();
    assert_eq!(tx.winner, C);
    assert_eq!(tx.tx_price, 150);
    assert_eq!(tx.tx_time, end_time);

    // a settlement notification precedes the closure notification
    let n = e.events.len();
    assert!(matches!(
        e.events[n - 2],
        Event::AuctionTx(aid, kid, from, to)
            if aid == auction_id && kid == kitty_id && from == A && to == C
    ));
    assert!(matches!(e.events[n - 1], Event::AuctionClosed(aid) if aid == auction_id));
}

#[test]
fn close_without_bids_leaves_ownership_and_funds() {
    let (mut e, kitty_id, auction_id, end_time) = auction_setup();

    e.set_timestamp(end_time);
    assert_eq!(e.close_auction_and_tx(auction_id), Ok(()));

    // no settlement record, flag cleared, ownership unchanged
    let auction = e.auctions(auction_id).unwrap();
    assert_eq!(auction.status, AuctionStatus::Closed);
    assert!(auction.tx.is_none());
    let kitty = e.kitties(kitty_id).unwrap();
    assert!(!kitty.in_auction);
    assert_eq!(kitty.owner, Some(A));

    // no fund movement
    for who in [A, B, C, D, E] {
        assert_eq!(e.free_balance(who), FUNDS);
        assert_eq!(e.reserved_balance(who), 0);
    }
}

#[test]
fn owner_cannot_bid_on_own_auction() {
    let (mut e, _kitty_id, auction_id, _end) = auction_setup();

    let events_before = e.events.len();
    assert_eq!(e.bid(A, auction_id, 100), Err(AuctionError::Unauthorized));

    // no escrow change, no notification
    assert_eq!(e.reserved_balance(A), 0);
    assert_eq!(e.free_balance(A), FUNDS);
    assert_eq!(e.events.len(), events_before);
}

#[test]
fn closing_twice_changes_nothing_more() {
    let (mut e, _kitty_id, auction_id, end_time) = auction_setup();

    assert_eq!(e.bid(B, auction_id, 120), Ok(()));
    e.set_timestamp(end_time);
    assert_eq!(e.close_auction_and_tx(auction_id), Ok(()));

    let events_after_first = e.events.len();
    let free_a = e.free_balance(A);
    let free_b = e.free_balance(B);

    // the second close is a no-op success: same state, no new effects
    assert_eq!(e.close_auction_and_tx(auction_id), Ok(()));
    assert_eq!(e.events.len(), events_after_first);
    assert_eq!(e.free_balance(A), free_a);
    assert_eq!(e.free_balance(B), free_b);
    let auction = e.auctions(auction_id).unwrap();
    assert_eq!(auction.status, AuctionStatus::Closed);
    assert_eq!(auction.tx.unwrap().winner, B);
}

#[test]
fn raising_a_bid_escrows_only_the_difference() {
    let (mut e, _kitty_id, auction_id, _end) = auction_setup();

    assert_eq!(e.bid(B, auction_id, 100), Ok(()));
    assert_eq!(e.reserved_balance(B), 100);

    // a raise must strictly exceed the previous price
    assert_eq!(e.bid(B, auction_id, 100), Err(AuctionError::BidTooLow));
    assert_eq!(e.bid(B, auction_id, 90), Err(AuctionError::BidTooLow));

    // raising to 120 escrows 20 more, never 220
    assert_eq!(e.bid(B, auction_id, 120), Ok(()));
    assert_eq!(e.reserved_balance(B), 120);
    assert_eq!(e.free_balance(B), FUNDS - 120);

    // the bid record was updated in place: same id, new price
    let bid_id = e.auction_bidder_bids((auction_id, B)).unwrap();
    let bid = e.bids(bid_id).unwrap();
    assert_eq!(bid.price, 120);
    assert_eq!(e.auction_bids_count(auction_id), 1);
}

#[test]
fn swap_with_last_compacts_owner_index() {
    let mut e = CatAuction::new(11);
    for who in [A, B] {
        e.set_free_balance(who, FUNDS);
    }
    e.create_kitty(A, b"first".to_vec()).unwrap();
    e.create_kitty(A, b"second".to_vec()).unwrap();
    let first = e.kitty_array(0).unwrap();
    let second = e.kitty_array(1).unwrap();

    // auction the kitty in slot 0; when it leaves, the last-listed
    // kitty must move into the vacated slot
    let end_time = e.now + AUCTION_MIN_DURATION + 10;
    e.start_auction(A, first, end_time, BASE).unwrap();
    let auction_id = e.auction_array(0).unwrap();
    e.bid(B, auction_id, BASE).unwrap();
    e.set_timestamp(end_time);
    e.close_auction_and_tx(auction_id).unwrap();

    assert_eq!(e.owner_kitties_count(A), 1);
    assert_eq!(e.owner_kitties((A, 0)).unwrap(), second);
    assert_eq!(e.kitties(second).unwrap().owner_pos, Some(0));
    assert_eq!(e.owner_kitties_count(B), 1);
    assert_eq!(e.owner_kitties((B, 0)).unwrap(), first);
    assert_eq!(e.kitties(first).unwrap().owner, Some(B));
}
