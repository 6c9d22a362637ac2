//! One refusal per error kind, and the smaller moving parts: the
//! throttled display snapshot, cancellation, and the ledger itself.

use cat_auction::ledger::Ledger;
use cat_auction::state::CatAuction;
use cat_auction::types::{AuctionError, AuctionStatus, Event};
use cat_auction::{AUCTION_MIN_DURATION, DISPLAY_BIDS_UPDATE_PERIOD};

const A: u64 = 1;
const B: u64 = 2;
const C: u64 = 3;

const BASE: u64 = 100;
const FUNDS: u64 = 1000;

fn auction_setup() -> (CatAuction, u64, u64, u64) {
    let mut e = CatAuction::new(3);
    for who in [A, B, C] {
        e.set_free_balance(who, FUNDS);
    }
    e.create_kitty(A, b"X".to_vec()).unwrap();
    let kitty_id = e.kitty_array(0).unwrap();
    let end_time = e.now + AUCTION_MIN_DURATION + 10;
    e.start_auction(A, kitty_id, end_time, BASE).unwrap();
    let auction_id = e.auction_array(0).unwrap();
    (e, kitty_id, auction_id, end_time)
}

#[test]
fn start_auction_refusals() {
    let mut e = CatAuction::new(1);
    e.set_free_balance(A, FUNDS);
    e.set_free_balance(B, FUNDS);
    e.create_kitty(A, b"X".to_vec()).unwrap();
    let kitty_id = e.kitty_array(0).unwrap();
    let good_end = e.now + AUCTION_MIN_DURATION + 10;

    // unknown kitty
    assert_eq!(
        e.start_auction(A, kitty_id.wrapping_add(1), good_end, BASE),
        Err(AuctionError::NotFound)
    );
    // not the owner
    assert_eq!(e.start_auction(B, kitty_id, good_end, BASE), Err(AuctionError::Unauthorized));
    // end time not past the minimum duration
    assert_eq!(
        e.start_auction(A, kitty_id, e.now + AUCTION_MIN_DURATION, BASE),
        Err(AuctionError::InvalidInput)
    );
    // zero base price
    assert_eq!(e.start_auction(A, kitty_id, good_end, 0), Err(AuctionError::InvalidInput));

    // already on auction
    assert_eq!(e.start_auction(A, kitty_id, good_end, BASE), Ok(()));
    assert_eq!(e.start_auction(A, kitty_id, good_end, BASE), Err(AuctionError::InvalidState));
}

#[test]
fn bid_refusals() {
    let (mut e, _kitty_id, auction_id, end_time) = auction_setup();

    // unknown auction
    assert_eq!(e.bid(B, auction_id.wrapping_add(1), BASE), Err(AuctionError::NotFound));
    // below the base price
    assert_eq!(e.bid(B, auction_id, BASE - 1), Err(AuctionError::BidTooLow));
    // more than the bidder can cover
    assert_eq!(e.bid(B, auction_id, FUNDS + 1), Err(AuctionError::InsufficientFunds));
    assert_eq!(e.reserved_balance(B), 0);
    // after expiry
    e.set_timestamp(end_time);
    assert_eq!(e.bid(B, auction_id, BASE), Err(AuctionError::InvalidState));
}

#[test]
fn bid_on_terminal_auction_is_invalid_state() {
    let (mut e, _kitty_id, auction_id, end_time) = auction_setup();
    e.set_timestamp(end_time);
    e.close_auction_and_tx(auction_id).unwrap();
    assert_eq!(e.bid(B, auction_id, BASE), Err(AuctionError::InvalidState));
}

#[test]
fn close_refusals() {
    let (mut e, _kitty_id, auction_id, _end) = auction_setup();
    // unknown auction
    assert_eq!(e.close_auction_and_tx(auction_id.wrapping_add(1)), Err(AuctionError::NotFound));
    // not yet expired
    assert_eq!(e.close_auction_and_tx(auction_id), Err(AuctionError::InvalidState));
}

#[test]
fn cancel_only_by_admin_before_any_bid() {
    let (mut e, kitty_id, auction_id, end_time) = auction_setup();

    // only the admin (the kitty's owner) may cancel
    assert_eq!(e.cancel_auction(B, auction_id), Err(AuctionError::Unauthorized));

    // a recorded bid blocks cancellation
    assert_eq!(e.bid(B, auction_id, BASE), Ok(()));
    assert_eq!(e.cancel_auction(A, auction_id), Err(AuctionError::InvalidState));

    // a bid-free auction cancels cleanly and releases the kitty
    let mut e2 = CatAuction::new(4);
    e2.set_free_balance(A, FUNDS);
    e2.create_kitty(A, b"Y".to_vec()).unwrap();
    let kitty2 = e2.kitty_array(0).unwrap();
    e2.start_auction(A, kitty2, e2.now + AUCTION_MIN_DURATION + 10, BASE).unwrap();
    let auction2 = e2.auction_array(0).unwrap();
    assert_eq!(e2.cancel_auction(A, auction2), Ok(()));
    let a2 = e2.auctions(auction2).unwrap();
    assert_eq!(a2.status, AuctionStatus::Cancelled);
    assert!(!e2.kitties(kitty2).unwrap().in_auction);
    assert!(matches!(e2.events.last().unwrap(), Event::AuctionCancelled(x) if *x == auction2));

    // cancelling past the end time fails
    e.set_timestamp(end_time);
    assert_eq!(e.cancel_auction(A, auction_id), Err(AuctionError::InvalidState));
    let _ = kitty_id;
}

#[test]
fn display_refresh_is_throttled() {
    let (mut e, _kitty_id, auction_id, _end) = auction_setup();
    assert_eq!(e.bid(B, auction_id, BASE), Ok(()));

    // too soon after the start: throttled
    assert_eq!(e.update_auction_display_bids(auction_id), Err(AuctionError::InvalidState));

    // once the period has elapsed, the snapshot copies the live board
    e.set_timestamp(e.now + DISPLAY_BIDS_UPDATE_PERIOD);
    assert_eq!(e.update_auction_display_bids(auction_id), Ok(()));
    let a = e.auctions(auction_id).unwrap();
    assert_eq!(a.display_bids, a.topmost_bids);
    assert!(matches!(
        e.events.last().unwrap(),
        Event::UpdateDisplayedBids(x, snap) if *x == auction_id && *snap == a.topmost_bids
    ));
}

#[test]
fn ledger_reserve_unreserve_transfer() {
    let mut l = Ledger::new();
    l.set_free_balance(A, 100);
    assert_eq!(l.free_balance(A), 100);
    assert_eq!(l.reserved_balance(A), 0);

    // a hold larger than the free balance is refused
    assert!(!l.reserve(A, 101));
    assert!(l.reserve(A, 60));
    assert_eq!(l.free_balance(A), 40);
    assert_eq!(l.reserved_balance(A), 60);

    // releasing more than is reserved caps at the reserve
    l.unreserve(A, 1000);
    assert_eq!(l.free_balance(A), 100);
    assert_eq!(l.reserved_balance(A), 0);

    // a payment moves free balance, and is refused beyond it
    assert!(l.transfer(A, B, 30));
    assert_eq!(l.free_balance(A), 70);
    assert_eq!(l.free_balance(B), 30);
    assert!(!l.transfer(A, B, 71));
    // a payment that would overflow the recipient is refused
    l.set_free_balance(C, u64::MAX);
    assert!(!l.transfer(A, C, 1));
}

#[test]
fn second_kitty_lands_in_next_slot() {
    let mut e = CatAuction::new(9);
    e.set_free_balance(A, FUNDS);
    e.create_kitty(A, b"first".to_vec()).unwrap();
    e.create_kitty(A, b"second".to_vec()).unwrap();
    assert_eq!(e.owner_kitties_count(A), 2);
    let first = e.kitty_array(0).unwrap();
    let second = e.kitty_array(1).unwrap();
    assert_eq!(e.owner_kitties((A, 0)).unwrap(), first);
    assert_eq!(e.owner_kitties((A, 1)).unwrap(), second);
    assert_eq!(e.kitties(second).unwrap().owner_pos, Some(1));
    assert_eq!(e.kitties(second).unwrap().name.unwrap(), b"second".to_vec());
}

#[test]
fn failed_settlement_transfer_can_be_retried() {
    // The seller's total balance is so large that receiving the
    // winning bid would overflow it: settlement fails, nothing moves,
    // and the close can be retried once there is room.
    let mut e = CatAuction::new(6);
    e.set_free_balance(A, u64::MAX);
    e.set_free_balance(B, FUNDS);
    e.create_kitty(A, b"X".to_vec()).unwrap();
    let kitty_id = e.kitty_array(0).unwrap();
    let end_time = e.now + AUCTION_MIN_DURATION + 10;
    e.start_auction(A, kitty_id, end_time, BASE).unwrap();
    let auction_id = e.auction_array(0).unwrap();
    e.bid(B, auction_id, BASE).unwrap();
    e.set_timestamp(end_time);

    assert_eq!(
        e.close_auction_and_tx(auction_id),
        Err(AuctionError::SettlementTransferFailed)
    );
    // nothing moved: the auction is still open for retry
    assert_eq!(e.auctions(auction_id).unwrap().status, AuctionStatus::Ongoing);
    assert_eq!(e.reserved_balance(B), BASE);
    assert_eq!(e.kitties(kitty_id).unwrap().owner, Some(A));

    // once the seller has made room, the retry settles
    assert!(e.ledger.transfer(A, C, 1000));
    assert_eq!(e.close_auction_and_tx(auction_id), Ok(()));
    assert_eq!(e.auctions(auction_id).unwrap().status, AuctionStatus::Closed);
    assert_eq!(e.kitties(kitty_id).unwrap().owner, Some(B));
    assert_eq!(e.reserved_balance(B), 0);
}
