//! The engine driven end to end: registering a kitty, auctioning it,
//! bidding and settling.

use cat_auction::state::CatAuction;
use cat_auction::types::AuctionStatus;
use cat_auction::AUCTION_MIN_DURATION;

const KITTY_NAMES: [&str; 3] = ["lovely-kitty01", "lovely-kitty02", "lovely-kitty03"];

const ALICE: u64 = 10;
const BOB: u64 = 20;
const CHARLES: u64 = 30;
const DAVE: u64 = 40;
const EVE: u64 = 50;

const BASE_PRICE: u64 = 10000;
const INI_BALANCE: u64 = 100000;

fn build_ext() -> CatAuction {
    let mut e = CatAuction::new(0);
    for who in [ALICE, BOB, CHARLES, DAVE, EVE] {
        e.set_free_balance(who, INI_BALANCE);
    }
    e
}

#[test]
fn it_works() {
    // Test case to test the harness is set up properly.
    let _e = build_ext();
    assert!(true);
}

#[test]
fn can_create_kitty() {
    let mut e = build_ext();
    let kitty_name_in_hex = KITTY_NAMES[0].as_bytes().to_vec();
    assert!(e.create_kitty(ALICE, kitty_name_in_hex).is_ok());

    assert_eq!(e.kitties_count(), 1);
    assert_eq!(e.owner_kitties_count(ALICE), 1);

    let kitty_id = e.kitty_array(0).unwrap();
    assert_eq!(e.owner_kitties((ALICE, 0)).unwrap(), kitty_id);

    // test kitty object data is consistent
    let kitty = e.kitties(kitty_id).unwrap();
    assert_eq!(kitty.in_auction, false);
    assert_eq!(kitty.owner, Some(ALICE));
    assert_eq!(kitty.owner_pos, Some(0));
}

#[test]
fn can_start_auction_n_bid_n_close() {
    let mut e = build_ext();
    let kitty_name_in_hex = KITTY_NAMES[0].as_bytes().to_vec();
    assert!(e.create_kitty(ALICE, kitty_name_in_hex).is_ok());

    let kitty_id = e.kitty_array(0).unwrap();
    let time_buffer = 5; // 5s for time buffer
    let end_time = e.now + AUCTION_MIN_DURATION + time_buffer;

    assert!(e.start_auction(ALICE, kitty_id, end_time, BASE_PRICE).is_ok());

    // Test auction:
    //   1. auctions_count
    assert_eq!(e.auctions_count(), 1);

    let auction_id = e.auction_array(0).unwrap();
    let abal_b4_bid = e.free_balance(ALICE);
    let bbal_b4_bid = e.free_balance(BOB);

    // Bob bids in the auction
    assert!(e.bid(BOB, auction_id, BASE_PRICE).is_ok());
    e.set_timestamp(end_time);

    // Close the auction
    assert!(e.close_auction_and_tx(auction_id).is_ok());

    // check #1: auction object
    let auction = e.auctions(auction_id).unwrap();
    assert_eq!(auction.status, AuctionStatus::Closed);
    let auction_tx = auction.tx.unwrap();
    assert_eq!(auction_tx.winner, BOB);
    assert_eq!(auction_tx.tx_price, BASE_PRICE);

    // check #2: payment is transferred
    let abal_after_bid = e.free_balance(ALICE);
    let bbal_after_bid = e.free_balance(BOB);
    assert!(abal_after_bid - abal_b4_bid >= BASE_PRICE);
    assert!(bbal_b4_bid - bbal_after_bid >= BASE_PRICE);

    // check #3: check kitty object
    let kitty = e.kitties(kitty_id).unwrap();
    assert!(!kitty.in_auction);
    assert_eq!(kitty.owner, Some(BOB));
    assert_eq!(kitty.owner_pos, Some(0));

    // check #4: check owner kitty counts
    assert_eq!(e.owner_kitties_count(ALICE), 0);
    assert_eq!(e.owner_kitties_count(BOB), 1);

    // check #5: check the owner index
    assert!(e.owner_kitties((ALICE, 0)).is_none());
    assert!(e.owner_kitties((BOB, 0)).is_some());
    assert_eq!(e.owner_kitties((BOB, 0)).unwrap(), kitty_id);
}
