//! A ledger-backed auction engine for unique digital assets ("kitties").
//!
//! Users register assets, put them up for timed auctions, place escrowed
//! bids, and anyone may settle an expired auction: the winning bidder's
//! escrow is transferred to the seller, ownership moves to the winner, and
//! every other bidder's escrow is released.  The whole state machine --
//! asset registry, owner index, auction lifecycle, bid ledger, bounded
//! leaderboard, and settlement -- is verified: every operation either
//! returns an error and leaves the state untouched, or performs its full
//! effect while preserving the engine's invariants.

pub mod auction;
pub mod bidding;
pub mod escrow;
pub mod getters;
pub mod laws;
pub mod ledger;
pub mod lookup;
pub mod registry;
pub mod settle;
pub mod state;
pub mod types;

use vstd::prelude::*;

verus! {

/// Capacity of each auction's leaderboard of topmost bids.
pub const TOPMOST_BIDS_LEN: usize = 3;

/// An auction must run for at least this many seconds.
pub const AUCTION_MIN_DURATION: u64 = 3 * 60;

/// Minimum delay between two throttled refreshes of the displayed bids.
pub const DISPLAY_BIDS_UPDATE_PERIOD: u64 = 1 * 60;

} // verus!
