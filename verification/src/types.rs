//! The data records of the auction engine: assets, auctions, bids,
//! settlement records, notifications and errors.
//!
//! Identifiers, account ids, balances and moments are all plain `u64`
//! values; an identifier is the fixed-width output of the engine's id
//! allocator.

use vstd::prelude::*;

verus! {

/// Lifecycle state of an auction.  `Ongoing` may move to `Cancelled` or
/// `Closed`; both of those are terminal.
#[derive(Clone, Copy, PartialEq, Eq, Structural, Debug)]
pub enum AuctionStatus {
    Ongoing,
    Cancelled,
    Closed,
}

impl Default for AuctionStatus {
    fn default() -> (r: Self)
        ensures
            r == AuctionStatus::Ongoing,
    {
        AuctionStatus::Ongoing
    }
}

/// Lifecycle state of a bid.  The engine never withdraws a bid: every
/// recorded bid stays `Active` until its auction is settled.
#[derive(Clone, Copy, PartialEq, Eq, Structural, Debug)]
pub enum BidStatus {
    Active,
    Withdrawn,
}

impl Default for BidStatus {
    fn default() -> (r: Self)
        ensures
            r == BidStatus::Active,
    {
        BidStatus::Active
    }
}

/// A unique, ownable asset.
///
/// `owner` and `owner_pos` are either both present or both absent; when
/// present, `owner_pos` is the asset's slot in its owner's dense index.
#[derive(Clone, Debug)]
pub struct Kitty {
    pub id: u64,
    pub name: Option<Vec<u8>>,
    pub owner: Option<u64>,
    pub owner_pos: Option<u64>,
    pub in_auction: bool,
}

/// A timed auction of one asset.
///
/// `topmost_bids` is the bounded leaderboard: ids of the highest bids,
/// highest price first.  `price_to_topmost` is the admission threshold: the
/// lowest price that guarantees a place on the leaderboard.  `display_bids`
/// is a throttled public snapshot of the leaderboard.
#[derive(Clone, Debug)]
pub struct Auction {
    pub id: u64,
    pub kitty_id: u64,
    pub base_price: u64,
    pub start_time: u64,
    pub end_time: u64,
    pub status: AuctionStatus,
    pub topmost_bids: Vec<u64>,
    pub price_to_topmost: u64,
    pub display_bids: Vec<u64>,
    pub display_bids_last_update: u64,
    pub tx: Option<AuctionTx>,
}

/// A bidder's current offer on one auction: at most one per
/// (auction, bidder) pair; its full price is escrowed while the auction is
/// ongoing.
#[derive(Clone, Copy, PartialEq, Eq, Structural, Debug)]
pub struct Bid {
    pub id: u64,
    pub auction_id: u64,
    pub bidder: u64,
    pub price: u64,
    pub last_update: u64,
    pub status: BidStatus,
}

/// Settlement record, created exactly when an auction closes with a winner.
#[derive(Clone, Copy, PartialEq, Eq, Structural, Debug)]
pub struct AuctionTx {
    pub tx_time: u64,
    pub winner: u64,
    pub tx_price: u64,
}

/// Why an operation was refused.  A refused operation leaves the engine
/// state exactly as it was.
#[derive(Clone, Copy, PartialEq, Eq, Structural, Debug)]
pub enum AuctionError {
    /// A referenced asset, auction or bid does not exist.
    NotFound,
    /// The caller is not the owner or admin that the operation demands.
    Unauthorized,
    /// The operation is not valid for the current lifecycle status.
    InvalidState,
    /// A zero price, or an end time that comes too soon.
    InvalidInput,
    /// A raise at or below the previous bid, or an opening bid below the
    /// base price.
    BidTooLow,
    /// The ledger refused to escrow the requested amount.
    InsufficientFunds,
    /// The fund transfer at settlement failed; `close_auction_and_tx` may
    /// be retried.
    SettlementTransferFailed,
    /// The id allocator produced an identifier that is already taken.
    DuplicateIdentifier,
}

/// A notification emitted on the success of an operation.
#[derive(Clone, Debug)]
pub enum Event {
    /// owner, kitty id, name
    KittyCreated(u64, u64, Vec<u8>),
    /// owner, kitty id, auction id, base price, end time
    AuctionStarted(u64, u64, u64, u64, u64),
    /// auction id
    AuctionCancelled(u64),
    /// auction id
    AuctionClosed(u64),
    /// auction id, bid price
    NewBid(u64, u64),
    /// auction id, displayed leaderboard snapshot
    UpdateDisplayedBids(u64, Vec<u64>),
    /// auction id, kitty id, previous owner, winner
    AuctionTx(u64, u64, u64, u64),
}

/// An element-for-element copy of a list of identifiers.
pub fn clone_ids(v: &Vec<u64>) -> (r: Vec<u64>)
    ensures
        r@ == v@,
{
    let r = v.clone();
    proof {
        broadcast use vstd::std_specs::vec::vec_clone_deep_view_proof;

        assert(r@ =~= v@);
    }
    r
}

/// A byte-for-byte copy of `v`, for storing a value in one record and
/// carrying the same bytes in a notification.
pub fn clone_bytes(v: &Vec<u8>) -> (r: Vec<u8>)
    ensures
        r@ == v@,
{
    let r = v.clone();
    proof {
        broadcast use vstd::std_specs::vec::vec_clone_deep_view_proof;

        assert(r@ =~= v@);
    }
    r
}

} // verus!
