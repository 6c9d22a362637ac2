//! Read-only accessors over the engine's tables, mirroring the
//! persisted storage layout: each lookup answers from the same state
//! that the operations' contracts speak about.

use vstd::prelude::*;

use crate::state::CatAuction;
use crate::types::{clone_bytes, clone_ids, Auction, Bid, Kitty};

verus! {

/// How many bids of `s` belong to auction `aid`.
pub open spec fn count_bids_of(s: Seq<Bid>, aid: u64) -> int
    decreases s.len(),
{
    if s.len() == 0 {
        0
    } else {
        (if s[0].auction_id == aid {
            1int
        } else {
            0
        }) + count_bids_of(s.skip(1), aid)
    }
}

impl CatAuction {
    /// How many kitties have ever been registered.
    pub fn kitties_count(&self) -> (r: u64)
        ensures
            r as int == self.kitties@.len(),
    {
        self.kitties.len() as u64
    }

    /// The id of the `i`-th kitty ever registered.
    pub fn kitty_array(&self, i: u64) -> (r: Option<u64>)
        ensures
            match r {
                Some(id) => i < self.kitties@.len() && id == self.kitties@[i as int].id,
                None => i >= self.kitties@.len(),
            },
    {
        if i < self.kitties.len() as u64 {
            Some(self.kitties[i as usize].id)
        } else {
            None
        }
    }

    /// The kitty registered under `id`.
    pub fn kitties(&self, id: u64) -> (r: Option<Kitty>)
        requires
            self.wf(),
        ensures
            match r {
                Some(k) => self.has_kitty(id) && k.id == self.kitty_of(id).id && k.owner
                    == self.kitty_of(id).owner && k.owner_pos == self.kitty_of(id).owner_pos
                    && k.in_auction == self.kitty_of(id).in_auction && (k.name is Some
                    <==> self.kitty_of(id).name is Some) && (k.name is Some
                    ==> k.name.unwrap()@ == self.kitty_of(id).name.unwrap()@),
                None => !self.has_kitty(id),
            },
    {
        match self.find_kitty_idx(id) {
            Some(i) => {
                let k = &self.kitties[i];
                let name = match &k.name {
                    Some(n) => Some(clone_bytes(n)),
                    None => None,
                };
                Some(
                    Kitty {
                        id: k.id,
                        name,
                        owner: k.owner,
                        owner_pos: k.owner_pos,
                        in_auction: k.in_auction,
                    },
                )
            },
            None => None,
        }
    }

    /// How many kitties `owner` currently holds.
    pub fn owner_kitties_count(&self, owner: u64) -> (r: u64)
        requires
            self.wf(),
        ensures
            r as int == self.spec_owner_ids(owner).len(),
    {
        match self.find_owner_idx(owner) {
            Some(j) => self.owners[j].kitty_ids.len() as u64,
            None => 0,
        }
    }

    /// The kitty at slot `key.1` of owner `key.0`'s dense index.
    pub fn owner_kitties(&self, key: (u64, u64)) -> (r: Option<u64>)
        requires
            self.wf(),
        ensures
            match r {
                Some(id) => (key.1 as int) < self.spec_owner_ids(key.0).len() && id
                    == self.spec_owner_ids(key.0)[key.1 as int],
                None => (key.1 as int) >= self.spec_owner_ids(key.0).len(),
            },
    {
        let (owner, pos) = key;
        match self.find_owner_idx(owner) {
            Some(j) => {
                if (pos as usize) < self.owners[j].kitty_ids.len() && pos
                    <= usize::MAX as u64 {
                    Some(self.owners[j].kitty_ids[pos as usize])
                } else {
                    None
                }
            },
            None => None,
        }
    }

    /// How many auctions have ever been recorded.
    pub fn auctions_count(&self) -> (r: u64)
        ensures
            r as int == self.auctions@.len(),
    {
        self.auctions.len() as u64
    }

    /// The id of the `i`-th auction ever recorded.
    pub fn auction_array(&self, i: u64) -> (r: Option<u64>)
        ensures
            match r {
                Some(id) => i < self.auctions@.len() && id == self.auctions@[i as int].id,
                None => i >= self.auctions@.len(),
            },
    {
        if i < self.auctions.len() as u64 {
            Some(self.auctions[i as usize].id)
        } else {
            None
        }
    }

    /// The auction recorded under `id`.
    pub fn auctions(&self, id: u64) -> (r: Option<Auction>)
        requires
            self.wf(),
        ensures
            match r {
                Some(a) => self.has_auction(id) && a == (Auction {
                    topmost_bids: a.topmost_bids,
                    display_bids: a.display_bids,
                    ..self.auction_of(id)
                }) && a.topmost_bids@ == self.auction_of(id).topmost_bids@ && a.display_bids@
                    == self.auction_of(id).display_bids@,
                None => !self.has_auction(id),
            },
    {
        match self.find_auction_idx(id) {
            Some(i) => {
                let a = &self.auctions[i];
                Some(
                    Auction {
                        id: a.id,
                        kitty_id: a.kitty_id,
                        base_price: a.base_price,
                        start_time: a.start_time,
                        end_time: a.end_time,
                        status: a.status,
                        topmost_bids: clone_ids(&a.topmost_bids),
                        price_to_topmost: a.price_to_topmost,
                        display_bids: clone_ids(&a.display_bids),
                        display_bids_last_update: a.display_bids_last_update,
                        tx: a.tx,
                    },
                )
            },
            None => None,
        }
    }

    /// The bid recorded under `id`.
    pub fn bids(&self, id: u64) -> (r: Option<Bid>)
        requires
            self.wf(),
        ensures
            r == self.spec_bid(id),
    {
        match self.find_bid_idx(id) {
            Some(i) => Some(self.bids[i]),
            None => None,
        }
    }

    /// How many bids have been recorded on auction `aid`.
    pub fn auction_bids_count(&self, aid: u64) -> (r: u64)
        ensures
            r as int == count_bids_of(self.bids@, aid),
    {
        proof {
            assert(self.bids@.skip(0) =~= self.bids@);
        }
        let mut cnt: usize = 0;
        let mut i: usize = 0;
        while i < self.bids.len()
            invariant
                i <= self.bids@.len(),
                cnt <= i,
                cnt + count_bids_of(self.bids@.skip(i as int), aid) == count_bids_of(
                    self.bids@,
                    aid,
                ),
            decreases self.bids@.len() - i,
        {
            proof {
                assert(self.bids@.skip(i as int)[0] == self.bids@[i as int]);
                assert(self.bids@.skip(i as int).skip(1) =~= self.bids@.skip(i as int + 1));
            }
            if self.bids[i].auction_id == aid {
                cnt += 1;
            }
            i += 1;
        }
        proof {
            assert(self.bids@.skip(self.bids@.len() as int) =~= Seq::<Bid>::empty());
        }
        cnt as u64
    }

    /// The id of the bid `key.1` holds on auction `key.0`, if any.
    pub fn auction_bidder_bids(&self, key: (u64, u64)) -> (r: Option<u64>)
        requires
            self.wf(),
        ensures
            match r {
                Some(id) => self.spec_bidder_bid(key.0, key.1) matches Some(b) && b.id == id,
                None => self.spec_bidder_bid(key.0, key.1) is None,
            },
    {
        match self.find_bid_by_pair(key.0, key.1) {
            Some(i) => Some(self.bids[i].id),
            None => None,
        }
    }

    /// The spendable balance of `who`.
    pub fn free_balance(&self, who: u64) -> (r: u64)
        requires
            self.wf(),
        ensures
            r == self.ledger.spec_free(who),
    {
        self.ledger.free_balance(who)
    }

    /// The escrowed balance of `who`.
    pub fn reserved_balance(&self, who: u64) -> (r: u64)
        requires
            self.wf(),
        ensures
            r == self.ledger.spec_reserved(who),
    {
        self.ledger.reserved_balance(who)
    }
}

} // verus!
