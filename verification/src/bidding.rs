//! The bounded leaderboard: admitting a bid into an auction's topmost
//! list and recomputing the admission threshold.

use vstd::prelude::*;

use crate::lookup::{find_by, lemma_find_at, lemma_find_update};
use crate::state::{auction_key, bid_key, price_above, price_in, CatAuction};
use crate::types::{clone_ids, Auction, AuctionError, AuctionStatus, Bid, BidStatus, Event};
use crate::TOPMOST_BIDS_LEN;

verus! {

/// The board with every occurrence of `bid_id` removed, order kept.
pub open spec fn board_without(tb: Seq<u64>, bid_id: u64) -> Seq<u64>
    decreases tb.len(),
{
    if tb.len() == 0 {
        Seq::empty()
    } else if tb[0] == bid_id {
        board_without(tb.skip(1), bid_id)
    } else {
        seq![tb[0]] + board_without(tb.skip(1), bid_id)
    }
}

/// Where a bid of price `price` enters a descending board: after every
/// entry that holds at least `price`, before the first cheaper entry.
/// An equally priced earlier entry keeps its better rank.
pub open spec fn insert_pos(bids: Seq<Bid>, tb: Seq<u64>, price: u64) -> int
    decreases tb.len(),
{
    if tb.len() > 0 && price_in(bids, tb[0]) >= price {
        1 + insert_pos(bids, tb.skip(1), price)
    } else {
        0
    }
}

/// The first `TOPMOST_BIDS_LEN` entries of the board.
pub open spec fn capped(tb: Seq<u64>) -> Seq<u64> {
    if tb.len() <= TOPMOST_BIDS_LEN as int {
        tb
    } else {
        tb.take(TOPMOST_BIDS_LEN as int)
    }
}

/// The leaderboard after admitting `bid_id`: the bid's old entry leaves,
/// the bid enters at its price's rank -- behind equally priced earlier
/// bids -- and the board is trimmed to capacity.
pub open spec fn new_topmost(bids: Seq<Bid>, a: Auction, bid_id: u64) -> Seq<u64> {
    let removed = board_without(a.topmost_bids@, bid_id);
    capped(removed.insert(insert_pos(bids, removed, price_in(bids, bid_id)), bid_id))
}

/// The admission threshold after admitting `bid_id`: one unit above the
/// lowest listed price once the board is full, the base price before.
pub open spec fn new_ptt(bids: Seq<Bid>, a: Auction, bid_id: u64) -> u64 {
    let tb2 = new_topmost(bids, a, bid_id);
    if tb2.len() == TOPMOST_BIDS_LEN as int {
        price_above(price_in(bids, tb2[TOPMOST_BIDS_LEN as int - 1]))
    } else {
        a.base_price
    }
}

/// Every entry of the reduced board is an entry of the board it came
/// from, other than `bid_id`, and the reduced board is no longer.
proof fn lemma_board_without_elem(tb: Seq<u64>, bid_id: u64)
    ensures
        board_without(tb, bid_id).len() <= tb.len(),
        forall|i: int|
            0 <= i < board_without(tb, bid_id).len() ==> #[trigger] board_without(tb, bid_id)[i]
                != bid_id && (exists|k: int|
                0 <= k < tb.len() && tb[k] == board_without(tb, bid_id)[i]),
    decreases tb.len(),
{
    if tb.len() > 0 {
        lemma_board_without_elem(tb.skip(1), bid_id);
        let res = board_without(tb, bid_id);
        let sub = board_without(tb.skip(1), bid_id);
        assert forall|i: int|
            0 <= i < res.len() implies #[trigger] res[i] != bid_id && (exists|k: int|
            0 <= k < tb.len() && tb[k] == res[i]) by {
            if tb[0] == bid_id {
                assert(res[i] == sub[i]);
                let k = choose|k: int| 0 <= k < tb.skip(1).len() && tb.skip(1)[k] == sub[i];
                assert(tb[k + 1] == res[i]);
            } else {
                if i == 0 {
                    assert(res[0] == tb[0]);
                } else {
                    assert(res[i] == sub[i - 1]);
                    let k = choose|k: int|
                        0 <= k < tb.skip(1).len() && tb.skip(1)[k] == sub[i - 1];
                    assert(tb[k + 1] == res[i]);
                }
            }
        }
    }
}

/// Removing an entry keeps a descending board descending.
proof fn lemma_board_without_sorted(bids: Seq<Bid>, tb: Seq<u64>, bid_id: u64)
    requires
        forall|i: int, j: int|
            0 <= i < j < tb.len() ==> #[trigger] price_in(bids, tb[i]) >= #[trigger] price_in(
                bids,
                tb[j],
            ),
    ensures
        forall|i: int, j: int|
            0 <= i < j < board_without(tb, bid_id).len() ==> #[trigger] price_in(
                bids,
                board_without(tb, bid_id)[i],
            ) >= #[trigger] price_in(bids, board_without(tb, bid_id)[j]),
    decreases tb.len(),
{
    if tb.len() > 0 {
        assert(forall|i: int, j: int|
            0 <= i < j < tb.skip(1).len() ==> #[trigger] price_in(bids, tb.skip(1)[i])
                >= #[trigger] price_in(bids, tb.skip(1)[j]));
        lemma_board_without_sorted(bids, tb.skip(1), bid_id);
        lemma_board_without_elem(tb.skip(1), bid_id);
        let res = board_without(tb, bid_id);
        let sub = board_without(tb.skip(1), bid_id);
        assert forall|i: int, j: int|
            0 <= i < j < res.len() implies #[trigger] price_in(bids, res[i]) >= #[trigger] price_in(
            bids,
            res[j],
        ) by {
            if tb[0] == bid_id {
                assert(res[i] == sub[i] && res[j] == sub[j]);
            } else if i == 0 {
                assert(res[j] == sub[j - 1]);
                let k = choose|k: int| 0 <= k < tb.skip(1).len() && tb.skip(1)[k] == sub[j - 1];
                assert(price_in(bids, tb[0]) >= price_in(bids, tb[k + 1]));
            } else {
                assert(res[i] == sub[i - 1] && res[j] == sub[j - 1]);
            }
        }
    }
}

/// Removing an entry keeps the entries distinct.
proof fn lemma_board_without_distinct(tb: Seq<u64>, bid_id: u64)
    requires
        forall|i: int, j: int| 0 <= i < j < tb.len() ==> tb[i] != tb[j],
    ensures
        forall|i: int, j: int|
            0 <= i < j < board_without(tb, bid_id).len() ==> board_without(tb, bid_id)[i]
                != board_without(tb, bid_id)[j],
    decreases tb.len(),
{
    if tb.len() > 0 {
        assert(forall|i: int, j: int|
            0 <= i < j < tb.skip(1).len() ==> tb.skip(1)[i] != tb.skip(1)[j]);
        lemma_board_without_distinct(tb.skip(1), bid_id);
        lemma_board_without_elem(tb.skip(1), bid_id);
        let res = board_without(tb, bid_id);
        let sub = board_without(tb.skip(1), bid_id);
        assert forall|i: int, j: int|
            0 <= i < j < res.len() implies res[i] != res[j] by {
            if tb[0] == bid_id {
            } else if i == 0 {
                assert(res[j] == sub[j - 1]);
                let k = choose|k: int| 0 <= k < tb.skip(1).len() && tb.skip(1)[k] == sub[j - 1];
                assert(tb[0] != tb[k + 1]);
            }
        }
    }
}

/// A board that never listed the bid is left as it was.
proof fn lemma_board_without_absent(tb: Seq<u64>, bid_id: u64)
    requires
        forall|i: int| 0 <= i < tb.len() ==> tb[i] != bid_id,
    ensures
        board_without(tb, bid_id) == tb,
    decreases tb.len(),
{
    if tb.len() > 0 {
        assert(forall|i: int| 0 <= i < tb.skip(1).len() ==> tb.skip(1)[i] != bid_id);
        lemma_board_without_absent(tb.skip(1), bid_id);
        assert(board_without(tb, bid_id) =~= tb);
    }
}

/// A distinct board that lists the bid shrinks by exactly one entry
/// when the bid is removed.
proof fn lemma_board_without_present(tb: Seq<u64>, bid_id: u64)
    requires
        forall|i: int, j: int| 0 <= i < j < tb.len() ==> tb[i] != tb[j],
        exists|k: int| 0 <= k < tb.len() && tb[k] == bid_id,
    ensures
        board_without(tb, bid_id).len() == tb.len() - 1,
    decreases tb.len(),
{
    assert(forall|i: int, j: int|
        0 <= i < j < tb.skip(1).len() ==> tb.skip(1)[i] != tb.skip(1)[j]);
    let k = choose|k: int| 0 <= k < tb.len() && tb[k] == bid_id;
    if tb[0] == bid_id {
        assert forall|i: int| 0 <= i < tb.skip(1).len() implies tb.skip(1)[i] != bid_id by {
            assert(tb[i + 1] == tb.skip(1)[i]);
        }
        lemma_board_without_absent(tb.skip(1), bid_id);
    } else {
        assert(tb.skip(1)[k - 1] == bid_id);
        lemma_board_without_present(tb.skip(1), bid_id);
    }
}

/// The insertion position is exactly the length of the covered prefix:
/// everything before holds at least the price, the next entry less.
proof fn lemma_insert_pos_at(bids: Seq<Bid>, tb: Seq<u64>, price: u64, m: int)
    requires
        0 <= m <= tb.len(),
        forall|k: int| 0 <= k < m ==> #[trigger] price_in(bids, tb[k]) >= price,
        m < tb.len() ==> price_in(bids, tb[m]) < price,
    ensures
        insert_pos(bids, tb, price) == m,
    decreases m,
{
    if m == 0 {
    } else {
        assert(price_in(bids, tb[0]) >= price);
        assert(forall|k: int|
            0 <= k < m - 1 ==> #[trigger] price_in(bids, tb.skip(1)[k]) >= price);
        assert(m - 1 < tb.skip(1).len() ==> price_in(bids, tb.skip(1)[m - 1]) < price);
        lemma_insert_pos_at(bids, tb.skip(1), price, m - 1);
    }
}


/// The board with the bid's entry removed, order kept.
fn board_remove(tb: &Vec<u64>, bid_id: u64) -> (r: Vec<u64>)
    ensures
        r@ == board_without(tb@, bid_id),
{
    let mut nb: Vec<u64> = Vec::new();
    proof {
        assert(tb@.skip(0) =~= tb@);
        assert(nb@ + board_without(tb@, bid_id) =~= board_without(tb@, bid_id));
    }
    let mut k: usize = 0;
    while k < tb.len()
        invariant
            k <= tb@.len(),
            board_without(tb@, bid_id) == nb@ + board_without(tb@.skip(k as int), bid_id),
        decreases tb@.len() - k,
    {
        proof {
            assert(tb@.skip(k as int)[0] == tb@[k as int]);
            assert(tb@.skip(k as int).skip(1) =~= tb@.skip(k as int + 1));
        }
        if tb[k] != bid_id {
            proof {
                assert(board_without(tb@.skip(k as int), bid_id) =~= seq![tb@[k as int]]
                    + board_without(tb@.skip(k as int + 1), bid_id));
                assert(nb@.push(tb@[k as int]) + board_without(tb@.skip(k as int + 1), bid_id)
                    =~= nb@ + board_without(tb@.skip(k as int), bid_id));
            }
            nb.push(tb[k]);
        }
        k += 1;
    }
    proof {
        assert(tb@.skip(tb@.len() as int) =~= Seq::<u64>::empty());
        assert(nb@ + board_without(tb@.skip(tb@.len() as int), bid_id) =~= nb@);
    }
    nb
}

/// Whether the board lists the bid.
fn board_lists(tb: &Vec<u64>, bid_id: u64) -> (r: bool)
    ensures
        r == exists|k: int| 0 <= k < tb@.len() && tb@[k] == bid_id,
{
    let mut k: usize = 0;
    while k < tb.len()
        invariant
            k <= tb@.len(),
            forall|j: int| 0 <= j < k ==> tb@[j] != bid_id,
        decreases tb@.len() - k,
    {
        if tb[k] == bid_id {
            return true;
        }
        k += 1;
    }
    false
}

impl CatAuction {
    /// Admit the bid named `bid_id` into its auction's leaderboard: its
    /// old entry leaves, the bid enters at its price's rank behind
    /// equally priced earlier bids, the board is trimmed to capacity,
    /// and the admission threshold is recomputed.  A bid still below
    /// the threshold leaves everything untouched.
    pub(crate) fn update_auction_topmost_bids(&mut self, auction_id: u64, bid_id: u64)
        requires
            old(self).wf(),
            old(self).has_auction(auction_id),
            old(self).has_bid(bid_id),
            old(self).bid_of(bid_id).auction_id == auction_id,
        ensures
            final (self).wf(),
            old(self).bid_of(bid_id).price < old(self).auction_of(auction_id).price_to_topmost
                ==> *final (self) == *old(self),
            old(self).bid_of(bid_id).price >= old(self).auction_of(auction_id).price_to_topmost
                ==> {
                &&& final (self).spec_auction(auction_id) matches Some(a2)
                    && a2 == (Auction {
                    topmost_bids: a2.topmost_bids,
                    price_to_topmost: new_ptt(
                        old(self).bids@,
                        old(self).auction_of(auction_id),
                        bid_id,
                    ),
                    ..old(self).auction_of(auction_id)
                }) && a2.topmost_bids@ == new_topmost(
                    old(self).bids@,
                    old(self).auction_of(auction_id),
                    bid_id,
                )
                &&& forall|w: u64|
                    w != auction_id ==> final (self).spec_auction(w) == old(self).spec_auction(w)
                &&& final (self).kitties == old(self).kitties
                &&& final (self).owners == old(self).owners
                &&& final (self).bids == old(self).bids
                &&& final (self).ledger == old(self).ledger
                &&& final (self).events == old(self).events
                &&& final (self).nonce == old(self).nonce
                &&& final (self).now == old(self).now
                &&& final (self).seed == old(self).seed
            },
    {
        let ai: usize = match self.find_auction_idx(auction_id) {
            Some(ai) => ai,
            None => {
                proof {
                    assert(false);
                }
                0
            },
        };
        let bi: usize = match self.find_bid_idx(bid_id) {
            Some(bi) => bi,
            None => {
                proof {
                    assert(false);
                }
                0
            },
        };
        let price = self.bids[bi].price;
        if price < self.auctions[ai].price_to_topmost {
            return ;
        }
        proof {
            assert(crate::state::auction_record_ok(
                self.kitties@,
                self.bids@,
                self.auctions@[ai as int],
            ));
        }
        let ghost a0 = self.auctions@[ai as int];
        let tb_old = clone_ids(&self.auctions[ai].topmost_bids);
        // Drop the bid's old entry, keeping the order of the rest.
        let mut nb = board_remove(&tb_old, bid_id);
        proof {
            assert(nb@ == board_without(tb_old@, bid_id));
            lemma_board_without_elem(tb_old@, bid_id);
            lemma_board_without_sorted(self.bids@, tb_old@, bid_id);
            lemma_board_without_distinct(tb_old@, bid_id);
        }
        // Find the bid's rank: behind every entry holding at least its
        // price.
        let mut pos: usize = 0;
        let mut stop: bool = false;
        while !stop && pos < nb.len()
            invariant
                self.wf(),
                pos <= nb@.len(),
                forall|i: int|
                    0 <= i < nb@.len() ==> exists|k2: int|
                        0 <= k2 < tb_old@.len() && tb_old@[k2] == #[trigger] nb@[i],
                crate::state::leaderboard_entries_ok(self.bids@, a0),
                a0.topmost_bids@ == tb_old@,
                forall|i: int| 0 <= i < pos ==> price_in(self.bids@, nb@[i]) >= price,
                stop ==> pos < nb@.len() && price_in(self.bids@, nb@[pos as int]) < price,
            decreases nb@.len() - pos + (if stop {
                0int
            } else {
                1int
            }),
        {
            let e = nb[pos];
            let ep: u64 = match self.find_bid_idx(e) {
                Some(j) => self.bids[j].price,
                None => {
                    proof {
                        let k2 = choose|k2: int|
                            0 <= k2 < tb_old@.len() && tb_old@[k2] == nb@[pos as int];
                        assert(crate::state::bid_in(self.bids@, tb_old@[k2]) is Some);
                        assert(false);
                    }
                    0
                },
            };
            proof {
                assert(ep == price_in(self.bids@, e));
            }
            if ep >= price {
                pos += 1;
            } else {
                stop = true;
            }
        }
        proof {
            lemma_insert_pos_at(self.bids@, nb@, price, pos as int);
        }
        let ghost removed = nb@;
        nb.insert(pos, bid_id);
        if nb.len() > TOPMOST_BIDS_LEN {
            nb.truncate(TOPMOST_BIDS_LEN);
        }
        let base = self.auctions[ai].base_price;
        let last_needed = nb.len() == TOPMOST_BIDS_LEN;
        let ptt2: u64 = if last_needed {
            let e2 = nb[TOPMOST_BIDS_LEN - 1];
            let p2: u64 = match self.find_bid_idx(e2) {
                Some(j) => self.bids[j].price,
                None => {
                    proof {
                        self.lemma_new_board_entry_exists(
                            removed,
                            tb_old@,
                            bid_id,
                            nb@,
                            (TOPMOST_BIDS_LEN - 1) as int,
                            pos as int,
                        );
                        assert(false);
                    }
                    0
                },
            };
            if p2 == u64::MAX {
                u64::MAX
            } else {
                p2 + 1
            }
        } else {
            base
        };
        let ghost nb_v = nb@;
        proof {
            lemma_find_update(
                self.auctions@,
                auction_key(),
                ai as int,
                Auction {
                    topmost_bids: nb,
                    price_to_topmost: ptt2,
                    ..self.auctions@[ai as int]
                },
            );
        }
        self.auctions[ai].topmost_bids = nb;
        self.auctions[ai].price_to_topmost = ptt2;
        proof {
            let s0 = *old(self);
            let a2 = self.auctions@[ai as int];
            assert(self.auctions@ =~= s0.auctions@.update(ai as int, a2));
            assert(removed == board_without(a0.topmost_bids@, bid_id));
            assert(price == price_in(s0.bids@, bid_id));
            assert(pos as int == insert_pos(s0.bids@, removed, price));
            assert(nb_v =~= (if removed.insert(pos as int, bid_id).len() <= TOPMOST_BIDS_LEN as int {
                removed.insert(pos as int, bid_id)
            } else {
                removed.insert(pos as int, bid_id).take(TOPMOST_BIDS_LEN as int)
            }));
            assert(a2.topmost_bids@ == new_topmost(s0.bids@, a0, bid_id));
            self.lemma_new_board_ok(s0, ai as int, a2, a0, bid_id, removed, pos as int);
            self.lemma_auction_update_preserves_wf(s0, ai as int, a2);
        }
    }

    /// Every entry of the rebuilt board is a recorded bid: either the
    /// admitted bid itself or one carried over from the old board.
    proof fn lemma_new_board_entry_exists(
        self,
        removed: Seq<u64>,
        tb_old: Seq<u64>,
        bid_id: u64,
        nb: Seq<u64>,
        i: int,
        pos: int,
    )
        requires
            self.wf(),
            self.has_bid(bid_id),
            forall|i2: int|
                0 <= i2 < removed.len() ==> exists|k2: int|
                    0 <= k2 < tb_old.len() && tb_old[k2] == #[trigger] removed[i2],
            forall|i2: int|
                0 <= i2 < tb_old.len() ==> (#[trigger] crate::state::bid_in(self.bids@, tb_old[i2])) is Some,
            0 <= pos <= removed.len(),
            nb == (if removed.insert(pos, bid_id).len() <= TOPMOST_BIDS_LEN as int {
                removed.insert(pos, bid_id)
            } else {
                removed.insert(pos, bid_id).take(TOPMOST_BIDS_LEN as int)
            }),
            0 <= i < nb.len(),
        ensures
            crate::state::bid_in(self.bids@, nb[i]) is Some,
    {
        let ins = removed.insert(pos, bid_id);
        assert(nb[i] == ins[i]);
        if i == pos {
            assert(ins[i] == bid_id);
        } else if i < pos {
            assert(ins[i] == removed[i]);
            let k2 = choose|k2: int| 0 <= k2 < tb_old.len() && tb_old[k2] == removed[i];
            assert(crate::state::bid_in(self.bids@, tb_old[k2]) is Some);
        } else {
            assert(ins[i] == removed[i - 1]);
            let k2 = choose|k2: int| 0 <= k2 < tb_old.len() && tb_old[k2] == removed[i - 1];
            assert(crate::state::bid_in(self.bids@, tb_old[k2]) is Some);
        }
    }

    /// The rebuilt board, with its recomputed threshold, satisfies the
    /// whole leaderboard invariant.
    proof fn lemma_new_board_ok(
        self,
        s0: CatAuction,
        ai: int,
        a2: Auction,
        a0: Auction,
        bid_id: u64,
        removed: Seq<u64>,
        pos: int,
    )
        requires
            s0.wf(),
            0 <= ai < s0.auctions@.len(),
            s0.auctions@[ai] == a0,
            s0.has_bid(bid_id),
            s0.bid_of(bid_id).auction_id == a0.id,
            removed == board_without(a0.topmost_bids@, bid_id),
            forall|i: int, j: int|
                0 <= i < j < removed.len() ==> #[trigger] price_in(s0.bids@, removed[i])
                    >= #[trigger] price_in(s0.bids@, removed[j]),
            forall|i: int, j: int| 0 <= i < j < removed.len() ==> removed[i] != removed[j],
            pos == insert_pos(s0.bids@, removed, price_in(s0.bids@, bid_id)),
            forall|i: int|
                0 <= i < pos ==> #[trigger] price_in(s0.bids@, removed[i]) >= price_in(
                    s0.bids@,
                    bid_id,
                ),
            pos < removed.len() ==> price_in(s0.bids@, removed[pos]) < price_in(s0.bids@, bid_id),
            0 <= pos <= removed.len(),
            self.bids@ == s0.bids@,
            a2.topmost_bids@ == new_topmost(s0.bids@, a0, bid_id),
            a2.price_to_topmost == new_ptt(s0.bids@, a0, bid_id),
            a2.id == a0.id,
            a2.base_price == a0.base_price,
        ensures
            crate::state::leaderboard_ok(s0.bids@, a2),
    {
        assert(crate::state::auction_record_ok(s0.kitties@, s0.bids@, a0));
        lemma_board_without_elem(a0.topmost_bids@, bid_id);
        let price = price_in(s0.bids@, bid_id);
        let ins = removed.insert(pos, bid_id);
        let tb2 = a2.topmost_bids@;
        assert(tb2 == capped(ins));
        assert(ins.len() == removed.len() + 1);
        assert(forall|j: int| 0 <= j < pos ==> ins[j] == removed[j]);
        assert(ins[pos] == bid_id);
        assert(forall|j: int| pos < j < ins.len() ==> ins[j] == removed[j - 1]);
        // Entries: distinct, recorded, and of this auction.
        assert forall|i: int, j: int| 0 <= i < j < ins.len() implies ins[i] != ins[j] by {
            if i == pos || j == pos {
            }
        }
        assert forall|i: int|
            0 <= i < ins.len() implies (#[trigger] crate::state::bid_in(s0.bids@, ins[i])) is Some
            && crate::state::bid_in(s0.bids@, ins[i]).unwrap().auction_id == a2.id by {
            if i == pos {
            } else {
                let e = if i < pos {
                    removed[i]
                } else {
                    removed[i - 1]
                };
                let k2 = choose|k2: int|
                    0 <= k2 < a0.topmost_bids@.len() && a0.topmost_bids@[k2] == e;
                assert(crate::state::bid_in(s0.bids@, a0.topmost_bids@[k2]) is Some);
                assert(crate::state::bid_in(s0.bids@, a0.topmost_bids@[k2]).unwrap().auction_id
                    == a0.id);
            }
        }
        // Order: everything before the bid holds at least its price,
        // everything after holds less.
        assert forall|i: int, j: int|
            0 <= i < j < ins.len() implies #[trigger] price_in(s0.bids@, ins[i])
            >= #[trigger] price_in(s0.bids@, ins[j]) by {
            if i == pos {
                assert(price_in(s0.bids@, removed[j - 1]) <= price_in(s0.bids@, removed[pos]));
            } else if j == pos {
                assert(price_in(s0.bids@, removed[i]) >= price);
            }
        }
        assert(forall|i: int| 0 <= i < tb2.len() ==> tb2[i] == ins[i]);
        assert(tb2.len() <= TOPMOST_BIDS_LEN as int);
        assert(crate::state::leaderboard_entries_ok(s0.bids@, a2));
        if tb2.len() == TOPMOST_BIDS_LEN as int {
            assert(a2.price_to_topmost == price_above(
                price_in(s0.bids@, tb2[TOPMOST_BIDS_LEN as int - 1]),
            ));
        } else {
            assert(ins.len() <= TOPMOST_BIDS_LEN as int);
            assert(a2.price_to_topmost == a2.base_price);
        }
        assert(crate::state::leaderboard_sorted_ok(s0.bids@, a2));
    }

    /// Restores the invariant after recording a brand-new bid and
    /// escrowing its full price.
    proof fn lemma_bid_new_wf(self, s0: CatAuction, b: Bid)
        requires
            s0.wf(),
            !s0.has_bid(b.id),
            s0.spec_bidder_bid(b.auction_id, b.bidder) is None,
            s0.has_auction(b.auction_id),
            s0.auction_of(b.auction_id).status is Ongoing,
            b.price >= s0.auction_of(b.auction_id).base_price,
            Some(b.bidder) != s0.kitty_of(s0.auction_of(b.auction_id).kitty_id).owner,
            b.status is Active,
            self.bids@ == s0.bids@.push(b),
            self.kitties@ == s0.kitties@,
            self.owners@ == s0.owners@,
            self.auctions@ == s0.auctions@,
            self.ledger.wf(),
            self.ledger.spec_reserved(b.bidder) == s0.ledger.spec_reserved(b.bidder) + b.price,
            forall|w: u64|
                w != b.bidder ==> #[trigger] self.ledger.spec_reserved(w)
                    == s0.ledger.spec_reserved(w),
        ensures
            self.wf(),
    {
        crate::lookup::lemma_absent_keys(s0.bids@, bid_key(), b.id);
        crate::lookup::lemma_find_push(s0.bids@, bid_key(), b);
        assert forall|i: int|
            0 <= i < s0.bids@.len() implies crate::state::bid_pair_key()(s0.bids@[i])
            != crate::state::bid_pair_key()(b) by {
            if crate::state::bid_pair_key()(s0.bids@[i]) == crate::state::bid_pair_key()(b) {
                lemma_find_at(s0.bids@, crate::state::bid_pair_key(), i);
            }
        }
        crate::lookup::lemma_find_push(s0.bids@, crate::state::bid_pair_key(), b);
        // Bid records.
        assert forall|i: int|
            0 <= i < self.bids@.len() implies #[trigger] crate::state::bid_record_ok(
            self.kitties@,
            self.auctions@,
            self.bids@[i],
        ) by {
            if i < s0.bids@.len() {
                assert(crate::state::bid_record_ok(s0.kitties@, s0.auctions@, s0.bids@[i]));
                assert(self.bids@[i] == s0.bids@[i]);
            } else {
                assert(self.bids@[i] == b);
            }
        }
        // Auction records: no board lists the fresh bid.
        assert forall|i: int|
            0 <= i < self.auctions@.len() implies #[trigger] crate::state::auction_record_ok(
            self.kitties@,
            self.bids@,
            self.auctions@[i],
        ) by {
            let a = self.auctions@[i];
            assert(crate::state::auction_record_ok(s0.kitties@, s0.bids@, a));
            assert forall|k: int|
                0 <= k < a.topmost_bids@.len() implies (#[trigger] crate::state::bid_in(
                self.bids@,
                a.topmost_bids@[k],
            )) == crate::state::bid_in(s0.bids@, a.topmost_bids@[k]) by {
                assert(crate::state::bid_in(s0.bids@, a.topmost_bids@[k]) is Some);
                assert(a.topmost_bids@[k] != b.id);
            }
            assert forall|k: int|
                0 <= k < a.topmost_bids@.len() implies #[trigger] price_in(
                self.bids@,
                a.topmost_bids@[k],
            ) == price_in(s0.bids@, a.topmost_bids@[k]) by {
                assert(crate::state::bid_in(s0.bids@, a.topmost_bids@[k]) is Some);
            }
            assert(crate::state::leaderboard_entries_ok(self.bids@, a));
            assert(crate::state::leaderboard_sorted_ok(self.bids@, a));
        }
        // Escrow.
        assert forall|who: u64| #[trigger] self.ledger.spec_reserved(who)
            == crate::escrow::sum_prices(
            self.bids@,
            crate::state::escrow_sel(self.auctions@, who),
        ) by {
            assert(s0.ledger.spec_reserved(who) == crate::escrow::sum_prices(
                s0.bids@,
                crate::state::escrow_sel(s0.auctions@, who),
            ));
            crate::escrow::lemma_sum_push(
                s0.bids@,
                crate::state::escrow_sel(s0.auctions@, who),
                b,
            );
        }
    }

    /// Restores the invariant after raising an existing bid, provided
    /// no leaderboard lists the bid at that moment.
    proof fn lemma_bid_raise_wf(self, s0: CatAuction, bi: int, new_price: u64, now2: u64)
        requires
            s0.wf(),
            0 <= bi < s0.bids@.len(),
            new_price > s0.bids@[bi].price,
            s0.has_auction(s0.bids@[bi].auction_id),
            s0.auction_of(s0.bids@[bi].auction_id).status is Ongoing,
            forall|x: int, k: int|
                0 <= x < s0.auctions@.len() && 0 <= k
                    < s0.auctions@[x].topmost_bids@.len() ==> s0.auctions@[x].topmost_bids@[k]
                    != s0.bids@[bi].id,
            self.bids@ == s0.bids@.update(
                bi,
                Bid { price: new_price, last_update: now2, ..s0.bids@[bi] },
            ),
            self.kitties@ == s0.kitties@,
            self.owners@ == s0.owners@,
            self.auctions@ == s0.auctions@,
            self.ledger.wf(),
            self.ledger.spec_reserved(s0.bids@[bi].bidder) == s0.ledger.spec_reserved(
                s0.bids@[bi].bidder,
            ) + new_price - s0.bids@[bi].price,
            forall|w: u64|
                w != s0.bids@[bi].bidder ==> #[trigger] self.ledger.spec_reserved(w)
                    == s0.ledger.spec_reserved(w),
        ensures
            self.wf(),
    {
        let b0 = s0.bids@[bi];
        let b2 = Bid { price: new_price, last_update: now2, ..b0 };
        crate::lookup::lemma_find_update(s0.bids@, bid_key(), bi, b2);
        crate::lookup::lemma_find_update(s0.bids@, crate::state::bid_pair_key(), bi, b2);
        assert(crate::state::bid_record_ok(s0.kitties@, s0.auctions@, b0));
        assert forall|i: int|
            0 <= i < self.bids@.len() implies #[trigger] crate::state::bid_record_ok(
            self.kitties@,
            self.auctions@,
            self.bids@[i],
        ) by {
            if i != bi {
                assert(crate::state::bid_record_ok(s0.kitties@, s0.auctions@, s0.bids@[i]));
                assert(self.bids@[i] == s0.bids@[i]);
            }
        }
        // Auction records: no board lists the raised bid, so every
        // listed price reads as before.
        assert forall|i: int|
            0 <= i < self.auctions@.len() implies #[trigger] crate::state::auction_record_ok(
            self.kitties@,
            self.bids@,
            self.auctions@[i],
        ) by {
            let a = self.auctions@[i];
            assert(crate::state::auction_record_ok(s0.kitties@, s0.bids@, a));
            assert forall|k: int|
                0 <= k < a.topmost_bids@.len() implies (#[trigger] crate::state::bid_in(
                self.bids@,
                a.topmost_bids@[k],
            )) == crate::state::bid_in(s0.bids@, a.topmost_bids@[k]) by {
                assert(a.topmost_bids@[k] != b0.id);
            }
            assert forall|k: int|
                0 <= k < a.topmost_bids@.len() implies #[trigger] price_in(
                self.bids@,
                a.topmost_bids@[k],
            ) == price_in(s0.bids@, a.topmost_bids@[k]) by {
                assert(a.topmost_bids@[k] != b0.id);
            }
            assert(crate::state::leaderboard_entries_ok(self.bids@, a));
            assert(crate::state::leaderboard_sorted_ok(self.bids@, a));
        }
        // Escrow: only the raised bid's contribution moved, by the
        // raised difference.
        assert forall|who: u64| #[trigger] self.ledger.spec_reserved(who)
            == crate::escrow::sum_prices(
            self.bids@,
            crate::state::escrow_sel(self.auctions@, who),
        ) by {
            assert(s0.ledger.spec_reserved(who) == crate::escrow::sum_prices(
                s0.bids@,
                crate::state::escrow_sel(s0.auctions@, who),
            ));
            crate::escrow::lemma_sum_update(
                s0.bids@,
                crate::state::escrow_sel(s0.auctions@, who),
                bi,
                b2,
            );
        }
    }

    /// Place or raise a bid.  The kitty's owner may not bid; an opening
    /// bid must reach the base price and is escrowed in full; a raise
    /// must exceed the bidder's previous price and escrows only the
    /// difference.  A bid reaching the admission threshold enters the
    /// leaderboard; `NewBid` is emitted either way.
    pub fn bid(&mut self, bidder: u64, auction_id: u64, bid_price: u64) -> (r: Result<
        (),
        AuctionError,
    >)
        requires
            old(self).wf(),
            old(self).nonce < u64::MAX,
        ensures
            final (self).wf(),
            ({
                let a0 = old(self).auction_of(auction_id);
                let prev = old(self).spec_bidder_bid(auction_id, bidder);
                let new_id = old(self).spec_alloc_id(bidder);
                if !old(self).has_auction(auction_id) {
                    &&& r == Err::<(), AuctionError>(AuctionError::NotFound)
                    &&& *final (self) == *old(self)
                } else if old(self).kitty_of(a0.kitty_id).owner == Some(bidder) {
                    &&& r == Err::<(), AuctionError>(AuctionError::Unauthorized)
                    &&& *final (self) == *old(self)
                } else if bid_price < a0.base_price {
                    &&& r == Err::<(), AuctionError>(AuctionError::BidTooLow)
                    &&& *final (self) == *old(self)
                } else if !(a0.status is Ongoing) {
                    &&& r == Err::<(), AuctionError>(AuctionError::InvalidState)
                    &&& *final (self) == *old(self)
                } else if old(self).now >= a0.end_time {
                    &&& r == Err::<(), AuctionError>(AuctionError::InvalidState)
                    &&& *final (self) == *old(self)
                } else if prev is Some && bid_price <= prev.unwrap().price {
                    &&& r == Err::<(), AuctionError>(AuctionError::BidTooLow)
                    &&& *final (self) == *old(self)
                } else if prev is Some && old(self).ledger.spec_free(bidder) < bid_price
                    - prev.unwrap().price {
                    &&& r == Err::<(), AuctionError>(AuctionError::InsufficientFunds)
                    &&& *final (self) == *old(self)
                } else if prev is Some {
                    let b0 = prev.unwrap();
                    &&& r == Ok::<(), AuctionError>(())
                    &&& final (self).bid_success_post(*old(self), auction_id, bidder, bid_price, b0.id)
                    &&& final (self).spec_bid(b0.id) == Some(
                        (Bid { price: bid_price, last_update: old(self).now, ..b0 }),
                    )
                    &&& forall|w: u64|
                        w != b0.id ==> final (self).spec_bid(w) == old(self).spec_bid(w)
                    &&& final (self).ledger.spec_free(bidder) == old(self).ledger.spec_free(bidder)
                        - (bid_price - b0.price)
                    &&& final (self).ledger.spec_reserved(bidder) == old(self).ledger.spec_reserved(
                        bidder,
                    ) + (bid_price - b0.price)
                    &&& final (self).nonce == old(self).nonce
                } else if prev is None && old(self).has_bid(new_id) {
                    &&& r == Err::<(), AuctionError>(AuctionError::DuplicateIdentifier)
                    &&& *final (self) == *old(self)
                } else if prev is None && old(self).ledger.spec_free(bidder) < bid_price {
                    &&& r == Err::<(), AuctionError>(AuctionError::InsufficientFunds)
                    &&& *final (self) == *old(self)
                } else {
                    &&& r == Ok::<(), AuctionError>(())
                    &&& final (self).bid_success_post(*old(self), auction_id, bidder, bid_price, new_id)
                    &&& final (self).spec_bid(new_id) == Some(
                        Bid {
                            id: new_id,
                            auction_id,
                            bidder,
                            price: bid_price,
                            last_update: old(self).now,
                            status: BidStatus::Active,
                        },
                    )
                    &&& final (self).bids@ == old(self).bids@.push(
                        Bid {
                            id: new_id,
                            auction_id,
                            bidder,
                            price: bid_price,
                            last_update: old(self).now,
                            status: BidStatus::Active,
                        },
                    )
                    &&& forall|w: u64|
                        w != new_id ==> final (self).spec_bid(w) == old(self).spec_bid(w)
                    &&& final (self).ledger.spec_free(bidder) == old(self).ledger.spec_free(bidder)
                        - bid_price
                    &&& final (self).ledger.spec_reserved(bidder) == old(self).ledger.spec_reserved(
                        bidder,
                    ) + bid_price
                    &&& final (self).nonce == old(self).nonce + 1
                }
            }),
    {
        let ai: usize = match self.find_auction_idx(auction_id) {
            Some(ai) => ai,
            None => {
                return Err(AuctionError::NotFound);
            },
        };
        proof {
            assert(self.auction_record_wf(self.auctions@[ai as int]));
        }
        let kitty_id = self.auctions[ai].kitty_id;
        let ki: usize = match self.find_kitty_idx(kitty_id) {
            Some(ki) => ki,
            None => {
                proof {
                    assert(false);
                }
                0
            },
        };
        let owner_is_bidder = match self.kitties[ki].owner {
            Some(o) => o == bidder,
            None => {
                proof {
                    assert(false);
                }
                false
            },
        };
        if owner_is_bidder {
            return Err(AuctionError::Unauthorized);
        }
        let base = self.auctions[ai].base_price;
        if bid_price < base {
            return Err(AuctionError::BidTooLow);
        }
        match self.auctions[ai].status {
            AuctionStatus::Ongoing => {},
            _ => {
                return Err(AuctionError::InvalidState);
            },
        }
        let now = self.now;
        if now >= self.auctions[ai].end_time {
            return Err(AuctionError::InvalidState);
        }
        let ptt0 = self.auctions[ai].price_to_topmost;
        match self.find_bid_by_pair(auction_id, bidder) {
            Some(bi) => {
                let b0 = self.bids[bi];
                proof {
                    lemma_find_at(self.bids@, bid_key(), bi as int);
                }
                if bid_price <= b0.price {
                    return Err(AuctionError::BidTooLow);
                }
                let diff = bid_price - b0.price;
                if self.ledger.free_balance(bidder) < diff {
                    return Err(AuctionError::InsufficientFunds);
                }
                // Detach the bid's board entry first, so that raising
                // its price cannot leave a leaderboard unsorted.
                let listed = board_lists(&self.auctions[ai].topmost_bids, b0.id);
                if listed {
                    let ghost s0 = *self;
                    let nb = board_remove(&self.auctions[ai].topmost_bids, b0.id);
                    proof {
                        let tb = s0.auctions@[ai as int].topmost_bids@;
                        lemma_board_without_elem(tb, b0.id);
                        lemma_board_without_sorted(self.bids@, tb, b0.id);
                        lemma_board_without_distinct(tb, b0.id);
                        lemma_board_without_present(tb, b0.id);
                        lemma_find_update(
                            self.auctions@,
                            auction_key(),
                            ai as int,
                            Auction {
                                topmost_bids: nb,
                                price_to_topmost: base,
                                ..self.auctions@[ai as int]
                            },
                        );
                    }
                    self.auctions[ai].topmost_bids = nb;
                    self.auctions[ai].price_to_topmost = base;
                    proof {
                        let a2 = self.auctions@[ai as int];
                        assert(self.auctions@ =~= s0.auctions@.update(ai as int, a2));
                        assert forall|i2: int|
                            0 <= i2 < a2.topmost_bids@.len() implies (
                        #[trigger] crate::state::bid_in(s0.bids@, a2.topmost_bids@[i2])) is Some
                            && crate::state::bid_in(
                            s0.bids@,
                            a2.topmost_bids@[i2],
                        ).unwrap().auction_id == a2.id by {
                            let k2 = choose|k2: int|
                                0 <= k2 < s0.auctions@[ai as int].topmost_bids@.len()
                                    && s0.auctions@[ai as int].topmost_bids@[k2]
                                    == a2.topmost_bids@[i2];
                            assert(crate::state::bid_in(
                                s0.bids@,
                                s0.auctions@[ai as int].topmost_bids@[k2],
                            ) is Some);
                        }
                        assert(crate::state::leaderboard_entries_ok(s0.bids@, a2));
                        assert(crate::state::leaderboard_sorted_ok(s0.bids@, a2));
                        self.lemma_auction_update_preserves_wf(s0, ai as int, a2);
                    }
                }
                let ghost s1 = *self;
                proof {
                    lemma_find_at(s1.bids@, bid_key(), bi as int);
                    lemma_find_at(s1.bids@, crate::state::bid_pair_key(), bi as int);
                }
                self.bids[bi].price = bid_price;
                self.bids[bi].last_update = now;
                let ok = self.ledger.reserve(bidder, diff);
                proof {
                    assert(ok);
                    assert(self.bids@ =~= s1.bids@.update(
                        bi as int,
                        Bid { price: bid_price, last_update: now, ..b0 },
                    ));
                    assert forall|x: int, k: int|
                        0 <= x < s1.auctions@.len() && 0 <= k
                            < s1.auctions@[x].topmost_bids@.len() implies s1.auctions@[x].topmost_bids@[k]
                        != b0.id by {
                        assert(crate::state::auction_record_ok(
                            s1.kitties@,
                            s1.bids@,
                            s1.auctions@[x],
                        ));
                        assert(crate::state::bid_in(
                            s1.bids@,
                            s1.auctions@[x].topmost_bids@[k],
                        ) is Some);
                        if x == ai as int {
                            if listed {
                                let tb = old(self).auctions@[ai as int].topmost_bids@;
                                assert(s1.auctions@[x].topmost_bids@ == board_without(tb, b0.id));
                            } else {
                                assert(s1.auctions@[x].topmost_bids@[k] != b0.id);
                            }
                        } else {
                            if s1.auctions@[x].topmost_bids@[k] == b0.id {
                                assert(crate::state::bid_in(s1.bids@, b0.id) == Some(b0));
                                assert(s1.auctions@[x].id != auction_id);
                            }
                        }
                    }
                    self.lemma_bid_raise_wf(s1, bi as int, bid_price, now);
                    lemma_find_update(
                        s1.bids@,
                        bid_key(),
                        bi as int,
                        Bid { price: bid_price, last_update: now, ..b0 },
                    );
                    lemma_find_update(
                        s1.bids@,
                        crate::state::bid_pair_key(),
                        bi as int,
                        Bid { price: bid_price, last_update: now, ..b0 },
                    );
                }
                let ghost s2 = *self;
                if bid_price >= ptt0 {
                    self.update_auction_topmost_bids(auction_id, b0.id);
                    proof {
                        let a_orig = old(self).auction_of(auction_id);
                        let a_mid = s2.auction_of(auction_id);
                        assert(s2.bid_of(b0.id).price == bid_price);
                        assert(a_mid.price_to_topmost <= bid_price);
                        lemma_board_without_elem(a_orig.topmost_bids@, b0.id);
                        if listed {
                            lemma_board_without_absent(a_mid.topmost_bids@, b0.id);
                        }
                        assert(board_without(a_mid.topmost_bids@, b0.id) == board_without(
                            a_orig.topmost_bids@,
                            b0.id,
                        ));
                        assert(new_topmost(s2.bids@, a_mid, b0.id) == new_topmost(
                            s2.bids@,
                            a_orig,
                            b0.id,
                        ));
                        assert(new_ptt(s2.bids@, a_mid, b0.id) == new_ptt(
                            s2.bids@,
                            a_orig,
                            b0.id,
                        ));
                    }
                } else {
                    proof {
                        // A listed bid always reaches the threshold, so
                        // the board was never touched.
                        if listed {
                            let s0 = *old(self);
                            let a0 = s0.auctions@[ai as int];
                            let tb = a0.topmost_bids@;
                            let k = choose|k: int| 0 <= k < tb.len() && tb[k] == b0.id;
                            assert(crate::state::auction_record_ok(s0.kitties@, s0.bids@, a0));
                            assert(crate::state::bid_in(s0.bids@, tb[k]) == Some(b0));
                            assert(price_in(s0.bids@, tb[k]) == b0.price);
                            if tb.len() < TOPMOST_BIDS_LEN as int {
                                assert(ptt0 == a0.base_price);
                            } else {
                                let p3 = price_in(s0.bids@, tb[TOPMOST_BIDS_LEN as int - 1]);
                                assert(price_in(s0.bids@, tb[k]) >= p3);
                                assert(ptt0 == crate::state::price_above(p3));
                            }
                            assert(false);
                        }
                    }
                }
                let ghost s3 = *self;
                self.events.push(Event::NewBid(auction_id, bid_price));
                proof {
                    let s0 = *old(self);
                    let a0 = s0.auction_of(auction_id);
                    let b2 = Bid { price: bid_price, last_update: now, ..b0 };
                    assert(self.spec_bid(b0.id) == Some(b2));
                    assert(self.spec_bidder_bid(auction_id, bidder) == Some(b2));
                    assert forall|w: u64|
                        w != b0.id implies #[trigger] self.spec_bid(w) == s0.spec_bid(w) by {
                        assert(find_by(s2.bids@, bid_key(), w) == find_by(s1.bids@, bid_key(), w));
                    }
                    assert forall|w: u64|
                        w != auction_id implies #[trigger] self.spec_auction(w) == s0.spec_auction(
                        w,
                    ) by {
                        if bid_price >= ptt0 {
                            assert(s3.spec_auction(w) == s2.spec_auction(w));
                        }
                        if listed {
                            assert(s1.spec_auction(w) == s0.spec_auction(w));
                        }
                    }
                    assert forall|w: u64|
                        w != bidder implies #[trigger] self.ledger.spec_free(w)
                        == s0.ledger.spec_free(w) && self.ledger.spec_reserved(w)
                        == s0.ledger.spec_reserved(w) by {
                        assert(s2.ledger.spec_free(w) == s1.ledger.spec_free(w));
                        assert(s2.ledger.spec_reserved(w) == s1.ledger.spec_reserved(w));
                    }
                    assert(self.events@ =~= s0.events@.push(Event::NewBid(auction_id, bid_price)));
                    if bid_price >= a0.price_to_topmost {
                        assert(self.spec_auction(auction_id) matches Some(a2) && a2 == (Auction {
                            topmost_bids: a2.topmost_bids,
                            price_to_topmost: new_ptt(self.bids@, a0, b0.id),
                            ..a0
                        }) && a2.topmost_bids@ == new_topmost(self.bids@, a0, b0.id));
                    } else {
                        assert(self.spec_auction(auction_id) == s0.spec_auction(auction_id));
                    }
                    assert(final (self).bid_success_post(s0, auction_id, bidder, bid_price, b0.id));
                }
                Ok(())
            },
            None => {
                let new_id = self.gen_random_hash(bidder);
                if self.find_bid_idx(new_id).is_some() {
                    return Err(AuctionError::DuplicateIdentifier);
                }
                if self.ledger.free_balance(bidder) < bid_price {
                    return Err(AuctionError::InsufficientFunds);
                }
                self.nonce = self.nonce + 1;
                let b = Bid {
                    id: new_id,
                    auction_id,
                    bidder,
                    price: bid_price,
                    last_update: now,
                    status: BidStatus::Active,
                };
                let ghost s1 = *self;
                self.bids.push(b);
                let ok = self.ledger.reserve(bidder, bid_price);
                proof {
                    assert(ok);
                    self.lemma_bid_new_wf(s1, b);
                    crate::lookup::lemma_absent_keys(s1.bids@, bid_key(), new_id);
                    crate::lookup::lemma_find_push(s1.bids@, bid_key(), b);
                }
                let ghost s2 = *self;
                if bid_price >= ptt0 {
                    self.update_auction_topmost_bids(auction_id, new_id);
                    proof {
                        let a_orig = old(self).auction_of(auction_id);
                        assert(s2.auction_of(auction_id) == a_orig);
                        assert(s2.bid_of(new_id) == Some(b).unwrap());
                    }
                }
                let ghost s3 = *self;
                self.events.push(Event::NewBid(auction_id, bid_price));
                proof {
                    let s0 = *old(self);
                    let a0 = s0.auction_of(auction_id);
                    assert(self.spec_bid(new_id) == Some(b));
                    assert(self.spec_bidder_bid(auction_id, bidder) == Some(b)) by {
                        crate::lookup::lemma_absent_keys(
                            s1.bids@,
                            crate::state::bid_pair_key(),
                            (auction_id, bidder),
                        );
                        crate::lookup::lemma_find_push(
                            s1.bids@,
                            crate::state::bid_pair_key(),
                            b,
                        );
                    }
                    assert forall|w: u64|
                        w != new_id implies #[trigger] self.spec_bid(w) == s0.spec_bid(w) by {
                        assert(find_by(s2.bids@, bid_key(), w) == find_by(s1.bids@, bid_key(), w));
                    }
                    assert forall|w: u64|
                        w != auction_id implies #[trigger] self.spec_auction(w) == s0.spec_auction(
                        w,
                    ) by {
                        if bid_price >= ptt0 {
                            assert(s3.spec_auction(w) == s2.spec_auction(w));
                        }
                    }
                    assert forall|w: u64|
                        w != bidder implies #[trigger] self.ledger.spec_free(w)
                        == s0.ledger.spec_free(w) && self.ledger.spec_reserved(w)
                        == s0.ledger.spec_reserved(w) by {
                        assert(s2.ledger.spec_free(w) == s1.ledger.spec_free(w));
                        assert(s2.ledger.spec_reserved(w) == s1.ledger.spec_reserved(w));
                    }
                    assert(self.events@ =~= s0.events@.push(Event::NewBid(auction_id, bid_price)));
                    if bid_price >= a0.price_to_topmost {
                        assert(self.spec_auction(auction_id) matches Some(a2) && a2 == (Auction {
                            topmost_bids: a2.topmost_bids,
                            price_to_topmost: new_ptt(self.bids@, a0, new_id),
                            ..a0
                        }) && a2.topmost_bids@ == new_topmost(self.bids@, a0, new_id));
                    } else {
                        assert(self.spec_auction(auction_id) == s0.spec_auction(auction_id));
                    }
                    assert(final (self).bid_success_post(s0, auction_id, bidder, bid_price, new_id));
                }
                Ok(())
            },
        }
    }

    /// What both successful bid paths promise of the leaderboard, the
    /// other tables and the emitted notification.
    pub open spec fn bid_success_post(
        self,
        s0: CatAuction,
        auction_id: u64,
        bidder: u64,
        bid_price: u64,
        bid_id: u64,
    ) -> bool {
        let a0 = s0.auction_of(auction_id);
        &&& (if bid_price >= a0.price_to_topmost {
            &&& self.spec_auction(auction_id) matches Some(a2) && a2 == (Auction {
                topmost_bids: a2.topmost_bids,
                price_to_topmost: new_ptt(self.bids@, a0, bid_id),
                ..a0
            }) && a2.topmost_bids@ == new_topmost(self.bids@, a0, bid_id)
        } else {
            self.spec_auction(auction_id) == s0.spec_auction(auction_id)
        })
        &&& forall|w: u64| w != auction_id ==> self.spec_auction(w) == s0.spec_auction(w)
        &&& self.spec_bidder_bid(auction_id, bidder) == self.spec_bid(bid_id)
        &&& self.kitties == s0.kitties
        &&& self.owners == s0.owners
        &&& forall|w: u64|
            w != bidder ==> #[trigger] self.ledger.spec_free(w) == s0.ledger.spec_free(w)
                && self.ledger.spec_reserved(w) == s0.ledger.spec_reserved(w)
        &&& self.events@ == s0.events@.push(Event::NewBid(auction_id, bid_price))
        &&& self.now == s0.now
        &&& self.seed == s0.seed
    }
}

} // verus!
