//! Summed bid prices, for the escrow accounting invariant.
//!
//! A bidder's reserved balance always equals the summed prices of their
//! recorded bids on ongoing auctions.  `sum_prices` is that sum over an
//! arbitrary selection of bids; the lemmas here say how it moves when a
//! bid is recorded, raised, walked over at settlement, or when its
//! auction's status changes.

use vstd::prelude::*;

use crate::types::Bid;

verus! {

/// Summed prices of the bids of `s` that `sel` selects.
pub open spec fn sum_prices(s: Seq<Bid>, sel: spec_fn(Bid) -> bool) -> int
    decreases s.len(),
{
    if s.len() == 0 {
        0
    } else {
        (if sel(s[0]) {
            s[0].price as int
        } else {
            0
        }) + sum_prices(s.skip(1), sel)
    }
}

/// Selections that agree on every bid of `s` sum alike.
pub proof fn lemma_sum_pointwise(s: Seq<Bid>, sel1: spec_fn(Bid) -> bool, sel2: spec_fn(Bid) -> bool)
    requires
        forall|i: int| 0 <= i < s.len() ==> sel1(s[i]) == sel2(s[i]),
    ensures
        sum_prices(s, sel1) == sum_prices(s, sel2),
    decreases s.len(),
{
    if s.len() > 0 {
        assert(forall|i: int| 0 <= i < s.skip(1).len() ==> s.skip(1)[i] == s[i + 1]);
        lemma_sum_pointwise(s.skip(1), sel1, sel2);
    }
}

/// Appending a bid adds its contribution.
pub proof fn lemma_sum_push(s: Seq<Bid>, sel: spec_fn(Bid) -> bool, b: Bid)
    ensures
        sum_prices(s.push(b), sel) == sum_prices(s, sel) + (if sel(b) {
            b.price as int
        } else {
            0
        }),
    decreases s.len(),
{
    if s.len() == 0 {
        assert(s.push(b)[0] == b);
        assert(s.push(b).skip(1) =~= Seq::<Bid>::empty());
        assert(sum_prices(s.push(b).skip(1), sel) == 0);
        assert(sum_prices(s, sel) == 0);
        assert(sum_prices(s.push(b), sel) == (if sel(b) { b.price as int } else { 0 }));
    } else {
        assert(s.push(b)[0] == s[0]);
        assert(s.push(b).skip(1) =~= s.skip(1).push(b));
        lemma_sum_push(s.skip(1), sel, b);
        assert(sum_prices(s, sel) == (if sel(s[0]) {
            s[0].price as int
        } else {
            0
        }) + sum_prices(s.skip(1), sel));
        assert(sum_prices(s.push(b), sel) == (if sel(s.push(b)[0]) {
            s.push(b)[0].price as int
        } else {
            0
        }) + sum_prices(s.push(b).skip(1), sel));
    }
}

/// Replacing the bid at one index swaps its contribution.
pub proof fn lemma_sum_update(s: Seq<Bid>, sel: spec_fn(Bid) -> bool, i: int, b: Bid)
    requires
        0 <= i < s.len(),
    ensures
        sum_prices(s.update(i, b), sel) == sum_prices(s, sel) - (if sel(s[i]) {
            s[i].price as int
        } else {
            0
        }) + (if sel(b) {
            b.price as int
        } else {
            0
        }),
    decreases s.len(),
{
    let s2 = s.update(i, b);
    if i == 0 {
        assert(s2[0] == b);
        assert(s2.skip(1) =~= s.skip(1));
    } else {
        assert(s2[0] == s[0]);
        assert(s2.skip(1) =~= s.skip(1).update(i - 1, b));
        lemma_sum_update(s.skip(1), sel, i - 1, b);
        assert(s.skip(1)[i - 1] == s[i]);
    }
}

/// Walking one step: the sum over a suffix is the head's contribution
/// plus the sum over the rest.
pub proof fn lemma_sum_skip_step(s: Seq<Bid>, sel: spec_fn(Bid) -> bool, i: int)
    requires
        0 <= i < s.len(),
    ensures
        sum_prices(s.skip(i), sel) == (if sel(s[i]) {
            s[i].price as int
        } else {
            0
        }) + sum_prices(s.skip(i + 1), sel),
{
    assert(s.skip(i)[0] == s[i]);
    assert(s.skip(i).skip(1) =~= s.skip(i + 1));
}

/// A sum of prices is never negative.
pub proof fn lemma_sum_nonneg(s: Seq<Bid>, sel: spec_fn(Bid) -> bool)
    ensures
        sum_prices(s, sel) >= 0,
    decreases s.len(),
{
    if s.len() > 0 {
        lemma_sum_nonneg(s.skip(1), sel);
    }
}

/// The sum covers each selected bid's price on its own.
pub proof fn lemma_sum_elem(s: Seq<Bid>, sel: spec_fn(Bid) -> bool, i: int)
    requires
        0 <= i < s.len(),
        sel(s[i]),
    ensures
        sum_prices(s, sel) >= s[i].price,
    decreases s.len(),
{
    lemma_sum_nonneg(s.skip(1), sel);
    if i > 0 {
        assert(s.skip(1)[i - 1] == s[i]);
        lemma_sum_elem(s.skip(1), sel, i - 1);
    }
}

/// A selection hitting exactly one bid sums to that bid's price.
pub proof fn lemma_sum_single(s: Seq<Bid>, sel: spec_fn(Bid) -> bool, i: int)
    requires
        0 <= i < s.len(),
        sel(s[i]),
        forall|j: int| 0 <= j < s.len() && j != i ==> !sel(s[j]),
    ensures
        sum_prices(s, sel) == s[i].price,
    decreases s.len(),
{
    if i == 0 {
        assert(forall|j: int| 0 <= j < s.skip(1).len() ==> s.skip(1)[j] == s[j + 1]);
        lemma_sum_none(s.skip(1), sel);
    } else {
        assert(s.skip(1)[i - 1] == s[i]);
        assert(forall|j: int| 0 <= j < s.skip(1).len() ==> s.skip(1)[j] == s[j + 1]);
        lemma_sum_single(s.skip(1), sel, i - 1);
    }
}

/// Two selections that disagree exactly on one bid sum apart by that
/// bid's price.
pub proof fn lemma_sum_except_one(s: Seq<Bid>, sel1: spec_fn(Bid) -> bool, sel2: spec_fn(
    Bid,
) -> bool, i: int)
    requires
        0 <= i < s.len(),
        sel1(s[i]),
        !sel2(s[i]),
        forall|j: int| 0 <= j < s.len() && j != i ==> sel1(s[j]) == sel2(s[j]),
    ensures
        sum_prices(s, sel1) == sum_prices(s, sel2) + s[i].price,
    decreases s.len(),
{
    assert(forall|j: int| 0 <= j < s.skip(1).len() ==> s.skip(1)[j] == s[j + 1]);
    if i == 0 {
        lemma_sum_pointwise(s.skip(1), sel1, sel2);
    } else {
        assert(s.skip(1)[i - 1] == s[i]);
        lemma_sum_except_one(s.skip(1), sel1, sel2, i - 1);
    }
}

/// A narrower selection never sums to more.
pub proof fn lemma_sum_le(s: Seq<Bid>, sel1: spec_fn(Bid) -> bool, sel2: spec_fn(Bid) -> bool)
    requires
        forall|i: int| 0 <= i < s.len() && sel1(s[i]) ==> sel2(s[i]),
    ensures
        sum_prices(s, sel1) <= sum_prices(s, sel2),
    decreases s.len(),
{
    if s.len() > 0 {
        assert(forall|i: int| 0 <= i < s.skip(1).len() ==> s.skip(1)[i] == s[i + 1]);
        lemma_sum_le(s.skip(1), sel1, sel2);
    }
}

/// The empty selection sums to zero.
pub proof fn lemma_sum_none(s: Seq<Bid>, sel: spec_fn(Bid) -> bool)
    requires
        forall|i: int| 0 <= i < s.len() ==> !sel(s[i]),
    ensures
        sum_prices(s, sel) == 0,
    decreases s.len(),
{
    if s.len() > 0 {
        assert(forall|i: int| 0 <= i < s.skip(1).len() ==> s.skip(1)[i] == s[i + 1]);
        lemma_sum_none(s.skip(1), sel);
    }
}

} // verus!
