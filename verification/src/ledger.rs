//! The account ledger backing the engine's escrow.
//!
//! Each account carries a free and a reserved (escrowed) balance.  The
//! ledger is overflow-safe: an account's total balance (free plus
//! reserved) never exceeds `u64::MAX`, `reserve` refuses a hold that the
//! free balance cannot cover, and `transfer` refuses a payment that would
//! overflow the recipient's total balance.  An account that was never
//! touched reads as zero balances.

use vstd::prelude::*;

verus! {

/// One account: a free balance the holder may spend, and a reserved
/// balance held in escrow.
#[derive(Clone, Copy, PartialEq, Eq, Structural, Debug)]
pub struct Account {
    pub id: u64,
    pub free: u64,
    pub reserved: u64,
}

/// The ledger: one entry per account ever touched.
#[derive(Clone, Debug)]
pub struct Ledger {
    pub accounts: Vec<Account>,
}

/// No two entries describe the same account.
pub open spec fn accounts_unique(s: Seq<Account>) -> bool {
    forall|i: int, j: int| 0 <= i < j < s.len() ==> s[i].id != s[j].id
}

/// Free balance of `who` in `s`; zero when `who` has no entry.
pub open spec fn acct_free(s: Seq<Account>, who: u64) -> u64
    decreases s.len(),
{
    if s.len() == 0 {
        0
    } else if s.last().id == who {
        s.last().free
    } else {
        acct_free(s.drop_last(), who)
    }
}

/// Reserved balance of `who` in `s`; zero when `who` has no entry.
pub open spec fn acct_reserved(s: Seq<Account>, who: u64) -> u64
    decreases s.len(),
{
    if s.len() == 0 {
        0
    } else if s.last().id == who {
        s.last().reserved
    } else {
        acct_reserved(s.drop_last(), who)
    }
}

/// The smaller of two balances.
pub open spec fn min64(a: u64, b: u64) -> u64 {
    if a <= b {
        a
    } else {
        b
    }
}

impl Ledger {
    /// Entries are unique and every account's total balance fits in `u64`.
    pub open spec fn wf(self) -> bool {
        &&& accounts_unique(self.accounts@)
        &&& forall|i: int|
            0 <= i < self.accounts@.len() ==> self.accounts@[i].free + self.accounts@[i].reserved
                <= u64::MAX
    }

    /// Free balance of `who`.
    pub open spec fn spec_free(self, who: u64) -> u64 {
        acct_free(self.accounts@, who)
    }

    /// Reserved balance of `who`.
    pub open spec fn spec_reserved(self, who: u64) -> u64 {
        acct_reserved(self.accounts@, who)
    }
}

/// A unique entry holding `who` decides both balance lookups.
pub proof fn lemma_acct_at(s: Seq<Account>, i: int, who: u64)
    requires
        accounts_unique(s),
        0 <= i < s.len(),
        s[i].id == who,
    ensures
        acct_free(s, who) == s[i].free,
        acct_reserved(s, who) == s[i].reserved,
    decreases s.len(),
{
    if i == s.len() - 1 {
    } else {
        assert(s.last().id != who);
        assert(accounts_unique(s.drop_last()));
        lemma_acct_at(s.drop_last(), i, who);
    }
}

/// An account without an entry reads as zero balances.
pub proof fn lemma_acct_absent(s: Seq<Account>, who: u64)
    requires
        forall|i: int| 0 <= i < s.len() ==> s[i].id != who,
    ensures
        acct_free(s, who) == 0,
        acct_reserved(s, who) == 0,
    decreases s.len(),
{
    if s.len() > 0 {
        lemma_acct_absent(s.drop_last(), who);
    }
}

/// Replacing the entry of one account changes that account's balances to
/// the new entry's and leaves every other account's balances alone.
pub proof fn lemma_acct_update(s: Seq<Account>, i: int, a2: Account)
    requires
        accounts_unique(s),
        0 <= i < s.len(),
        a2.id == s[i].id,
    ensures
        accounts_unique(s.update(i, a2)),
        acct_free(s.update(i, a2), a2.id) == a2.free,
        acct_reserved(s.update(i, a2), a2.id) == a2.reserved,
        forall|w: u64|
            w != a2.id ==> acct_free(s.update(i, a2), w) == acct_free(s, w) && acct_reserved(
                s.update(i, a2),
                w,
            ) == acct_reserved(s, w),
    decreases s.len(),
{
    let s2 = s.update(i, a2);
    if i == s.len() - 1 {
        assert(s2.last() == a2);
        assert(s2.drop_last() =~= s.drop_last());
        assert forall|w: u64|
            w != a2.id implies acct_free(s2, w) == acct_free(s, w) && acct_reserved(s2, w)
            == acct_reserved(s, w) by {
            assert(acct_free(s2, w) == acct_free(s2.drop_last(), w));
            assert(acct_free(s, w) == acct_free(s.drop_last(), w));
            assert(acct_reserved(s2, w) == acct_reserved(s2.drop_last(), w));
            assert(acct_reserved(s, w) == acct_reserved(s.drop_last(), w));
        }
    } else {
        assert(s2.last() == s.last());
        assert(accounts_unique(s.drop_last()));
        assert(s2.drop_last() =~= s.drop_last().update(i, a2));
        lemma_acct_update(s.drop_last(), i, a2);
        assert(s.last().id != a2.id);
        assert forall|w: u64|
            w != a2.id implies acct_free(s2, w) == acct_free(s, w) && acct_reserved(s2, w)
            == acct_reserved(s, w) by {
            if s.last().id != w {
                assert(acct_free(s2, w) == acct_free(s2.drop_last(), w));
                assert(acct_free(s, w) == acct_free(s.drop_last(), w));
                assert(acct_reserved(s2, w) == acct_reserved(s2.drop_last(), w));
                assert(acct_reserved(s, w) == acct_reserved(s.drop_last(), w));
            }
        }
    }
}

/// Appending an entry for a fresh account sets that account's balances
/// and leaves every other account's balances alone.
pub proof fn lemma_acct_push(s: Seq<Account>, a: Account)
    requires
        accounts_unique(s),
        forall|i: int| 0 <= i < s.len() ==> s[i].id != a.id,
    ensures
        accounts_unique(s.push(a)),
        acct_free(s.push(a), a.id) == a.free,
        acct_reserved(s.push(a), a.id) == a.reserved,
        forall|w: u64|
            w != a.id ==> acct_free(s.push(a), w) == acct_free(s, w) && acct_reserved(s.push(a), w)
                == acct_reserved(s, w),
{
    let s2 = s.push(a);
    assert(s2.last() == a);
    assert(s2.drop_last() =~= s);
    assert forall|w: u64| w != a.id implies acct_free(s2, w) == acct_free(s, w) && acct_reserved(
        s2,
        w,
    ) == acct_reserved(s, w) by {
        assert(acct_free(s2, w) == acct_free(s2.drop_last(), w));
    }
}

/// In a well-formed ledger, any account's total balance fits in `u64`.
pub proof fn lemma_wf_sum(l: Ledger, who: u64)
    requires
        l.wf(),
    ensures
        l.spec_free(who) + l.spec_reserved(who) <= u64::MAX,
{
    lemma_wf_sum_rec(l.accounts@, who);
}

proof fn lemma_wf_sum_rec(s: Seq<Account>, who: u64)
    requires
        forall|i: int| 0 <= i < s.len() ==> s[i].free + s[i].reserved <= u64::MAX,
    ensures
        acct_free(s, who) + acct_reserved(s, who) <= u64::MAX,
    decreases s.len(),
{
    if s.len() > 0 && s.last().id != who {
        lemma_wf_sum_rec(s.drop_last(), who);
    }
}

impl Ledger {
    /// An empty ledger: every account reads as zero balances.
    pub fn new() -> (r: Ledger)
        ensures
            r.wf(),
            forall|w: u64| r.spec_free(w) == 0 && r.spec_reserved(w) == 0,
    {
        let r = Ledger { accounts: Vec::new() };
        proof {
            assert forall|w: u64| r.spec_free(w) == 0 && r.spec_reserved(w) == 0 by {
                lemma_acct_absent(r.accounts@, w);
            }
        }
        r
    }

    /// Index of `who`'s entry, if one exists.
    fn find(&self, who: u64) -> (r: Option<usize>)
        ensures
            match r {
                Some(i) => i < self.accounts@.len() && self.accounts@[i as int].id == who,
                None => forall|i: int| 0 <= i < self.accounts@.len() ==> self.accounts@[i].id != who,
            },
    {
        let mut i: usize = 0;
        while i < self.accounts.len()
            invariant
                i <= self.accounts@.len(),
                forall|j: int| 0 <= j < i ==> self.accounts@[j].id != who,
            decreases self.accounts@.len() - i,
        {
            if self.accounts[i].id == who {
                return Some(i);
            }
            i += 1;
        }
        None
    }

    /// Free balance of `who`.
    pub fn free_balance(&self, who: u64) -> (r: u64)
        requires
            self.wf(),
        ensures
            r == self.spec_free(who),
    {
        match self.find(who) {
            Some(i) => {
                proof {
                    lemma_acct_at(self.accounts@, i as int, who);
                }
                self.accounts[i].free
            },
            None => {
                proof {
                    lemma_acct_absent(self.accounts@, who);
                }
                0
            },
        }
    }

    /// Reserved (escrowed) balance of `who`.
    pub fn reserved_balance(&self, who: u64) -> (r: u64)
        requires
            self.wf(),
        ensures
            r == self.spec_reserved(who),
    {
        match self.find(who) {
            Some(i) => {
                proof {
                    lemma_acct_at(self.accounts@, i as int, who);
                }
                self.accounts[i].reserved
            },
            None => {
                proof {
                    lemma_acct_absent(self.accounts@, who);
                }
                0
            },
        }
    }

    /// Set the free balance of `who`, for seeding initial balances.
    pub fn set_free_balance(&mut self, who: u64, amount: u64)
        requires
            old(self).wf(),
            amount + old(self).spec_reserved(who) <= u64::MAX,
        ensures
            final (self).wf(),
            final (self).spec_free(who) == amount,
            final (self).spec_reserved(who) == old(self).spec_reserved(who),
            forall|w: u64|
                w != who ==> final (self).spec_free(w) == old(self).spec_free(w)
                    && final (self).spec_reserved(w) == old(self).spec_reserved(w),
    {
        match self.find(who) {
            Some(i) => {
                proof {
                    lemma_acct_at(self.accounts@, i as int, who);
                    lemma_acct_update(
                        self.accounts@,
                        i as int,
                        Account { free: amount, ..self.accounts@[i as int] },
                    );
                }
                self.accounts[i].free = amount;
            },
            None => {
                proof {
                    lemma_acct_absent(self.accounts@, who);
                    lemma_acct_push(self.accounts@, Account { id: who, free: amount, reserved: 0 });
                }
                self.accounts.push(Account { id: who, free: amount, reserved: 0 });
            },
        }
    }

    /// Move `amount` from `who`'s free balance into escrow.  Refused, with
    /// no change, when the free balance cannot cover the hold.
    pub fn reserve(&mut self, who: u64, amount: u64) -> (ok: bool)
        requires
            old(self).wf(),
        ensures
            final (self).wf(),
            ok == (old(self).spec_free(who) >= amount),
            ok ==> {
                &&& final (self).spec_free(who) == old(self).spec_free(who) - amount
                &&& final (self).spec_reserved(who) == old(self).spec_reserved(who) + amount
                &&& forall|w: u64|
                    w != who ==> final (self).spec_free(w) == old(self).spec_free(w)
                        && final (self).spec_reserved(w) == old(self).spec_reserved(w)
            },
            !ok ==> *final (self) == *old(self),
    {
        match self.find(who) {
            Some(i) => {
                proof {
                    lemma_acct_at(self.accounts@, i as int, who);
                }
                let a = self.accounts[i];
                if a.free >= amount {
                    let a2 = Account {
                        id: who,
                        free: a.free - amount,
                        reserved: a.reserved + amount,
                    };
                    proof {
                        lemma_acct_update(self.accounts@, i as int, a2);
                    }
                    self.accounts[i] = a2;
                    true
                } else {
                    false
                }
            },
            None => {
                proof {
                    lemma_acct_absent(self.accounts@, who);
                }
                amount == 0
            },
        }
    }

    /// Release up to `amount` of `who`'s escrow back to the free balance;
    /// the amount actually moved is capped by what is reserved.
    pub fn unreserve(&mut self, who: u64, amount: u64)
        requires
            old(self).wf(),
        ensures
            final (self).wf(),
            final (self).spec_free(who) == old(self).spec_free(who) + min64(
                amount,
                old(self).spec_reserved(who),
            ),
            final (self).spec_reserved(who) == old(self).spec_reserved(who) - min64(
                amount,
                old(self).spec_reserved(who),
            ),
            forall|w: u64|
                w != who ==> final (self).spec_free(w) == old(self).spec_free(w)
                    && final (self).spec_reserved(w) == old(self).spec_reserved(w),
    {
        match self.find(who) {
            Some(i) => {
                proof {
                    lemma_acct_at(self.accounts@, i as int, who);
                }
                let a = self.accounts[i];
                let moved = if amount <= a.reserved {
                    amount
                } else {
                    a.reserved
                };
                let a2 = Account { id: who, free: a.free + moved, reserved: a.reserved - moved };
                proof {
                    lemma_acct_update(self.accounts@, i as int, a2);
                }
                self.accounts[i] = a2;
            },
            None => {
                proof {
                    lemma_acct_absent(self.accounts@, who);
                }
            },
        }
    }

    /// Pay `amount` from `from`'s free balance into `to`'s free balance.
    /// Refused, with no change, when the free balance cannot cover the
    /// payment or the recipient's total balance would overflow.
    pub fn transfer(&mut self, from: u64, to: u64, amount: u64) -> (ok: bool)
        requires
            old(self).wf(),
        ensures
            final (self).wf(),
            ok == (old(self).spec_free(from) >= amount && (from == to || old(self).spec_free(to)
                + old(self).spec_reserved(to) + amount <= u64::MAX)),
            ok && from != to ==> {
                &&& final (self).spec_free(from) == old(self).spec_free(from) - amount
                &&& final (self).spec_free(to) == old(self).spec_free(to) + amount
                &&& final (self).spec_reserved(from) == old(self).spec_reserved(from)
                &&& final (self).spec_reserved(to) == old(self).spec_reserved(to)
                &&& forall|w: u64|
                    w != from && w != to ==> final (self).spec_free(w) == old(self).spec_free(w)
                        && final (self).spec_reserved(w) == old(self).spec_reserved(w)
            },
            ok && from == to ==> *final (self) == *old(self),
            !ok ==> *final (self) == *old(self),
    {
        let src_free = self.free_balance(from);
        if src_free < amount {
            return false;
        }
        if from == to {
            return true;
        }
        let dst_free = self.free_balance(to);
        let dst_reserved = self.reserved_balance(to);
        if amount > u64::MAX - dst_free || dst_free + amount > u64::MAX - dst_reserved {
            return false;
        }
        // Debit the sender.
        match self.find(from) {
            Some(i) => {
                proof {
                    lemma_acct_at(self.accounts@, i as int, from);
                    lemma_acct_update(
                        self.accounts@,
                        i as int,
                        Account { free: (src_free - amount) as u64, ..self.accounts@[i as int] },
                    );
                }
                self.accounts[i].free = src_free - amount;
            },
            None => {
                // `from` has no entry, so `src_free == 0` and `amount == 0`.
                proof {
                    lemma_acct_absent(self.accounts@, from);
                }
            },
        }
        // Credit the recipient.
        match self.find(to) {
            Some(j) => {
                proof {
                    lemma_acct_at(self.accounts@, j as int, to);
                    lemma_acct_update(
                        self.accounts@,
                        j as int,
                        Account { free: (dst_free + amount) as u64, ..self.accounts@[j as int] },
                    );
                }
                self.accounts[j].free = dst_free + amount;
            },
            None => {
                proof {
                    lemma_acct_absent(self.accounts@, to);
                    lemma_acct_push(
                        self.accounts@,
                        Account { id: to, free: (dst_free + amount) as u64, reserved: 0 },
                    );
                }
                self.accounts.push(Account { id: to, free: dst_free + amount, reserved: 0 });
            },
        }
        true
    }
}

} // verus!
