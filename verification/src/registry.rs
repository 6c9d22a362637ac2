//! The asset registry: creating kitties and keeping the per-owner dense
//! index consistent with each kitty's stored position.

use vstd::prelude::*;

use crate::lookup::{
    find_by, keys_unique, lemma_absent_keys, lemma_find_at, lemma_find_push, lemma_find_update,
};
use crate::state::{auction_key, kitty_key, owner_ids_of, owner_key, CatAuction, OwnerKitties};
use crate::types::{clone_bytes, AuctionError, Event, Kitty};

verus! {

impl CatAuction {
    /// The record that `add_kitty_to_storage` stores for `kitty`: the
    /// owner filled in, and the position set to the next free slot of
    /// that owner's index.
    pub open spec fn stored_kitty(self, kitty: Kitty, owner: Option<u64>) -> Kitty {
        match owner {
            Some(o) => Kitty {
                owner: Some(o),
                owner_pos: Some(owner_ids_of(self.owners@, o).len() as u64),
                ..kitty
            },
            None => kitty,
        }
    }

    /// Register a freshly built kitty record.  When an owner is given,
    /// the kitty is appended to that owner's dense index and its
    /// `owner` and `owner_pos` fields are set accordingly.
    pub(crate) fn add_kitty_to_storage(&mut self, kitty: Kitty, owner: Option<u64>)
        requires
            old(self).wf(),
            !old(self).has_kitty(kitty.id),
            kitty.owner is None,
            kitty.owner_pos is None,
            !kitty.in_auction,
        ensures
            final (self).wf(),
            final (self).kitties@ == old(self).kitties@.push(
                old(self).stored_kitty(kitty, owner),
            ),
            owner matches Some(o) ==> final (self).spec_owner_ids(o) == old(self).spec_owner_ids(
                o,
            ).push(kitty.id) && forall|w: u64|
                w != o ==> final (self).spec_owner_ids(w) == old(self).spec_owner_ids(w),
            owner is None ==> final (self).owners == old(self).owners,
            final (self).auctions == old(self).auctions,
            final (self).bids == old(self).bids,
            final (self).ledger == old(self).ledger,
            final (self).events == old(self).events,
            final (self).nonce == old(self).nonce,
            final (self).now == old(self).now,
            final (self).seed == old(self).seed,
    {
        proof {
            lemma_absent_keys(self.kitties@, kitty_key(), kitty.id);
        }
        let mut k = kitty;
        match owner {
            Some(o) => {
                let j: usize = match self.find_owner_idx(o) {
                    Some(j) => j,
                    None => {
                        let ghost owners0 = self.owners@;
                        let entry = OwnerKitties { owner: o, kitty_ids: Vec::new() };
                        proof {
                            lemma_absent_keys(owners0, owner_key(), o);
                            lemma_find_push(owners0, owner_key(), entry);
                        }
                        self.owners.push(entry);
                        self.owners.len() - 1
                    },
                };
                let ghost owners1 = self.owners@;
                proof {
                    // The owner table reads as before: a pushed entry is
                    // empty, exactly what an absent owner read as.
                    assert(keys_unique(owners1, owner_key()));
                    assert(find_by(owners1, owner_key(), o) == Some(owners1[j as int]));
                    assert forall|w: u64| #[trigger] owner_ids_of(owners1, w) == owner_ids_of(
                        old(self).owners@,
                        w,
                    ) by {
                        if w != o {
                        } else {
                            assert(owner_ids_of(owners1, o) =~= owner_ids_of(
                                old(self).owners@,
                                o,
                            ));
                        }
                    }
                }
                let pos = self.owners[j].kitty_ids.len();
                k.owner = Some(o);
                k.owner_pos = Some(pos as u64);
                let ghost entry2 = OwnerKitties {
                    owner: o,
                    kitty_ids: self.owners@[j as int].kitty_ids,
                };
                proof {
                    lemma_find_update(
                        owners1,
                        owner_key(),
                        j as int,
                        OwnerKitties {
                            owner: o,
                            kitty_ids: self.owners@[j as int].kitty_ids,
                        },
                    );
                }
                self.owners[j].kitty_ids.push(k.id);
                let ghost owners2 = self.owners@;
                proof {
                    assert(owners2[j as int].owner == o);
                    assert(owners2[j as int].kitty_ids@ =~= owners1[j as int].kitty_ids@.push(
                        k.id,
                    ));
                    assert(owners2 =~= owners1.update(j as int, owners2[j as int]));
                    lemma_find_update(owners1, owner_key(), j as int, owners2[j as int]);
                    assert(owner_ids_of(owners2, o) == owner_ids_of(old(self).owners@, o).push(
                        k.id,
                    ));
                    assert forall|w: u64|
                        w != o implies #[trigger] owner_ids_of(owners2, w) == owner_ids_of(
                        old(self).owners@,
                        w,
                    ) by {}
                }
                proof {
                    lemma_find_push(self.kitties@, kitty_key(), k);
                }
                self.kitties.push(k);
                proof {
                    self.lemma_add_kitty_restores_wf(*old(self), k, o, j as int);
                }
            },
            None => {
                proof {
                    lemma_find_push(self.kitties@, kitty_key(), k);
                }
                self.kitties.push(k);
                proof {
                    let s0 = *old(self);
                    let s3 = *self;
                    assert forall|i: int|
                        0 <= i < s3.kitties@.len() implies #[trigger] crate::state::kitty_record_ok(
                        s3.owners@,
                        s3.kitties@[i],
                    ) by {
                        if i < s0.kitties@.len() {
                            assert(crate::state::kitty_record_ok(s0.owners@, s0.kitties@[i]));
                            assert(s3.kitties@[i] == s0.kitties@[i]);
                        }
                    }
                    assert forall|j: int, p: int|
                        0 <= j < self.owners@.len() && 0 <= p
                            < self.owners@[j].kitty_ids@.len() implies (
                    #[trigger] self.owners@[j].kitty_ids@[p]) != k.id
                        && crate::state::owner_slot_ok(
                        s0.kitties@,
                        self.owners@[j].owner,
                        p,
                        self.owners@[j].kitty_ids@[p],
                    ) by {
                        assert(crate::state::owner_slot_ok(
                            s0.kitties@,
                            s0.owners@[j].owner,
                            p,
                            s0.owners@[j].kitty_ids@[p],
                        ));
                    }
                    self.lemma_tables_after_kitty_push(s0, k);
                }
            },
        }
    }


    /// Register a new kitty for `sender`: allocate an identifier,
    /// refuse a duplicate, store the record at the end of `sender`'s
    /// index and emit `KittyCreated`.  The nonce is consumed only when
    /// an identifier is actually handed out.
    pub fn create_kitty(&mut self, sender: u64, kitty_name: Vec<u8>) -> (r: Result<
        (),
        AuctionError,
    >)
        requires
            old(self).wf(),
            old(self).nonce < u64::MAX,
        ensures
            final (self).wf(),
            ({
                let id = old(self).spec_alloc_id(sender);
                if old(self).has_kitty(id) {
                    &&& r == Err::<(), AuctionError>(AuctionError::DuplicateIdentifier)
                    &&& *final (self) == *old(self)
                } else {
                    &&& r == Ok::<(), AuctionError>(())
                    &&& final (self).kitties@ == old(self).kitties@.push(
                        Kitty {
                            id,
                            name: Some(kitty_name),
                            owner: Some(sender),
                            owner_pos: Some(old(self).spec_owner_ids(sender).len() as u64),
                            in_auction: false,
                        },
                    )
                    &&& final (self).spec_owner_ids(sender) == old(self).spec_owner_ids(
                        sender,
                    ).push(id)
                    &&& forall|w: u64|
                        w != sender ==> final (self).spec_owner_ids(w) == old(self).spec_owner_ids(
                            w,
                        )
                    &&& final (self).events@.len() == old(self).events@.len() + 1
                    &&& forall|i: int|
                        0 <= i < old(self).events@.len() ==> final (self).events@[i] == old(
                            self,
                        ).events@[i]
                    &&& final (self).events@.last() matches Event::KittyCreated(o2, k2, n2)
                        && o2 == sender && k2 == id && n2@ == kitty_name@
                    &&& final (self).nonce == old(self).nonce + 1
                    &&& final (self).auctions == old(self).auctions
                    &&& final (self).bids == old(self).bids
                    &&& final (self).ledger == old(self).ledger
                    &&& final (self).now == old(self).now
                    &&& final (self).seed == old(self).seed
                }
            }),
    {
        let kitty_id = self.gen_random_hash(sender);
        if self.find_kitty_idx(kitty_id).is_some() {
            return Err(AuctionError::DuplicateIdentifier);
        }
        let ev_name = clone_bytes(&kitty_name);
        let kitty = Kitty {
            id: kitty_id,
            name: Some(kitty_name),
            owner: None,
            owner_pos: None,
            in_auction: false,
        };
        self.nonce = self.nonce + 1;
        let ghost mid = *self;
        self.add_kitty_to_storage(kitty, Some(sender));
        let ghost post_add = *self;
        self.events.push(Event::KittyCreated(sender, kitty_id, ev_name));
        proof {
            assert forall|w: u64|
                w != sender implies self.spec_owner_ids(w) == old(self).spec_owner_ids(w) by {
                assert(post_add.spec_owner_ids(w) == mid.spec_owner_ids(w));
            }
        }
        Ok(())
    }


    /// The owner index of `o` after removing the slot `p` by swap-with-
    /// last: the last listed kitty moves into the vacated slot and the
    /// index shrinks by one.
    pub open spec fn ids_after_swap_remove(ids: Seq<u64>, p: int) -> Seq<u64> {
        ids.update(p, ids.last()).drop_last()
    }

    /// Move a kitty to `new_owner`: remove it from its current owner's
    /// dense index by swap-with-last (updating the moved kitty's stored
    /// position), append it to `new_owner`'s index, update its owner and
    /// position, and clear its auction flag.
    pub(crate) fn transfer_kitty_ownership(&mut self, kitty_id: u64, new_owner: u64)
        requires
            old(self).wf_except_kitty_flag(kitty_id),
            old(self).has_kitty(kitty_id),
            old(self).kitty_of(kitty_id).owner is Some,
            old(self).kitty_of(kitty_id).owner != Some(new_owner),
            forall|ai: int|
                0 <= ai < old(self).auctions@.len() && (#[trigger] old(
                    self,
                ).auctions@[ai]).status is Ongoing ==> old(self).auctions@[ai].kitty_id != kitty_id,
        ensures
            final (self).wf(),
            ({
                let o = old(self).kitty_of(kitty_id).owner.unwrap();
                let p = old(self).kitty_of(kitty_id).owner_pos.unwrap() as int;
                let ids0 = old(self).spec_owner_ids(o);
                let moved = ids0.last();
                &&& final (self).spec_kitty(kitty_id) == Some(
                    Kitty {
                        owner: Some(new_owner),
                        owner_pos: Some(old(self).spec_owner_ids(new_owner).len() as u64),
                        in_auction: false,
                        ..old(self).kitty_of(kitty_id)
                    },
                )
                &&& moved != kitty_id ==> final (self).spec_kitty(moved) == Some(
                    Kitty { owner_pos: Some(p as u64), ..old(self).kitty_of(moved) },
                )
                &&& forall|id: u64|
                    id != kitty_id && id != moved ==> final (self).spec_kitty(id) == old(
                        self,
                    ).spec_kitty(id)
                &&& final (self).spec_owner_ids(o) == Self::ids_after_swap_remove(ids0, p)
                &&& final (self).spec_owner_ids(new_owner) == old(self).spec_owner_ids(
                    new_owner,
                ).push(kitty_id)
                &&& forall|w: u64|
                    w != o && w != new_owner ==> final (self).spec_owner_ids(w) == old(
                        self,
                    ).spec_owner_ids(w)
            }),
            final (self).auctions == old(self).auctions,
            final (self).bids == old(self).bids,
            final (self).ledger == old(self).ledger,
            final (self).events == old(self).events,
            final (self).nonce == old(self).nonce,
            final (self).now == old(self).now,
            final (self).seed == old(self).seed,
    {
        let i: usize = match self.find_kitty_idx(kitty_id) {
            Some(i) => i,
            None => {
                proof {
                    assert(false);
                }
                0
            },
        };
        proof {
            assert(self.kitty_record_wf(self.kitties@[i as int]));
        }
        let o: u64 = match self.kitties[i].owner {
            Some(o) => o,
            None => {
                proof {
                    assert(false);
                }
                0
            },
        };
        let p64: u64 = match self.kitties[i].owner_pos {
            Some(p) => p,
            None => {
                proof {
                    assert(false);
                }
                0
            },
        };
        let jo: usize = match self.find_owner_idx(o) {
            Some(j) => j,
            None => {
                proof {
                    assert(self.kitty_record_wf(self.kitties@[i as int]));
                    assert(false);
                }
                0
            },
        };
        proof {
            assert(self.kitty_record_wf(self.kitties@[i as int]));
        }
        let cnt: usize = self.owners[jo].kitty_ids.len();
        proof {
            assert(p64 < cnt as u64);
        }
        let p: usize = p64 as usize;
        let ghost s0 = *old(self);
        let ghost ids0 = owner_ids_of(s0.owners@, o);
        let moved: u64 = self.owners[jo].kitty_ids[cnt - 1];
        let ghost mi_opt: Option<int>;
        if p < cnt - 1 {
            // The kitty leaves a hole in the middle: move the last
            // listed kitty into it and update that kitty's position.
            let mi: usize = match self.find_kitty_idx(moved) {
                Some(mi) => mi,
                None => {
                    proof {
                        assert(crate::state::owner_slot_ok(
                            self.kitties@,
                            o,
                            cnt - 1,
                            self.owners@[jo as int].kitty_ids@[cnt - 1],
                        ));
                        assert(false);
                    }
                    0
                },
            };
            proof {
                assert(crate::state::owner_slot_ok(self.kitties@, o, cnt - 1, moved));
                assert(mi != i);
                lemma_find_update(
                    self.kitties@,
                    kitty_key(),
                    mi as int,
                    Kitty { owner_pos: Some(p as u64), ..self.kitties@[mi as int] },
                );
                mi_opt = Some(mi as int);
            }
            self.kitties[mi].owner_pos = Some(p as u64);
            self.owners[jo].kitty_ids[p] = moved;
            self.owners[jo].kitty_ids.pop();
        } else {
            proof {
                mi_opt = None;
                assert(crate::state::owner_slot_ok(self.kitties@, o, cnt - 1, moved));
                assert(moved == kitty_id);
            }
            self.owners[jo].kitty_ids.pop();
        }
        let ghost owners_mid = self.owners@;
        proof {
            lemma_find_update(s0.owners@, owner_key(), jo as int, owners_mid[jo as int]);
            assert(owners_mid =~= s0.owners@.update(jo as int, owners_mid[jo as int]));
            assert(owner_ids_of(owners_mid, o) =~= Self::ids_after_swap_remove(ids0, p as int));
        }
        // Append to the new owner's index.
        let jn: usize = match self.find_owner_idx(new_owner) {
            Some(j) => j,
            None => {
                let ghost owners_a = self.owners@;
                let entry = OwnerKitties { owner: new_owner, kitty_ids: Vec::new() };
                proof {
                    lemma_absent_keys(owners_a, owner_key(), new_owner);
                    lemma_find_push(owners_a, owner_key(), entry);
                }
                self.owners.push(entry);
                self.owners.len() - 1
            },
        };
        let ghost owners_b = self.owners@;
        proof {
            assert(keys_unique(owners_b, owner_key()));
            assert(find_by(owners_b, owner_key(), new_owner) == Some(owners_b[jn as int]));
            assert forall|w: u64| #[trigger] owner_ids_of(owners_b, w) == owner_ids_of(
                owners_mid,
                w,
            ) by {
                if w == new_owner {
                    assert(owner_ids_of(owners_b, new_owner) =~= owner_ids_of(
                        owners_mid,
                        new_owner,
                    ));
                }
            }
        }
        let new_pos: usize = self.owners[jn].kitty_ids.len();
        proof {
            lemma_find_update(
                owners_b,
                owner_key(),
                jn as int,
                OwnerKitties {
                    owner: new_owner,
                    kitty_ids: self.owners@[jn as int].kitty_ids,
                },
            );
        }
        self.owners[jn].kitty_ids.push(kitty_id);
        let ghost owners_c = self.owners@;
        proof {
            assert(owners_c[jn as int].owner == new_owner);
            assert(owners_c[jn as int].kitty_ids@ =~= owners_b[jn as int].kitty_ids@.push(
                kitty_id,
            ));
            assert(owners_c =~= owners_b.update(jn as int, owners_c[jn as int]));
            lemma_find_update(owners_b, owner_key(), jn as int, owners_c[jn as int]);
            assert(owner_ids_of(owners_c, new_owner) == owner_ids_of(owners_mid, new_owner).push(
                kitty_id,
            ));
            assert(owner_ids_of(owners_c, o) == owner_ids_of(owners_mid, o));
        }
        // Update the kitty itself.
        proof {
            lemma_find_update(
                self.kitties@,
                kitty_key(),
                i as int,
                Kitty {
                    owner: Some(new_owner),
                    owner_pos: Some(new_pos as u64),
                    in_auction: false,
                    ..self.kitties@[i as int]
                },
            );
        }
        self.kitties[i].owner = Some(new_owner);
        self.kitties[i].owner_pos = Some(new_pos as u64);
        self.kitties[i].in_auction = false;
        proof {
            assert(self.kitties@ =~= (match mi_opt {
                Some(mi) => s0.kitties@.update(
                    mi,
                    Kitty { owner_pos: Some(p as u64), ..s0.kitties@[mi] },
                ),
                None => s0.kitties@,
            }).update(
                i as int,
                Kitty {
                    owner: Some(new_owner),
                    owner_pos: Some(new_pos as u64),
                    in_auction: false,
                    ..s0.kitties@[i as int]
                },
            ));
            self.lemma_transfer_restores_wf(
                s0,
                kitty_id,
                o,
                p as int,
                moved,
                new_owner,
                new_pos as int,
                i as int,
                mi_opt,
            );
        }
    }


    /// Restores the whole invariant after an ownership transfer: the
    /// kitty now sits at the end of `new_owner`'s index, the vacated
    /// slot of the previous owner holds the kitty that was listed last,
    /// and nothing else moved.
    proof fn lemma_transfer_restores_wf(
        self,
        s0: CatAuction,
        kitty_id: u64,
        o: u64,
        p: int,
        moved: u64,
        new_owner: u64,
        new_pos: int,
        i: int,
        mi_opt: Option<int>,
    )
        requires
            s0.wf_except_kitty_flag(kitty_id),
            0 <= i < s0.kitties@.len(),
            s0.kitties@[i].id == kitty_id,
            s0.kitties@[i].owner == Some(o),
            s0.kitties@[i].owner_pos == Some(p as u64),
            o != new_owner,
            0 <= p < owner_ids_of(s0.owners@, o).len(),
            owner_ids_of(s0.owners@, o).len() <= u64::MAX,
            moved == owner_ids_of(s0.owners@, o).last(),
            mi_opt is None ==> moved == kitty_id && p == owner_ids_of(s0.owners@, o).len() - 1
                && self.kitties@ == s0.kitties@.update(
                i,
                Kitty {
                    owner: Some(new_owner),
                    owner_pos: Some(new_pos as u64),
                    in_auction: false,
                    ..s0.kitties@[i]
                },
            ),
            mi_opt matches Some(mi) ==> 0 <= mi < s0.kitties@.len() && s0.kitties@[mi].id == moved
                && mi != i && p < owner_ids_of(s0.owners@, o).len() - 1 && self.kitties@
                == s0.kitties@.update(
                mi,
                Kitty { owner_pos: Some(p as u64), ..s0.kitties@[mi] },
            ).update(
                i,
                Kitty {
                    owner: Some(new_owner),
                    owner_pos: Some(new_pos as u64),
                    in_auction: false,
                    ..s0.kitties@[i]
                },
            ),
            new_pos == owner_ids_of(s0.owners@, new_owner).len(),
            new_pos <= u64::MAX,
            keys_unique(self.owners@, owner_key()),
            owner_ids_of(self.owners@, o) == Self::ids_after_swap_remove(
                owner_ids_of(s0.owners@, o),
                p,
            ),
            owner_ids_of(self.owners@, new_owner) == owner_ids_of(s0.owners@, new_owner).push(
                kitty_id,
            ),
            forall|w: u64|
                w != o && w != new_owner ==> #[trigger] owner_ids_of(self.owners@, w)
                    == owner_ids_of(s0.owners@, w),
            self.auctions@ == s0.auctions@,
            self.bids@ == s0.bids@,
            forall|ai: int|
                0 <= ai < s0.auctions@.len() && (#[trigger] s0.auctions@[ai]).status is Ongoing
                    ==> s0.auctions@[ai].kitty_id != kitty_id,
        ensures
            self.kitties_wf(),
            self.owners_wf(),
            self.auctions_wf(),
            self.bids_wf(),
    {
        let ids0 = owner_ids_of(s0.owners@, o);
        let k1 = Kitty {
            owner: Some(new_owner),
            owner_pos: Some(new_pos as u64),
            in_auction: false,
            ..s0.kitties@[i]
        };
        let kmid = match mi_opt {
            Some(mi) => s0.kitties@.update(
                mi,
                Kitty { owner_pos: Some(p as u64), ..s0.kitties@[mi] },
            ),
            None => s0.kitties@,
        };
        assert(s0.kitty_record_wf(s0.kitties@[i]));
        assert(ids0[p] == kitty_id);
        // Lookups in the final kitty table.
        match mi_opt {
            Some(mi) => {
                lemma_find_update(
                    s0.kitties@,
                    kitty_key(),
                    mi,
                    Kitty { owner_pos: Some(p as u64), ..s0.kitties@[mi] },
                );
            },
            None => {},
        }
        assert(keys_unique(kmid, kitty_key()));
        assert(kmid[i] == s0.kitties@[i]);
        lemma_find_update(kmid, kitty_key(), i, k1);
        assert(self.kitties@ == kmid.update(i, k1));
        assert(find_by(self.kitties@, kitty_key(), kitty_id) == Some(k1));
        assert(mi_opt matches Some(mi) ==> find_by(self.kitties@, kitty_key(), moved) == Some(
            Kitty { owner_pos: Some(p as u64), ..s0.kitties@[mi] },
        ));
        assert forall|id: u64|
            id != kitty_id && id != moved implies #[trigger] find_by(self.kitties@, kitty_key(), id)
            == find_by(s0.kitties@, kitty_key(), id) by {
            match mi_opt {
                Some(mi) => {
                    assert(find_by(kmid, kitty_key(), id) == find_by(
                        s0.kitties@,
                        kitty_key(),
                        id,
                    ));
                },
                None => {},
            }
        }
        // The slot `p` of `o` held the kitty, and the last slot held `moved`.
        assert(crate::state::owner_slot_ok(s0.kitties@, o, ids0.len() - 1, moved)) by {
            crate::lookup::lemma_find_exists(s0.owners@, owner_key(), o);
            let j = choose|j: int|
                0 <= j < s0.owners@.len() && s0.owners@[j] == find_by(
                    s0.owners@,
                    owner_key(),
                    o,
                ).unwrap() && owner_key()(s0.owners@[j]) == o;
            assert(crate::state::owner_slot_ok(
                s0.kitties@,
                s0.owners@[j].owner,
                ids0.len() - 1,
                s0.owners@[j].kitty_ids@[ids0.len() - 1],
            ));
        }
        assert(mi_opt matches Some(mi) ==> s0.kitties@[mi].owner == Some(o)
            && s0.kitties@[mi].owner_pos == Some((ids0.len() - 1) as u64)) by {
            match mi_opt {
                Some(mi) => {
                    lemma_find_at(s0.kitties@, kitty_key(), mi);
                },
                None => {},
            }
        }
        // Each kitty record is consistent with the new owner index.
        assert forall|ii: int|
            0 <= ii < self.kitties@.len() implies #[trigger] crate::state::kitty_record_ok(
            self.owners@,
            self.kitties@[ii],
        ) by {
            if ii == i {
                assert(owner_ids_of(self.owners@, new_owner)[new_pos] == kitty_id);
            } else if mi_opt matches Some(mi) && ii == mi {
                assert(owner_ids_of(self.owners@, o) =~= ids0.update(p, moved).drop_last());
                assert(owner_ids_of(self.owners@, o)[p] == moved);
            } else {
                let k2 = s0.kitties@[ii];
                assert(self.kitties@[ii] == k2);
                assert(s0.kitty_record_wf(k2));
                if k2.owner is Some {
                    let w = k2.owner.unwrap();
                    let q = k2.owner_pos.unwrap() as int;
                    if w == o {
                        assert(crate::state::owner_slot_ok(s0.kitties@, o, q, ids0[q])) by {
                            crate::lookup::lemma_find_exists(s0.owners@, owner_key(), o);
                            let j = choose|j: int|
                                0 <= j < s0.owners@.len() && s0.owners@[j] == find_by(
                                    s0.owners@,
                                    owner_key(),
                                    o,
                                ).unwrap() && owner_key()(s0.owners@[j]) == o;
                            assert(crate::state::owner_slot_ok(
                                s0.kitties@,
                                s0.owners@[j].owner,
                                q,
                                s0.owners@[j].kitty_ids@[q],
                            ));
                        }
                        lemma_find_at(s0.kitties@, kitty_key(), ii);
                        assert(ids0[q] == k2.id);
                        assert(q != p);
                        assert(q != ids0.len() - 1);
                        assert(owner_ids_of(self.owners@, o) =~= ids0.update(
                            p,
                            moved,
                        ).drop_last());
                        assert(owner_ids_of(self.owners@, o)[q] == k2.id);
                    } else if w == new_owner {
                        assert(owner_ids_of(self.owners@, w)[q] == owner_ids_of(s0.owners@, w)[q]);
                    }
                }
            }
        }
        // Each owner slot lists a kitty that points back at it.
        assert forall|j2: int, p2: int|
            0 <= j2 < self.owners@.len() && 0 <= p2
                < self.owners@[j2].kitty_ids@.len() implies #[trigger] crate::state::owner_slot_ok(
            self.kitties@,
            self.owners@[j2].owner,
            p2,
            self.owners@[j2].kitty_ids@[p2],
        ) by {
            let w2 = self.owners@[j2].owner;
            lemma_find_at(self.owners@, owner_key(), j2);
            assert(owner_ids_of(self.owners@, w2) == self.owners@[j2].kitty_ids@);
            let id2 = self.owners@[j2].kitty_ids@[p2];
            if w2 == o {
                assert(owner_ids_of(self.owners@, o) =~= ids0.update(p, moved).drop_last());
                if p2 == p {
                    assert(id2 == moved);
                    match mi_opt {
                        Some(mi) => {
                            assert(find_by(self.kitties@, kitty_key(), moved).unwrap().owner
                                == Some(o));
                        },
                        None => {
                            assert(p == ids0.len() - 1);
                            assert(p2 < ids0.len() - 1);
                        },
                    }
                } else {
                    assert(id2 == ids0[p2]);
                    assert(crate::state::owner_slot_ok(s0.kitties@, o, p2, id2)) by {
                        crate::lookup::lemma_find_exists(s0.owners@, owner_key(), o);
                        let j = choose|j: int|
                            0 <= j < s0.owners@.len() && s0.owners@[j] == find_by(
                                s0.owners@,
                                owner_key(),
                                o,
                            ).unwrap() && owner_key()(s0.owners@[j]) == o;
                        assert(crate::state::owner_slot_ok(
                            s0.kitties@,
                            s0.owners@[j].owner,
                            p2,
                            s0.owners@[j].kitty_ids@[p2],
                        ));
                    }
                    assert(id2 != kitty_id) by {
                        if id2 == kitty_id {
                            lemma_find_at(s0.kitties@, kitty_key(), i);
                        }
                    }
                    assert(id2 != moved) by {
                        match mi_opt {
                            Some(mi) => {
                                if id2 == moved {
                                    lemma_find_at(s0.kitties@, kitty_key(), mi);
                                }
                            },
                            None => {},
                        }
                    }
                }
            } else if w2 == new_owner {
                assert(owner_ids_of(self.owners@, new_owner) == owner_ids_of(
                    s0.owners@,
                    new_owner,
                ).push(kitty_id));
                if p2 == new_pos {
                    assert(id2 == kitty_id);
                } else {
                    assert(id2 == owner_ids_of(s0.owners@, new_owner)[p2]);
                    assert(crate::state::owner_slot_ok(s0.kitties@, new_owner, p2, id2)) by {
                        crate::lookup::lemma_find_exists(s0.owners@, owner_key(), new_owner);
                        let j = choose|j: int|
                            0 <= j < s0.owners@.len() && s0.owners@[j] == find_by(
                                s0.owners@,
                                owner_key(),
                                new_owner,
                            ).unwrap() && owner_key()(s0.owners@[j]) == new_owner;
                        assert(crate::state::owner_slot_ok(
                            s0.kitties@,
                            s0.owners@[j].owner,
                            p2,
                            s0.owners@[j].kitty_ids@[p2],
                        ));
                    }
                    assert(id2 != kitty_id && id2 != moved) by {
                        if id2 == kitty_id {
                            lemma_find_at(s0.kitties@, kitty_key(), i);
                        }
                        match mi_opt {
                            Some(mi) => {
                                if id2 == moved {
                                    lemma_find_at(s0.kitties@, kitty_key(), mi);
                                }
                            },
                            None => {},
                        }
                    }
                }
            } else {
                assert(owner_ids_of(self.owners@, w2) == owner_ids_of(s0.owners@, w2));
                assert(crate::state::owner_slot_ok(s0.kitties@, w2, p2, id2)) by {
                    crate::lookup::lemma_find_exists(s0.owners@, owner_key(), w2);
                    let j = choose|j: int|
                        0 <= j < s0.owners@.len() && s0.owners@[j] == find_by(
                            s0.owners@,
                            owner_key(),
                            w2,
                        ).unwrap() && owner_key()(s0.owners@[j]) == w2;
                    assert(crate::state::owner_slot_ok(
                        s0.kitties@,
                        s0.owners@[j].owner,
                        p2,
                        s0.owners@[j].kitty_ids@[p2],
                    ));
                }
                assert(id2 != kitty_id && id2 != moved) by {
                    if id2 == kitty_id {
                        lemma_find_at(s0.kitties@, kitty_key(), i);
                    }
                    match mi_opt {
                        Some(mi) => {
                            if id2 == moved {
                                lemma_find_at(s0.kitties@, kitty_key(), mi);
                            }
                        },
                        None => {},
                    }
                }
            }
        }
        // Auctions reference the same kitty ids; the transferred kitty
        // has no ongoing auction, the moved kitty kept its flags.
        assert forall|ai: int|
            0 <= ai < self.auctions@.len() implies #[trigger] crate::state::auction_record_ok(
            self.kitties@,
            self.bids@,
            self.auctions@[ai],
        ) by {
            let a = self.auctions@[ai];
            assert(crate::state::auction_record_ok(s0.kitties@, s0.bids@, a));
            if a.kitty_id == kitty_id {
                assert(find_by(self.kitties@, kitty_key(), kitty_id) == Some(k1));
                if a.status is Ongoing {
                    assert((s0.auctions@[ai]).status is Ongoing);
                    assert(s0.auctions@[ai].kitty_id != kitty_id);
                }
            } else if a.kitty_id == moved {
                match mi_opt {
                    Some(mi) => {
                        assert(find_by(self.kitties@, kitty_key(), moved) == Some(
                            Kitty { owner_pos: Some(p as u64), ..s0.kitties@[mi] },
                        ));
                        lemma_find_at(s0.kitties@, kitty_key(), mi);
                    },
                    None => {},
                }
            } else {
                assert(find_by(self.kitties@, kitty_key(), a.kitty_id) == find_by(
                    s0.kitties@,
                    kitty_key(),
                    a.kitty_id,
                ));
            }
            assert(find_by(self.kitties@, kitty_key(), a.kitty_id) is Some);
            assert(find_by(self.kitties@, kitty_key(), a.kitty_id).unwrap().owner is Some);
            assert(a.base_price > 0);
            assert(a.status is Ongoing ==> find_by(
                self.kitties@,
                kitty_key(),
                a.kitty_id,
            ).unwrap().in_auction);
            assert(!(a.status is Closed) ==> a.tx is None);
            assert(crate::state::leaderboard_ok(self.bids@, a));
        }
        assert forall|ii: int|
            0 <= ii < self.kitties@.len() && (#[trigger] self.kitties@[ii]).in_auction implies exists|j: int|
            0 <= j < self.auctions@.len() && (#[trigger] self.auctions@[j]).status is Ongoing
                && self.auctions@[j].kitty_id == self.kitties@[ii].id by {
            assert(s0.kitties@[ii].in_auction && s0.kitties@[ii].id == self.kitties@[ii].id);
            let j = choose|j: int|
                0 <= j < s0.auctions@.len() && (#[trigger] s0.auctions@[j]).status is Ongoing
                    && s0.auctions@[j].kitty_id == s0.kitties@[ii].id;
            assert((self.auctions@[j]).status is Ongoing);
        }
        assert forall|bi: int|
            0 <= bi < self.bids@.len() implies #[trigger] crate::state::bid_record_ok(
            self.kitties@,
            self.auctions@,
            self.bids@[bi],
        ) by {
            let b = self.bids@[bi];
            assert(crate::state::bid_record_ok(s0.kitties@, s0.auctions@, b));
            crate::lookup::lemma_find_exists(s0.auctions@, auction_key(), b.auction_id);
            let aj = choose|aj: int|
                0 <= aj < s0.auctions@.len() && s0.auctions@[aj] == find_by(
                    s0.auctions@,
                    auction_key(),
                    b.auction_id,
                ).unwrap() && auction_key()(s0.auctions@[aj]) == b.auction_id;
            let a = s0.auctions@[aj];
            if a.status is Ongoing {
                assert(a.kitty_id != kitty_id);
                if a.kitty_id == moved {
                    assert(find_by(self.kitties@, kitty_key(), moved).unwrap().owner == find_by(
                        s0.kitties@,
                        kitty_key(),
                        moved,
                    ).unwrap().owner);
                } else {
                    assert(find_by(self.kitties@, kitty_key(), a.kitty_id) == find_by(
                        s0.kitties@,
                        kitty_key(),
                        a.kitty_id,
                    ));
                }
            }
        }
    }

    /// After pushing a fresh, unowned-or-just-indexed kitty, the owner
    /// slots, auctions and bids are still consistent: no existing record
    /// can reference the fresh id.
    proof fn lemma_tables_after_kitty_push(self, s0: CatAuction, k: Kitty)
        requires
            s0.wf(),
            !s0.has_kitty(k.id),
            self.kitties@ == s0.kitties@.push(k),
            self.auctions@ == s0.auctions@,
            self.bids@ == s0.bids@,
            self.ledger == s0.ledger,
            !k.in_auction,
            forall|j: int, p: int|
                0 <= j < self.owners@.len() && 0 <= p < self.owners@[j].kitty_ids@.len()
                    && self.owners@[j].kitty_ids@[p] != k.id ==> #[trigger] crate::state::owner_slot_ok(
                    s0.kitties@,
                    self.owners@[j].owner,
                    p,
                    self.owners@[j].kitty_ids@[p],
                ),
            keys_unique(self.owners@, owner_key()),
            forall|j: int, p: int|
                0 <= j < self.owners@.len() && 0 <= p < self.owners@[j].kitty_ids@.len()
                    && (#[trigger] self.owners@[j].kitty_ids@[p]) == k.id ==> k.owner == Some(
                    self.owners@[j].owner,
                ) && k.owner_pos == Some(p as u64),
        ensures
            self.owners_wf(),
            self.auctions_wf(),
            self.bids_wf(),
    {
        lemma_absent_keys(s0.kitties@, kitty_key(), k.id);
        lemma_find_push(s0.kitties@, kitty_key(), k);
        assert forall|j: int, p: int|
            0 <= j < self.owners@.len() && 0 <= p
                < self.owners@[j].kitty_ids@.len() implies #[trigger] crate::state::owner_slot_ok(
            self.kitties@,
            self.owners@[j].owner,
            p,
            self.owners@[j].kitty_ids@[p],
        ) by {
            let id = self.owners@[j].kitty_ids@[p];
            if id == k.id {
                assert(find_by(self.kitties@, kitty_key(), id) == Some(k));
            } else {
                assert(crate::state::owner_slot_ok(s0.kitties@, self.owners@[j].owner, p, id));
                assert(find_by(self.kitties@, kitty_key(), id) == find_by(
                    s0.kitties@,
                    kitty_key(),
                    id,
                ));
            }
        }
        assert forall|i: int|
            0 <= i < self.auctions@.len() implies #[trigger] crate::state::auction_record_ok(
            self.kitties@,
            self.bids@,
            self.auctions@[i],
        ) by {
            let a = self.auctions@[i];
            assert(crate::state::auction_record_ok(s0.kitties@, s0.bids@, a));
            assert(a.kitty_id != k.id);
            assert(find_by(self.kitties@, kitty_key(), a.kitty_id) == find_by(
                s0.kitties@,
                kitty_key(),
                a.kitty_id,
            ));
        }
        assert forall|i: int|
            0 <= i < self.kitties@.len() && (#[trigger] self.kitties@[i]).in_auction implies exists|j: int|
            0 <= j < self.auctions@.len() && (#[trigger] self.auctions@[j]).status is Ongoing
                && self.auctions@[j].kitty_id == self.kitties@[i].id by {
            assert(i < s0.kitties@.len() && self.kitties@[i] == s0.kitties@[i]);
            let j = choose|j: int|
                0 <= j < s0.auctions@.len() && (#[trigger] s0.auctions@[j]).status is Ongoing
                    && s0.auctions@[j].kitty_id == s0.kitties@[i].id;
            assert((self.auctions@[j]).status is Ongoing);
        }
        assert forall|i: int|
            0 <= i < self.bids@.len() implies #[trigger] crate::state::bid_record_ok(
            self.kitties@,
            self.auctions@,
            self.bids@[i],
        ) by {
            let b = self.bids@[i];
            assert(crate::state::bid_record_ok(s0.kitties@, s0.auctions@, b));
            crate::lookup::lemma_find_exists(s0.auctions@, auction_key(), b.auction_id);
            let ai = choose|ai: int|
                0 <= ai < s0.auctions@.len() && s0.auctions@[ai] == find_by(
                    s0.auctions@,
                    auction_key(),
                    b.auction_id,
                ).unwrap() && auction_key()(s0.auctions@[ai]) == b.auction_id;
            let a = find_by(s0.auctions@, auction_key(), b.auction_id).unwrap();
            assert(crate::state::auction_record_ok(s0.kitties@, s0.bids@, s0.auctions@[ai]));
            assert(a.kitty_id != k.id);
            assert(find_by(self.kitties@, kitty_key(), a.kitty_id) == find_by(
                s0.kitties@,
                kitty_key(),
                a.kitty_id,
            ));
        }
    }

    /// Restores the whole invariant after the owned-kitty insertion path.
    proof fn lemma_add_kitty_restores_wf(self, s0: CatAuction, k: Kitty, o: u64, j: int)
        requires
            s0.wf(),
            !s0.has_kitty(k.id),
            !k.in_auction,
            k.owner == Some(o),
            owner_ids_of(s0.owners@, o).len() <= u64::MAX,
            k.owner_pos == Some(owner_ids_of(s0.owners@, o).len() as u64),
            self.kitties@ == s0.kitties@.push(k),
            self.auctions@ == s0.auctions@,
            self.bids@ == s0.bids@,
            self.ledger == s0.ledger,
            keys_unique(self.owners@, owner_key()),
            0 <= j < self.owners@.len(),
            self.owners@[j].owner == o,
            find_by(self.owners@, owner_key(), o) == Some(self.owners@[j]),
            owner_ids_of(self.owners@, o) == owner_ids_of(s0.owners@, o).push(k.id),
            forall|w: u64|
                w != o ==> #[trigger] owner_ids_of(self.owners@, w) == owner_ids_of(s0.owners@, w),
            forall|j2: int, p: int|
                0 <= j2 < self.owners@.len() && j2 != j && 0 <= p
                    < self.owners@[j2].kitty_ids@.len() ==> self.owners@[j2]
                    == s0.owners@[j2] && #[trigger] crate::state::owner_slot_ok(
                    s0.kitties@,
                    self.owners@[j2].owner,
                    p,
                    self.owners@[j2].kitty_ids@[p],
                ),
            self.owners@[j].kitty_ids@ == owner_ids_of(s0.owners@, o).push(k.id),
            forall|p: int|
                0 <= p < owner_ids_of(s0.owners@, o).len() ==> #[trigger] crate::state::owner_slot_ok(
                    s0.kitties@,
                    o,
                    p,
                    owner_ids_of(s0.owners@, o)[p],
                ),
        ensures
            self.kitties_wf(),
            self.owners_wf(),
            self.auctions_wf(),
            self.bids_wf(),
    {
        lemma_absent_keys(s0.kitties@, kitty_key(), k.id);
        lemma_find_push(s0.kitties@, kitty_key(), k);
        // Every kitty record is consistent with the new owner table.
        assert forall|i: int|
            0 <= i < self.kitties@.len() implies #[trigger] crate::state::kitty_record_ok(
            self.owners@,
            self.kitties@[i],
        ) by {
            if i < s0.kitties@.len() {
                let ki = s0.kitties@[i];
                assert(crate::state::kitty_record_ok(s0.owners@, ki));
                if ki.owner is Some {
                    let w = ki.owner.unwrap();
                    if w == o {
                        assert(owner_ids_of(self.owners@, o)[ki.owner_pos.unwrap() as int]
                            == owner_ids_of(s0.owners@, o)[ki.owner_pos.unwrap() as int]);
                    }
                }
            } else {
                assert(self.kitties@[i] == k);
                assert(owner_ids_of(self.owners@, o)[k.owner_pos.unwrap() as int] == k.id);
            }
        }
        // Every owner slot still lists a kitty that points back at it.
        assert forall|j2: int, p: int|
            0 <= j2 < self.owners@.len() && 0 <= p
                < self.owners@[j2].kitty_ids@.len() implies #[trigger] crate::state::owner_slot_ok(
            self.kitties@,
            self.owners@[j2].owner,
            p,
            self.owners@[j2].kitty_ids@[p],
        ) by {
            let id = self.owners@[j2].kitty_ids@[p];
            if j2 == j {
                if p < owner_ids_of(s0.owners@, o).len() {
                    assert(id == owner_ids_of(s0.owners@, o)[p]);
                    assert(crate::state::owner_slot_ok(s0.kitties@, o, p, id));
                    assert(id != k.id);
                    assert(find_by(self.kitties@, kitty_key(), id) == find_by(
                        s0.kitties@,
                        kitty_key(),
                        id,
                    ));
                } else {
                    assert(id == k.id);
                    assert(find_by(self.kitties@, kitty_key(), id) == Some(k));
                }
            } else {
                assert(crate::state::owner_slot_ok(
                    s0.kitties@,
                    self.owners@[j2].owner,
                    p,
                    id,
                ));
                assert(id != k.id);
                assert(find_by(self.kitties@, kitty_key(), id) == find_by(
                    s0.kitties@,
                    kitty_key(),
                    id,
                ));
            }
        }
        // Auctions and bids never referenced the fresh kitty.
        assert forall|i: int|
            0 <= i < self.auctions@.len() implies #[trigger] crate::state::auction_record_ok(
            self.kitties@,
            self.bids@,
            self.auctions@[i],
        ) by {
            let a = self.auctions@[i];
            assert(crate::state::auction_record_ok(s0.kitties@, s0.bids@, a));
            assert(a.kitty_id != k.id);
            assert(find_by(self.kitties@, kitty_key(), a.kitty_id) == find_by(
                s0.kitties@,
                kitty_key(),
                a.kitty_id,
            ));
        }
        assert forall|i: int|
            0 <= i < self.kitties@.len() && (#[trigger] self.kitties@[i]).in_auction implies exists|j2: int|
            0 <= j2 < self.auctions@.len() && (#[trigger] self.auctions@[j2]).status is Ongoing
                && self.auctions@[j2].kitty_id == self.kitties@[i].id by {
            assert(i < s0.kitties@.len() && self.kitties@[i] == s0.kitties@[i]);
            let j2 = choose|j2: int|
                0 <= j2 < s0.auctions@.len() && (#[trigger] s0.auctions@[j2]).status is Ongoing
                    && s0.auctions@[j2].kitty_id == s0.kitties@[i].id;
            assert((self.auctions@[j2]).status is Ongoing);
        }
        assert forall|i: int|
            0 <= i < self.bids@.len() implies #[trigger] crate::state::bid_record_ok(
            self.kitties@,
            self.auctions@,
            self.bids@[i],
        ) by {
            let b = self.bids@[i];
            assert(crate::state::bid_record_ok(s0.kitties@, s0.auctions@, b));
            crate::lookup::lemma_find_exists(s0.auctions@, auction_key(), b.auction_id);
            let ai = choose|ai: int|
                0 <= ai < s0.auctions@.len() && s0.auctions@[ai] == find_by(
                    s0.auctions@,
                    auction_key(),
                    b.auction_id,
                ).unwrap() && auction_key()(s0.auctions@[ai]) == b.auction_id;
            let a = find_by(s0.auctions@, auction_key(), b.auction_id).unwrap();
            assert(crate::state::auction_record_ok(s0.kitties@, s0.bids@, s0.auctions@[ai]));
            assert(a.kitty_id != k.id);
            assert(find_by(self.kitties@, kitty_key(), a.kitty_id) == find_by(
                s0.kitties@,
                kitty_key(),
                a.kitty_id,
            ));
        }
    }
}

} // verus!
