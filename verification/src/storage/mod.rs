//! The two stores and the coordinator that keeps them in step.
//!
//! Every item has one entry in the item store and one state, under the same
//! id, in the review store. The coordinator owns both stores, changes them
//! together, and can tell and mend the case that one of them was lost.
pub mod item;
pub mod srs;

pub use item::ItemStorage;
pub use srs::SRSStorage;

use crate::sm2::{RepQuality, SM2};
use crate::utils::{get_today_unix, is_day_start};
use item::{
    find_literal, first_with_id, first_with_literal, has_id, has_literal, ids_of,
    lemma_find_literal, lemma_first_literal_unique, lemma_ids_after_push, without_id,
};
use srs::{lemma_changes_keep_valid, lists, with_added, with_reset, with_review, Selection};
use vstd::prelude::*;

verus! {

/// ItemStorage and SRSStorage combined for functions which need both
#[derive(Debug)]
pub struct Storage {
    item_storage: ItemStorage,
    srs_storage: SRSStorage,
}

/// A full storage item
#[derive(Debug)]
pub struct Item<'a> {
    item_val: &'a item::Item,
    srs: &'a srs::Item,
}

impl<'a> Item<'a> {
    /// The entry of the item store.
    pub closed spec fn item(&self) -> item::Item {
        *self.item_val
    }

    /// The state of the review store.
    pub closed spec fn state(&self) -> srs::Item {
        *self.srs
    }

    /// Returns the items literal
    pub fn get_literal(&self) -> (r: char)
        ensures
            r == self.item().literal,
    {
        self.item_val.literal
    }

    /// Returns SRS Info
    pub fn get_srs(&self) -> (r: SM2)
        ensures
            r == self.state().srs_data,
    {
        self.srs.srs_data
    }

    /// Returns the ID of the item
    pub fn get_id(&self) -> (r: u32)
        ensures
            r == self.item().id,
    {
        self.item_val.id
    }

    /// Returns `true` if item is in learning
    pub fn is_learning(&self) -> (r: bool)
        ensures
            r == self.state().in_learning,
    {
        self.srs.in_learning
    }

    /// Returns `true` if item can be reviewed or learned at the time `now`.
    pub fn can_be_reviewed_at(&self, now: u64) -> (r: bool)
        ensures
            r == self.state().reviewable(now),
    {
        self.srs.can_be_reviewed_at(now)
    }

    /// Returns `true` if item can be reviewed or learned
    pub fn can_be_reviewed(&self) -> (r: bool)
        ensures
            exists|now: u64| is_day_start(now) && r == #[trigger] self.state().reviewable(now),
    {
        let unix = get_today_unix();
        let r = self.srs.can_be_reviewed_at(unix);
        assert(is_day_start(unix) && r == self.state().reviewable(unix));
        r
    }
}

/// The two stores agree: an id has an item exactly when it has a state.
pub open spec fn in_step(items: Seq<item::Item>, states: Map<u32, srs::Item>) -> bool {
    ids_of(items) == states.dom()
}

/// `full` joins the item `it` with its state in `states`.
pub open spec fn joins(full: Item, it: item::Item, states: Map<u32, srs::Item>) -> bool {
    &&& full.item() == it
    &&& states.contains_key(it.id)
    &&& full.state() == states[it.id]
}

/// A fresh state for every id of `items`, and no other state.
pub open spec fn fresh_states(items: Seq<item::Item>) -> Map<u32, srs::Item> {
    Map::new(|id: u32| has_id(items, id), |id: u32| srs::Item::fresh(id))
}

/// The content of a [`Storage`]: the entries, the last id handed out, and
/// the states.
pub ghost struct Shelf {
    pub items: Seq<item::Item>,
    pub counter: nat,
    pub states: Map<u32, srs::Item>,
}

impl Shelf {
    /// Nothing stored and no id handed out.
    pub open spec fn empty() -> Shelf {
        Shelf { items: Seq::empty(), counter: 0, states: Map::empty() }
    }

    /// Both stores satisfy their own invariants.
    pub open spec fn valid(self) -> bool {
        item::valid_items(self.items, self.counter) && srs::valid_states(self.states)
    }

    /// The two stores agree, see [`in_step`].
    pub open spec fn in_step(self) -> bool {
        in_step(self.items, self.states)
    }

    /// Whether adding `literal` succeeds: the literal is new, and so is the
    /// id that it gets.
    pub open spec fn adds(self, literal: char) -> bool {
        !has_literal(self.items, literal) && !self.states.contains_key((self.counter + 1) as u32)
    }

    /// The content after adding `literal`: unchanged where the literal is
    /// there already; else with an entry under the next id and, unless that
    /// id has a state already, a fresh state.
    pub open spec fn added(self, literal: char) -> Shelf {
        if has_literal(self.items, literal) {
            self
        } else {
            let id = (self.counter + 1) as u32;
            Shelf {
                items: self.items.push(item::Item { id, literal }),
                counter: self.counter + 1,
                states: with_added(self.states, id),
            }
        }
    }

    /// Whether `literal` has an entry, and the entry a state.
    pub open spec fn holds(self, literal: char) -> bool {
        match find_literal(self.items, literal) {
            Some(it) => self.states.contains_key(it.id),
            None => false,
        }
    }

    /// The content after removing `literal`: without the entries that have
    /// the id of its first entry, and without the state of that id.
    pub open spec fn removed(self, literal: char) -> Shelf {
        match find_literal(self.items, literal) {
            Some(it) => Shelf {
                items: without_id(self.items, it.id),
                counter: self.counter,
                states: self.states.remove(it.id),
            },
            None => self,
        }
    }

    /// The content after resetting `literal`: the state of its first
    /// entry, if it has one, is fresh again.
    pub open spec fn reset(self, literal: char) -> Shelf {
        match find_literal(self.items, literal) {
            Some(it) => Shelf { states: with_reset(self.states, it.id), ..self },
            None => self,
        }
    }

    /// The content after the state of `id` took an answer of quality `q`
    /// at the time `now`.
    pub open spec fn reviewed(self, id: u32, q: RepQuality, now: u64) -> Shelf {
        Shelf { states: with_review(self.states, id, q, now), ..self }
    }

    /// Whether a repair reports success: the stores disagree, and one of
    /// them is empty.
    pub open spec fn repairs(self) -> bool {
        !self.in_step() && (self.states.dom() == Set::<u32>::empty() || self.items.len() == 0)
    }

    /// The content after a repair: where there was no state, a fresh one
    /// for every entry; else unchanged.
    pub open spec fn repaired(self) -> Shelf {
        if self.states.dom() == Set::<u32>::empty() {
            Shelf { states: fresh_states(self.items), ..self }
        } else {
            self
        }
    }
}

impl Storage {
    /// The entries of the item store, oldest first.
    pub closed spec fn items(&self) -> Seq<item::Item> {
        self.item_storage@
    }

    /// The last id that the item store has handed out.
    pub closed spec fn counter(&self) -> nat {
        self.item_storage.counter()
    }

    /// The states of the review store, by id.
    pub closed spec fn states(&self) -> Map<u32, srs::Item> {
        self.srs_storage@
    }

    /// Both stores satisfy their own invariants.
    pub closed spec fn wf(&self) -> bool {
        self.item_storage.wf() && self.srs_storage.wf()
    }

    /// The content of the storage.
    pub open spec fn shelf(&self) -> Shelf {
        Shelf { items: self.items(), counter: self.counter(), states: self.states() }
    }

    /// The two stores agree, see [`in_step`].
    pub open spec fn consistent(&self) -> bool {
        in_step(self.items(), self.states())
    }

    /// `r` holds the items that have both an entry and a state, each
    /// once, joined with its state, in the order of their ids.
    pub open spec fn holds_all(&self, r: Seq<Item>) -> bool {
        &&& forall|i: int|
            0 <= i < r.len() ==> first_with_id(
                self.items(),
                (#[trigger] r[i]).item().id,
                r[i].item(),
            ) && joins(r[i], r[i].item(), self.states())
        &&& forall|id: u32|
            has_id(self.items(), id) && self.states().contains_key(id) ==> exists|i: int|
                0 <= i < r.len() && (#[trigger] r[i]).item().id == id
        &&& forall|i: int, j: int|
            0 <= i < j < r.len() ==> (#[trigger] r[i]).item().id < (#[trigger] r[j]).item().id
    }

    /// What [`Storage::wf`] says of the two stores.
    pub proof fn lemma_wf(&self)
        requires
            self.wf(),
        ensures
            item::valid_items(self.items(), self.counter()),
            srs::valid_states(self.states()),
            self.shelf().valid(),
            self.counter() <= u32::MAX,
    {
        self.item_storage.lemma_counter_bounded();
    }

    /// New Storage
    pub fn new(item: ItemStorage, srs: SRSStorage) -> (r: Self)
        requires
            item.wf(),
            srs.wf(),
        ensures
            r.wf(),
            r.items() == item@,
            r.counter() == item.counter(),
            r.states() == srs@,
    {
        Self { item_storage: item, srs_storage: srs }
    }

    /// Returns a full item from the storage
    pub fn get_by_lit(&self, literal: char) -> (r: Option<Item>)
        ensures
            r is Some <==> self.shelf().holds(literal),
            r matches Some(full) ==> first_with_literal(self.items(), literal, full.item())
                && find_literal(self.items(), literal) == Some(full.item()) && joins(
                full,
                full.item(),
                self.states(),
            ),
    {
        let item_val = match self.item_storage.item_by_literal(literal) {
            Some(it) => it,
            None => {
                proof {
                    lemma_find_literal(self.items(), literal);
                }
                return None;
            },
        };
        proof {
            lemma_first_literal_unique(self.items(), literal, *item_val);
        }
        let srs = match self.srs_storage.find(item_val.id) {
            Some(s) => s,
            None => { return None; },
        };
        Some(Item { item_val, srs })
    }

    /// Returns a full item from the storage
    pub fn get_by_id(&self, id: u32) -> (r: Option<Item>)
        ensures
            r is Some <==> has_id(self.items(), id) && self.states().contains_key(id),
            r matches Some(full) ==> first_with_id(self.items(), id, full.item()) && item::find_id(
                self.items(),
                id,
            ) == Some(full.item()) && joins(
                full,
                full.item(),
                self.states(),
            ),
    {
        let item_val = match self.item_storage.item_by_id(id) {
            Some(it) => it,
            None => { return None; },
        };
        let srs = match self.srs_storage.find(id) {
            Some(s) => s,
            None => { return None; },
        };
        Some(Item { item_val, srs })
    }

    /// Returns a reference to the srs storage
    pub fn get_srs_storage(&self) -> (r: &SRSStorage)
        ensures
            r@ == self.states(),
            self.wf() ==> r.wf(),
    {
        &self.srs_storage
    }

    /// Returns a reference to the item storage
    pub fn get_item_storage(&self) -> (r: &ItemStorage)
        ensures
            r@ == self.items(),
            r.counter() == self.counter(),
            self.wf() ==> r.wf(),
    {
        &self.item_storage
    }

    /// Returns all items that have both an entry and a state, ordered by
    /// id.
    pub fn iter(&self) -> (r: Vec<Item>)
        requires
            self.wf(),
        ensures
            self.holds_all(r@),
    {
        let states = self.srs_storage.iter();
        let mut out: Vec<Item> = Vec::new();
        let mut n: usize = 0;
        while n < states.len()
            invariant
                n <= states.len(),
                lists(self.states(), Selection::All, false, states@),
                forall|i: int|
                    0 <= i < out@.len() ==> first_with_id(
                        self.items(),
                        (#[trigger] out@[i]).item().id,
                        out@[i].item(),
                    ) && joins(out@[i], out@[i].item(), self.states()),
                forall|i: int|
                    0 <= i < out@.len() ==> exists|k: int|
                        0 <= k < n && (#[trigger] states@[k]).id == (#[trigger] out@[i]).item().id,
                forall|k: int|
                    0 <= k < n && has_id(self.items(), (#[trigger] states@[k]).id) ==> exists|i: int|
                        0 <= i < out@.len() && (#[trigger] out@[i]).item().id == states@[k].id,
                forall|i: int, j: int|
                    0 <= i < j < out@.len() ==> (#[trigger] out@[i]).item().id < (
                    #[trigger] out@[j]).item().id,
            decreases states.len() - n,
        {
            let id = states[n].id;
            let ghost before = out@;
            if let Some(full) = self.get_by_id(id) {
                out.push(full);
                proof {
                    assert forall|i: int, j: int| 0 <= i < j < out@.len() implies (
                    #[trigger] out@[i]).item().id < (#[trigger] out@[j]).item().id by {
                        assert(out@[i] == before[i]);
                        if j == before.len() {
                            let k = choose|k: int|
                                0 <= k < n && (#[trigger] states@[k]).id == before[i].item().id;
                            assert(srs::precedes(states@[k], states@[n as int], false));
                        } else {
                            assert(out@[j] == before[j]);
                        }
                    }
                    assert forall|i: int| 0 <= i < out@.len() implies exists|k: int|
                        0 <= k < n + 1 && (#[trigger] states@[k]).id == (#[trigger] out@[i]).item().id by {
                        if i < before.len() {
                            assert(out@[i] == before[i]);
                            let k = choose|k: int|
                                0 <= k < n && (#[trigger] states@[k]).id == before[i].item().id;
                            assert(states@[k].id == out@[i].item().id);
                        } else {
                            assert(states@[n as int].id == out@[i].item().id);
                        }
                    }
                    assert forall|k: int|
                        0 <= k < n + 1 && has_id(self.items(), (#[trigger] states@[k]).id) implies exists|
                        i: int,
                    | 0 <= i < out@.len() && (#[trigger] out@[i]).item().id == states@[k].id by {
                        if k < n {
                            let i = choose|i: int|
                                0 <= i < before.len() && (#[trigger] before[i]).item().id
                                    == states@[k].id;
                            assert(out@[i] == before[i]);
                        } else {
                            assert(out@[before.len() as int].item().id == states@[k].id);
                        }
                    }
                }
            }
            n += 1;
        }
        proof {
            assert forall|id: u32|
                has_id(self.items(), id) && self.states().contains_key(id) implies exists|i: int|
                0 <= i < out@.len() && (#[trigger] out@[i]).item().id == id by {
                assert(srs::lists_id(states@, id));
                let k = choose|k: int| 0 <= k < states@.len() && (#[trigger] states@[k]).id == id;
                assert(has_id(self.items(), states@[k].id));
            }
        }
        out
    }

    /// Adds a new item to the storage: an entry under the next id, and a
    /// fresh state under the same id. A literal that the storage holds
    /// already is refused and nothing changes.
    pub fn add(&mut self, literal: char) -> (r: bool)
        requires
            old(self).wf(),
            old(self).counter() < u32::MAX,
        ensures
            final(self).wf(),
            final(self).shelf() == old(self).shelf().added(literal),
            r == old(self).shelf().adds(literal),
    {
        proof {
            self.lemma_wf();
            lemma_changes_keep_valid(
                self.states(),
                (self.counter() + 1) as u32,
                RepQuality::Grade0,
                0,
            );
        }
        let item = self.item_storage.add_item(literal);
        if item.is_none() {
            return false;
        }
        let item = item.unwrap();
        self.srs_storage.add(item.id)
    }

    /// Removes an item from the storage: its entry and its state. Returns
    /// `true` if both were there.
    pub fn remove(&mut self, literal: char) -> (r: bool)
        requires
            old(self).wf(),
        ensures
            final(self).wf(),
            final(self).shelf() == old(self).shelf().removed(literal),
            r == old(self).shelf().holds(literal),
    {
        let item = match self.item_storage.item_by_literal(literal) {
            Some(it) => *it,
            None => { return false; },
        };
        let success = self.item_storage.remove_item(item.id) && self.srs_storage.remove(
            item.id,
        ).is_some();
        proof {
            let before = old(self).items();
            let i = choose|i: int|
                0 <= i < before.len() && #[trigger] before[i] == item && item.literal == literal
                    && forall|j: int| 0 <= j < i ==> (#[trigger] before[j]).literal != literal;
            assert(before[i].id == item.id);
        }
        success
    }

    /// Resets an item by its literal: its state goes back to that of an
    /// item never reviewed. Returns `false`, and changes nothing, if the
    /// literal has no entry or the entry no state.
    pub fn reset(&mut self, literal: char) -> (r: bool)
        requires
            old(self).wf(),
        ensures
            final(self).wf(),
            final(self).shelf() == old(self).shelf().reset(literal),
            r == old(self).shelf().holds(literal),
    {
        proof {
            lemma_find_literal(self.items(), literal);
        }
        let id = match self.get_by_lit(literal) {
            Some(i) => i.get_id(),
            None => { return false; },
        };
        self.srs_storage.reset(id)
    }

    /// Reviews the item `id` at the time `now`, see
    /// [`srs::Item::review_at`]. Returns `false`, and changes nothing, if
    /// the item has no state or if its next state does not fit.
    pub fn review_at(&mut self, id: u32, quality: RepQuality, now: u64) -> (r: bool)
        requires
            old(self).wf(),
        ensures
            final(self).wf(),
            final(self).shelf() == old(self).shelf().reviewed(id, quality, now),
            r == srs::reviews(old(self).states(), id, quality, now),
    {
        self.srs_storage.review_at(id, quality, now)
    }

    /// Reviews the item `id` today. Returns `false`, and changes nothing,
    /// if the item has no state or if its next state does not fit.
    pub fn review(&mut self, id: u32, quality: RepQuality) -> (r: bool)
        requires
            old(self).wf(),
        ensures
            final(self).wf(),
            srs::reviews(old(self).states(), id, quality, crate::utils::LAST_SECOND) ==> r,
            exists|now: u64|
                is_day_start(now) && r == #[trigger] srs::reviews(
                    old(self).states(),
                    id,
                    quality,
                    now,
                ) && final(self).shelf() == old(self).shelf().reviewed(id, quality, now),
    {
        let today = get_today_unix();
        let r = self.review_at(id, quality, today);
        assert(is_day_start(today) && r == srs::reviews(old(self).states(), id, quality, today));
        r
    }

    /// Returns the amount of kanji currently in learning
    pub fn learning_kanji(&self) -> (r: usize)
        requires
            self.wf(),
        ensures
            r == srs::listing(self.states(), Selection::Learning, false).len(),
            lists(
                self.states(),
                Selection::Learning,
                false,
                srs::listing(self.states(), Selection::Learning, false),
            ),
    {
        let l = self.srs_storage.select(Selection::Learning, false);
        l.len()
    }

    /// Returns `true` if the storage is properly built or empty and `false`
    /// if there is data corruption: an entry without a state, or a state
    /// without an entry.
    pub fn check(&self) -> (r: bool)
        ensures
            r == self.consistent(),
    {
        if self.item_storage.is_empty() && self.srs_storage.is_empty() {
            proof {
                assert(ids_of(self.items()) =~= self.states().dom());
            }
            return true;
        }
        if self.item_storage.is_empty() || self.srs_storage.is_empty() {
            proof {
                if self.items().len() > 0 {
                    assert(has_id(self.items(), self.items()[0].id));
                    assert(ids_of(self.items()).contains(self.items()[0].id));
                } else {
                    assert(ids_of(self.items()) =~= Set::<u32>::empty());
                }
            }
            return false;
        }
        // check item_storage is subset of srs_storage

        let items = self.item_storage.iter();
        let mut n: usize = 0;
        while n < items.len()
            invariant
                n <= items.len(),
                items@ == self.items(),
                forall|i: int| 0 <= i < n ==> self.states().contains_key((#[trigger] items@[i]).id),
            decreases items.len() - n,
        {
            if !self.srs_storage.find(items[n].id).is_some() {
                proof {
                    assert(has_id(self.items(), items@[n as int].id));
                    assert(ids_of(self.items()).contains(items@[n as int].id));
                }
                return false;
            }
            n += 1;
        }
        // check srs_storage is subset of item_storage
        let ids = self.srs_storage.ids();
        let mut k: usize = 0;
        while k < ids.len()
            invariant
                k <= ids.len(),
                ids@.to_set() == self.states().dom(),
                items@ == self.items(),
                forall|i: int|
                    0 <= i < items@.len() ==> self.states().contains_key((#[trigger] items@[i]).id),
                forall|i: int| 0 <= i < k ==> has_id(self.items(), #[trigger] ids@[i]),
            decreases ids.len() - k,
        {
            if !self.item_storage.item_by_id(ids[k]).is_some() {
                proof {
                    assert(ids@.to_set().contains(ids@[k as int]));
                    assert(self.states().dom().contains(ids@[k as int]));
                    assert(!ids_of(self.items()).contains(ids@[k as int]));
                }
                return false;
            }
            k += 1;
        }
        proof {
            assert forall|id: u32| ids_of(self.items()).contains(id) <==> self.states().dom().contains(
                id,
            ) by {
                if has_id(self.items(), id) {
                    let i = choose|i: int| 0 <= i < items@.len() && (#[trigger] items@[i]).id == id;
                    assert(self.states().contains_key(items@[i].id));
                }
                if self.states().dom().contains(id) {
                    assert(ids@.to_set().contains(id));
                    let i = choose|i: int| 0 <= i < ids@.len() && ids@[i] == id;
                    assert(has_id(self.items(), ids@[i]));
                }
            }
            assert(ids_of(self.items()) =~= self.states().dom());
        }
        true
    }

    /// Tries to repair a broken storage. Does nothing if storage isn't
    /// broken. Can fail if data is too broken. Returns `true` if Database has
    /// been successfully repaired, `false` on error or if nothing has to be
    /// repaired. This can be checked with `check()`
    ///
    /// Where the review store is empty, every entry gets a fresh state and
    /// the storage is in step again. Where the item store is empty and the
    /// review store is not, `true` is returned and nothing is changed: the
    /// states without an entry stay, and `check()` still fails. Where both
    /// stores hold something, nothing is changed and `false` is returned.
    pub fn repair(&mut self) -> (r: bool)
        requires
            old(self).wf(),
        ensures
            final(self).wf(),
            final(self).shelf() == old(self).shelf().repaired(),
            r == old(self).shelf().repairs(),
    {
        if self.check() {
            proof {
                if self.states().dom() == Set::<u32>::empty() {
                    assert(self.states() =~= fresh_states(self.items()));
                }
            }
            return false;
        }
        if self.srs_storage.is_empty() {
            // Fill SRS with new empty values
            proof {
                if self.items().len() == 0 {
                    assert(ids_of(self.items()) =~= Set::<u32>::empty());
                }
            }
            return self.repair_srs();
        }
        if self.item_storage.is_empty() {
            return true;
        }
        false
    }

    /// Fills SRS storage with empty values for kanji in order to have both
    /// structures being balanced
    fn repair_srs(&mut self) -> (r: bool)
        requires
            old(self).wf(),
            old(self).states().dom() == Set::<u32>::empty(),
        ensures
            final(self).wf(),
            final(self).items() == old(self).items(),
            final(self).counter() == old(self).counter(),
            final(self).states() == fresh_states(old(self).items()),
            r == (old(self).items().len() > 0),
    {
        let mut updated: usize = 0;
        let mut n: usize = 0;
        let len = self.item_storage.len();
        proof {
            assert(self.states() =~= fresh_states(self.items().take(0)));
        }
        while n < len
            invariant
                n <= len,
                len == self.items().len(),
                self.wf(),
                self.items() == old(self).items(),
                self.counter() == old(self).counter(),
                self.states() == fresh_states(self.items().take(n as int)),
                updated == n,
            decreases len - n,
        {
            let id = self.item_storage.iter()[n].id;
            let ghost before = self.states();
            proof {
                self.lemma_wf();
                let items = self.items();
                assert(items.take(n + 1) == items.take(n as int).push(items[n as int]));
                lemma_ids_after_push(items.take(n as int), items[n as int]);
                if has_id(items.take(n as int), id) {
                    let i = choose|i: int| 0 <= i < n && (#[trigger] items.take(n as int)[i]).id == id;
                    assert(items[i].id == items[n as int].id);
                    assert(false);
                }
                assert(!before.dom().contains(id));
                assert(with_added(before, id) =~= fresh_states(items.take(n + 1))) by {
                    assert(forall|x: u32| ids_of(items.take(n + 1)).contains(x) <==> ids_of(
                        items.take(n as int),
                    ).insert(id).contains(x));
                }
            }
            let added = self.srs_storage.add(id);
            if added {
                updated += 1;
            }
            n += 1;
        }
        proof {
            assert(self.items().take(len as int) == self.items());
        }
        updated > 0
    }

    /// Returns the amount of items in the storage
    pub fn len(&self) -> (r: usize)
        ensures
            r == self.items().len(),
    {
        self.item_storage.len()
    }

    /// Returns `true` if the storage is empty
    pub fn is_empty(&self) -> (r: bool)
        ensures
            r == (self.items().len() == 0),
    {
        self.len() == 0
    }
}

/// One change of a storage through its coordinator.
pub enum Change {
    /// Adding a literal.
    Add(char),
    /// Removing a literal.
    Remove(char),
}

impl Shelf {
    /// The content after one change.
    pub open spec fn changed(self, change: Change) -> Shelf {
        match change {
            Change::Add(literal) => self.added(literal),
            Change::Remove(literal) => self.removed(literal),
        }
    }

    /// The content after the changes `changes`, taken in order.
    pub open spec fn changed_all(self, changes: Seq<Change>) -> Shelf
        decreases changes.len(),
    {
        if changes.len() == 0 {
            self
        } else {
            self.changed_all(changes.drop_last()).changed(changes.last())
        }
    }
}

/// Adding a literal a second time fails and changes nothing: not the
/// entries, not the counter, not the states.
pub proof fn lemma_second_add_is_refused(s: Shelf, literal: char)
    ensures
        !s.added(literal).adds(literal),
        s.added(literal).added(literal) == s.added(literal),
{
    if !has_literal(s.items, literal) {
        let after = s.added(literal).items;
        assert(after[after.len() - 1].literal == literal);
    }
}

/// Adding and removing through the coordinator keep a valid storage valid,
/// and one whose stores agree in that state.
pub proof fn lemma_change_keeps_in_step(s: Shelf, change: Change)
    requires
        s.valid(),
        s.in_step(),
        s.counter < u32::MAX,
    ensures
        s.changed(change).valid(),
        s.changed(change).in_step(),
        s.changed(change).counter <= s.counter + 1,
{
    match change {
        Change::Add(literal) => {
            if !has_literal(s.items, literal) {
                let id = (s.counter + 1) as u32;
                let it = item::Item { id, literal };
                let after = s.items.push(it);
                lemma_ids_after_push(s.items, it);
                lemma_changes_keep_valid(s.states, id, RepQuality::Grade0, 0);
                if has_id(s.items, id) {
                    let i = choose|i: int| 0 <= i < s.items.len() && (#[trigger] s.items[i]).id == id;
                    assert(s.items[i].id <= s.counter);
                }
                assert(!ids_of(s.items).contains(id));
                assert forall|i: int, j: int| 0 <= i < j < after.len() implies (#[trigger] after[i]).id
                    != (#[trigger] after[j]).id && after[i].literal != after[j].literal by {
                    assert(after[i] == s.items[i]);
                    if j < s.items.len() {
                        assert(after[j] == s.items[j]);
                    }
                }
                assert forall|i: int| 0 <= i < after.len() implies 1 <= (#[trigger] after[i]).id
                    <= s.counter + 1 by {
                    if i < s.items.len() {
                        assert(after[i] == s.items[i]);
                    }
                }
                assert(s.added(literal).states.dom() =~= ids_of(after));
            }
        },
        Change::Remove(literal) => {
            lemma_find_literal(s.items, literal);
            match find_literal(s.items, literal) {
                Some(it) => {
                    item::lemma_without_id(s.items, s.counter, it.id);
                    lemma_changes_keep_valid(s.states, it.id, RepQuality::Grade0, 0);
                    let after = without_id(s.items, it.id);
                    assert forall|id: u32| ids_of(after).contains(id) <==> s.states.remove(
                        it.id,
                    ).dom().contains(id) by {
                        if id != it.id {
                            assert(ids_of(s.items).contains(id) == has_id(s.items, id));
                        }
                    }
                    assert(ids_of(after) =~= s.states.remove(it.id).dom());
                },
                None => {},
            }
        },
    }
}

/// A storage that starts empty and is changed only by adding and removing
/// through the coordinator is valid, and its two stores agree.
pub proof fn lemma_changes_keep_in_step(changes: Seq<Change>)
    requires
        changes.len() < u32::MAX,
    ensures
        Shelf::empty().changed_all(changes).valid(),
        Shelf::empty().changed_all(changes).in_step(),
        Shelf::empty().changed_all(changes).counter <= changes.len(),
    decreases changes.len(),
{
    if changes.len() == 0 {
        assert(ids_of(Seq::<item::Item>::empty()) =~= Map::<u32, srs::Item>::empty().dom());
    } else {
        lemma_changes_keep_in_step(changes.drop_last());
        lemma_change_keeps_in_step(
            Shelf::empty().changed_all(changes.drop_last()),
            changes.last(),
        );
    }
}

/// A repair of a valid storage without states leaves a valid storage whose
/// stores agree and in which no item is in learning.
pub proof fn lemma_repair_restores(s: Shelf)
    requires
        s.valid(),
        s.states.dom() == Set::<u32>::empty(),
    ensures
        s.repaired().valid(),
        s.repaired().in_step(),
        forall|id: u32| #[trigger]
            s.repaired().states.contains_key(id) ==> !s.repaired().states[id].in_learning,
        forall|l: Seq<srs::Item>|
            (#[trigger] lists(s.repaired().states, Selection::Learning, false, l)) ==> l.len() == 0,
{
    crate::sm2::SM2::lemma_fresh();
    assert(fresh_states(s.items).dom() =~= ids_of(s.items));
    assert forall|l: Seq<srs::Item>| #[trigger]
        lists(s.repaired().states, Selection::Learning, false, l) implies l.len() == 0 by {
        srs::lemma_none_in_learning(s.repaired().states, false, l);
    }
}

} // verus!
