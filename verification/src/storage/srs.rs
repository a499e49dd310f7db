//! The store of review states: one state per item id.
use crate::sm2::{Memory, RepQuality, SM2};
use crate::utils::{day_cutoff, get_today_unix, is_day_start, start_of_day, DAY, LAST_SECOND};
use std::collections::HashMap;
use vstd::prelude::*;
use vstd::std_specs::iter::IteratorSpec;

verus! {

broadcast use vstd::std_specs::hash::group_hash_axioms;

/// Storage for SRS data, keyed by item id.
#[derive(Clone, Debug)]
pub struct SRSStorage {
    file: String,
    data: HashMap<u32, Item>,
}

/// SRS info holding item
#[derive(Clone, Copy, Debug)]
pub struct Item {
    pub id: u32,
    pub srs_data: SM2,
    pub due_on: u64,
    pub in_learning: bool,
}

impl Item {
    /// A state is well formed when its algorithm state is, and when an
    /// item in learning has a time at which it is due.
    pub open spec fn wf(&self) -> bool {
        &&& self.srs_data.wf()
        &&& self.in_learning ==> self.due_on > 0
    }

    /// The state of an item that has never been reviewed.
    pub open spec fn fresh(id: u32) -> Item {
        Item { id, srs_data: SM2::fresh(), due_on: 0, in_learning: false }
    }

    /// The state after an answer of quality `q` given at `now`, where it
    /// fits the machine representation: see [`Item::reviewed_to`].
    pub open spec fn after_review(&self, q: RepQuality, now: u64) -> Item {
        Item {
            id: self.id,
            srs_data: self.srs_data.after(q),
            due_on: (now + DAY * self.srs_data@.reviewed(q).interval(q)) as u64,
            in_learning: true,
        }
    }

    /// [`Item::fresh`] is the one state that [`Item::is_fresh`] holds of.
    pub proof fn lemma_fresh(&self, id: u32)
        ensures
            self.is_fresh(id) <==> *self == Item::fresh(id),
            Item::fresh(id).wf(),
    {
        SM2::lemma_fresh();
        if self.is_fresh(id) {
            SM2::lemma_view_injective(self.srs_data, SM2::fresh());
        }
    }

    /// [`Item::after_review`] is the one state that [`Item::reviewed_to`]
    /// leads to.
    pub proof fn lemma_after_review(&self, q: RepQuality, now: u64, next: Item)
        requires
            self.review_fits(q, now),
        ensures
            self.reviewed_to(q, now, next) <==> next == self.after_review(q, now),
    {
        self.srs_data.lemma_after(q);
        if self.reviewed_to(q, now, next) {
            SM2::lemma_view_injective(next.srs_data, self.srs_data.after(q));
        }
    }

    /// Whether the item has never been reviewed, under the id `id`.
    pub open spec fn is_fresh(&self, id: u32) -> bool {
        &&& self.id == id
        &&& self.srs_data@ == Memory::initial()
        &&& self.due_on == 0
        &&& !self.in_learning
    }

    /// In learning and due at `now` or before.
    pub open spec fn is_due(&self, now: u64) -> bool {
        self.in_learning && 0 < self.due_on <= now
    }

    /// In learning and due from `from` on, before `to`.
    pub open spec fn is_due_within(&self, from: int, to: int) -> bool {
        self.in_learning && from <= self.due_on < to
    }

    /// Never reviewed, or due at `now` or before.
    pub open spec fn reviewable(&self, now: u64) -> bool {
        !self.in_learning || self.due_on == 0 || self.due_on <= now
    }

    /// What [`Item::review_at`] needs: the next algorithm state and the
    /// next due time fit their machine types.
    pub open spec fn review_fits(&self, q: RepQuality, now: u64) -> bool {
        &&& self.srs_data@.can_review(q)
        &&& now + DAY * self.srs_data@.reviewed(q).interval(q) <= u64::MAX
    }

    /// `next` is this state after an answer of quality `q` given at `now`:
    /// in learning, the algorithm state moved on, and due after the wait
    /// that the new algorithm state asks for.
    pub open spec fn reviewed_to(&self, q: RepQuality, now: u64, next: Item) -> bool {
        &&& next.id == self.id
        &&& next.in_learning
        &&& next.srs_data@ == self.srs_data@.reviewed(q)
        &&& next.due_on == now + DAY * self.srs_data@.reviewed(q).interval(q)
    }

    /// Create a new item
    pub fn new(id: u32) -> (r: Self)
        ensures
            r == Item::fresh(id),
            r.is_fresh(id),
            r.wf(),
    {
        proof {
            SM2::lemma_fresh();
        }
        let srs_data = SM2::new();
        Self { id, srs_data, in_learning: false, due_on: 0 }
    }

    /// Whether [`Item::review_at`] can take this answer at this time.
    pub fn can_review_at(&self, r_quality: RepQuality, now: u64) -> (r: bool)
        requires
            self.srs_data.wf(),
        ensures
            r == self.review_fits(r_quality, now),
    {
        if !self.srs_data.can_review(r_quality) {
            return false;
        }
        let days = self.srs_data.review(r_quality).new_interval(&r_quality);
        proof {
            lemma_wait_fits(days as nat, self.srs_data@.reviewed(r_quality).interval(r_quality), now);
        }
        days <= (u64::MAX - now) / DAY
    }

    /// Review an item at the time `now`: the item is in learning from now
    /// on, its algorithm state takes the answer, and it is due again after as
    /// many days as the new algorithm state asks for.
    pub fn review_at(&mut self, r_quality: RepQuality, now: u64)
        requires
            old(self).wf(),
            old(self).review_fits(r_quality, now),
        ensures
            *final(self) == old(self).after_review(r_quality, now),
            old(self).reviewed_to(r_quality, now, *final(self)),
            final(self).wf(),
    {
        self.in_learning = true;
        self.srs_data = self.srs_data.review(r_quality);
        let next_review = self.srs_data.new_interval(&r_quality);
        proof {
            lemma_wait_fits(
                next_review as nat,
                old(self).srs_data@.reviewed(r_quality).interval(r_quality),
                now,
            );
        }
        self.due_on = now + DAY * next_review;
    }

    /// Review an item today, see [`Item::review_at`]. Returns `false`, with
    /// the item unchanged, if the next state does not fit.
    pub fn review(&mut self, r_quality: RepQuality) -> (r: bool)
        requires
            old(self).wf(),
        ensures
            final(self).wf(),
            !r ==> *final(self) == *old(self),
            old(self).review_fits(r_quality, LAST_SECOND) ==> r,
            r ==> exists|now: u64|
                is_day_start(now) && #[trigger] old(self).reviewed_to(r_quality, now, *final(self)),
    {
        let today = get_today_unix();
        if self.can_review_at(r_quality, today) {
            self.review_at(r_quality, today);
            true
        } else {
            false
        }
    }

    /// Resets an item completely
    pub fn reset(&mut self)
        ensures
            *final(self) == Item::fresh(old(self).id),
            final(self).is_fresh(old(self).id),
            final(self).wf(),
    {
        *self = Self::new(self.id);
        self.in_learning = false;
        self.due_on = 0;
    }

    /// Moves the due time to 04:00 of its day.
    pub fn naosu(&mut self)
        requires
            old(self).due_on <= LAST_SECOND,
        ensures
            final(self).due_on == day_cutoff(old(self).due_on as int),
            final(self).id == old(self).id,
            final(self).srs_data == old(self).srs_data,
            final(self).in_learning == old(self).in_learning,
            old(self).wf() ==> final(self).wf(),
    {
        self.due_on = start_of_day(self.due_on);
    }

    /// Returns `true` if Item can be learned or reviewed at the time `now`.
    pub fn can_be_reviewed_at(&self, now: u64) -> (r: bool)
        ensures
            r == self.reviewable(now),
    {
        if !self.in_learning || self.due_on == 0 {
            return true;
        }
        self.due_on <= now
    }

    /// Returns `true` if Item can be learned or reviewed
    pub fn can_be_reviewed(&self) -> (r: bool)
        ensures
            exists|now: u64| is_day_start(now) && r == #[trigger] self.reviewable(now),
    {
        let unix = get_today_unix();
        let r = self.can_be_reviewed_at(unix);
        assert(is_day_start(unix) && r == self.reviewable(unix));
        r
    }
}

/// A capped wait fits behind `now` exactly when the wait itself does.
proof fn lemma_wait_fits(days: nat, exact: nat, now: u64)
    requires
        days == crate::sm2::capped(exact),
    ensures
        days <= (u64::MAX - now) / 86_400 <==> now + 86_400 * exact <= u64::MAX,
        now + 86_400 * exact <= u64::MAX ==> days == exact,
{
    let room = (u64::MAX - now) as int;
    assert(days <= room / 86_400 <==> 86_400 * days <= room) by (nonlinear_arith)
        requires
            days >= 0,
            room >= 0,
    ;
    if exact > u64::MAX {
        assert(86_400 * exact > u64::MAX) by (nonlinear_arith)
            requires
                exact > u64::MAX,
        ;
    }
}

/// Which states a listing takes.
#[derive(Clone, Copy, Debug)]
pub enum Selection {
    /// In learning and due at the given time or before.
    Due(u64),
    /// Never reviewed.
    New,
    /// In learning.
    Learning,
    /// In learning and due from the first time on, before the second.
    DueWithin(u64, u64),
    /// Due after the given time.
    DueAfter(u64),
    /// Every state.
    All,
}

impl Selection {
    /// Whether the selection takes the state `it`.
    pub open spec fn takes(self, it: Item) -> bool {
        match self {
            Selection::Due(now) => it.is_due(now),
            Selection::New => !it.in_learning,
            Selection::Learning => it.in_learning,
            Selection::DueWithin(from, to) => it.is_due_within(from as int, to as int),
            Selection::DueAfter(t) => it.due_on > t,
            Selection::All => true,
        }
    }

    /// Returns `true` if the selection takes the state.
    pub fn test(&self, it: &Item) -> (r: bool)
        ensures
            r == self.takes(*it),
    {
        match self {
            Selection::Due(now) => it.in_learning && it.due_on > 0 && it.due_on <= *now,
            Selection::New => !it.in_learning,
            Selection::Learning => it.in_learning,
            Selection::DueWithin(from, to) => it.in_learning && *from <= it.due_on && it.due_on
                < *to,
            Selection::DueAfter(t) => it.due_on > *t,
            Selection::All => true,
        }
    }
}

/// The order of a listing: by id, or by due time and then by id.
pub open spec fn precedes(a: Item, b: Item, by_due: bool) -> bool {
    if by_due {
        a.due_on < b.due_on || (a.due_on == b.due_on && a.id < b.id)
    } else {
        a.id < b.id
    }
}

/// Every state of `r` comes before the states behind it.
pub open spec fn ordered(r: Seq<Item>, by_due: bool) -> bool {
    forall|i: int, j: int| 0 <= i < j < r.len() ==> precedes(#[trigger] r[i], #[trigger] r[j], by_due)
}

/// Some state of `r` has the id `id`.
pub open spec fn lists_id(r: Seq<Item>, id: u32) -> bool {
    exists|i: int| 0 <= i < r.len() && (#[trigger] r[i]).id == id
}

/// `r` is the listing of the states of `m` that `pick` takes: it holds
/// those states and no others, each once, in the order of [`precedes`].
pub open spec fn lists(m: Map<u32, Item>, pick: Selection, by_due: bool, r: Seq<Item>) -> bool {
    &&& forall|i: int|
        0 <= i < r.len() ==> m.contains_key((#[trigger] r[i]).id) && m[r[i].id] == r[i]
            && pick.takes(r[i])
    &&& forall|id: u32| #[trigger] m.contains_key(id) && pick.takes(m[id]) ==> lists_id(r, id)
    &&& ordered(r, by_due)
}

/// The selection of the states in learning that are due on the day after
/// the one that holds `now`, from 04:00 to 04:00.
pub open spec fn tomorrow(now: u64) -> Selection {
    Selection::DueWithin(
        (day_cutoff(now as int) + DAY) as u64,
        (day_cutoff(now as int) + 2 * DAY) as u64,
    )
}

/// The listing of the states of `m` that `pick` takes, see [`lists`].
pub open spec fn listing(m: Map<u32, Item>, pick: Selection, by_due: bool) -> Seq<Item> {
    choose|r: Seq<Item>| lists(m, pick, by_due, r)
}

/// The ids of the states `r`.
pub open spec fn ids_in(r: Seq<Item>) -> Seq<u32> {
    Seq::new(r.len(), |i: int| r[i].id)
}

/// Returns `true` if `a` comes before `b` in the order of a listing.
fn comes_before(a: &Item, b: &Item, by_due: bool) -> (r: bool)
    ensures
        r == precedes(*a, *b, by_due),
{
    if by_due {
        a.due_on < b.due_on || (a.due_on == b.due_on && a.id < b.id)
    } else {
        a.id < b.id
    }
}

/// Puts a state into an ordered listing, at its place.
fn place(v: &mut Vec<Item>, it: Item, by_due: bool)
    requires
        ordered(old(v)@, by_due),
        !lists_id(old(v)@, it.id),
    ensures
        ordered(final(v)@, by_due),
        exists|p: int| 0 <= p <= old(v)@.len() && final(v)@ == #[trigger] old(v)@.insert(p, it),
{
    let mut p: usize = 0;
    while p < v.len() && comes_before(&v[p], &it, by_due)
        invariant
            p <= v.len(),
            v@ == old(v)@,
            forall|k: int| 0 <= k < p ==> precedes(#[trigger] v@[k], it, by_due),
        decreases v.len() - p,
    {
        p += 1;
    }
    proof {
        let before = v@;
        let after = before.insert(p as int, it);
        assert forall|i: int, j: int| 0 <= i < j < after.len() implies precedes(
            #[trigger] after[i],
            #[trigger] after[j],
            by_due,
        ) by {
            if j < p {
                assert(after[i] == before[i] && after[j] == before[j]);
            } else if j == p {
                assert(after[i] == before[i]);
            } else if i == p {
                assert(after[j] == before[j - 1]);
                assert(before[j - 1].id != it.id);
                assert(!precedes(before[p as int], it, by_due));
                assert(before[p as int].id != it.id);
                if j - 1 > p {
                    assert(precedes(before[p as int], before[j - 1], by_due));
                }
            } else if i < p {
                assert(after[i] == before[i] && after[j] == before[j - 1]);
            } else {
                assert(after[i] == before[i - 1] && after[j] == before[j - 1]);
            }
        }
    }
    v.insert(p, it);
}

/// Two ordered sequences that hold the same states are the same sequence.
pub proof fn lemma_ordered_unique(a: Seq<Item>, b: Seq<Item>, by_due: bool)
    requires
        ordered(a, by_due),
        ordered(b, by_due),
        forall|i: int| 0 <= i < a.len() ==> b.contains(#[trigger] a[i]),
        forall|j: int| 0 <= j < b.len() ==> a.contains(#[trigger] b[j]),
    ensures
        a == b,
    decreases a.len(),
{
    if a.len() == 0 {
        if b.len() > 0 {
            assert(a.contains(b[0]));
        }
        assert(a =~= b);
    } else {
        let x = a.last();
        assert(b.contains(a[a.len() - 1]));
        let jx = choose|j: int| 0 <= j < b.len() && b[j] == x;
        let y = b.last();
        assert(a.contains(b[b.len() - 1]));
        let iy = choose|i: int| 0 <= i < a.len() && a[i] == y;
        if jx < b.len() - 1 {
            assert(precedes(b[jx], b[b.len() - 1], by_due));
            if iy < a.len() - 1 {
                assert(precedes(a[iy], a[a.len() - 1], by_due));
            }
            assert(false);
        }
        assert(x == y);
        let a0 = a.drop_last();
        let b0 = b.drop_last();
        assert forall|i: int| 0 <= i < a0.len() implies b0.contains(#[trigger] a0[i]) by {
            assert(a0[i] == a[i]);
            assert(b.contains(a[i]));
            let j = choose|j: int| 0 <= j < b.len() && b[j] == a[i];
            assert(precedes(a[i], a[a.len() - 1], by_due));
            assert(j < b.len() - 1);
            assert(b0[j] == a0[i]);
        }
        assert forall|j: int| 0 <= j < b0.len() implies a0.contains(#[trigger] b0[j]) by {
            assert(b0[j] == b[j]);
            assert(a.contains(b[j]));
            let i = choose|i: int| 0 <= i < a.len() && a[i] == b[j];
            assert(precedes(b[j], b[b.len() - 1], by_due));
            assert(i < a.len() - 1);
            assert(a0[i] == b0[j]);
        }
        assert(ordered(a0, by_due)) by {
            assert forall|i: int, j: int| 0 <= i < j < a0.len() implies precedes(
                #[trigger] a0[i],
                #[trigger] a0[j],
                by_due,
            ) by {
                assert(a0[i] == a[i] && a0[j] == a[j]);
            }
        }
        assert(ordered(b0, by_due)) by {
            assert forall|i: int, j: int| 0 <= i < j < b0.len() implies precedes(
                #[trigger] b0[i],
                #[trigger] b0[j],
                by_due,
            ) by {
                assert(b0[i] == b[i] && b0[j] == b[j]);
            }
        }
        lemma_ordered_unique(a0, b0, by_due);
        assert(a =~= a0.push(x));
        assert(b =~= b0.push(y));
    }
}

/// A selection has one listing only: [`lists`] pins the result down.
pub proof fn lemma_listing_unique(
    m: Map<u32, Item>,
    pick: Selection,
    by_due: bool,
    a: Seq<Item>,
    b: Seq<Item>,
)
    requires
        lists(m, pick, by_due, a),
        lists(m, pick, by_due, b),
    ensures
        a == b,
{
    assert forall|i: int| 0 <= i < a.len() implies b.contains(#[trigger] a[i]) by {
        assert(m.contains_key(a[i].id) && pick.takes(m[a[i].id]));
        assert(lists_id(b, a[i].id));
        let j = choose|j: int| 0 <= j < b.len() && (#[trigger] b[j]).id == a[i].id;
        assert(m[b[j].id] == b[j]);
    }
    assert forall|j: int| 0 <= j < b.len() implies a.contains(#[trigger] b[j]) by {
        assert(m.contains_key(b[j].id) && pick.takes(m[b[j].id]));
        assert(lists_id(a, b[j].id));
        let i = choose|i: int| 0 <= i < a.len() && (#[trigger] a[i]).id == b[j].id;
        assert(m[a[i].id] == a[i]);
    }
    lemma_ordered_unique(a, b, by_due);
}

/// The first `n` states of `s`, or all of them.
pub open spec fn first_of(s: Seq<Item>, n: usize) -> Seq<Item> {
    if n <= s.len() {
        s.take(n as int)
    } else {
        s
    }
}

/// The ids of the states of `m` that `pick` takes.
pub open spec fn taken(m: Map<u32, Item>, pick: Selection) -> Set<u32> {
    Set::new(|id: u32| m.contains_key(id) && pick.takes(m[id]))
}

/// The ids of the states of `m` that are in learning and due after `now`.
pub open spec fn later(m: Map<u32, Item>, now: u64) -> Set<u32> {
    Set::new(|id: u32| m.contains_key(id) && m[id].in_learning && m[id].due_on > now)
}

/// A listing holds the states of the ids that its selection takes.
pub proof fn lemma_listing_ids(m: Map<u32, Item>, pick: Selection, by_due: bool, r: Seq<Item>)
    requires
        lists(m, pick, by_due, r),
    ensures
        forall|id: u32| lists_id(r, id) <==> taken(m, pick).contains(id),
{
    assert forall|id: u32| lists_id(r, id) implies taken(m, pick).contains(id) by {
        let i = choose|i: int| 0 <= i < r.len() && (#[trigger] r[i]).id == id;
        assert(m.contains_key(r[i].id) && pick.takes(m[r[i].id]));
    }
}

/// At any time the states of a store fall into three groups that share no
/// state: those due, which are in learning and due at that time or before;
/// those never reviewed; and those in learning that are due later.
pub proof fn lemma_due_new_later(m: Map<u32, Item>, now: u64)
    requires
        valid_states(m),
    ensures
        forall|id: u32|
            (#[trigger] taken(m, Selection::Due(now)).contains(id)) ==> m[id].in_learning
                && m[id].due_on <= now,
        forall|id: u32| (#[trigger] taken(m, Selection::New).contains(id)) ==> !m[id].in_learning,
        taken(m, Selection::Due(now)).disjoint(taken(m, Selection::New)),
        taken(m, Selection::Due(now)).disjoint(later(m, now)),
        taken(m, Selection::New).disjoint(later(m, now)),
        taken(m, Selection::Due(now)).union(taken(m, Selection::New)).union(later(m, now)) == m.dom(),
{
    let all = taken(m, Selection::Due(now)).union(taken(m, Selection::New)).union(later(m, now));
    assert forall|id: u32| all.contains(id) <==> m.dom().contains(id) by {
        if m.dom().contains(id) {
            assert(m.contains_key(id));
            assert(m[id].wf());
        }
    }
    assert(all =~= m.dom());
}

/// The listing `parts` of all states of a valid store is what
/// [`SRSStorage::from_parts`] accepts, and a store built from it holds the
/// same states.
pub proof fn lemma_parts_round_trip(m: Map<u32, Item>, parts: Seq<Item>, rebuilt: Map<u32, Item>)
    requires
        valid_states(m),
        lists(m, Selection::All, false, parts),
        holds_parts(rebuilt, parts),
    ensures
        valid_parts(parts),
        rebuilt == m,
{
    assert forall|i: int, j: int| 0 <= i < j < parts.len() implies (#[trigger] parts[i]).id != (
    #[trigger] parts[j]).id by {
        assert(precedes(parts[i], parts[j], false));
    }
    assert forall|i: int| 0 <= i < parts.len() implies (#[trigger] parts[i]).wf() by {
        assert(m.contains_key(parts[i].id));
    }
    assert forall|id: u32| rebuilt.contains_key(id) <==> m.contains_key(id) by {
        if rebuilt.contains_key(id) {
            assert(lists_id(parts, id));
            let i = choose|i: int| 0 <= i < parts.len() && (#[trigger] parts[i]).id == id;
            assert(m.contains_key(parts[i].id));
        }
        if m.contains_key(id) {
            assert(Selection::All.takes(m[id]));
            assert(lists_id(parts, id));
            let i = choose|i: int| 0 <= i < parts.len() && (#[trigger] parts[i]).id == id;
            assert(rebuilt.contains_key(parts[i].id));
        }
    }
    assert forall|id: u32| rebuilt.contains_key(id) implies rebuilt[id] == m[id] by {
        assert(lists_id(parts, id));
        let i = choose|i: int| 0 <= i < parts.len() && (#[trigger] parts[i]).id == id;
        assert(rebuilt[parts[i].id] == parts[i]);
        assert(m[parts[i].id] == parts[i]);
    }
    assert(rebuilt =~= m);
}

/// Where no state is in learning, the listing of those in learning is
/// empty.
pub proof fn lemma_none_in_learning(m: Map<u32, Item>, by_due: bool, r: Seq<Item>)
    requires
        forall|id: u32| #[trigger] m.contains_key(id) ==> !m[id].in_learning,
        lists(m, Selection::Learning, by_due, r),
    ensures
        r.len() == 0,
{
    if r.len() > 0 {
        assert(m.contains_key(r[0].id) && Selection::Learning.takes(r[0]));
    }
}

impl View for SRSStorage {
    type V = Map<u32, Item>;

    closed spec fn view(&self) -> Map<u32, Item> {
        self.data@
    }
}

/// What a store must satisfy: every state is well formed and kept under
/// its own id.
pub open spec fn valid_states(m: Map<u32, Item>) -> bool {
    forall|id: u32| #[trigger] m.contains_key(id) ==> m[id].id == id && m[id].wf()
}

/// The states `m` and a fresh one under `id`, where `id` has none yet.
pub open spec fn with_added(m: Map<u32, Item>, id: u32) -> Map<u32, Item> {
    if m.contains_key(id) {
        m
    } else {
        m.insert(id, Item::fresh(id))
    }
}

/// Whether the state of `id` in `m` takes an answer of quality `q` at the
/// time `now`: there is one, and its next state fits.
pub open spec fn reviews(m: Map<u32, Item>, id: u32, q: RepQuality, now: u64) -> bool {
    m.contains_key(id) && m[id].review_fits(q, now)
}

/// The states `m` after the state of `id` took an answer of quality `q` at
/// the time `now`; `m` itself where it did not take it.
pub open spec fn with_review(m: Map<u32, Item>, id: u32, q: RepQuality, now: u64) -> Map<u32, Item> {
    if reviews(m, id, q, now) {
        m.insert(id, m[id].after_review(q, now))
    } else {
        m
    }
}

/// The states `m` with a fresh state under `id`, where `id` has one.
pub open spec fn with_reset(m: Map<u32, Item>, id: u32) -> Map<u32, Item> {
    if m.contains_key(id) {
        m.insert(id, Item::fresh(id))
    } else {
        m
    }
}

/// The four changes of a store keep its invariant and, but for a state
/// added, its ids.
pub proof fn lemma_changes_keep_valid(m: Map<u32, Item>, id: u32, q: RepQuality, now: u64)
    requires
        valid_states(m),
    ensures
        valid_states(with_added(m, id)),
        valid_states(with_review(m, id, q, now)),
        valid_states(with_reset(m, id)),
        valid_states(m.remove(id)),
        with_added(m, id).dom() == m.dom().insert(id),
        with_review(m, id, q, now).dom() == m.dom(),
        with_reset(m, id).dom() == m.dom(),
{
    SM2::lemma_fresh();
    if reviews(m, id, q, now) {
        m[id].srs_data.lemma_after(q);
        assert(m[id].wf());
        assert(m[id].after_review(q, now).wf()) by {
            crate::sm2::lemma_interval_at_least_one(m[id].srs_data@.reviewed(q), q);
        }
        assert(with_review(m, id, q, now).dom() =~= m.dom());
    }
    if m.contains_key(id) {
        assert(with_reset(m, id).dom() =~= m.dom());
    }
    assert(with_added(m, id).dom() =~= m.dom().insert(id));
}

/// The parts of a store are valid when every state is well formed and no
/// id occurs twice.
pub open spec fn valid_parts(items: Seq<Item>) -> bool {
    &&& forall|i: int| 0 <= i < items.len() ==> (#[trigger] items[i]).wf()
    &&& forall|i: int, j: int|
        0 <= i < j < items.len() ==> (#[trigger] items[i]).id != (#[trigger] items[j]).id
}

/// The store `m` holds the states `items`, each under its id, and no
/// others.
pub open spec fn holds_parts(m: Map<u32, Item>, items: Seq<Item>) -> bool {
    &&& forall|i: int|
        0 <= i < items.len() ==> m.contains_key((#[trigger] items[i]).id) && m[items[i].id]
            == items[i]
    &&& forall|id: u32| #[trigger] m.contains_key(id) ==> lists_id(items, id)
}

impl SRSStorage {
    /// The path of the file that the store is kept in.
    pub closed spec fn path(&self) -> Seq<char> {
        self.file@
    }

    /// The store's invariant, see [`valid_states`].
    pub open spec fn wf(&self) -> bool {
        valid_states(self@)
    }

    /// Create a new, empty srs-storage for the given file.
    pub fn new(file: &str) -> (r: Self)
        ensures
            r@ == Map::<u32, Item>::empty(),
            r.path() == file@,
            r.wf(),
    {
        Self { file: file.to_owned(), data: HashMap::new() }
    }

    /// Returns the path of the file that the store is kept in.
    pub fn file(&self) -> (r: &str)
        ensures
            r@ == self.path(),
    {
        self.file.as_str()
    }

    /// Adds a new SRS item to the srs-storage. Returns `false`, and changes
    /// nothing, if the id has a state already.
    pub fn add(&mut self, id: u32) -> (r: bool)
        ensures
            r == !old(self)@.contains_key(id),
            final(self)@ == with_added(old(self)@, id),
            final(self).path() == old(self).path(),
            old(self).wf() ==> final(self).wf(),
    {
        if self.find(id).is_some() {
            return false;
        }
        let new_item = Item::new(id);
        self.data.insert(id, new_item).is_none()
    }

    /// Returns the number of states in the storage.
    pub fn len(&self) -> (r: usize)
        ensures
            r == self@.dom().len(),
    {
        self.data.len()
    }

    /// Returns `true` if the storage does not contain a single item
    pub fn is_empty(&self) -> (r: bool)
        ensures
            r == (self@.dom() == Set::<u32>::empty()),
    {
        let r = self.data.is_empty();
        proof {
            if self@.dom().len() == 0 {
                self@.dom().lemma_len0_is_empty();
            }
        }
        r
    }

    /// Find an SRS item by its item id
    pub fn find(&self, id: u32) -> (r: Option<&Item>)
        ensures
            match r {
                Some(it) => self@.contains_key(id) && *it == self@[id],
                None => !self@.contains_key(id),
            },
    {
        self.data.get(&id)
    }

    /// Removes an item from the srs storage
    pub(crate) fn remove(&mut self, id: u32) -> (r: Option<Item>)
        ensures
            final(self)@ == old(self)@.remove(id),
            final(self).path() == old(self).path(),
            match r {
                Some(it) => old(self)@.contains_key(id) && it == old(self)@[id],
                None => !old(self)@.contains_key(id),
            },
            old(self).wf() ==> final(self).wf(),
    {
        self.data.remove(&id)
    }

    /// Lists the states that `pick` takes, ordered by id, or by due time
    /// and then by id.
    pub fn select(&self, pick: Selection, by_due: bool) -> (r: Vec<Item>)
        requires
            self.wf(),
        ensures
            lists(self@, pick, by_due, r@),
            r@ == listing(self@, pick, by_due),
    {
        let ids = self.ids();
        let mut out: Vec<Item> = Vec::new();
        let mut n: usize = 0;
        while n < ids.len()
            invariant
                n <= ids.len(),
                self.wf(),
                ids@.no_duplicates(),
                ids@.to_set() == self@.dom(),
                ordered(out@, by_due),
                forall|i: int|
                    0 <= i < out@.len() ==> self@.contains_key((#[trigger] out@[i]).id)
                        && self@[out@[i].id] == out@[i] && pick.takes(out@[i]),
                forall|i: int|
                    0 <= i < out@.len() ==> exists|j: int|
                        0 <= j < n && #[trigger] ids@[j] == (#[trigger] out@[i]).id,
                forall|j: int|
                    0 <= j < n && pick.takes(self@[#[trigger] ids@[j]]) ==> lists_id(out@, ids@[j]),
            decreases ids.len() - n,
        {
            let id = ids[n];
            proof {
                assert(ids@.to_set().contains(ids@[n as int]));
            }
            let found = self.find(id);
            if let Some(it) = found {
                if pick.test(it) {
                    let ghost before = out@;
                    proof {
                        if lists_id(before, id) {
                            let i = choose|i: int| 0 <= i < before.len() && (#[trigger] before[i]).id == id;
                            let j = choose|j: int| 0 <= j < n && #[trigger] ids@[j] == before[i].id;
                            assert(ids@[j] == ids@[n as int]);
                            assert(false);
                        }
                    }
                    place(&mut out, *it, by_due);
                    proof {
                        let p = choose|p: int|
                            0 <= p <= before.len() && out@ == #[trigger] before.insert(p, *it);
                        assert forall|i: int| 0 <= i < out@.len() implies self@.contains_key(
                            (#[trigger] out@[i]).id,
                        ) && self@[out@[i].id] == out@[i] && pick.takes(out@[i]) && exists|j: int|
                            0 <= j < n + 1 && #[trigger] ids@[j] == out@[i].id by {
                            if i < p {
                                assert(out@[i] == before[i]);
                                let j = choose|j: int| 0 <= j < n && #[trigger] ids@[j] == before[i].id;
                                assert(ids@[j] == out@[i].id);
                            } else if i == p {
                                assert(out@[i] == *it);
                                assert(ids@[n as int] == out@[i].id);
                            } else {
                                assert(out@[i] == before[i - 1]);
                                let j = choose|j: int| 0 <= j < n && #[trigger] ids@[j] == before[i - 1].id;
                                assert(ids@[j] == out@[i].id);
                            }
                        }
                        assert forall|j: int| 0 <= j < n + 1 && pick.takes(
                            self@[#[trigger] ids@[j]],
                        ) implies lists_id(out@, ids@[j]) by {
                            if j < n {
                                let i = choose|i: int|
                                    0 <= i < before.len() && (#[trigger] before[i]).id == ids@[j];
                                if i < p {
                                    assert(out@[i] == before[i]);
                                } else {
                                    assert(out@[i + 1] == before[i]);
                                }
                            } else {
                                assert(out@[p].id == ids@[j]);
                            }
                        }
                    }
                }
            }
            n += 1;
        }
        proof {
            assert forall|id: u32|
                #[trigger] self@.contains_key(id) && pick.takes(self@[id]) implies lists_id(
                out@,
                id,
            ) by {
                assert(ids@.to_set().contains(id));
                let j = choose|j: int| 0 <= j < ids@.len() && ids@[j] == id;
                assert(pick.takes(self@[ids@[j]]));
            }
            assert(lists(self@, pick, by_due, out@));
            lemma_listing_unique(self@, pick, by_due, out@, listing(self@, pick, by_due));
        }
        out
    }

    /// Builds a store from the states that a file held. Gives `None`
    /// exactly when a state is not well formed or an id occurs twice.
    pub fn from_parts(file: String, items: Vec<Item>) -> (r: Option<Self>)
        ensures
            r is Some <==> valid_parts(items@),
            r matches Some(s) ==> s.path() == file@ && s.wf() && holds_parts(s@, items@),
    {
        let mut data: HashMap<u32, Item> = HashMap::new();
        let mut n: usize = 0;
        while n < items.len()
            invariant
                n <= items.len(),
                valid_parts(items@.take(n as int)),
                holds_parts(data@, items@.take(n as int)),
                valid_states(data@),
            decreases items.len() - n,
        {
            let it = items[n];
            let ghost done = items@.take(n as int);
            let ghost next = items@.take(n + 1);
            proof {
                assert(next[n as int] == it);
                assert forall|i: int| 0 <= i < n implies next[i] == #[trigger] done[i] by {}
            }
            if it.srs_data.ease_factor() < crate::sm2::MIN_EASE || (it.in_learning && it.due_on
                == 0) {
                proof {
                    assert(!next[n as int].wf());
                    assert(!valid_parts(items@)) by {
                        if valid_parts(items@) {
                            assert(items@[n as int].wf());
                        }
                    }
                }
                return None;
            }
            if data.get(&it.id).is_some() {
                proof {
                    let i = choose|i: int| 0 <= i < done.len() && (#[trigger] done[i]).id == it.id;
                    assert(items@[i].id == items@[n as int].id);
                }
                return None;
            }
            data.insert(it.id, it);
            proof {
                assert forall|i: int, j: int| 0 <= i < j < next.len() implies (#[trigger] next[i]).id
                    != (#[trigger] next[j]).id by {
                    assert(next[i] == done[i]);
                    if j < n {
                        assert(next[j] == done[j]);
                    }
                }
                assert forall|i: int| 0 <= i < next.len() implies (#[trigger] next[i]).wf()
                    && data@.contains_key(next[i].id) && data@[next[i].id] == next[i] by {
                    if i < n {
                        assert(next[i] == done[i]);
                    }
                }
                assert forall|id: u32| #[trigger] data@.contains_key(id) implies lists_id(next, id) by {
                    if id != it.id {
                        let i = choose|i: int| 0 <= i < done.len() && (#[trigger] done[i]).id == id;
                        assert(next[i].id == id);
                    }
                }
            }
            n += 1;
        }
        proof {
            assert(items@.take(items.len() as int) == items@);
        }
        Some(Self { file, data })
    }

    /// Reviews the state of `id` at the time `now`, see
    /// [`Item::review_at`]. Returns `false`, and changes nothing, if there is
    /// no such state or if its next state does not fit.
    pub fn review_at(&mut self, id: u32, quality: RepQuality, now: u64) -> (r: bool)
        requires
            old(self).wf(),
        ensures
            final(self).wf(),
            final(self).path() == old(self).path(),
            r == reviews(old(self)@, id, quality, now),
            final(self)@ == with_review(old(self)@, id, quality, now),
    {
        let mut it = match self.find(id) {
            Some(it) => *it,
            None => { return false; },
        };
        if !it.can_review_at(quality, now) {
            return false;
        }
        it.review_at(quality, now);
        self.data.insert(id, it);
        true
    }

    /// Reviews the state of `id` today. Returns `false`, and changes
    /// nothing, if there is no such state or if its next state does not fit.
    pub fn review(&mut self, id: u32, quality: RepQuality) -> (r: bool)
        requires
            old(self).wf(),
        ensures
            final(self).wf(),
            final(self).path() == old(self).path(),
            reviews(old(self)@, id, quality, LAST_SECOND) ==> r,
            exists|now: u64|
                is_day_start(now) && r == #[trigger] reviews(old(self)@, id, quality, now)
                    && final(self)@ == with_review(old(self)@, id, quality, now),
    {
        let today = get_today_unix();
        let r = self.review_at(id, quality, today);
        assert(is_day_start(today) && r == reviews(old(self)@, id, quality, today));
        r
    }

    /// Puts the state of `id` back to that of an item never reviewed.
    /// Returns `false`, and changes nothing, if there is no such state.
    pub fn reset(&mut self, id: u32) -> (r: bool)
        requires
            old(self).wf(),
        ensures
            final(self).wf(),
            final(self).path() == old(self).path(),
            r == old(self)@.contains_key(id),
            final(self)@ == with_reset(old(self)@, id),
    {
        let mut it = match self.find(id) {
            Some(it) => *it,
            None => { return false; },
        };
        it.reset();
        self.data.insert(id, it);
        true
    }

    /// Returns all states, ordered by id.
    pub fn iter(&self) -> (r: Vec<Item>)
        requires
            self.wf(),
        ensures
            lists(self@, Selection::All, false, r@),
            r@ == listing(self@, Selection::All, false),
    {
        self.select(Selection::All, false)
    }

    /// Returns all items that need review at the time `now`, ordered by id.
    pub fn due_at(&self, now: u64) -> (r: Vec<Item>)
        requires
            self.wf(),
        ensures
            lists(self@, Selection::Due(now), false, r@),
            r@ == listing(self@, Selection::Due(now), false),
    {
        self.select(Selection::Due(now), false)
    }

    /// Returns all items that need review
    pub fn get_due(&self) -> (r: Vec<Item>)
        requires
            self.wf(),
        ensures
            exists|now: u64| is_day_start(now) && #[trigger] lists(self@, Selection::Due(now), false, r@),
    {
        let unix = get_today_unix();
        self.due_at(unix)
    }

    /// Returns the items never reviewed, ordered by id.
    pub fn get_new(&self) -> (r: Vec<Item>)
        requires
            self.wf(),
        ensures
            lists(self@, Selection::New, false, r@),
            r@ == listing(self@, Selection::New, false),
    {
        self.select(Selection::New, false)
    }

    /// Returns the items in learning that are due on the day after the one
    /// that holds `now`, ordered by id. A day runs from 04:00 to 04:00.
    pub fn due_tomorrow_at(&self, now: u64) -> (r: Vec<Item>)
        requires
            self.wf(),
            now <= LAST_SECOND,
        ensures
            lists(self@, tomorrow(now), false, r@),
            r@ == listing(self@, tomorrow(now), false),
    {
        let tomorrow = start_of_day(now) + DAY;
        self.select(Selection::DueWithin(tomorrow, tomorrow + DAY), false)
    }

    /// Returns the first `limit` of the items that are due after the start
    /// of the day after the one that holds `now`, ordered by due time and
    /// then by id.
    pub fn future_at(&self, now: u64, limit: usize) -> (r: Vec<Item>)
        requires
            self.wf(),
            now <= LAST_SECOND,
        ensures
            r@ == first_of(
                listing(self@, Selection::DueAfter((day_cutoff(now as int) + DAY) as u64), true),
                limit,
            ),
    {
        let tomorrow = start_of_day(now) + DAY;
        let mut out = self.select(Selection::DueAfter(tomorrow), true);
        let ghost all = out@;
        out.truncate(limit);
        proof {
            assert(out@ == first_of(all, limit));
        }
        out
    }

    /// The ids of all states, in no particular order.
    pub(crate) fn ids(&self) -> (r: Vec<u32>)
        ensures
            r@.no_duplicates(),
            r@.to_set() == self@.dom(),
    {
        let mut out: Vec<u32> = Vec::new();
        let ghost keys = vstd::std_specs::hash::spec_keys_iter(&self.data).remaining();
        for k in it: self.data.keys()
            invariant
                it.seq() == keys,
                out@ == keys.take(it.index() as int).unref(),
        {
            out.push(*k);
        }
        proof {
            assert(keys.take(keys.len() as int) == keys);
            assert(keys.unref().to_set() == self@.dom());
            assert(keys.no_duplicates());
            assert forall|i: int, j: int| 0 <= i < j < out@.len() implies out@[i] != out@[j] by {
                assert(keys[i] != keys[j]);
            }
        }
        out
    }
}

} // verus!
