//! A session of learning: which items to present, and which of them to
//! learn again.
use crate::cli::review::{answer_all, answer_all_at, answered, taken_count, Answer};
use crate::japanese::{chars_of, keep, Script};
use crate::storage::item::{first_with_id, first_with_literal, has_id, lemma_first_literal_unique};
use crate::storage::srs::{first_of, listing, lists, Selection};
use crate::storage::{joins, srs, Item, Storage};
use crate::utils::{get_today_unix, is_day_start, parse_nr, parsed_number};
use vstd::prelude::*;

verus! {

/// How many new items a session takes where nothing else is asked for.
pub const DEFAULT_NEW: usize = 8;

/// How many reviews a session takes where nothing else is asked for.
pub const MAX_REVIEWS: usize = 20;

/// The limits of a session.
#[derive(Clone, Copy, Debug)]
pub struct RunConfigs {
    pub new_count: usize,
    pub max_reviews: usize,
}

/// The number that an option's text gives, or `default`.
pub open spec fn number_or(s: Option<&str>, default: usize) -> usize {
    match s {
        Some(text) => match parsed_number(text@) {
            Some(n) => n,
            None => default,
        },
        None => default,
    }
}

/// Reads the limits of a session from the command line's options: whether
/// new items are switched off, and the texts given for the two counts.
pub fn parse_runconfig(no_new: bool, new_count: Option<&str>, max_reviews: Option<&str>) -> (r:
    RunConfigs)
    ensures
        r.new_count == if no_new { 0 } else { number_or(new_count, DEFAULT_NEW) },
        r.max_reviews == number_or(max_reviews, MAX_REVIEWS),
{
    let new_count = if !no_new {
        parse_nr(new_count, DEFAULT_NEW)
    } else {
        0
    };
    let max_reviews = parse_nr(max_reviews, MAX_REVIEWS);
    RunConfigs { new_count, max_reviews }
}

/// Returns the kanji of the line that the user entered, in their order.
pub fn read_failed_input(line: &str) -> (r: Vec<char>)
    ensures
        r@ == Script::Kanji.those_of(line@),
{
    let chars = chars_of(line);
    keep(&chars, Script::Kanji)
}

/// The states that a session takes: of those due, as many as the limit of
/// reviews allows, all of them where the limit is zero; then of those new,
/// as many as the limit of new items allows.
pub open spec fn picked(due: Seq<srs::Item>, new: Seq<srs::Item>, config: RunConfigs) -> Seq<
    srs::Item,
> {
    (if config.max_reviews == 0 {
        due
    } else {
        first_of(due, config.max_reviews)
    }) + first_of(new, config.new_count)
}

/// The states of the joined items `r`.
pub open spec fn states_of(r: Seq<Item>) -> Seq<srs::Item> {
    Seq::new(r.len(), |i: int| r[i].state())
}

/// `r` joins, in their order, those of the states `chosen` whose id has
/// an entry in the item store.
pub open spec fn joins_all(storage: Storage, chosen: Seq<srs::Item>, r: Seq<Item>) -> bool {
    &&& states_of(r) == chosen.filter(|s: srs::Item| has_id(storage.items(), s.id))
    &&& forall|i: int|
        0 <= i < r.len() ==> first_with_id(
            storage.items(),
            (#[trigger] r[i]).state().id,
            r[i].item(),
        ) && joins(r[i], r[i].item(), storage.states())
}

/// `r` holds the items of a session that starts at the time `now`: the
/// states that [`picked`] takes from the listings of those due and of those
/// new, joined as [`joins_all`] says.
pub open spec fn picks_at(storage: Storage, config: RunConfigs, now: u64, r: Seq<Item>) -> bool {
    joins_all(
        storage,
        picked(
            listing(storage.states(), Selection::Due(now), false),
            listing(storage.states(), Selection::New, false),
            config,
        ),
        r,
    )
}

/// Picks the items of a session that starts at the time `now`, see
/// [`picks_at`].
pub fn pick_to_learn_at<'a>(storage: &'a Storage, run_config: &RunConfigs, now: u64) -> (r: Vec<
    Item<'a>,
>)
    requires
        storage.wf(),
    ensures
        picks_at(*storage, *run_config, now, r@),
{
    let mut reviews = storage.get_srs_storage().due_at(now);
    let ghost due = reviews@;
    if run_config.max_reviews != 0 {
        reviews.truncate(run_config.max_reviews);
    }
    let mut new = storage.get_srs_storage().get_new();
    let ghost all_new = new@;
    new.truncate(run_config.new_count);
    let mut chosen = reviews;
    chosen.append(&mut new);
    proof {
        assert(chosen@ =~= picked(due, all_new, *run_config));
    }
    let ghost present = |s: srs::Item| has_id(storage.items(), s.id);
    let mut out: Vec<Item<'a>> = Vec::new();
    let mut n: usize = 0;
    while n < chosen.len()
        invariant
            n <= chosen.len(),
            present == (|s: srs::Item| has_id(storage.items(), s.id)),
            chosen@ == picked(due, all_new, *run_config),
            lists(storage.states(), Selection::Due(now), false, due),
            lists(storage.states(), Selection::New, false, all_new),
            states_of(out@) == chosen@.take(n as int).filter(present),
            forall|i: int|
                0 <= i < out@.len() ==> first_with_id(
                    storage.items(),
                    (#[trigger] out@[i]).state().id,
                    out@[i].item(),
                ) && joins(out@[i], out@[i].item(), storage.states()),
        decreases chosen.len() - n,
    {
        let state = chosen[n];
        let ghost before = out@;
        proof {
            assert(chosen@.take(n + 1) == chosen@.take(n as int).push(state));
            chosen@.take(n as int).lemma_filter_push(state, present);
            lemma_picked_held(storage.states(), now, due, all_new, *run_config, n as int);
        }
        if let Some(full) = storage.get_by_id(state.id) {
            out.push(full);
            proof {
                assert(states_of(out@) =~= states_of(before).push(state));
            }
        } else {
            proof {
                assert(states_of(out@) =~= states_of(before));
            }
        }
        n += 1;
    }
    proof {
        assert(chosen@.take(chosen.len() as int) == chosen@);
        assert(joins_all(*storage, picked(due, all_new, *run_config), out@));
    }
    out
}

/// Every state that a session takes is a state of the store, under its
/// own id.
proof fn lemma_picked_held(
    m: Map<u32, srs::Item>,
    now: u64,
    due: Seq<srs::Item>,
    new: Seq<srs::Item>,
    config: RunConfigs,
    n: int,
)
    requires
        lists(m, Selection::Due(now), false, due),
        lists(m, Selection::New, false, new),
        0 <= n < picked(due, new, config).len(),
    ensures
        m.contains_key(picked(due, new, config)[n].id),
        m[picked(due, new, config)[n].id] == picked(due, new, config)[n],
{
    let head = if config.max_reviews == 0 {
        due
    } else {
        first_of(due, config.max_reviews)
    };
    if n < head.len() {
        assert(picked(due, new, config)[n] == due[n]);
    } else {
        assert(picked(due, new, config)[n] == new[n - head.len()]);
    }
}

/// Picks the items of a session that starts today.
pub fn pick_to_learn<'a>(storage: &'a Storage, run_config: &RunConfigs) -> (r: Vec<Item<'a>>)
    requires
        storage.wf(),
    ensures
        exists|now: u64| is_day_start(now) && #[trigger] picks_at(*storage, *run_config, now, r@),
{
    let today = get_today_unix();
    pick_to_learn_at(storage, run_config, today)
}

/// Some item of `learned` has the literal `c`.
pub open spec fn was_learned(learned: Seq<Item>, c: char) -> bool {
    exists|i: int| 0 <= i < learned.len() && (#[trigger] learned[i]).item().literal == c
}

/// The id under which the character `c` is learned again: that of the
/// first entry with this literal, if `c` was among the items learned and
/// the entry has a state.
pub open spec fn relearn_id(storage: Storage, learned: Seq<Item>, c: char) -> Option<u32> {
    if was_learned(learned, c) && exists|it: crate::storage::item::Item|
        (#[trigger] first_with_literal(storage.items(), c, it)) && storage.states().contains_key(
            it.id,
        ) {
        let it = choose|it: crate::storage::item::Item|
            (#[trigger] first_with_literal(storage.items(), c, it)) && storage.states().contains_key(
                it.id,
            );
        Some(it.id)
    } else {
        None
    }
}

/// Returns `true` if some item of `learned` has the literal `c`.
fn holds_literal(learned: &Vec<Item<'_>>, c: char) -> (r: bool)
    ensures
        r == was_learned(learned@, c),
{
    let mut k: usize = 0;
    while k < learned.len()
        invariant
            k <= learned.len(),
            forall|i: int| 0 <= i < k ==> (#[trigger] learned@[i]).item().literal != c,
        decreases learned.len() - k,
    {
        if learned[k].get_literal() == c {
            return true;
        }
        k += 1;
    }
    false
}

/// Returns the ids of the items to learn again: for each character that
/// the user entered, in their order, its [`relearn_id`] where it has one.
pub fn determine_relearn(storage: &Storage, learned: &Vec<Item<'_>>, failed: &Vec<char>) -> (r:
    Vec<u32>)
    ensures
        r@ == failed@.filter_map(|c: char| relearn_id(*storage, learned@, c)),
{
    let ghost f = |c: char| relearn_id(*storage, learned@, c);
    let mut out: Vec<u32> = Vec::new();
    let mut n: usize = 0;
    while n < failed.len()
        invariant
            n <= failed.len(),
            f == (|c: char| relearn_id(*storage, learned@, c)),
            out@ == failed@.take(n as int).filter_map(f),
        decreases failed.len() - n,
    {
        let c = failed[n];
        proof {
            failed@.lemma_filter_map_take_succ(f, n as int);
        }
        if holds_literal(learned, c) {
            if let Some(full) = storage.get_by_lit(c) {
                proof {
                    lemma_first_literal_unique(storage.items(), c, full.item());
                }
                out.push(full.get_id());
            }
        }
        n += 1;
    }
    proof {
        assert(failed@.take(failed.len() as int) == failed@);
    }
    out
}

/// The literals of the joined items `r`.
pub open spec fn literals_in(r: Seq<Item>) -> Seq<char> {
    Seq::new(r.len(), |i: int| r[i].item().literal)
}

/// The ids of the joined items `r`.
pub open spec fn ids_of_joined(r: Seq<Item>) -> Seq<u32> {
    Seq::new(r.len(), |i: int| r[i].item().id)
}

/// Some item of `r` is in learning.
pub open spec fn any_in_learning(r: Seq<Item>) -> bool {
    exists|i: int| 0 <= i < r.len() && (#[trigger] r[i]).state().in_learning
}

/// Returns `true` if some of the items picked is in learning: the session
/// holds a review, not new items only.
pub fn has_reviews(to_learn: &Vec<Item<'_>>) -> (r: bool)
    ensures
        r == any_in_learning(to_learn@),
{
    let mut i: usize = 0;
    while i < to_learn.len()
        invariant
            i <= to_learn.len(),
            forall|k: int| 0 <= k < i ==> !(#[trigger] to_learn@[k]).state().in_learning,
        decreases to_learn.len() - i,
    {
        if to_learn[i].is_learning() {
            return true;
        }
        i += 1;
    }
    false
}

/// Returns the literals of the items picked, one after the other: the
/// text to look up.
pub fn learn_string(to_learn: &Vec<Item<'_>>) -> (r: String)
    ensures
        r@ == literals_in(to_learn@),
{
    let mut out = String::new();
    let mut i: usize = 0;
    while i < to_learn.len()
        invariant
            i <= to_learn.len(),
            out@ == literals_in(to_learn@.take(i as int)),
        decreases to_learn.len() - i,
    {
        out.push(to_learn[i].get_literal());
        proof {
            assert(out@ =~= literals_in(to_learn@.take(i + 1)));
        }
        i += 1;
    }
    proof {
        assert(to_learn@.take(to_learn.len() as int) == to_learn@);
    }
    out
}

/// Returns the ids of the items picked, in their order.
pub fn learned_ids(to_learn: &Vec<Item<'_>>) -> (r: Vec<u32>)
    ensures
        r@ == ids_of_joined(to_learn@),
{
    let mut out: Vec<u32> = Vec::new();
    let mut i: usize = 0;
    while i < to_learn.len()
        invariant
            i <= to_learn.len(),
            out@ == ids_of_joined(to_learn@.take(i as int)),
        decreases to_learn.len() - i,
    {
        out.push(to_learn[i].get_id());
        proof {
            assert(out@ =~= ids_of_joined(to_learn@.take(i + 1)));
        }
        i += 1;
    }
    proof {
        assert(to_learn@.take(to_learn.len() as int) == to_learn@);
    }
    out
}

/// The answers of a session: an item is learned again where its id is
/// among `relearn`.
pub open spec fn session_answers(ids: Seq<u32>, relearn: Seq<u32>) -> Seq<Answer> {
    Seq::new(ids.len(), |i: int| Answer { id: ids[i], again: relearn.contains(ids[i]) })
}

/// Returns `true` if `id` is among `ids`.
pub fn holds_id(ids: &Vec<u32>, id: u32) -> (r: bool)
    ensures
        r == ids@.contains(id),
{
    let mut i: usize = 0;
    while i < ids.len()
        invariant
            i <= ids.len(),
            forall|k: int| 0 <= k < i ==> ids@[k] != id,
        decreases ids.len() - i,
    {
        if ids[i] == id {
            return true;
        }
        i += 1;
    }
    false
}

/// Builds the answers of a session, see [`session_answers`].
pub fn session_plan(ids: &Vec<u32>, to_relearn: &Vec<u32>) -> (r: Vec<Answer>)
    ensures
        r@ == session_answers(ids@, to_relearn@),
{
    let mut out: Vec<Answer> = Vec::new();
    let mut i: usize = 0;
    while i < ids.len()
        invariant
            i <= ids.len(),
            out@ == session_answers(ids@.take(i as int), to_relearn@),
        decreases ids.len() - i,
    {
        let again = holds_id(to_relearn, ids[i]);
        out.push(Answer { id: ids[i], again });
        proof {
            assert(out@ =~= session_answers(ids@.take(i + 1), to_relearn@));
        }
        i += 1;
    }
    proof {
        assert(ids@.take(ids.len() as int) == ids@);
    }
    out
}

/// Ends a session held at the time `now`: every item learned is reviewed,
/// as not recalled where the user wants to learn it again, as recalled
/// after a hesitation else. Returns how many reviews were taken.
pub fn run_at(storage: &mut Storage, learned: &Vec<u32>, to_relearn: &Vec<u32>, now: u64) -> (r:
    usize)
    requires
        old(storage).wf(),
    ensures
        final(storage).wf(),
        final(storage).shelf() == answered(
            old(storage).shelf(),
            session_answers(learned@, to_relearn@),
            now,
        ),
        r == taken_count(old(storage).shelf(), session_answers(learned@, to_relearn@), now),
{
    let answers = session_plan(learned, to_relearn);
    answer_all_at(storage, &answers, now)
}

/// Ends a session held today, see [`run_at`].
pub fn run(storage: &mut Storage, learned: &Vec<u32>, to_relearn: &Vec<u32>) -> (r: usize)
    requires
        old(storage).wf(),
    ensures
        final(storage).wf(),
        exists|now: u64|
            is_day_start(now) && final(storage).shelf() == #[trigger] answered(
                old(storage).shelf(),
                session_answers(learned@, to_relearn@),
                now,
            ) && r == taken_count(old(storage).shelf(), session_answers(learned@, to_relearn@), now),
{
    let answers = session_plan(learned, to_relearn);
    answer_all(storage, &answers)
}

} // verus!
