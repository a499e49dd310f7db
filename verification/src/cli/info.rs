//! What there is to review: today, next, tomorrow and later.
use crate::cli::text::{comma_joined, join_with_commas};
use crate::storage::item::find_id;
use crate::storage::srs::{first_of, ids_in, listing, tomorrow, Selection};
use crate::storage::{srs, Shelf, Storage};
use crate::utils::{day_cutoff, get_today_unix, is_day_start, DAY, LAST_SECOND};
use vstd::prelude::*;
use vstd::relations::{sorted_by, total_ordering};
use vstd::string::StringExecFns;

verus! {

/// How many kanji a line of a day shows.
pub const LINE_LIMIT: usize = 40;

/// How many items the look ahead shows.
pub const FUTURE_LIMIT: usize = 20;

/// The order of ids.
pub open spec fn id_order() -> spec_fn(u32, u32) -> bool {
    |a: u32, b: u32| a <= b
}

/// The ids `data` in ascending order.
pub open spec fn sorted_ids(data: Seq<u32>) -> Seq<u32> {
    data.sort_by(id_order())
}

/// Returns the ids in ascending order.
pub fn sort_ids(data: &Vec<u32>) -> (r: Vec<u32>)
    ensures
        r@ == sorted_ids(data@),
        sorted_by(r@, id_order()),
        r@.to_multiset() == data@.to_multiset(),
{
    broadcast use vstd::seq_lib::group_to_multiset_ensures;

    let mut out: Vec<u32> = Vec::new();
    let mut i: usize = 0;
    while i < data.len()
        invariant
            i <= data.len(),
            sorted_by(out@, id_order()),
            out@.to_multiset() == data@.take(i as int).to_multiset(),
        decreases data.len() - i,
    {
        let x = data[i];
        let mut p: usize = 0;
        while p < out.len() && out[p] <= x
            invariant
                p <= out.len(),
                forall|k: int| 0 <= k < p ==> out@[k] <= x,
            decreases out.len() - p,
        {
            p += 1;
        }
        let ghost before = out@;
        out.insert(p, x);
        proof {
            assert(data@.take(i + 1) == data@.take(i as int).push(x));
            vstd::seq_lib::to_multiset_insert(before, p as int, x);
            vstd::seq_lib::to_multiset_build(data@.take(i as int), x);
            assert forall|a: int, b: int| 0 <= a < b < out@.len() implies id_order()(
                out@[a],
                out@[b],
            ) by {
                if b < p {
                    assert(id_order()(before[a], before[b]));
                } else if b == p {
                } else if a == p {
                    assert(id_order()(before[p as int], before[b - 1]) || p == b - 1);
                } else if a < p {
                    assert(id_order()(before[a], before[b - 1]));
                } else {
                    assert(id_order()(before[a - 1], before[b - 1]));
                }
            }
        }
        i += 1;
    }
    proof {
        assert(data@.take(data.len() as int) == data@);
        assert(total_ordering(id_order()));
        data@.lemma_sort_by_ensures(id_order());
        vstd::seq_lib::lemma_sorted_unique(out@, sorted_ids(data@), id_order());
    }
    out
}

/// The literal of the first entry with the id `id`, if that entry has a
/// state.
pub open spec fn literal_of(s: Shelf, id: u32) -> Option<char> {
    match find_id(s.items, id) {
        Some(it) => if s.states.contains_key(id) {
            Some(it.literal)
        } else {
            None
        },
        None => None,
    }
}

/// [`literal_of`] as a function of the id.
pub open spec fn literals(s: Shelf) -> spec_fn(u32) -> Option<char> {
    |id: u32| literal_of(s, id)
}

/// The first forty of `chars`, with commas, and a mark where there are
/// more.
pub open spec fn shortened(chars: Seq<char>) -> Seq<char> {
    if chars.len() > LINE_LIMIT {
        comma_joined(chars.take(LINE_LIMIT as int)) + seq![',', '.', '.', '.']
    } else {
        comma_joined(chars)
    }
}

/// The line for the items `data` of one day: their literals in the order
/// of their ids, see [`shortened`].
pub open spec fn day_line(s: Shelf, data: Seq<u32>) -> Seq<char> {
    shortened(sorted_ids(data).filter_map(literals(s)))
}

/// Returns the literals of the ids, in their order; an id without an entry
/// or without a state is passed over.
pub fn literals_for(storage: &Storage, ids: &Vec<u32>) -> (r: Vec<char>)
    ensures
        r@ == ids@.filter_map(literals(storage.shelf())),
{
    let ghost f = literals(storage.shelf());
    let mut out: Vec<char> = Vec::new();
    let mut i: usize = 0;
    while i < ids.len()
        invariant
            i <= ids.len(),
            f == literals(storage.shelf()),
            out@ == ids@.take(i as int).filter_map(f),
        decreases ids.len() - i,
    {
        proof {
            ids@.lemma_filter_map_take_succ(f, i as int);
            crate::storage::item::lemma_find_id(storage.items(), ids@[i as int]);
        }
        if let Some(full) = storage.get_by_id(ids[i]) {
            out.push(full.get_literal());
        }
        i += 1;
    }
    proof {
        assert(ids@.take(ids.len() as int) == ids@);
    }
    out
}

/// Returns the line for the items of one day, see [`day_line`]; `None`
/// where there are no items.
pub fn print_review_day(storage: &Storage, data: &Vec<u32>) -> (r: Option<String>)
    ensures
        match r {
            Some(line) => data@.len() > 0 && line@ == day_line(storage.shelf(), data@),
            None => data@.len() == 0,
        },
{
    if data.len() == 0 {
        return None;
    }
    let data = sort_ids(data);
    let mut items = literals_for(storage, &data);
    let ghost all = items@;
    let more = items.len() > LINE_LIMIT;
    items.truncate(LINE_LIMIT);
    let mut s = join_with_commas(&items);
    if more {
        s.append(",...");
        proof {
            reveal_strlit(",...");
            assert(",..."@ =~= seq![',', '.', '.', '.']);
        }
    } else {
        proof {
            assert(items@ =~= all);
        }
    }
    Some(s)
}

/// Returns the ids of the states.
pub fn ids_from(states: &Vec<srs::Item>) -> (r: Vec<u32>)
    ensures
        r@ == ids_in(states@),
{
    let mut out: Vec<u32> = Vec::new();
    let mut i: usize = 0;
    while i < states.len()
        invariant
            i <= states.len(),
            out@ == ids_in(states@.take(i as int)),
        decreases states.len() - i,
    {
        out.push(states[i].id);
        proof {
            assert(out@ =~= ids_in(states@.take(i + 1)));
        }
        i += 1;
    }
    proof {
        assert(states@.take(states.len() as int) == states@);
    }
    out
}

/// Returns the ids of the items in learning that are due on the day after
/// the one that holds `now`, in ascending order. A day runs from 04:00 to
/// 04:00.
pub fn reviews_tomorrow_at(storage: &Storage, now: u64) -> (r: Vec<u32>)
    requires
        storage.wf(),
        now <= LAST_SECOND,
    ensures
        r@ == ids_in(listing(storage.states(), tomorrow(now), false)),
{
    let states = storage.get_srs_storage().due_tomorrow_at(now);
    ids_from(&states)
}

/// Returns the ids of the items in learning that are due tomorrow, in
/// ascending order.
pub fn reviews_tomorrow(storage: &Storage) -> (r: Vec<u32>)
    requires
        storage.wf(),
    ensures
        exists|now: u64|
            is_day_start(now) && r@ == ids_in(
                listing(storage.states(), #[trigger] tomorrow(now), false),
            ),
{
    let today = get_today_unix();
    let r = reviews_tomorrow_at(storage, today);
    assert(is_day_start(today) && r@ == ids_in(listing(storage.states(), tomorrow(today), false)));
    r
}

/// Returns all states, ordered by due time and then by id.
pub fn all_due_ordered(storage: &Storage) -> (r: Vec<srs::Item>)
    requires
        storage.wf(),
    ensures
        r@ == listing(storage.states(), Selection::All, true),
{
    storage.get_srs_storage().select(Selection::All, true)
}

/// The part of the text for the items `data` of one day: nothing where
/// there are none; else the heading, a line break, the line of the items,
/// and the line breaks `tail`.
pub open spec fn section(s: Shelf, heading: Seq<char>, data: Seq<u32>, tail: Seq<char>) -> Seq<char> {
    if data.len() > 0 {
        heading + seq!['\n'] + day_line(s, data) + tail
    } else {
        Seq::empty()
    }
}

/// Writes the part of the text for the items of one day, see [`section`].
pub fn write_section(storage: &Storage, heading: &str, data: &Vec<u32>, tail: &str) -> (r: String)
    ensures
        r@ == section(storage.shelf(), heading@, data@, tail@),
{
    let mut out = String::new();
    if let Some(line) = print_review_day(storage, data) {
        out.append(heading);
        out.push('\n');
        out.append(line.as_str());
        out.append(tail);
    }
    out
}

/// The part of the text for the items due: nothing where there are none;
/// else the heading, their literals with commas, and two line breaks.
pub open spec fn today_section(s: Shelf, today: Seq<u32>) -> Seq<char> {
    if today.len() > 0 {
        "Today: "@ + comma_joined(today.filter_map(literals(s))) + "\n\n"@
    } else {
        Seq::empty()
    }
}

/// Writes the part of the text for the items due, see [`today_section`].
pub fn write_today(storage: &Storage, today: &Vec<u32>) -> (r: String)
    ensures
        r@ == today_section(storage.shelf(), today@),
{
    let mut out = String::new();
    if today.len() > 0 {
        let s = join_with_commas(&literals_for(storage, today));
        out.append("Today: ");
        out.append(s.as_str());
        out.append("\n\n");
    }
    out
}

/// The selection of the states that are due after the start of the day
/// after the one that holds `now`.
pub open spec fn after_tomorrow(now: u64) -> Selection {
    Selection::DueAfter((day_cutoff(now as int) + DAY) as u64)
}

/// What there is to review at the time `now`, as a text: the new items,
/// the items due, those due tomorrow, and the first twenty of those due
/// later; each part only where it holds an item. An empty storage is
/// pointed out.
pub open spec fn info_text(s: Shelf, now: u64) -> Seq<char> {
    section(s, "Next: "@, ids_in(listing(s.states, Selection::New, false)), "\n\n"@)
        + today_section(s, ids_in(listing(s.states, Selection::Due(now), false))) + section(
        s,
        "Tomorrow: "@,
        ids_in(listing(s.states, tomorrow(now), false)),
        "\n\n"@,
    ) + section(
        s,
        "Future: "@,
        ids_in(first_of(listing(s.states, after_tomorrow(now), true), FUTURE_LIMIT)),
        "\n"@,
    ) + (if s.items.len() == 0 {
        "No kanji in database. Go and add some\n"@
    } else {
        Seq::empty()
    })
}

/// Writes what there is to review at the time `now`, see [`info_text`].
pub fn run_at(storage: &Storage, now: u64) -> (r: String)
    requires
        storage.wf(),
        now <= LAST_SECOND,
    ensures
        r@ == info_text(storage.shelf(), now),
{
    let next = ids_from(&storage.get_srs_storage().get_new());
    let mut out = write_section(storage, "Next: ", &next, "\n\n");
    let today = ids_from(&storage.get_srs_storage().due_at(now));
    let part = write_today(storage, &today);
    out.append(part.as_str());
    let tomorrow = reviews_tomorrow_at(storage, now);
    let part = write_section(storage, "Tomorrow: ", &tomorrow, "\n\n");
    out.append(part.as_str());
    let future = ids_from(&storage.get_srs_storage().future_at(now, FUTURE_LIMIT));
    let part = write_section(storage, "Future: ", &future, "\n");
    out.append(part.as_str());
    if storage.is_empty() {
        out.append("No kanji in database. Go and add some\n");
    } else {
        proof {
            assert(out@ + Seq::<char>::empty() =~= out@);
        }
    }
    out
}

/// Writes what there is to review today.
pub fn run(storage: &Storage) -> (r: String)
    requires
        storage.wf(),
    ensures
        exists|now: u64| is_day_start(now) && r@ == #[trigger] info_text(storage.shelf(), now),
{
    let today = get_today_unix();
    run_at(storage, today)
}

} // verus!
