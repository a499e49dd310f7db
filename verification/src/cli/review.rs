//! Marking kanji as reviewed by hand, and the answers of a round of
//! reviews.
use crate::cli::text::{report, write_report};
use crate::japanese::{chars_of, keep, Script};
use crate::sm2::RepQuality;
use crate::storage::item::find_literal;
use crate::storage::srs::reviews;
use crate::storage::{item, Shelf, Storage};
use crate::utils::{get_today_unix, is_day_start};
use vstd::prelude::*;

verus! {

/// The outcome of one review: the id of the item, and whether the user
/// wants to learn it again.
#[derive(Clone, Copy, Debug, PartialEq, Eq, Structural)]
pub struct Answer {
    pub id: u32,
    pub again: bool,
}

impl Answer {
    /// The grade that the answer stands for: an item to learn again was
    /// not recalled, any other was recalled after a hesitation.
    pub open spec fn grade(self) -> RepQuality {
        if self.again {
            RepQuality::Grade2
        } else {
            RepQuality::Grade4
        }
    }
}

/// The content after the answers `answers` were taken, in their order, at
/// the time `now`.
pub open spec fn answered(s: Shelf, answers: Seq<Answer>, now: u64) -> Shelf
    decreases answers.len(),
{
    if answers.len() == 0 {
        s
    } else {
        answered(s, answers.drop_last(), now).reviewed(
            answers.last().id,
            answers.last().grade(),
            now,
        )
    }
}

/// How many of the answers `answers` were taken: an answer is passed over
/// where its item has no state, or where the next state does not fit.
pub open spec fn taken_count(s: Shelf, answers: Seq<Answer>, now: u64) -> nat
    decreases answers.len(),
{
    if answers.len() == 0 {
        0
    } else {
        let before = answered(s, answers.drop_last(), now);
        taken_count(s, answers.drop_last(), now) + if reviews(
            before.states,
            answers.last().id,
            answers.last().grade(),
            now,
        ) {
            1nat
        } else {
            0nat
        }
    }
}

/// Takes the answers of a round of reviews held at the time `now`, in
/// their order, and returns how many were taken.
pub fn answer_all_at(storage: &mut Storage, answers: &Vec<Answer>, now: u64) -> (r: usize)
    requires
        old(storage).wf(),
    ensures
        final(storage).wf(),
        final(storage).shelf() == answered(old(storage).shelf(), answers@, now),
        r == taken_count(old(storage).shelf(), answers@, now),
{
    let mut count: usize = 0;
    let mut i: usize = 0;
    while i < answers.len()
        invariant
            i <= answers.len(),
            storage.wf(),
            storage.shelf() == answered(old(storage).shelf(), answers@.take(i as int), now),
            count == taken_count(old(storage).shelf(), answers@.take(i as int), now),
            count <= i,
        decreases answers.len() - i,
    {
        let a = answers[i];
        proof {
            assert(answers@.take(i + 1).drop_last() == answers@.take(i as int));
            assert(answers@.take(i + 1).last() == a);
        }
        let ok = if a.again {
            storage.review_at(a.id, RepQuality::Grade2, now)
        } else {
            storage.review_at(a.id, RepQuality::Grade4, now)
        };
        if ok {
            count += 1;
        }
        i += 1;
    }
    proof {
        assert(answers@.take(answers.len() as int) == answers@);
    }
    count
}

/// Takes the answers of a round of reviews held today, in their order, and
/// returns how many were taken.
pub fn answer_all(storage: &mut Storage, answers: &Vec<Answer>) -> (r: usize)
    requires
        old(storage).wf(),
    ensures
        final(storage).wf(),
        exists|now: u64|
            is_day_start(now) && final(storage).shelf() == #[trigger] answered(
                old(storage).shelf(),
                answers@,
                now,
            ) && r == taken_count(old(storage).shelf(), answers@, now),
{
    let today = get_today_unix();
    let r = answer_all_at(storage, answers, today);
    assert(is_day_start(today) && storage.shelf() == answered(old(storage).shelf(), answers@, today));
    r
}

/// The entry of the literal `c`, if it has one whose state can be reviewed
/// at the time `now`.
pub open spec fn open_entry(s: Shelf, c: char, now: u64) -> Option<item::Item> {
    match find_literal(s.items, c) {
        Some(it) => if s.states.contains_key(it.id) && s.states[it.id].reviewable(now) {
            Some(it)
        } else {
            None
        },
        None => None,
    }
}

/// Returns the entries of the kanji of the text that can be reviewed at
/// the time `now`, in the order of the text. Other characters are passed
/// over.
pub fn reviewable_at(storage: &Storage, inp: &str, now: u64) -> (r: Vec<item::Item>)
    ensures
        r@ == Script::Kanji.those_of(inp@).filter_map(|c: char| open_entry(storage.shelf(), c, now)),
{
    let chars = chars_of(inp);
    let kanji = keep(&chars, Script::Kanji);
    let ghost f = |c: char| open_entry(storage.shelf(), c, now);
    let mut out: Vec<item::Item> = Vec::new();
    let mut i: usize = 0;
    while i < kanji.len()
        invariant
            i <= kanji.len(),
            f == (|c: char| open_entry(storage.shelf(), c, now)),
            out@ == kanji@.take(i as int).filter_map(f),
        decreases kanji.len() - i,
    {
        proof {
            kanji@.lemma_filter_map_take_succ(f, i as int);
        }
        if let Some(item) = storage.get_by_lit(kanji[i]) {
            if item.can_be_reviewed_at(now) {
                out.push(item::Item { id: item.get_id(), literal: item.get_literal() });
            }
        }
        i += 1;
    }
    proof {
        assert(kanji@.take(kanji.len() as int) == kanji@);
    }
    out
}

/// Returns the entries of the kanji of the text that can be reviewed
/// today, in the order of the text.
pub fn reviewable(storage: &Storage, inp: &str) -> (r: Vec<item::Item>)
    ensures
        exists|now: u64|
            is_day_start(now) && r@ == Script::Kanji.those_of(inp@).filter_map(
                #[trigger] open_entries(storage.shelf(), now),
            ),
{
    let today = get_today_unix();
    let r = reviewable_at(storage, inp, today);
    assert(open_entries(storage.shelf(), today) == (|c: char| open_entry(storage.shelf(), c, today)));
    r
}

/// [`open_entry`] as a function of the literal.
pub open spec fn open_entries(s: Shelf, now: u64) -> spec_fn(char) -> Option<
    item::Item,
> {
    |c: char| open_entry(s, c, now)
}

/// The answers for the entries `entries`: an entry is learned again where
/// its literal is among `failed`.
pub open spec fn answers_for(entries: Seq<item::Item>, failed: Seq<char>) -> Seq<
    Answer,
> {
    Seq::new(
        entries.len(),
        |i: int| Answer { id: entries[i].id, again: failed.contains(entries[i].literal) },
    )
}

/// The literals of the entries `entries`.
pub open spec fn literals_of(entries: Seq<item::Item>) -> Seq<char> {
    Seq::new(entries.len(), |i: int| entries[i].literal)
}

/// Returns `true` if `c` is among `chars`.
pub fn holds_char(chars: &Vec<char>, c: char) -> (r: bool)
    ensures
        r == chars@.contains(c),
{
    let mut i: usize = 0;
    while i < chars.len()
        invariant
            i <= chars.len(),
            forall|k: int| 0 <= k < i ==> chars@[k] != c,
        decreases chars.len() - i,
    {
        if chars[i] == c {
            return true;
        }
        i += 1;
    }
    false
}

/// Builds the answers for the entries, see [`answers_for`], and lists the
/// literals of the entries.
pub fn plan(entries: &Vec<item::Item>, failed: &Vec<char>) -> (r: (
    Vec<Answer>,
    Vec<char>,
))
    ensures
        r.0@ == answers_for(entries@, failed@),
        r.1@ == literals_of(entries@),
{
    let mut answers: Vec<Answer> = Vec::new();
    let mut literals: Vec<char> = Vec::new();
    let mut i: usize = 0;
    while i < entries.len()
        invariant
            i <= entries.len(),
            answers@ == answers_for(entries@.take(i as int), failed@),
            literals@ == literals_of(entries@.take(i as int)),
        decreases entries.len() - i,
    {
        let e = entries[i];
        let again = holds_char(failed, e.literal);
        answers.push(Answer { id: e.id, again });
        literals.push(e.literal);
        proof {
            assert(answers@ =~= answers_for(entries@.take(i + 1), failed@));
            assert(literals@ =~= literals_of(entries@.take(i + 1)));
        }
        i += 1;
    }
    proof {
        assert(entries@.take(entries.len() as int) == entries@);
    }
    (answers, literals)
}

/// Marks the entries as reviewed at the time `now`: those whose literal is
/// among the kanji of the line that the user entered are learned again.
/// Returns what to tell the user: the kanji reviewed.
pub fn run_at(
    storage: &mut Storage,
    entries: &Vec<item::Item>,
    failed_line: &str,
    now: u64,
) -> (r: String)
    requires
        old(storage).wf(),
    ensures
        final(storage).wf(),
        final(storage).shelf() == answered(
            old(storage).shelf(),
            answers_for(entries@, Script::Kanji.those_of(failed_line@)),
            now,
        ),
        r@ == report("Reviewed"@, "Nothing to reset"@, literals_of(entries@)),
{
    let chars = chars_of(failed_line);
    let failed = keep(&chars, Script::Kanji);
    let (answers, literals) = plan(entries, &failed);
    let _ = answer_all_at(storage, &answers, now);
    write_report("Reviewed", "Nothing to reset", &literals)
}

/// Marks the entries as reviewed today, see [`run_at`].
pub fn run(storage: &mut Storage, entries: &Vec<item::Item>, failed_line: &str) -> (r:
    String)
    requires
        old(storage).wf(),
    ensures
        final(storage).wf(),
        r@ == report("Reviewed"@, "Nothing to reset"@, literals_of(entries@)),
        exists|now: u64|
            is_day_start(now) && final(storage).shelf() == #[trigger] answered(
                old(storage).shelf(),
                answers_for(entries@, Script::Kanji.those_of(failed_line@)),
                now,
            ),
{
    let today = get_today_unix();
    let r = run_at(storage, entries, failed_line, today);
    assert(is_day_start(today) && storage.shelf() == answered(
        old(storage).shelf(),
        answers_for(entries@, Script::Kanji.those_of(failed_line@)),
        today,
    ));
    r
}

} // verus!
