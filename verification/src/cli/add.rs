//! Adding kanji to the storage, and what the commands that change the
//! storage kanji by kanji have in common.
use crate::cli::text::{report, write_report};
use crate::japanese::{chars_of, keep, JapaneseExt, Script};
use crate::storage::{Shelf, Storage};
use vstd::prelude::*;
use vstd::string::StringExecFns;

verus! {

/// A change of the storage that is made for one kanji.
#[derive(Clone, Copy, Debug, PartialEq, Eq, Structural)]
pub enum Action {
    Add,
    Remove,
    Reset,
}

impl Action {
    /// The content after the change for the literal `c`.
    pub open spec fn result(self, s: Shelf, c: char) -> Shelf {
        match self {
            Action::Add => s.added(c),
            Action::Remove => s.removed(c),
            Action::Reset => s.reset(c),
        }
    }

    /// Whether the change for the literal `c` succeeds.
    pub open spec fn succeeds(self, s: Shelf, c: char) -> bool {
        match self {
            Action::Add => s.adds(c),
            Action::Remove => s.holds(c),
            Action::Reset => s.holds(c),
        }
    }

    /// The content after the change for each of the literals `cs`, in
    /// their order.
    pub open spec fn result_all(self, s: Shelf, cs: Seq<char>) -> Shelf
        decreases cs.len(),
    {
        if cs.len() == 0 {
            s
        } else {
            self.result(self.result_all(s, cs.drop_last()), cs.last())
        }
    }

    /// Those of the literals `cs` for which the change succeeds when the
    /// literals are taken in their order.
    pub open spec fn worked_on(self, s: Shelf, cs: Seq<char>) -> Seq<char>
        decreases cs.len(),
    {
        if cs.len() == 0 {
            Seq::empty()
        } else if self.succeeds(self.result_all(s, cs.drop_last()), cs.last()) {
            self.worked_on(s, cs.drop_last()).push(cs.last())
        } else {
            self.worked_on(s, cs.drop_last())
        }
    }
}

/// Makes the change for each of the literals, in their order, and returns
/// those for which it succeeded.
pub fn apply_each(storage: &mut Storage, action: Action, literals: &Vec<char>) -> (r: Vec<char>)
    requires
        old(storage).wf(),
        action == Action::Add ==> old(storage).counter() + literals@.len() <= u32::MAX,
    ensures
        final(storage).wf(),
        final(storage).shelf() == action.result_all(old(storage).shelf(), literals@),
        r@ == action.worked_on(old(storage).shelf(), literals@),
{
    let mut done: Vec<char> = Vec::new();
    let mut i: usize = 0;
    while i < literals.len()
        invariant
            i <= literals.len(),
            storage.wf(),
            action == Action::Add ==> old(storage).counter() + literals@.len() <= u32::MAX,
            storage.counter() <= old(storage).counter() + i,
            storage.shelf() == action.result_all(old(storage).shelf(), literals@.take(i as int)),
            done@ == action.worked_on(old(storage).shelf(), literals@.take(i as int)),
        decreases literals.len() - i,
    {
        let c = literals[i];
        proof {
            assert(literals@.take(i + 1).drop_last() == literals@.take(i as int));
            assert(literals@.take(i + 1).last() == c);
        }
        let ok = match action {
            Action::Add => storage.add(c),
            Action::Remove => storage.remove(c),
            Action::Reset => storage.reset(c),
        };
        if ok {
            done.push(c);
        }
        i += 1;
    }
    proof {
        assert(literals@.take(literals.len() as int) == literals@);
    }
    done
}

/// Makes the change for each kanji of the text, in their order, and
/// returns the kanji for which it succeeded. Other characters are passed
/// over.
pub fn apply_to_kanji(storage: &mut Storage, action: Action, inp: &str) -> (r: Vec<char>)
    requires
        old(storage).wf(),
        action == Action::Add ==> old(storage).counter() + inp@.len() <= u32::MAX,
    ensures
        final(storage).wf(),
        final(storage).shelf() == action.result_all(
            old(storage).shelf(),
            Script::Kanji.those_of(inp@),
        ),
        r@ == action.worked_on(old(storage).shelf(), Script::Kanji.those_of(inp@)),
{
    let chars = chars_of(inp);
    let kanji = keep(&chars, Script::Kanji);
    proof {
        inp@.lemma_filter_len(|c: char| Script::Kanji.holds(c));
    }
    apply_each(storage, action, &kanji)
}

/// Adds the kanji of the text to the storage and returns what to tell the
/// user: the kanji added, or that there was nothing to add.
pub fn run(storage: &mut Storage, inp: &str) -> (r: String)
    requires
        old(storage).wf(),
        old(storage).counter() + inp@.len() <= u32::MAX,
    ensures
        final(storage).wf(),
        final(storage).shelf() == Action::Add.result_all(
            old(storage).shelf(),
            Script::Kanji.those_of(inp@),
        ),
        r@ == report(
            "Added"@,
            "Nothing to add"@,
            Action::Add.worked_on(old(storage).shelf(), Script::Kanji.those_of(inp@)),
        ),
{
    let added = apply_to_kanji(storage, Action::Add, inp);
    write_report("Added", "Nothing to add", &added)
}

/// Where the kanji of a command come from.
#[derive(Clone, Debug)]
pub enum KanjiArg {
    /// No kanji were given.
    Missing,
    /// The kanji are to be read from the standard input.
    Stdin,
    /// The kanji are in this text.
    Text(String),
}

/// Tells where the kanji of a command come from: the argument `-` stands
/// for the standard input; any other argument must hold a kanji.
pub fn parse_kanji_arg(val: Option<&str>) -> (r: KanjiArg)
    ensures
        match val {
            None => r is Missing,
            Some(v) => if v@ == seq!['-'] {
                r is Stdin
            } else if Script::Kanji.holds_any(v@) {
                r matches KanjiArg::Text(t) && t@ == v@
            } else {
                r is Missing
            },
        },
{
    let val = match val {
        Some(v) => v,
        None => { return KanjiArg::Missing; },
    };
    let chars = chars_of(val);
    if chars.len() == 1 && chars[0] == '-' {
        proof {
            assert(val@ =~= seq!['-']);
        }
        KanjiArg::Stdin
    } else {
        proof {
            if val@ == seq!['-'] {
                assert(seq!['-'].len() == 1 && seq!['-'][0] == '-');
            }
        }
        if !val.has_kanji() {
            return KanjiArg::Missing;
        }
        KanjiArg::Text(String::from_str(val))
    }
}

} // verus!
