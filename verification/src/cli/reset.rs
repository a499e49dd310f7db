//! Resetting the progress of kanji.
use crate::cli::add::{apply_to_kanji, Action};
use crate::cli::text::{report, write_report};
use crate::japanese::Script;
use crate::storage::Storage;
use vstd::prelude::*;

verus! {

/// Resets the kanji of the text and returns what to tell the user: the
/// kanji reset, or that there was nothing to reset.
pub fn run(storage: &mut Storage, inp: &str) -> (r: String)
    requires
        old(storage).wf(),
    ensures
        final(storage).wf(),
        final(storage).shelf() == Action::Reset.result_all(
            old(storage).shelf(),
            Script::Kanji.those_of(inp@),
        ),
        r@ == report(
            "Resetted"@,
            "Nothing to reset"@,
            Action::Reset.worked_on(old(storage).shelf(), Script::Kanji.those_of(inp@)),
        ),
{
    let reset = apply_to_kanji(storage, Action::Reset, inp);
    write_report("Resetted", "Nothing to reset", &reset)
}

} // verus!
