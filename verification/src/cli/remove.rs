//! Removing kanji from the storage.
use crate::cli::add::{apply_to_kanji, Action};
use crate::cli::text::{report, write_report};
use crate::japanese::Script;
use crate::storage::Storage;
use vstd::prelude::*;

verus! {

/// Removes the kanji of the text from the storage and returns what to tell
/// the user: the kanji removed, or that there was nothing to remove.
pub fn run(storage: &mut Storage, inp: &str) -> (r: String)
    requires
        old(storage).wf(),
    ensures
        final(storage).wf(),
        final(storage).shelf() == Action::Remove.result_all(
            old(storage).shelf(),
            Script::Kanji.those_of(inp@),
        ),
        r@ == report(
            "Removed"@,
            "Nothing to remove"@,
            Action::Remove.worked_on(old(storage).shelf(), Script::Kanji.those_of(inp@)),
        ),
{
    let removed = apply_to_kanji(storage, Action::Remove, inp);
    write_report("Removed", "Nothing to remove", &removed)
}

} // verus!
