//! Mending a storage whose two stores disagree.
use crate::storage::Storage;
use vstd::prelude::*;
use vstd::string::StringExecFns;

verus! {

/// What to tell the user after a repair.
pub open spec fn outcome(success: bool) -> Seq<char> {
    if success {
        "Success"@
    } else {
        "Couldn't fix database"@
    }
}

/// Repairs the storage, see [`Storage::repair`], and returns what to tell
/// the user.
pub fn run(storage: &mut Storage) -> (r: String)
    requires
        old(storage).wf(),
    ensures
        final(storage).wf(),
        final(storage).shelf() == old(storage).shelf().repaired(),
        r@ == outcome(old(storage).shelf().repairs()),
{
    // Repair database
    let success = storage.repair();

    if success {
        String::from_str("Success")
    } else {
        String::from_str("Couldn't fix database")
    }
}

} // verus!
