//! A list of every kanji in the storage.
use crate::cli::run::literals_in;
use crate::cli::text::{list_chars, listed};
use crate::storage::{Item, Storage};
use vstd::prelude::*;

verus! {

/// Returns the literals of the joined items, in their order.
pub fn literals_from(items: &Vec<Item<'_>>) -> (r: Vec<char>)
    ensures
        r@ == literals_in(items@),
{
    let mut out: Vec<char> = Vec::new();
    let mut i: usize = 0;
    while i < items.len()
        invariant
            i <= items.len(),
            out@ == literals_in(items@.take(i as int)),
        decreases items.len() - i,
    {
        out.push(items[i].get_literal());
        proof {
            assert(out@ =~= literals_in(items@.take(i + 1)));
        }
        i += 1;
    }
    proof {
        assert(items@.take(items.len() as int) == items@);
    }
    out
}

/// Writes the literals of the items that have both an entry and a state,
/// in the order of their ids; with commas between them unless `raw` is
/// set; and a line break.
pub fn run(storage: &Storage, raw: bool) -> (r: String)
    requires
        storage.wf(),
    ensures
        exists|items: Seq<Item>|
            #![trigger literals_in(items)]
            storage.holds_all(items) && r@ == listed(literals_in(items), !raw) + seq!['\n'],
{
    let separated = !raw;
    let items = storage.iter();
    let literals = literals_from(&items);
    let mut out = list_chars(&literals, separated);
    out.push('\n');
    proof {
        assert(storage.holds_all(items@) && out@ == listed(literals_in(items@), !raw) + seq!['\n']);
    }
    out
}

} // verus!
