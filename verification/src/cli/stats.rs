//! The numbers of the overall statistics.
use crate::cli::run::DEFAULT_NEW;
use crate::storage::item::ids_of;
use crate::storage::srs::{ids_in, listing, lists, precedes, Selection};
use crate::storage::{item, srs, Shelf, Storage};
use vstd::prelude::*;

verus! {

/// The numbers that the statistics show.
#[derive(Clone, Copy, Debug, PartialEq, Eq, Structural)]
pub struct Stats {
    /// Kanji in the storage.
    pub total: usize,
    /// Kanji in learning.
    pub learning: usize,
    /// Kanji not yet in learning.
    pub left: usize,
    /// Days until every kanji is in learning, at the usual number of new
    /// kanji a day.
    pub days_left: usize,
}

/// The number of states of `s` that are in learning.
pub open spec fn learning_count(s: Shelf) -> nat {
    listing(s.states, Selection::Learning, false).len()
}

/// `left` divided by the usual number of new kanji a day, rounded up.
pub open spec fn days_for(left: nat) -> nat {
    (left + DEFAULT_NEW - 1) as nat / (DEFAULT_NEW as nat)
}

/// In a storage whose stores agree, no more kanji are in learning than the
/// storage has entries.
pub proof fn lemma_learning_at_most_entries(s: Shelf, l: Seq<srs::Item>)
    requires
        s.in_step(),
        lists(s.states, Selection::Learning, false, l),
    ensures
        l.len() <= s.items.len(),
{
    let learning = ids_in(l);
    let entries = s.items.map_values(|it: item::Item| it.id);
    assert forall|i: int, j: int| 0 <= i < j < learning.len() implies learning[i] != learning[j] by {
        assert(precedes(l[i], l[j], false));
    }
    learning.unique_seq_to_set();
    entries.lemma_cardinality_of_set();
    assert forall|id: u32| learning.to_set().contains(id) implies entries.to_set().contains(id) by {
        let i = choose|i: int| 0 <= i < learning.len() && learning[i] == id;
        assert(s.states.contains_key(l[i].id));
        assert(ids_of(s.items).contains(id));
        let k = choose|k: int| 0 <= k < s.items.len() && (#[trigger] s.items[k]).id == id;
        assert(entries[k] == id);
    }
    vstd::seq_lib::seq_to_set_is_finite(entries);
    vstd::set_lib::lemma_len_subset(learning.to_set(), entries.to_set());
}

/// Counts the kanji of the storage. Gives `None` where more kanji are in
/// learning than the storage has entries, which does not happen while the
/// two stores agree.
pub fn run(storage: &Storage) -> (r: Option<Stats>)
    requires
        storage.wf(),
    ensures
        r is Some <==> learning_count(storage.shelf()) <= storage.items().len(),
        storage.consistent() ==> r is Some,
        r matches Some(st) ==> st.total == storage.items().len() && st.learning == learning_count(
            storage.shelf(),
        ) && st.left == st.total - st.learning && st.days_left == days_for(st.left as nat),
{
    let total = storage.len();
    let learning = storage.learning_kanji();
    proof {
        if storage.consistent() {
            let l = listing(storage.states(), Selection::Learning, false);
            lemma_learning_at_most_entries(storage.shelf(), l);
        }
    }
    if learning > total {
        return None;
    }
    let left = total - learning;
    let days_left = left / DEFAULT_NEW + if left % DEFAULT_NEW == 0 {
        0
    } else {
        1
    };
    Some(Stats { total, learning, left, days_left })
}

} // verus!
