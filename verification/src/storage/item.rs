//! The store of the characters to learn: each literal once, under an id
//! that is handed out once and never again.
use vstd::prelude::*;

verus! {

/// A single item to learn
#[derive(Clone, Copy, Debug, PartialEq, Eq, Structural)]
pub struct Item {
    pub id: u32,
    pub literal: char,
}

/// Storage for single characters to learn
#[derive(Clone, Debug)]
pub struct ItemStorage {
    file: String,
    items: Vec<Item>,
    last_id: u32,
}

/// Some item of `items` has the id `id`.
pub open spec fn has_id(items: Seq<Item>, id: u32) -> bool {
    exists|i: int| 0 <= i < items.len() && (#[trigger] items[i]).id == id
}

/// Some item of `items` has the literal `literal`.
pub open spec fn has_literal(items: Seq<Item>, literal: char) -> bool {
    exists|i: int| 0 <= i < items.len() && (#[trigger] items[i]).literal == literal
}

/// The ids that occur in `items`.
pub open spec fn ids_of(items: Seq<Item>) -> Set<u32> {
    Set::new(|id: u32| has_id(items, id))
}

/// `it` is the first item of `items` with the id `id`.
pub open spec fn first_with_id(items: Seq<Item>, id: u32, it: Item) -> bool {
    exists|i: int|
        0 <= i < items.len() && #[trigger] items[i] == it && it.id == id && forall|j: int|
            0 <= j < i ==> (#[trigger] items[j]).id != id
}

/// `it` is the first item of `items` with the literal `literal`.
pub open spec fn first_with_literal(items: Seq<Item>, literal: char, it: Item) -> bool {
    exists|i: int|
        0 <= i < items.len() && #[trigger] items[i] == it && it.literal == literal && forall|
            j: int,
        |
            0 <= j < i ==> (#[trigger] items[j]).literal != literal
}

/// The first item of `items` with the literal `literal`, if there is one.
pub open spec fn find_literal(items: Seq<Item>, literal: char) -> Option<Item> {
    if has_literal(items, literal) {
        Some(choose|it: Item| first_with_literal(items, literal, it))
    } else {
        None
    }
}

/// The first item of `items` with the id `id`, if there is one.
pub open spec fn find_id(items: Seq<Item>, id: u32) -> Option<Item> {
    if has_id(items, id) {
        Some(choose|it: Item| first_with_id(items, id, it))
    } else {
        None
    }
}

/// The first item with an id is one item only, and [`find_id`] gives it.
pub proof fn lemma_find_id(items: Seq<Item>, id: u32)
    ensures
        forall|it: Item| (#[trigger] first_with_id(items, id, it)) <==> find_id(items, id) == Some(it),
        find_id(items, id) matches Some(it) ==> it.id == id && items.contains(it),
        find_id(items, id) is Some <==> has_id(items, id),
    decreases items.len(),
{
    assert forall|it: Item, other: Item|
        first_with_id(items, id, it) && first_with_id(items, id, other) implies it == other by {
        let i = choose|i: int|
            0 <= i < items.len() && #[trigger] items[i] == it && it.id == id && forall|j: int|
                0 <= j < i ==> (#[trigger] items[j]).id != id;
        let k = choose|k: int|
            0 <= k < items.len() && #[trigger] items[k] == other && other.id == id && forall|j: int|
                0 <= j < k ==> (#[trigger] items[j]).id != id;
        if k < i {
            assert(items[k].id != id);
        }
        if i < k {
            assert(items[i].id != id);
        }
    }
    assert forall|it: Item| first_with_id(items, id, it) implies has_id(items, id) && items.contains(
        it,
    ) by {
        let i = choose|i: int|
            0 <= i < items.len() && #[trigger] items[i] == it && it.id == id && forall|j: int|
                0 <= j < i ==> (#[trigger] items[j]).id != id;
        assert(items[i].id == id);
    }
    if has_id(items, id) {
        let i = choose|i: int| 0 <= i < items.len() && (#[trigger] items[i]).id == id;
        let front = items.take(i);
        if has_id(front, id) {
            lemma_find_id(front, id);
            let it = find_id(front, id)->0;
            assert(first_with_id(front, id, it));
            let w = choose|w: int|
                0 <= w < front.len() && #[trigger] front[w] == it && it.id == id && forall|j: int|
                    0 <= j < w ==> (#[trigger] front[j]).id != id;
            assert(items[w] == it);
            assert forall|j: int| 0 <= j < w implies (#[trigger] items[j]).id != id by {
                assert(front[j].id != id);
            }
            assert(first_with_id(items, id, it));
        } else {
            assert forall|j: int| 0 <= j < i implies (#[trigger] items[j]).id != id by {
                if items[j].id == id {
                    assert(front[j].id == id);
                }
            }
            assert(first_with_id(items, id, items[i]));
        }
    }
}

/// The first item with a literal is one item only, and [`find_literal`]
/// gives it.
pub proof fn lemma_find_literal(items: Seq<Item>, literal: char)
    ensures
        forall|it: Item|
            (#[trigger] first_with_literal(items, literal, it)) <==> find_literal(items, literal)
                == Some(it),
        find_literal(items, literal) matches Some(it) ==> it.literal == literal && items.contains(it),
        find_literal(items, literal) is Some <==> has_literal(items, literal),
{
    if has_literal(items, literal) {
        let first = lemma_first_literal_exists(items, literal);
        let found = choose|it: Item| first_with_literal(items, literal, it);
        assert forall|it: Item| #[trigger] first_with_literal(items, literal, it) implies it
            == found by {
            lemma_first_literal_unique(items, literal, it);
        }
    } else {
        assert forall|it: Item| !#[trigger] first_with_literal(items, literal, it) by {
            if first_with_literal(items, literal, it) {
                lemma_first_literal_unique(items, literal, it);
            }
        }
    }
}

/// The first item with a literal is one item only.
pub proof fn lemma_first_literal_unique(items: Seq<Item>, literal: char, it: Item)
    requires
        first_with_literal(items, literal, it),
    ensures
        has_literal(items, literal),
        forall|other: Item| (#[trigger] first_with_literal(items, literal, other)) ==> other == it,
{
    let i = choose|i: int|
        0 <= i < items.len() && #[trigger] items[i] == it && it.literal == literal && forall|j: int|
            0 <= j < i ==> (#[trigger] items[j]).literal != literal;
    assert(items[i].literal == literal);
    assert forall|other: Item| #[trigger] first_with_literal(items, literal, other) implies other
        == it by {
        let k = choose|k: int|
            0 <= k < items.len() && #[trigger] items[k] == other && other.literal == literal && forall|
                j: int,
            |
                0 <= j < k ==> (#[trigger] items[j]).literal != literal;
        if k < i {
            assert(items[k].literal != literal);
        }
        if i < k {
            assert(items[i].literal != literal);
        }
    }
}

/// Where some item has a literal, one of them is the first.
pub proof fn lemma_first_literal_exists(items: Seq<Item>, literal: char) -> (it: Item)
    requires
        has_literal(items, literal),
    ensures
        first_with_literal(items, literal, it),
        items.contains(it),
    decreases items.len(),
{
    let i = choose|i: int| 0 <= i < items.len() && (#[trigger] items[i]).literal == literal;
    let front = items.take(i);
    if has_literal(front, literal) {
        let it = lemma_first_literal_exists(front, literal);
        let w = choose|w: int|
            0 <= w < front.len() && #[trigger] front[w] == it && it.literal == literal && forall|j: int|
                0 <= j < w ==> (#[trigger] front[j]).literal != literal;
        assert(items[w] == it);
        assert forall|j: int| 0 <= j < w implies (#[trigger] items[j]).literal != literal by {
            assert(front[j].literal != literal);
        }
        it
    } else {
        assert forall|j: int| 0 <= j < i implies (#[trigger] items[j]).literal != literal by {
            if items[j].literal == literal {
                assert(front[j].literal == literal);
            }
        }
        items[i]
    }
}

/// An item pushed behind a collection adds its id to the ids.
pub proof fn lemma_ids_after_push(items: Seq<Item>, it: Item)
    ensures
        ids_of(items.push(it)) == ids_of(items).insert(it.id),
{
    let after = items.push(it);
    assert forall|id: u32| ids_of(after).contains(id) <==> ids_of(items).insert(it.id).contains(
        id,
    ) by {
        if has_id(after, id) {
            let i = choose|i: int| 0 <= i < after.len() && (#[trigger] after[i]).id == id;
            if i < items.len() {
                assert(items[i].id == id);
            }
        }
        if has_id(items, id) {
            let i = choose|i: int| 0 <= i < items.len() && (#[trigger] items[i]).id == id;
            assert(after[i].id == id);
        }
        if id == it.id {
            assert(after[after.len() - 1].id == id);
        }
    }
    assert(ids_of(after) =~= ids_of(items).insert(it.id));
}

/// What a store must satisfy: every id lies between one and the last id
/// handed out, and no id and no literal occurs twice.
pub open spec fn valid_items(items: Seq<Item>, last_id: nat) -> bool {
    &&& forall|i: int| 0 <= i < items.len() ==> 1 <= (#[trigger] items[i]).id <= last_id
    &&& forall|i: int, j: int|
        0 <= i < j < items.len() ==> (#[trigger] items[i]).id != (#[trigger] items[j]).id
    &&& forall|i: int, j: int|
        0 <= i < j < items.len() ==> (#[trigger] items[i]).literal != (#[trigger] items[j]).literal
}

/// `items` without the items whose id is `id`, in the same order.
pub open spec fn without_id(items: Seq<Item>, id: u32) -> Seq<Item> {
    items.filter(|it: Item| it.id != id)
}

/// Taking an id out of a valid collection leaves a valid collection that
/// holds exactly the other items.
pub proof fn lemma_without_id(items: Seq<Item>, last_id: nat, id: u32)
    requires
        valid_items(items, last_id),
    ensures
        valid_items(without_id(items, id), last_id),
        !has_id(without_id(items, id), id),
        forall|other: u32| other != id ==> (has_id(without_id(items, id), other) <==> has_id(items, other)),
        without_id(items, id).len() == if has_id(items, id) { items.len() - 1 } else { items.len() as int },
    decreases items.len(),
{
    let pred = |it: Item| it.id != id;
    reveal(Seq::filter);
    if items.len() > 0 {
        let front = items.drop_last();
        let last = items.last();
        lemma_without_id(front, last_id, id);
        let kept = without_id(front, id);
        let all = without_id(items, id);
        assert(all == if pred(last) { kept.push(last) } else { kept });
        assert forall|i: int| 0 <= i < kept.len() implies has_id(front, (#[trigger] kept[i]).id)
            && has_literal(front, kept[i].literal) by {
            assert(kept.contains(kept[i]));
            front.lemma_filter_contains_rev(pred, kept[i]);
            assert(front.contains(kept[i]));
            let k = choose|k: int| 0 <= k < front.len() && front[k] == kept[i];
            assert(front[k].id == kept[i].id);
        }
        assert forall|other: u32| has_id(front, other) implies has_id(items, other) by {
            let k = choose|k: int| 0 <= k < front.len() && (#[trigger] front[k]).id == other;
            assert(items[k].id == other);
        }
        assert forall|other: u32| has_id(items, other) && other != last.id implies has_id(front, other) by {
            let k = choose|k: int| 0 <= k < items.len() && (#[trigger] items[k]).id == other;
            assert(front[k].id == other);
        }
        assert(has_id(items, last.id)) by {
            assert(items[items.len() - 1].id == last.id);
        }
        if has_id(front, last.id) {
            let k = choose|k: int| 0 <= k < front.len() && (#[trigger] front[k]).id == last.id;
            assert(items[k].id == items[items.len() - 1].id);
            assert(false);
        }
        if has_literal(front, last.literal) {
            let k = choose|k: int| 0 <= k < front.len() && (#[trigger] front[k]).literal == last.literal;
            assert(items[k].literal == items[items.len() - 1].literal);
            assert(false);
        }
        if pred(last) {
            assert(all[all.len() - 1] == last);
            assert forall|i: int, j: int| 0 <= i < j < all.len() implies (#[trigger] all[i]).id != (
            #[trigger] all[j]).id && all[i].literal != all[j].literal by {
                if j == all.len() - 1 {
                    assert(all[i] == kept[i]);
                } else {
                    assert(all[i] == kept[i] && all[j] == kept[j]);
                }
            }
            assert forall|i: int| 0 <= i < all.len() implies 1 <= (#[trigger] all[i]).id <= last_id by {
                if i < all.len() - 1 {
                    assert(all[i] == kept[i]);
                }
            }
            assert forall|other: u32| has_id(kept, other) implies has_id(all, other) by {
                let k = choose|k: int| 0 <= k < kept.len() && (#[trigger] kept[k]).id == other;
                assert(all[k].id == other);
            }
            assert forall|other: u32| has_id(all, other) implies has_id(kept, other) || other
                == last.id by {
                let k = choose|k: int| 0 <= k < all.len() && (#[trigger] all[k]).id == other;
                if k < all.len() - 1 {
                    assert(kept[k].id == other);
                }
            }
            assert(has_id(all, last.id));
        }
    }
}

impl View for ItemStorage {
    type V = Seq<Item>;

    closed spec fn view(&self) -> Seq<Item> {
        self.items@
    }
}

impl ItemStorage {
    /// The last id that the store has handed out; zero before the first.
    pub closed spec fn counter(&self) -> nat {
        self.last_id as nat
    }

    /// The path of the file that the store is kept in.
    pub closed spec fn path(&self) -> Seq<char> {
        self.file@
    }

    /// The store's invariant, see [`valid_items`].
    pub open spec fn wf(&self) -> bool {
        valid_items(self@, self.counter())
    }

    /// The counter fits its machine type.
    pub proof fn lemma_counter_bounded(&self)
        ensures
            self.counter() <= u32::MAX,
    {
    }

    /// Creates an empty store for the given file, with no id handed out.
    pub fn new(file: &str) -> (r: Self)
        ensures
            r@ == Seq::<Item>::empty(),
            r.counter() == 0,
            r.path() == file@,
            r.wf(),
    {
        ItemStorage { file: file.to_owned(), items: Vec::new(), last_id: 0 }
    }

    /// Builds a store from what a file held. Gives `None` exactly when the
    /// items and the counter break the store's invariant.
    pub fn from_parts(file: String, items: Vec<Item>, last_id: u32) -> (r: Option<Self>)
        ensures
            r is Some <==> valid_items(items@, last_id as nat),
            r matches Some(s) ==> s@ == items@ && s.counter() == last_id && s.path() == file@
                && s.wf(),
    {
        if items_are_valid(&items, last_id) {
            Some(ItemStorage { file, items, last_id })
        } else {
            None
        }
    }

    /// Returns the path of the file that the store is kept in.
    pub fn file(&self) -> (r: &str)
        ensures
            r@ == self.path(),
    {
        self.file.as_str()
    }

    /// Returns the last id that the store has handed out.
    pub fn last_id(&self) -> (r: u32)
        ensures
            r == self.counter(),
    {
        self.last_id
    }

    /// Returns the length of the itemStorage
    pub fn len(&self) -> (r: usize)
        ensures
            r == self@.len(),
    {
        self.items.len()
    }

    /// Returns `true` if itemStorage is empty
    pub fn is_empty(&self) -> (r: bool)
        ensures
            r == (self@.len() == 0),
    {
        self.len() == 0
    }

    /// Returns an Item by its id. `None` if there is no item with given id in the
    /// storage
    pub fn item_by_id(&self, id: u32) -> (r: Option<&Item>)
        ensures
            match r {
                Some(it) => first_with_id(self@, id, *it) && find_id(self@, id) == Some(*it),
                None => !has_id(self@, id) && find_id(self@, id) is None,
            },
    {
        proof {
            lemma_find_id(self@, id);
        }
        let mut i: usize = 0;
        while i < self.items.len()
            invariant
                i <= self.items.len(),
                forall|j: int| 0 <= j < i ==> (#[trigger] self.items@[j]).id != id,
            decreases self.items.len() - i,
        {
            if self.items[i].id == id {
                return Some(&self.items[i]);
            }
            i += 1;
        }
        None
    }

    /// Returns an Item by its literal. `None` if there is no item with given literal in the
    /// storage
    pub fn item_by_literal(&self, lit: char) -> (r: Option<&Item>)
        ensures
            match r {
                Some(it) => first_with_literal(self@, lit, *it) && find_literal(self@, lit) == Some(
                    *it,
                ),
                None => !has_literal(self@, lit) && find_literal(self@, lit) is None,
            },
    {
        proof {
            lemma_find_literal(self@, lit);
        }
        let mut i: usize = 0;
        while i < self.items.len()
            invariant
                i <= self.items.len(),
                forall|j: int| 0 <= j < i ==> (#[trigger] self.items@[j]).literal != lit,
            decreases self.items.len() - i,
        {
            if self.items[i].literal == lit {
                return Some(&self.items[i]);
            }
            i += 1;
        }
        None
    }

    /// Adds a new item to the storage, under the id after the last one
    /// handed out. A literal that the storage already holds is refused and
    /// nothing changes.
    pub(crate) fn add_item(&mut self, literal: char) -> (r: Option<Item>)
        requires
            old(self).counter() < u32::MAX,
        ensures
            final(self).path() == old(self).path(),
            has_literal(old(self)@, literal) ==> r is None && final(self)@ == old(self)@
                && final(self).counter() == old(self).counter(),
            !has_literal(old(self)@, literal) ==> r == Some(
                Item { id: (old(self).counter() + 1) as u32, literal },
            ) && final(self)@ == old(self)@.push(r->0) && final(self).counter() == old(
                self,
            ).counter() + 1,
            old(self).wf() ==> final(self).wf(),
    {
        if self.item_by_literal(literal).is_some() {
            return None;
        }
        let item = Item { id: self.last_id + 1, literal };
        self.items.push(item);
        self.last_id += 1;
        proof {
            let before = old(self)@;
            let after = self@;
            if old(self).wf() {
                assert forall|i: int, j: int| 0 <= i < j < after.len() implies (#[trigger] after[i]).id
                    != (#[trigger] after[j]).id && after[i].literal != after[j].literal by {
                    assert(after[i] == before[i]);
                    if j < before.len() {
                        assert(after[j] == before[j]);
                    }
                }
                assert forall|i: int| 0 <= i < after.len() implies 1 <= (#[trigger] after[i]).id
                    <= self.counter() by {
                    if i < before.len() {
                        assert(after[i] == before[i]);
                    }
                }
            }
        }
        Some(item)
    }

    /// Returns all items of the storage, oldest first.
    pub fn iter(&self) -> (r: &Vec<Item>)
        ensures
            r@ == self@,
    {
        &self.items
    }

    /// Remove an item by its ID. Returns `true` if the storage held it.
    pub(crate) fn remove_item(&mut self, id: u32) -> (r: bool)
        ensures
            r == has_id(old(self)@, id),
            final(self)@ == without_id(old(self)@, id),
            final(self).counter() == old(self).counter(),
            final(self).path() == old(self).path(),
            old(self).wf() ==> final(self).wf(),
    {
        let len = self.items.len();
        let mut kept: Vec<Item> = Vec::new();
        let mut i: usize = 0;
        while i < len
            invariant
                len == self.items.len(),
                i <= len,
                self.items@ == old(self)@,
                kept@ == without_id(self.items@.take(i as int), id),
                kept.len() <= i,
                kept.len() < i <==> has_id(self.items@.take(i as int), id),
            decreases len - i,
        {
            let it = self.items[i];
            proof {
                let s = self.items@;
                let pred = |x: Item| x.id != id;
                assert(s.take(i + 1).drop_last() == s.take(i as int));
                assert(s.take(i + 1).last() == it);
                reveal(Seq::filter);
                assert(without_id(s.take(i + 1), id) == if pred(it) {
                    without_id(s.take(i as int), id).push(it)
                } else {
                    without_id(s.take(i as int), id)
                });
                if has_id(s.take(i as int), id) {
                    let k = choose|k: int| 0 <= k < i && (#[trigger] s.take(i as int)[k]).id == id;
                    assert(s.take(i + 1)[k].id == id);
                }
                if it.id == id {
                    assert(s.take(i + 1)[i as int].id == id);
                }
                if has_id(s.take(i + 1), id) && it.id != id {
                    let k = choose|k: int| 0 <= k < i + 1 && (#[trigger] s.take(i + 1)[k]).id == id;
                    assert(s.take(i as int)[k].id == id);
                }
            }
            if it.id != id {
                kept.push(it);
            }
            i += 1;
        }
        proof {
            assert(self.items@.take(len as int) == self.items@);
            if old(self).wf() {
                lemma_without_id(old(self)@, old(self).counter(), id);
            }
        }
        let removed = kept.len() < len;
        self.items = kept;
        removed
    }
}

/// Checks the invariant of a store on the parts of one.
fn items_are_valid(items: &Vec<Item>, last_id: u32) -> (r: bool)
    ensures
        r == valid_items(items@, last_id as nat),
{
    let mut i: usize = 0;
    while i < items.len()
        invariant
            i <= items.len(),
            valid_items(items@.take(i as int), last_id as nat),
        decreases items.len() - i,
    {
        let it = items[i];
        if it.id < 1 || it.id > last_id {
            return false;
        }
        let mut j: usize = 0;
        while j < i
            invariant
                j <= i < items.len(),
                it == items@[i as int],
                forall|k: int| 0 <= k < j ==> (#[trigger] items@[k]).id != it.id && items@[k].literal
                    != it.literal,
            decreases i - j,
        {
            if items[j].id == it.id || items[j].literal == it.literal {
                return false;
            }
            j += 1;
        }
        proof {
            let next = items@.take(i + 1);
            assert forall|a: int, b: int| 0 <= a < b < next.len() implies (#[trigger] next[a]).id != (
            #[trigger] next[b]).id && next[a].literal != next[b].literal by {
                assert(next[a] == items@[a] && next[b] == items@[b]);
                if b < i {
                    assert(items@.take(i as int)[a] == items@[a]);
                    assert(items@.take(i as int)[b] == items@[b]);
                }
            }
            assert forall|a: int| 0 <= a < next.len() implies 1 <= (#[trigger] next[a]).id
                <= last_id by {
                if a < i {
                    assert(items@.take(i as int)[a] == items@[a]);
                }
            }
        }
        i += 1;
    }
    proof {
        assert(items@.take(items.len() as int) == items@);
    }
    true
}

} // verus!
