use ksrs::sm2::{RepQuality, SM2};
use ksrs::storage::item::{Item as Entry, ItemStorage};
use ksrs::storage::srs::{Item as State, SRSStorage, Selection};
use ksrs::storage::Storage;
use ksrs::utils::{get_today_unix, DAY};

const NOW: u64 = 1_700_000_000 - 1_700_000_000 % 86_400 + 14_400;

fn empty_storage() -> Storage {
    Storage::new(ItemStorage::new("items"), SRSStorage::new("srs"))
}

fn ids(states: &[State]) -> Vec<u32> {
    states.iter().map(|s| s.id).collect()
}

fn state(id: u32, due_on: u64, in_learning: bool) -> State {
    State { id, srs_data: SM2::new(), due_on, in_learning }
}

#[test]
fn new_item_store_is_empty() {
    let store = ItemStorage::new("some/path");
    assert_eq!(0, store.len());
    assert!(store.is_empty());
    assert_eq!(0, store.last_id());
    assert_eq!("some/path", store.file());
    assert!(store.item_by_id(1).is_none());
    assert!(store.item_by_literal('日').is_none());
}

#[test]
fn item_store_from_valid_parts() {
    let items = vec![Entry { id: 2, literal: '日' }, Entry { id: 5, literal: '本' }];
    let store = ItemStorage::from_parts("p".to_string(), items, 7).unwrap();
    assert_eq!(2, store.len());
    assert_eq!(7, store.last_id());
    assert_eq!(Some(&Entry { id: 5, literal: '本' }), store.item_by_id(5));
    assert_eq!(Some(&Entry { id: 2, literal: '日' }), store.item_by_literal('日'));
    assert!(store.item_by_id(3).is_none());
    assert_eq!(2, store.iter().len());
}

#[test]
fn item_store_refuses_broken_parts() {
    let twice_id = vec![Entry { id: 2, literal: '日' }, Entry { id: 2, literal: '本' }];
    assert!(ItemStorage::from_parts("p".to_string(), twice_id, 7).is_none());
    let twice_literal = vec![Entry { id: 1, literal: '日' }, Entry { id: 2, literal: '日' }];
    assert!(ItemStorage::from_parts("p".to_string(), twice_literal, 7).is_none());
    let zero = vec![Entry { id: 0, literal: '日' }];
    assert!(ItemStorage::from_parts("p".to_string(), zero, 7).is_none());
    let beyond = vec![Entry { id: 8, literal: '日' }];
    assert!(ItemStorage::from_parts("p".to_string(), beyond, 7).is_none());
    assert!(ItemStorage::from_parts("p".to_string(), vec![], 0).is_some());
}

#[test]
fn review_store_add_and_find() {
    let mut srs = SRSStorage::new("srs");
    assert!(srs.is_empty());
    assert!(srs.add(3));
    assert!(!srs.add(3));
    assert_eq!(1, srs.len());
    let found = srs.find(3).unwrap();
    assert_eq!(3, found.id);
    assert_eq!(0, found.due_on);
    assert!(!found.in_learning);
    assert_eq!(0, found.srs_data.repetitions());
    assert_eq!(250, found.srs_data.ease_factor());
    assert!(srs.find(4).is_none());
    assert_eq!("srs", srs.file());
}

#[test]
fn review_store_from_parts() {
    let parts = vec![state(4, NOW, true), state(1, 0, false)];
    let srs = SRSStorage::from_parts("f".to_string(), parts).unwrap();
    assert_eq!(vec![1, 4], ids(&srs.iter()));
    assert_eq!(NOW, srs.find(4).unwrap().due_on);
    let twice = vec![state(4, NOW, true), state(4, 0, false)];
    assert!(SRSStorage::from_parts("f".to_string(), twice).is_none());
    let unset = vec![state(4, 0, true)];
    assert!(SRSStorage::from_parts("f".to_string(), unset).is_none());
}

#[test]
fn fresh_state_and_reset() {
    let mut s = State::new(9);
    assert_eq!(9, s.id);
    assert!(!s.in_learning);
    assert_eq!(0, s.due_on);
    s.review_at(RepQuality::Grade5, NOW);
    assert!(s.in_learning);
    assert_eq!(NOW + DAY, s.due_on);
    assert_eq!(1, s.srs_data.repetitions());
    assert_eq!(260, s.srs_data.ease_factor());
    s.reset();
    assert_eq!(9, s.id);
    assert!(!s.in_learning);
    assert_eq!(0, s.due_on);
    assert_eq!(0, s.srs_data.repetitions());
    assert_eq!(250, s.srs_data.ease_factor());
}

#[test]
fn review_uses_the_interval_of_the_new_state() {
    let mut s = State::new(1);
    s.review_at(RepQuality::Grade4, NOW);
    assert_eq!(NOW + DAY, s.due_on);
    s.review_at(RepQuality::Grade4, NOW);
    assert_eq!(NOW + 6 * DAY, s.due_on);
    s.review_at(RepQuality::Grade4, NOW);
    assert_eq!(NOW + 15 * DAY, s.due_on);
    s.review_at(RepQuality::Grade2, NOW);
    assert_eq!(NOW + DAY, s.due_on);
    assert_eq!(0, s.srs_data.repetitions());
}

#[test]
fn review_that_does_not_fit_is_refused() {
    let s = State::new(1);
    assert!(s.can_review_at(RepQuality::Grade4, NOW));
    assert!(!s.can_review_at(RepQuality::Grade4, u64::MAX - DAY + 1));
    assert!(s.can_review_at(RepQuality::Grade4, u64::MAX - DAY));
    let mut srs = SRSStorage::new("srs");
    srs.add(1);
    assert!(!srs.review_at(1, RepQuality::Grade4, u64::MAX));
    assert!(!srs.find(1).unwrap().in_learning);
    assert!(!srs.review_at(2, RepQuality::Grade4, NOW));
}

#[test]
fn can_be_reviewed_at_a_time() {
    let fresh = State::new(1);
    assert!(fresh.can_be_reviewed_at(0));
    let started = state(1, NOW + DAY, true);
    assert!(!started.can_be_reviewed_at(NOW));
    assert!(started.can_be_reviewed_at(NOW + DAY));
    assert!(started.can_be_reviewed_at(NOW + 2 * DAY));
    let unset = state(1, 0, true);
    assert!(unset.can_be_reviewed_at(0));
    let paused = state(1, NOW + DAY, false);
    assert!(paused.can_be_reviewed_at(NOW));
}

#[test]
fn due_time_moves_to_the_cutoff() {
    let mut s = state(1, 1_431_648_000 + 15 * 3600 + 17, true);
    s.naosu();
    assert_eq!(1_431_648_000 + 4 * 3600, s.due_on);
    assert!(s.in_learning);
    assert_eq!(1, s.id);
}

#[test]
fn listings_of_the_review_store() {
    let parts = vec![
        state(7, NOW - DAY, true),
        state(3, NOW, true),
        state(5, NOW + 1, true),
        state(2, 0, false),
        state(9, 0, false),
        state(4, NOW + DAY, true),
        state(6, NOW + 2 * DAY - 1, true),
        state(8, NOW + 2 * DAY, true),
        state(1, NOW + 3 * DAY, true),
    ];
    let srs = SRSStorage::from_parts("f".to_string(), parts).unwrap();
    assert_eq!(vec![3, 7], ids(&srs.due_at(NOW)));
    assert_eq!(vec![2, 9], ids(&srs.get_new()));
    assert_eq!(vec![4, 6], ids(&srs.due_tomorrow_at(NOW)));
    assert_eq!(vec![4, 6], ids(&srs.due_tomorrow_at(NOW + 3600)));
    assert_eq!(vec![6, 8, 1], ids(&srs.future_at(NOW, 20)));
    assert_eq!(vec![6, 8], ids(&srs.future_at(NOW, 2)));
    assert!(srs.future_at(NOW, 0).is_empty());
    assert_eq!(vec![1, 2, 3, 4, 5, 6, 7, 8, 9], ids(&srs.iter()));
    assert_eq!(vec![2, 9, 7, 3, 5, 4, 6, 8, 1], ids(&srs.select(Selection::All, true)));
    assert_eq!(
        vec![1, 3, 4, 5, 6, 7, 8],
        ids(&srs.select(Selection::Learning, false))
    );
    assert_eq!(vec![8, 1], ids(&srs.select(Selection::DueAfter(NOW + 2 * DAY - 1), true)));
    assert!(srs.due_at(0).is_empty());
}

#[test]
fn equal_due_times_are_ordered_by_id() {
    let parts = vec![
        state(5, NOW + 5 * DAY, true),
        state(2, NOW + 5 * DAY, true),
        state(9, NOW + 4 * DAY, true),
    ];
    let srs = SRSStorage::from_parts("f".to_string(), parts).unwrap();
    assert_eq!(vec![9, 2, 5], ids(&srs.future_at(NOW, 20)));
}

#[test]
fn due_new_and_later_share_no_state() {
    let parts = vec![
        state(1, NOW - 5, true),
        state(2, 0, false),
        state(3, NOW + 5, true),
        state(4, NOW, true),
        state(5, 0, false),
    ];
    let srs = SRSStorage::from_parts("f".to_string(), parts).unwrap();
    let due = ids(&srs.due_at(NOW));
    let new = ids(&srs.get_new());
    for s in srs.due_at(NOW) {
        assert!(s.in_learning && s.due_on <= NOW);
    }
    for s in srs.get_new() {
        assert!(!s.in_learning);
    }
    assert!(due.iter().all(|id| !new.contains(id)));
    let later: Vec<u32> = srs
        .iter()
        .iter()
        .filter(|s| s.in_learning && s.due_on > NOW)
        .map(|s| s.id)
        .collect();
    let mut all: Vec<u32> = due.iter().chain(new.iter()).chain(later.iter()).copied().collect();
    all.sort();
    assert_eq!(vec![1, 2, 3, 4, 5], all);
    assert_eq!(5, due.len() + new.len() + later.len());
}

#[test]
fn add_gives_ids_from_one() {
    let mut storage = empty_storage();
    assert!(storage.is_empty());
    assert!(storage.add('日'));
    assert!(storage.add('本'));
    assert_eq!(2, storage.len());
    assert_eq!(1, storage.get_by_lit('日').unwrap().get_id());
    assert_eq!(2, storage.get_by_lit('本').unwrap().get_id());
    assert_eq!('本', storage.get_by_id(2).unwrap().get_literal());
    assert!(!storage.get_by_id(2).unwrap().is_learning());
    assert!(storage.get_by_id(3).is_none());
    assert!(storage.get_by_lit('語').is_none());
    assert_eq!(2, storage.get_item_storage().last_id());
    assert_eq!(2, storage.get_srs_storage().len());
}

#[test]
fn second_add_of_a_literal_is_refused() {
    let mut storage = empty_storage();
    assert!(storage.add('日'));
    let len = storage.len();
    let counter = storage.get_item_storage().last_id();
    assert!(!storage.add('日'));
    assert_eq!(len, storage.len());
    assert_eq!(counter, storage.get_item_storage().last_id());
    assert_eq!(1, storage.get_srs_storage().len());
}

#[test]
fn removed_ids_are_not_used_again() {
    let mut storage = empty_storage();
    storage.add('日');
    storage.add('本');
    assert!(storage.remove('本'));
    assert!(!storage.remove('本'));
    assert!(storage.get_by_lit('本').is_none());
    assert!(storage.get_srs_storage().find(2).is_none());
    assert!(storage.add('語'));
    assert_eq!(3, storage.get_by_lit('語').unwrap().get_id());
    assert!(storage.add('本'));
    assert_eq!(4, storage.get_by_lit('本').unwrap().get_id());
    assert!(storage.check());
}

#[test]
fn remove_of_an_unknown_literal_changes_nothing() {
    let mut storage = empty_storage();
    storage.add('日');
    assert!(!storage.remove('本'));
    assert_eq!(1, storage.len());
    assert_eq!(1, storage.get_srs_storage().len());
}

#[test]
fn reset_discards_progress() {
    let mut storage = empty_storage();
    storage.add('日');
    assert!(storage.review_at(1, RepQuality::Grade5, NOW));
    assert!(storage.get_by_id(1).unwrap().is_learning());
    assert!(storage.reset('日'));
    let item = storage.get_by_lit('日').unwrap();
    assert_eq!(1, item.get_id());
    assert!(!item.is_learning());
    assert_eq!(0, item.get_srs().repetitions());
    assert_eq!(250, item.get_srs().ease_factor());
    assert_eq!(0, storage.get_srs_storage().find(1).unwrap().due_on);
    assert!(!storage.reset('本'));
}

#[test]
fn check_holds_for_a_storage_kept_in_step() {
    let mut storage = empty_storage();
    assert!(storage.check());
    storage.add('日');
    assert!(storage.check());
    storage.add('本');
    storage.remove('日');
    assert!(storage.check());
    storage.remove('本');
    assert!(storage.check());
    assert!(storage.is_empty());
}

#[test]
fn check_fails_for_stores_out_of_step() {
    let items = ItemStorage::from_parts(
        "i".to_string(),
        vec![Entry { id: 1, literal: '日' }, Entry { id: 2, literal: '本' }],
        2,
    )
    .unwrap();
    let mut srs = SRSStorage::new("s");
    srs.add(1);
    assert!(!Storage::new(items.clone(), srs.clone()).check());
    srs.add(3);
    assert!(!Storage::new(items.clone(), srs.clone()).check());
    let mut other = SRSStorage::new("s");
    other.add(1);
    other.add(2);
    assert!(Storage::new(items.clone(), other.clone()).check());
    other.add(3);
    assert!(!Storage::new(items, other).check());
    let mut lonely = SRSStorage::new("s");
    lonely.add(1);
    assert!(!Storage::new(ItemStorage::new("i"), lonely).check());
    assert!(!Storage::new(
        ItemStorage::from_parts("i".to_string(), vec![Entry { id: 1, literal: '日' }], 1).unwrap(),
        SRSStorage::new("s")
    )
    .check());
}

#[test]
fn repair_fills_an_empty_review_store() {
    let items = ItemStorage::from_parts(
        "i".to_string(),
        vec![Entry { id: 1, literal: '日' }, Entry { id: 4, literal: '本' }],
        6,
    )
    .unwrap();
    let mut storage = Storage::new(items, SRSStorage::new("s"));
    assert!(!storage.check());
    assert!(storage.repair());
    assert!(storage.check());
    assert_eq!(0, storage.learning_kanji());
    assert_eq!(2, storage.get_srs_storage().len());
    let state = storage.get_srs_storage().find(4).unwrap();
    assert_eq!(0, state.due_on);
    assert!(!state.in_learning);
    assert_eq!(2, storage.len());
    assert!(!storage.repair());
}

#[test]
fn repair_does_nothing_for_a_storage_in_step() {
    let mut storage = empty_storage();
    assert!(!storage.repair());
    storage.add('日');
    storage.review_at(1, RepQuality::Grade4, NOW);
    assert!(!storage.repair());
    assert_eq!(1, storage.learning_kanji());
}

#[test]
fn repair_reports_success_for_an_empty_item_store() {
    let mut srs = SRSStorage::new("s");
    srs.add(1);
    let mut storage = Storage::new(ItemStorage::new("i"), srs);
    assert!(!storage.check());
    assert!(storage.repair());
    assert!(!storage.check());
    assert_eq!(1, storage.get_srs_storage().len());
    assert_eq!(0, storage.len());
}

#[test]
fn repair_refuses_a_partial_overlap() {
    let items = ItemStorage::from_parts(
        "i".to_string(),
        vec![Entry { id: 1, literal: '日' }, Entry { id: 2, literal: '本' }],
        2,
    )
    .unwrap();
    let mut srs = SRSStorage::new("s");
    srs.add(2);
    srs.add(3);
    let mut storage = Storage::new(items, srs);
    assert!(!storage.repair());
    assert!(!storage.check());
    assert_eq!(2, storage.get_srs_storage().len());
    assert_eq!(2, storage.len());
}

#[test]
fn learning_kanji_counts_reviewed_items() {
    let mut storage = empty_storage();
    storage.add('日');
    storage.add('本');
    storage.add('語');
    assert_eq!(0, storage.learning_kanji());
    storage.review_at(2, RepQuality::Grade4, NOW);
    storage.review_at(3, RepQuality::Grade1, NOW);
    assert_eq!(2, storage.learning_kanji());
}

#[test]
fn iter_joins_entries_and_states() {
    let mut storage = empty_storage();
    storage.add('日');
    storage.add('本');
    storage.add('語');
    storage.remove('本');
    let all: Vec<(u32, char)> = storage.iter().iter().map(|i| (i.get_id(), i.get_literal())).collect();
    assert_eq!(vec![(1, '日'), (3, '語')], all);
}

#[test]
fn end_to_end_scenario() {
    let mut storage = empty_storage();
    assert!(storage.add('A'));
    let item = storage.get_by_lit('A').unwrap();
    assert_eq!(1, item.get_id());
    assert!(!item.is_learning());
    assert!(item.can_be_reviewed_at(NOW));
    assert!(storage.review_at(1, RepQuality::Grade5, NOW));
    let item = storage.get_by_id(1).unwrap();
    assert!(item.is_learning());
    assert_eq!(NOW + DAY, storage.get_srs_storage().find(1).unwrap().due_on);
    assert!(!item.can_be_reviewed_at(NOW));
    assert!(storage.get_srs_storage().due_at(NOW).is_empty());
    assert_eq!(vec![1], ids(&storage.get_srs_storage().due_at(NOW + DAY)));
    assert!(storage.get_srs_storage().get_new().is_empty());
}

#[test]
fn review_today_is_due_tomorrow() {
    let mut storage = empty_storage();
    storage.add('日');
    let before = get_today_unix();
    assert!(storage.review(1, RepQuality::Grade4));
    let after = get_today_unix();
    let state = *storage.get_srs_storage().find(1).unwrap();
    assert!(state.in_learning);
    assert_eq!(14_400, state.due_on % DAY);
    assert!(before + DAY <= state.due_on && state.due_on <= after + DAY);
    assert!(storage.get_srs_storage().get_due().is_empty());
    assert!(!storage.get_by_id(1).unwrap().can_be_reviewed());
    assert!(!storage.review(2, RepQuality::Grade4));
}

#[test]
fn state_reviewed_today() {
    let mut s = State::new(3);
    assert!(s.can_be_reviewed());
    let before = get_today_unix();
    assert!(s.review(RepQuality::Grade0));
    let after = get_today_unix();
    assert!(s.in_learning);
    assert!(before + DAY <= s.due_on && s.due_on <= after + DAY);
    assert!(!s.can_be_reviewed());
}

#[test]
fn stores_are_rebuilt_from_their_parts() {
    let mut storage = empty_storage();
    for c in ['日', '本', '語', '字'] {
        storage.add(c);
    }
    storage.remove('本');
    storage.review_at(1, RepQuality::Grade5, NOW);
    storage.review_at(4, RepQuality::Grade1, NOW);

    let items = storage.get_item_storage();
    let again = ItemStorage::from_parts(
        items.file().to_string(),
        items.iter().clone(),
        items.last_id(),
    )
    .unwrap();
    assert_eq!(items.iter(), again.iter());
    assert_eq!(items.last_id(), again.last_id());
    assert_eq!(items.file(), again.file());

    let states = storage.get_srs_storage();
    let again = SRSStorage::from_parts(states.file().to_string(), states.iter()).unwrap();
    assert_eq!(states.len(), again.len());
    for (a, b) in states.iter().iter().zip(again.iter().iter()) {
        assert_eq!(a.id, b.id);
        assert_eq!(a.due_on, b.due_on);
        assert_eq!(a.in_learning, b.in_learning);
        assert_eq!(a.srs_data.repetitions(), b.srs_data.repetitions());
        assert_eq!(a.srs_data.ease_factor(), b.srs_data.ease_factor());
    }
    assert!(Storage::new(
        ItemStorage::from_parts(items.file().to_string(), items.iter().clone(), items.last_id())
            .unwrap(),
        again
    )
    .check());
}
