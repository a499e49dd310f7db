use ksrs::cli::add::{apply_each, parse_kanji_arg, Action, KanjiArg};
use ksrs::cli::info::{
    all_due_ordered, literals_for, print_review_day, reviews_tomorrow, reviews_tomorrow_at,
    sort_ids,
};
use ksrs::cli::review::{answer_all_at, plan, reviewable_at, Answer};
use ksrs::cli::run::{
    determine_relearn, has_reviews, learn_string, learned_ids, parse_runconfig, pick_to_learn,
    pick_to_learn_at, read_failed_input, session_plan, RunConfigs, DEFAULT_NEW, MAX_REVIEWS,
};
use ksrs::cli::stats::Stats;
use ksrs::cli::text::{join_with_commas, list_chars, write_report};
use ksrs::sm2::{RepQuality, SM2};
use ksrs::storage::item::{Item as Entry, ItemStorage};
use ksrs::storage::srs::{Item as State, SRSStorage};
use ksrs::storage::Storage;
use ksrs::utils::DAY;

const NOW: u64 = 1_700_000_000 - 1_700_000_000 % 86_400 + 14_400;

fn storage_with(literals: &str) -> Storage {
    let mut storage = Storage::new(ItemStorage::new("items"), SRSStorage::new("srs"));
    for c in literals.chars() {
        storage.add(c);
    }
    storage
}

fn built(entries: Vec<(u32, char)>, states: Vec<(u32, u64, bool)>) -> Storage {
    let last = entries.iter().map(|e| e.0).max().unwrap_or(0);
    let items = ItemStorage::from_parts(
        "items".to_string(),
        entries.into_iter().map(|(id, literal)| Entry { id, literal }).collect(),
        last,
    )
    .unwrap();
    let srs = SRSStorage::from_parts(
        "srs".to_string(),
        states
            .into_iter()
            .map(|(id, due_on, in_learning)| State { id, srs_data: SM2::new(), due_on, in_learning })
            .collect(),
    )
    .unwrap();
    Storage::new(items, srs)
}

#[test]
fn run_config_from_options() {
    let c = parse_runconfig(false, None, None);
    assert_eq!(DEFAULT_NEW, c.new_count);
    assert_eq!(MAX_REVIEWS, c.max_reviews);
    assert_eq!(8, DEFAULT_NEW);
    assert_eq!(20, MAX_REVIEWS);
    let c = parse_runconfig(false, Some("3"), Some("0"));
    assert_eq!(3, c.new_count);
    assert_eq!(0, c.max_reviews);
    let c = parse_runconfig(true, Some("3"), Some("x"));
    assert_eq!(0, c.new_count);
    assert_eq!(20, c.max_reviews);
}

#[test]
fn failed_input_keeps_the_kanji() {
    assert_eq!(vec!['日', '本'], read_failed_input("日 and 本\n"));
    assert!(read_failed_input("nothing here\n").is_empty());
    assert_eq!(vec!['日', '日'], read_failed_input("日日"));
}

#[test]
fn kanji_argument() {
    assert!(matches!(parse_kanji_arg(None), KanjiArg::Missing));
    assert!(matches!(parse_kanji_arg(Some("-")), KanjiArg::Stdin));
    assert!(matches!(parse_kanji_arg(Some("abc")), KanjiArg::Missing));
    assert!(matches!(parse_kanji_arg(Some("")), KanjiArg::Missing));
    assert!(matches!(parse_kanji_arg(Some("--")), KanjiArg::Missing));
    match parse_kanji_arg(Some("a日b")) {
        KanjiArg::Text(t) => assert_eq!("a日b", t),
        _ => panic!("a text with a kanji is taken"),
    }
}

#[test]
fn texts_of_lists() {
    assert_eq!("", join_with_commas(&vec![]));
    assert_eq!("日", join_with_commas(&vec!['日']));
    assert_eq!("日,本,語", join_with_commas(&vec!['日', '本', '語']));
    assert_eq!("日本語", list_chars(&vec!['日', '本', '語'], false));
    assert_eq!("日,本", list_chars(&vec!['日', '本'], true));
    assert_eq!("Added 日,本", write_report("Added", "Nothing to add", &vec!['日', '本']));
    assert_eq!("Nothing to add", write_report("Added", "Nothing to add", &vec![]));
}

#[test]
fn add_command() {
    let mut storage = storage_with("日");
    assert_eq!("Added 本,語", ksrs::cli::add::run(&mut storage, "日本x語 本"));
    assert_eq!(3, storage.len());
    assert_eq!(2, storage.get_by_lit('本').unwrap().get_id());
    assert_eq!(3, storage.get_by_lit('語').unwrap().get_id());
    assert_eq!("Nothing to add", ksrs::cli::add::run(&mut storage, "日本 abc"));
    assert_eq!("Nothing to add", ksrs::cli::add::run(&mut storage, ""));
    assert_eq!(3, storage.len());
    assert!(storage.check());
}

#[test]
fn remove_command() {
    let mut storage = storage_with("日本語");
    assert_eq!("Removed 語,日", ksrs::cli::remove::run(&mut storage, "語x日語"));
    assert_eq!(1, storage.len());
    assert!(storage.get_by_lit('本').is_some());
    assert_eq!("Nothing to remove", ksrs::cli::remove::run(&mut storage, "語"));
    assert!(storage.check());
}

#[test]
fn reset_command() {
    let mut storage = storage_with("日本");
    storage.review_at(1, RepQuality::Grade4, NOW);
    assert_eq!("Resetted 日,本", ksrs::cli::reset::run(&mut storage, "日本語"));
    assert!(!storage.get_by_id(1).unwrap().is_learning());
    assert_eq!("Nothing to reset", ksrs::cli::reset::run(&mut storage, "語 abc"));
}

#[test]
fn apply_each_reports_what_worked() {
    let mut storage = storage_with("日");
    assert_eq!(
        vec!['本', 'a'],
        apply_each(&mut storage, Action::Add, &vec!['日', '本', 'a', '本'])
    );
    assert_eq!(vec!['a'], apply_each(&mut storage, Action::Remove, &vec!['a', 'a', 'b']));
    assert_eq!(vec!['日'], apply_each(&mut storage, Action::Reset, &vec!['日', 'a']));
}

#[test]
fn session_takes_due_items_then_new_ones() {
    let storage = built(
        vec![(1, '一'), (2, '二'), (3, '三'), (4, '四'), (5, '五'), (6, '六')],
        vec![
            (1, NOW - DAY, true),
            (2, 0, false),
            (3, NOW, true),
            (4, NOW + DAY, true),
            (5, 0, false),
            (6, NOW - 1, true),
        ],
    );
    let all = pick_to_learn_at(&storage, &RunConfigs { new_count: 8, max_reviews: 20 }, NOW);
    assert_eq!(vec![1, 3, 6, 2, 5], learned_ids(&all));
    assert_eq!("一三六二五", learn_string(&all));
    assert!(has_reviews(&all));
    let few = pick_to_learn_at(&storage, &RunConfigs { new_count: 1, max_reviews: 2 }, NOW);
    assert_eq!(vec![1, 3, 2], learned_ids(&few));
    let unlimited = pick_to_learn_at(&storage, &RunConfigs { new_count: 0, max_reviews: 0 }, NOW);
    assert_eq!(vec![1, 3, 6], learned_ids(&unlimited));
    let early = pick_to_learn_at(&storage, &RunConfigs { new_count: 2, max_reviews: 5 }, 0);
    assert_eq!(vec![2, 5], learned_ids(&early));
    assert!(!has_reviews(&early));
}

#[test]
fn session_passes_over_states_without_an_entry() {
    let storage = built(vec![(1, '一')], vec![(1, NOW, true), (2, NOW, true), (3, 0, false)]);
    let picked = pick_to_learn_at(&storage, &RunConfigs { new_count: 8, max_reviews: 20 }, NOW);
    assert_eq!(vec![1], learned_ids(&picked));
}

#[test]
fn session_of_today() {
    let storage = storage_with("日本");
    let picked = pick_to_learn(&storage, &RunConfigs { new_count: 1, max_reviews: 20 });
    assert_eq!(vec![1], learned_ids(&picked));
}

#[test]
fn relearn_takes_only_what_was_learned() {
    let storage = storage_with("日本語字");
    let learned = pick_to_learn_at(&storage, &RunConfigs { new_count: 3, max_reviews: 20 }, NOW);
    assert_eq!(vec![1, 2, 3], learned_ids(&learned));
    let again = determine_relearn(&storage, &learned, &vec!['語', '字', '日', '語', '漢']);
    assert_eq!(vec![3, 1, 3], again);
    assert!(determine_relearn(&storage, &learned, &vec![]).is_empty());
}

#[test]
fn session_end_reviews_every_item() {
    let mut storage = storage_with("日本語");
    let answers = session_plan(&vec![1, 2, 3], &vec![2]);
    assert_eq!(
        vec![
            Answer { id: 1, again: false },
            Answer { id: 2, again: true },
            Answer { id: 3, again: false }
        ],
        answers
    );
    assert_eq!(3, ksrs::cli::run::run_at(&mut storage, &vec![1, 2, 3], &vec![2], NOW));
    let one = *storage.get_srs_storage().find(1).unwrap();
    assert!(one.in_learning);
    assert_eq!(1, one.srs_data.repetitions());
    assert_eq!(250, one.srs_data.ease_factor());
    assert_eq!(NOW + DAY, one.due_on);
    let two = *storage.get_srs_storage().find(2).unwrap();
    assert!(two.in_learning);
    assert_eq!(0, two.srs_data.repetitions());
    assert_eq!(NOW + DAY, two.due_on);
    assert_eq!(1, ksrs::cli::run::run_at(&mut storage, &vec![1, 9], &vec![], NOW));
    assert_eq!(2, storage.get_srs_storage().find(1).unwrap().srs_data.repetitions());
    assert_eq!(NOW + 6 * DAY, storage.get_srs_storage().find(1).unwrap().due_on);
}

#[test]
fn answers_are_taken_in_order() {
    let mut storage = storage_with("日");
    let answers = vec![
        Answer { id: 1, again: false },
        Answer { id: 1, again: false },
        Answer { id: 1, again: true },
        Answer { id: 2, again: false },
    ];
    assert_eq!(3, answer_all_at(&mut storage, &answers, NOW));
    let state = *storage.get_srs_storage().find(1).unwrap();
    assert_eq!(0, state.srs_data.repetitions());
    assert_eq!(NOW + DAY, state.due_on);
}

#[test]
fn manual_review() {
    let mut storage = built(
        vec![(1, '一'), (2, '二'), (3, '三'), (4, '四')],
        vec![(1, NOW, true), (2, 0, false), (3, NOW + DAY, true)],
    );
    let entries = reviewable_at(&storage, "三x二一四五一", NOW);
    assert_eq!(
        vec![
            Entry { id: 2, literal: '二' },
            Entry { id: 1, literal: '一' },
            Entry { id: 1, literal: '一' }
        ],
        entries
    );
    let (answers, literals) = plan(&entries, &vec!['二', '九']);
    assert_eq!(vec!['二', '一', '一'], literals);
    assert_eq!(
        vec![
            Answer { id: 2, again: true },
            Answer { id: 1, again: false },
            Answer { id: 1, again: false }
        ],
        answers
    );
    let text = ksrs::cli::review::run_at(&mut storage, &entries, "二 and 九\n", NOW);
    assert_eq!("Reviewed 二,一,一", text);
    assert_eq!(0, storage.get_srs_storage().find(2).unwrap().srs_data.repetitions());
    assert!(storage.get_srs_storage().find(2).unwrap().in_learning);
    assert_eq!(2, storage.get_srs_storage().find(1).unwrap().srs_data.repetitions());
    assert!(reviewable_at(&storage, "一二三", NOW).is_empty());
    assert_eq!(
        "Nothing to reset",
        ksrs::cli::review::run_at(&mut storage, &vec![], "", NOW)
    );
}

#[test]
fn ids_are_sorted() {
    assert_eq!(vec![1, 2, 2, 3, 9], sort_ids(&vec![9, 2, 3, 1, 2]));
    assert!(sort_ids(&vec![]).is_empty());
    assert_eq!(vec![0, u32::MAX], sort_ids(&vec![u32::MAX, 0]));
}

#[test]
fn line_of_a_day() {
    let storage = built(
        vec![(1, '一'), (2, '二'), (3, '三')],
        vec![(1, 0, false), (2, 0, false), (4, 0, false)],
    );
    assert_eq!(None, print_review_day(&storage, &vec![]));
    assert_eq!(Some("一,二".to_string()), print_review_day(&storage, &vec![2, 1]));
    assert_eq!(Some("一,二".to_string()), print_review_day(&storage, &vec![4, 3, 2, 1]));
    assert_eq!(Some("".to_string()), print_review_day(&storage, &vec![3, 4]));
    assert_eq!(vec!['二', '一', '二'], literals_for(&storage, &vec![2, 9, 1, 2]));
}

#[test]
fn line_of_a_day_is_cut_after_forty() {
    let literals: Vec<char> = ('一'..='龥').filter(|c| *c >= '丁').take(41).collect();
    let text: String = literals.iter().collect();
    let storage = storage_with(&text);
    let ids: Vec<u32> = (1..=41).rev().collect();
    let line = print_review_day(&storage, &ids).unwrap();
    let expected: Vec<String> = literals.iter().take(40).map(|c| c.to_string()).collect();
    assert_eq!(format!("{},...", expected.join(",")), line);
    let forty: Vec<u32> = (1..=40).collect();
    assert_eq!(expected.join(","), print_review_day(&storage, &forty).unwrap());
}

#[test]
fn tomorrow_runs_from_four_to_four() {
    let storage = built(
        vec![(1, '一'), (2, '二'), (3, '三'), (4, '四')],
        vec![
            (1, NOW + DAY - 1, true),
            (2, NOW + DAY, true),
            (3, NOW + 2 * DAY - 1, true),
            (4, NOW + 2 * DAY, true),
        ],
    );
    assert_eq!(vec![2, 3], reviews_tomorrow_at(&storage, NOW));
    assert_eq!(vec![2, 3], reviews_tomorrow_at(&storage, NOW + DAY - 14_401));
    assert_eq!(vec![2, 3], reviews_tomorrow_at(&storage, NOW - 1));
    assert_eq!(vec![2, 3], reviews_tomorrow_at(&storage, NOW - 14_400));
    assert_eq!(vec![1], reviews_tomorrow_at(&storage, NOW - 14_401));
    assert!(reviews_tomorrow(&storage).is_empty());
}

#[test]
fn states_ordered_by_due_time() {
    let storage = built(
        vec![(1, '一'), (2, '二'), (3, '三')],
        vec![(1, NOW, true), (2, 0, false), (3, NOW - 5, true)],
    );
    let order: Vec<u32> = all_due_ordered(&storage).iter().map(|s| s.id).collect();
    assert_eq!(vec![2, 3, 1], order);
}

#[test]
fn info_text_has_a_part_for_each_day() {
    let storage = built(
        vec![(1, '一'), (2, '二'), (3, '三'), (4, '四'), (5, '五')],
        vec![
            (1, 0, false),
            (2, NOW, true),
            (3, NOW + DAY, true),
            (4, NOW + 9 * DAY, true),
            (5, NOW + 3 * DAY, true),
        ],
    );
    assert_eq!(
        "Next: \n一\n\nToday: 二\n\nTomorrow: \n三\n\nFuture: \n四,五\n",
        ksrs::cli::info::run_at(&storage, NOW)
    );
    let empty = storage_with("");
    assert_eq!(
        "No kanji in database. Go and add some\n",
        ksrs::cli::info::run_at(&empty, NOW)
    );
    let fresh = storage_with("日本");
    assert_eq!("Next: \n日,本\n\n", ksrs::cli::info::run_at(&fresh, NOW));
    assert_eq!("Next: \n日,本\n\n", ksrs::cli::info::run(&fresh));
}

#[test]
fn info_text_shows_twenty_future_items() {
    let entries: Vec<(u32, char)> = (1..=25).map(|i| (i, char::from_u32(0x4E00 + i).unwrap())).collect();
    let states: Vec<(u32, u64, bool)> = (1..=25).map(|i| (i, NOW + (30 - i as u64) * DAY, true)).collect();
    let storage = built(entries, states);
    let text = ksrs::cli::info::run_at(&storage, NOW);
    let shown: Vec<String> = (6..=25).map(|i| char::from_u32(0x4E00 + i).unwrap().to_string()).collect();
    assert_eq!(format!("Future: \n{}\n", shown.join(",")), text);
}

#[test]
fn all_command() {
    let mut storage = storage_with("日本語");
    storage.remove('本');
    assert_eq!("日,語\n", ksrs::cli::all::run(&storage, false));
    assert_eq!("日語\n", ksrs::cli::all::run(&storage, true));
    assert_eq!("\n", ksrs::cli::all::run(&storage_with(""), false));
}

#[test]
fn stats_numbers() {
    let mut storage = storage_with("一二三四五六七八九十");
    storage.review_at(1, RepQuality::Grade4, NOW);
    assert_eq!(
        Some(Stats { total: 10, learning: 1, left: 9, days_left: 2 }),
        ksrs::cli::stats::run(&storage)
    );
    storage.review_at(2, RepQuality::Grade4, NOW);
    assert_eq!(
        Some(Stats { total: 10, learning: 2, left: 8, days_left: 1 }),
        ksrs::cli::stats::run(&storage)
    );
    assert_eq!(
        Some(Stats { total: 0, learning: 0, left: 0, days_left: 0 }),
        ksrs::cli::stats::run(&storage_with(""))
    );
    let broken = built(vec![], vec![(1, NOW, true)]);
    assert_eq!(None, ksrs::cli::stats::run(&broken));
}

#[test]
fn fix_db_command() {
    let mut broken = built(vec![(1, '一')], vec![]);
    assert_eq!("Success", ksrs::cli::fix_db::run(&mut broken));
    assert!(broken.check());
    assert_eq!("Couldn't fix database", ksrs::cli::fix_db::run(&mut broken));
    let mut mixed = built(vec![(1, '一')], vec![(2, 0, false)]);
    assert_eq!("Couldn't fix database", ksrs::cli::fix_db::run(&mut mixed));
    assert!(!mixed.check());
}
