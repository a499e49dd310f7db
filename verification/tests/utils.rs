use ksrs::browser::{get_jotoba_url, kanji_url, KANJI_SEARCH_TYPE};
use ksrs::utils::{
    confirmation, get_today_unix, is_affirmative, parse_nr, start_of_day, unix_n_days_offset,
    CUTOFF, DAY, LAST_SECOND,
};

#[test]
fn parse_nr_reads_decimal_numbers() {
    assert_eq!(12, parse_nr(Some("12"), 5));
    assert_eq!(0, parse_nr(Some("0"), 5));
    assert_eq!(7, parse_nr(Some("+7"), 5));
    assert_eq!(7, parse_nr(Some("007"), 5));
    assert_eq!(usize::MAX, parse_nr(Some(&usize::MAX.to_string()), 5));
}

#[test]
fn parse_nr_falls_back_to_the_default() {
    assert_eq!(5, parse_nr(None, 5));
    assert_eq!(5, parse_nr(Some(""), 5));
    assert_eq!(5, parse_nr(Some("+"), 5));
    assert_eq!(5, parse_nr(Some("abc"), 5));
    assert_eq!(5, parse_nr(Some("-3"), 5));
    assert_eq!(5, parse_nr(Some(" 3"), 5));
    assert_eq!(5, parse_nr(Some("3 "), 5));
    assert_eq!(5, parse_nr(Some("1_000"), 5));
    assert_eq!(5, parse_nr(Some("１２"), 5));
    assert_eq!(5, parse_nr(Some("99999999999999999999999999"), 5));
}

#[test]
fn confirmation_accepts_the_words_for_yes() {
    assert!(confirmation("yes"));
    assert!(confirmation("y"));
    assert!(confirmation("ja"));
    assert!(confirmation("はい"));
    assert!(confirmation(""));
    assert!(confirmation("YES\n"));
    assert!(confirmation("  Ja  \r\n"));
    assert!(confirmation("\n"));
}

#[test]
fn confirmation_refuses_other_answers() {
    assert!(!confirmation("no"));
    assert!(!confirmation("n"));
    assert!(!confirmation("yes please"));
    assert!(!confirmation("ye"));
    assert!(!confirmation("いいえ"));
    assert!(!confirmation("y e s"));
}

#[test]
fn affirmative_words_are_taken_as_they_are() {
    assert!(is_affirmative("yes"));
    assert!(is_affirmative("y\nes"));
    assert!(is_affirmative("\n\n"));
    assert!(!is_affirmative("Yes"));
    assert!(!is_affirmative(" yes"));
    assert!(!is_affirmative("jaa"));
    assert!(!is_affirmative("は"));
}

#[test]
fn start_of_day_is_four_o_clock() {
    let midnight = 1_431_648_000;
    assert_eq!(midnight + 4 * 3600, start_of_day(midnight));
    assert_eq!(midnight + 4 * 3600, start_of_day(midnight + 1));
    assert_eq!(midnight + 4 * 3600, start_of_day(midnight + 4 * 3600));
    assert_eq!(midnight + 4 * 3600, start_of_day(midnight + 86_399));
    assert_eq!(midnight + 86_400 + 4 * 3600, start_of_day(midnight + 86_400));
    assert_eq!(14_400, start_of_day(0));
    assert_eq!(LAST_SECOND - 86_399 + 14_400, start_of_day(LAST_SECOND));
    assert_eq!(86_399, LAST_SECOND % DAY);
}

#[test]
fn today_starts_at_the_cutoff() {
    let today = get_today_unix();
    assert_eq!(CUTOFF, today % DAY);
    assert!(today > 1_600_000_000);
    assert!(today <= LAST_SECOND);
    assert_eq!(today, start_of_day(today));
}

#[test]
fn days_offset_counts_whole_days() {
    let before = get_today_unix();
    let in_three = unix_n_days_offset(3);
    let after = get_today_unix();
    assert_eq!(CUTOFF, in_three % DAY);
    assert!(before + 3 * DAY <= in_three && in_three <= after + 3 * DAY);
    let far = unix_n_days_offset(u32::MAX);
    assert!(far >= DAY * u32::MAX as u64);
}

#[test]
fn jotoba_url_holds_query_and_type() {
    assert_eq!("https://jotoba.de/search/日本?t=1", get_jotoba_url("日本", 1));
    assert_eq!("https://jotoba.de/search/?t=0", get_jotoba_url("", 0));
    assert_eq!("https://jotoba.de/search/abc?t=255", get_jotoba_url("abc", 255));
    assert_eq!("https://jotoba.de/search/x?t=10", get_jotoba_url("x", 10));
}

#[test]
fn kanji_url_searches_for_kanji() {
    assert_eq!(1, KANJI_SEARCH_TYPE);
    assert_eq!("https://jotoba.de/search/語?t=1", kanji_url("語"));
}
