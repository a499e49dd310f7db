//! Time of day and small helpers for reading input.
//!
//! A day of study starts at 04:00 UTC. Times are seconds since the start of
//! 1970, as the calendar of `chrono` counts them.
use chrono::Timelike;
use vstd::prelude::*;

verus! {

/// Seconds in a day.
pub const DAY: u64 = 86_400;

/// Seconds from midnight to the hour at which a day of study starts.
pub const CUTOFF: u64 = 14_400;

/// The last second that the calendar can name: the end of the year 262142.
pub const LAST_SECOND: u64 = 8_210_266_876_799;

/// 04:00 on the day that holds the second `t`.
pub open spec fn day_cutoff(t: int) -> int {
    t - t % 86_400 + 14_400
}

/// `t` is 04:00 of a day that the calendar can name.
pub open spec fn is_day_start(t: u64) -> bool {
    t <= LAST_SECOND && t % DAY == CUTOFF
}

/// Reads the clock with `chrono::Utc::now` and gives its `timestamp`.
///
/// `now` builds its value from a count of whole seconds since 1970 and
/// fails for one that the calendar cannot name, so what comes back lies
/// between zero and [`LAST_SECOND`]. Nothing else is claimed: two calls may
/// differ.
#[verifier::external_body]
fn clock_seconds() -> (r: i64)
    ensures
        0 <= r <= LAST_SECOND,
{
    chrono::Utc::now().timestamp()
}

/// Moves a time to 04:00:00 of its day, with `DateTime::from_timestamp`,
/// `with_hour`, `with_second`, `with_minute` and `timestamp` of `chrono`.
///
/// In UTC a timestamp is 86 400 times the day's number plus the second of
/// the day, and the three setters replace the second of the day by that of
/// 04:00:00; within the calendar's range none of them fails.
#[verifier::external_body]
fn cutoff_of_day(secs: i64) -> (r: i64)
    requires
        0 <= secs <= LAST_SECOND,
    ensures
        r == day_cutoff(secs as int),
{
    let time = chrono::DateTime::from_timestamp(secs, 0).unwrap();
    let time = time.with_hour(4).unwrap().with_second(0).unwrap().with_minute(0).unwrap();
    time.timestamp()
}

/// Returns 04:00 of the day that holds `now`.
pub fn start_of_day(now: u64) -> (r: u64)
    requires
        now <= LAST_SECOND,
    ensures
        r == day_cutoff(now as int),
        r <= LAST_SECOND,
        r % DAY == CUTOFF,
{
    let r = cutoff_of_day(now as i64);
    r as u64
}

/// Returns the unix timestamp of 04:00 of the current day
pub fn get_today_unix() -> (r: u64)
    ensures
        is_day_start(r),
{
    let now = clock_seconds();
    start_of_day(now as u64)
}

/// Returns the unix timestamp of 04:00 of the day that lies `days` days
/// after the current one.
pub fn unix_n_days_offset(days: u32) -> (r: u64)
    ensures
        exists|today: u64| #[trigger] is_day_start(today) && r == today + DAY * days,
        r % DAY == CUTOFF,
{
    let today = get_today_unix();
    let r = today + DAY * (days as u64);
    assert(is_day_start(today) && r == today + DAY * days);
    r
}

/// The value of a decimal digit.
pub open spec fn digit_value(c: char) -> nat {
    (c as u32 - '0' as u32) as nat
}

/// `c` is one of the ten decimal digits.
pub open spec fn is_digit(c: char) -> bool {
    '0' <= c && c <= '9'
}

/// The number that a sequence of decimal digits stands for.
pub open spec fn decimal_value(digits: Seq<char>) -> nat
    decreases digits.len(),
{
    if digits.len() == 0 {
        0
    } else {
        decimal_value(digits.drop_last()) * 10 + digit_value(digits.last())
    }
}

/// Every character of `digits` is a decimal digit.
pub open spec fn all_digits(digits: Seq<char>) -> bool {
    forall|i: int| 0 <= i < digits.len() ==> is_digit(#[trigger] digits[i])
}

/// The text `s` without a `+` at its start.
pub open spec fn unsigned(s: Seq<char>) -> Seq<char> {
    if s.len() > 0 && s[0] == '+' {
        s.drop_first()
    } else {
        s
    }
}

/// What a text gives when read as a number: an optional `+`, then one or
/// more decimal digits and nothing else, whose value fits a `usize`.
pub open spec fn parsed_number(s: Seq<char>) -> Option<usize> {
    let digits = unsigned(s);
    if digits.len() > 0 && all_digits(digits) && decimal_value(digits) <= usize::MAX {
        Some(decimal_value(digits) as usize)
    } else {
        None
    }
}

/// Among decimal digits, a longer number is no smaller than its
/// beginning.
pub proof fn lemma_decimal_value_grows(digits: Seq<char>, k: int)
    requires
        0 <= k <= digits.len(),
    ensures
        decimal_value(digits.take(k)) <= decimal_value(digits),
    decreases digits.len(),
{
    if k < digits.len() {
        lemma_decimal_value_grows(digits.drop_last(), k);
        assert(digits.drop_last().take(k) == digits.take(k));
    } else {
        assert(digits.take(k) == digits);
    }
}

/// Reads a text as a number, see [`parsed_number`].
fn parse_usize(s: &str) -> (r: Option<usize>)
    ensures
        r == parsed_number(s@),
{
    let chars = crate::japanese::chars_of(s);
    let start: usize = if chars.len() > 0 && chars[0] == '+' {
        1
    } else {
        0
    };
    let ghost digits = chars@.subrange(start as int, chars.len() as int);
    proof {
        if start == 1 {
            assert(digits =~= chars@.drop_first());
        } else {
            assert(digits =~= chars@);
        }
    }
    if chars.len() == start {
        return None;
    }
    let mut acc: usize = 0;
    let mut i: usize = start;
    while i < chars.len()
        invariant
            start <= i <= chars.len(),
            digits == chars@.subrange(start as int, chars.len() as int),
            digits == unsigned(s@),
            digits.len() > 0,
            forall|k: int| 0 <= k < i - start ==> is_digit(#[trigger] digits[k]),
            acc == decimal_value(digits.take(i - start)),
        decreases chars.len() - i,
    {
        let c = chars[i];
        proof {
            assert(digits[i - start] == c);
            assert(digits.take(i - start + 1).drop_last() == digits.take(i - start));
            assert(digits.take(i - start + 1).last() == c);
        }
        if !(c >= '0' && c <= '9') {
            proof {
                assert(!is_digit(digits[i - start]));
            }
            return None;
        }
        let d = (c as u32 - '0' as u32) as usize;
        if acc > (usize::MAX - d) / 10 {
            proof {
                lemma_decimal_value_grows(digits, i - start + 1);
                assert(decimal_value(digits.take(i - start + 1)) == acc * 10 + d);
                assert(acc * 10 + d > usize::MAX);
            }
            return None;
        }
        acc = acc * 10 + d;
        i += 1;
    }
    proof {
        assert(digits.take(digits.len() as int) == digits);
    }
    Some(acc)
}

/// Reads `s` as a number; gives `default` where there is no text or the
/// text is no number.
pub fn parse_nr(s: Option<&str>, default: usize) -> (r: usize)
    ensures
        r == match s {
            Some(text) => match parsed_number(text@) {
                Some(n) => n,
                None => default,
            },
            None => default,
        },
{
    match s {
        Some(i) => match parse_usize(i) {
            Some(n) => n,
            None => default,
        },
        None => default,
    }
}

/// The lower case of a text, as `str::to_lowercase` of std gives it.
pub uninterp spec fn lowercase_of(s: Seq<char>) -> Seq<char>;

/// A text without the white space at its two ends, as `str::trim` of std
/// gives it.
pub uninterp spec fn trimmed(s: Seq<char>) -> Seq<char>;

/// Calls `str::to_lowercase` of std, which maps each character by the
/// Unicode tables.
#[verifier::external_body]
fn to_lowercase(s: &str) -> (r: String)
    ensures
        r@ == lowercase_of(s@),
{
    s.to_lowercase()
}

/// Calls `str::trim` of std, which drops the characters with the Unicode
/// property `White_Space` from both ends.
#[verifier::external_body]
fn trim(s: &str) -> (r: &str)
    ensures
        r@ == trimmed(s@),
{
    s.trim()
}

/// `s` without its line feeds.
pub open spec fn without_newlines(s: Seq<char>) -> Seq<char> {
    s.filter(|c: char| c != '\n')
}

/// The answers that count as a yes: four words, and the empty answer.
pub open spec fn affirms(s: Seq<char>) -> bool {
    s == seq!['y', 'e', 's'] || s == seq!['y'] || s == seq!['j', 'a'] || s == seq!['は', 'い']
        || s.len() == 0
}

/// Returns `true` if the word, taken without its line feeds, is one of the
/// answers that count as a yes.
pub fn is_affirmative(word: &str) -> (r: bool)
    ensures
        r == affirms(without_newlines(word@)),
{
    let chars = crate::japanese::chars_of(word);
    let mut kept: Vec<char> = Vec::new();
    let mut i: usize = 0;
    while i < chars.len()
        invariant
            i <= chars.len(),
            kept@ == without_newlines(chars@.take(i as int)),
        decreases chars.len() - i,
    {
        proof {
            reveal(Seq::filter);
            assert(chars@.take(i + 1).drop_last() == chars@.take(i as int));
            assert(chars@.take(i + 1).last() == chars@[i as int]);
        }
        if chars[i] != '\n' {
            kept.push(chars[i]);
        }
        i += 1;
    }
    proof {
        assert(chars@.take(chars.len() as int) == chars@);
    }
    let n = kept.len();
    let r = n == 0 || (n == 1 && kept[0] == 'y') || (n == 2 && kept[0] == 'j' && kept[1] == 'a') || (n
        == 2 && kept[0] == 'は' && kept[1] == 'い') || (n == 3 && kept[0] == 'y' && kept[1] == 'e'
        && kept[2] == 's');
    proof {
        let s = kept@;
        if r {
            if n == 1 {
                assert(s =~= seq!['y']);
            } else if n == 3 {
                assert(s =~= seq!['y', 'e', 's']);
            } else if n == 2 && kept[0] == 'j' {
                assert(s =~= seq!['j', 'a']);
            } else if n == 2 {
                assert(s =~= seq!['は', 'い']);
            }
        } else {
            let yes = seq!['y', 'e', 's'];
            let ja = seq!['j', 'a'];
            let hai = seq!['は', 'い'];
            assert(yes.len() == 3 && yes[0] == 'y' && yes[1] == 'e' && yes[2] == 's');
            assert(seq!['y'].len() == 1 && seq!['y'][0] == 'y');
            assert(ja.len() == 2 && ja[0] == 'j' && ja[1] == 'a');
            assert(hai.len() == 2 && hai[0] == 'は' && hai[1] == 'い');
        }
    }
    r
}

/// Returns `true` if the user's answer to a question agrees: in lower
/// case, without the white space at its ends and without line feeds, it is
/// one of the answers that count as a yes.
pub fn confirmation(answer: &str) -> (r: bool)
    ensures
        r == affirms(without_newlines(trimmed(lowercase_of(answer@)))),
{
    let lower = to_lowercase(answer);
    let inp = trim(lower.as_str());
    is_affirmative(inp)
}

} // verus!
