//! The address of a character's page in the Jotoba dictionary.
use vstd::prelude::*;
use vstd::string::StringExecFns;

verus! {

/// Search type kanji
pub const KANJI_SEARCH_TYPE: u8 = 1;

/// The decimal digit for a value below ten.
pub open spec fn digit_char(d: nat) -> char {
    if d == 0 {
        '0'
    } else if d == 1 {
        '1'
    } else if d == 2 {
        '2'
    } else if d == 3 {
        '3'
    } else if d == 4 {
        '4'
    } else if d == 5 {
        '5'
    } else if d == 6 {
        '6'
    } else if d == 7 {
        '7'
    } else if d == 8 {
        '8'
    } else {
        '9'
    }
}

/// The decimal digits of a number, without leading zeros.
pub open spec fn decimal_digits(n: nat) -> Seq<char>
    decreases n,
{
    if n < 10 {
        seq![digit_char(n)]
    } else {
        decimal_digits(n / 10).push(digit_char(n % 10))
    }
}

/// The address of the search for `query` of the type `s_type`.
pub open spec fn jotoba_url(query: Seq<char>, s_type: u8) -> Seq<char> {
    "https://jotoba.de/search/"@ + query + "?t="@ + decimal_digits(s_type as nat)
}

/// Returns the decimal digit for a value below ten.
fn digit(d: u8) -> (r: char)
    requires
        d < 10,
    ensures
        r == digit_char(d as nat),
{
    if d == 0 {
        '0'
    } else if d == 1 {
        '1'
    } else if d == 2 {
        '2'
    } else if d == 3 {
        '3'
    } else if d == 4 {
        '4'
    } else if d == 5 {
        '5'
    } else if d == 6 {
        '6'
    } else if d == 7 {
        '7'
    } else if d == 8 {
        '8'
    } else {
        '9'
    }
}

/// Writes a number in decimal, without leading zeros.
pub fn decimal_text(n: u8) -> (r: String)
    ensures
        r@ == decimal_digits(n as nat),
{
    let mut out = String::new();
    if n >= 100 {
        out.push(digit(n / 100));
    }
    if n >= 10 {
        out.push(digit(n / 10 % 10));
    }
    out.push(digit(n % 10));
    proof {
        reveal_with_fuel(decimal_digits, 3);
        assert(out@ =~= decimal_digits(n as nat));
    }
    out
}

/// Returns a jotoba-search url with the given query and search type
pub fn get_jotoba_url(query: &str, s_type: u8) -> (r: String)
    ensures
        r@ == jotoba_url(query@, s_type),
{
    let mut url = String::from_str("https://jotoba.de/search/");
    url.append(query);
    url.append("?t=");
    let digits = decimal_text(s_type);
    url.append(digits.as_str());
    url
}

/// Returns the address of the jotoba kanji page with given kanji as query
pub fn kanji_url(kanji: &str) -> (r: String)
    ensures
        r@ == jotoba_url(kanji@, KANJI_SEARCH_TYPE),
{
    get_jotoba_url(kanji, KANJI_SEARCH_TYPE)
}

} // verus!
