//! Tells the scripts of Japanese writing apart, for a character and for a
//! text.
use vstd::prelude::*;

verus! {

/// A class of characters.
#[derive(Clone, Copy, Debug, PartialEq, Eq, Structural)]
pub enum Script {
    Katakana,
    Hiragana,
    Kana,
    RomanLetter,
    Kanji,
    Symbol,
    Japanese,
    SmallKatakana,
    SmallHiragana,
    SmallKana,
    Particle,
}

/// `c` lies between `lo` and `hi`, both included.
pub open spec fn within(c: char, lo: char, hi: char) -> bool {
    lo <= c && c <= hi
}

/// The katakana block.
pub open spec fn katakana(c: char) -> bool {
    within(c, '\u{30A0}', '\u{30FF}')
}

/// The hiragana block.
pub open spec fn hiragana(c: char) -> bool {
    within(c, '\u{3040}', '\u{309F}')
}

/// Full-width letters and signs, general punctuation, the second plane's
/// ideographs, the hyphen and the minus sign.
pub open spec fn roman_letter(c: char) -> bool {
    within(c, '\u{FF01}', '\u{FF5A}') || within(c, '\u{2000}', '\u{206F}') || within(
        c,
        '\u{20000}',
        '\u{2A6DF}',
    ) || c == '\u{2010}' || c == '\u{2212}'
}

/// The blocks of ideographs, and the full-width digits.
pub open spec fn kanji(c: char) -> bool {
    within(c, '\u{3400}', '\u{4DBF}') || within(c, '\u{4E00}', '\u{9FFF}') || within(
        c,
        '\u{F900}',
        '\u{FAFF}',
    ) || within(c, '\u{FF10}', '\u{FF19}') || within(c, '\u{20000}', '\u{2A6DF}') || c
        == '\u{29E8A}'
}

/// Punctuation of the three scripts, Greek letters, geometric shapes,
/// full-width forms, and three single signs.
pub open spec fn symbol(c: char) -> bool {
    within(c, '\u{3000}', '\u{303F}') || within(c, '\u{0370}', '\u{03FF}') || within(
        c,
        '\u{25A0}',
        '\u{25FF}',
    ) || within(c, '\u{FF00}', '\u{FFEF}') || c == '\u{002D}' || c == '\u{3005}' || c
        == '\u{00D7}'
}

/// The small hiragana ya, yu and yo.
pub open spec fn small_hiragana(c: char) -> bool {
    c == '\u{3083}' || c == '\u{3085}' || c == '\u{3087}'
}

/// The small katakana ya, yu and yo.
pub open spec fn small_katakana(c: char) -> bool {
    c == '\u{30E3}' || c == '\u{30E5}' || c == '\u{30E7}'
}

/// The hiragana that serve as particles.
pub open spec fn particle(c: char) -> bool {
    c == 'を' || c == 'の' || c == 'に' || c == 'と' || c == 'が' || c == 'か' || c == 'は' || c
        == 'も' || c == 'で' || c == 'へ' || c == 'や'
}

fn katakana_char(c: char) -> (r: bool)
    ensures
        r == katakana(c),
{
    c >= '\u{30A0}' && c <= '\u{30FF}'
}

fn hiragana_char(c: char) -> (r: bool)
    ensures
        r == hiragana(c),
{
    c >= '\u{3040}' && c <= '\u{309F}'
}

fn roman_letter_char(c: char) -> (r: bool)
    ensures
        r == roman_letter(c),
{
    c >= '\u{FF01}' && c <= '\u{FF5A}' || (c >= '\u{2000}' && c <= '\u{206F}') || (c >= '\u{20000}'
        && c <= '\u{2A6DF}') || c == '\u{2010}' || c == '\u{2212}'
}

fn kanji_char(c: char) -> (r: bool)
    ensures
        r == kanji(c),
{
    (c >= '\u{3400}' && c <= '\u{4DBF}') || (c >= '\u{4E00}' && c <= '\u{9FFF}') || (c >= '\u{F900}'
        && c <= '\u{FAFF}') || (c >= '\u{FF10}' && c <= '\u{FF19}') || (c >= '\u{20000}' && c
        <= '\u{2A6DF}') || c == '\u{29E8A}'
}

fn symbol_char(c: char) -> (r: bool)
    ensures
        r == symbol(c),
{
    (c >= '\u{3000}' && c <= '\u{303F}') || (c >= '\u{0370}' && c <= '\u{03FF}') || (c >= '\u{25A0}'
        && c <= '\u{25FF}') || (c >= '\u{FF00}' && c <= '\u{FFEF}') || c == '\u{002D}' || c
        == '\u{3005}' || c == '\u{00D7}'
}

fn small_hiragana_char(c: char) -> (r: bool)
    ensures
        r == small_hiragana(c),
{
    c == '\u{3083}' || c == '\u{3085}' || c == '\u{3087}'
}

fn small_katakana_char(c: char) -> (r: bool)
    ensures
        r == small_katakana(c),
{
    c == '\u{30E3}' || c == '\u{30E5}' || c == '\u{30E7}'
}

fn particle_char(c: char) -> (r: bool)
    ensures
        r == particle(c),
{
    c == 'を' || c == 'の' || c == 'に' || c == 'と' || c == 'が' || c == 'か' || c == 'は' || c
        == 'も' || c == 'で' || c == 'へ' || c == 'や'
}

impl Script {
    /// Whether the character `c` belongs to the class.
    pub open spec fn holds(self, c: char) -> bool {
        match self {
            Script::Katakana => katakana(c),
            Script::Hiragana => hiragana(c),
            Script::Kana => hiragana(c) || katakana(c),
            Script::RomanLetter => roman_letter(c),
            Script::Kanji => kanji(c),
            Script::Symbol => symbol(c),
            Script::Japanese => hiragana(c) || katakana(c) || kanji(c) || symbol(c)
                || roman_letter(c),
            Script::SmallHiragana => small_hiragana(c),
            Script::SmallKatakana => small_katakana(c),
            Script::SmallKana => small_katakana(c) || small_hiragana(c),
            Script::Particle => particle(c),
        }
    }

    /// Every character of `s` belongs to the class.
    pub open spec fn holds_all(self, s: Seq<char>) -> bool {
        forall|i: int| 0 <= i < s.len() ==> self.holds(#[trigger] s[i])
    }

    /// Some character of `s` belongs to the class.
    pub open spec fn holds_any(self, s: Seq<char>) -> bool {
        exists|i: int| 0 <= i < s.len() && self.holds(#[trigger] s[i])
    }

    /// The characters of `s` that belong to the class, in their order.
    pub open spec fn those_of(self, s: Seq<char>) -> Seq<char> {
        s.filter(|c: char| self.holds(c))
    }

    /// Returns `true` if the character belongs to the class.
    pub fn test(&self, c: char) -> (r: bool)
        ensures
            r == self.holds(c),
    {
        match self {
            Script::Katakana => katakana_char(c),
            Script::Hiragana => hiragana_char(c),
            Script::Kana => hiragana_char(c) || katakana_char(c),
            Script::RomanLetter => roman_letter_char(c),
            Script::Kanji => kanji_char(c),
            Script::Symbol => symbol_char(c),
            Script::Japanese => hiragana_char(c) || katakana_char(c) || kanji_char(c)
                || symbol_char(c) || roman_letter_char(c),
            Script::SmallHiragana => small_hiragana_char(c),
            Script::SmallKatakana => small_katakana_char(c),
            Script::SmallKana => small_katakana_char(c) || small_hiragana_char(c),
            Script::Particle => particle_char(c),
        }
    }
}

/// Returns the characters of a text.
pub fn chars_of(s: &str) -> (r: Vec<char>)
    ensures
        r@ == s@,
{
    let mut out: Vec<char> = Vec::new();
    for c in it: s.chars()
        invariant
            it.seq() == s@,
            out@ == s@.take(it.index() as int),
    {
        out.push(c);
    }
    proof {
        assert(s@.take(s@.len() as int) == s@);
    }
    out
}

/// Returns the characters of `s` that belong to `script`, in their order.
pub fn keep(s: &Vec<char>, script: Script) -> (r: Vec<char>)
    ensures
        r@ == script.those_of(s@),
{
    let mut out: Vec<char> = Vec::new();
    let mut i: usize = 0;
    while i < s.len()
        invariant
            i <= s.len(),
            out@ == script.those_of(s@.take(i as int)),
        decreases s.len() - i,
    {
        proof {
            reveal(Seq::filter);
            assert(s@.take(i + 1).drop_last() == s@.take(i as int));
            assert(s@.take(i + 1).last() == s@[i as int]);
        }
        if script.test(s[i]) {
            out.push(s[i]);
        }
        i += 1;
    }
    proof {
        assert(s@.take(s.len() as int) == s@);
    }
    out
}

fn all_chars(s: &str, script: Script) -> (r: bool)
    ensures
        r == script.holds_all(s@),
{
    let chars = chars_of(s);
    let mut i: usize = 0;
    while i < chars.len()
        invariant
            i <= chars.len(),
            chars@ == s@,
            forall|k: int| 0 <= k < i ==> script.holds(#[trigger] chars@[k]),
        decreases chars.len() - i,
    {
        if !script.test(chars[i]) {
            return false;
        }
        i += 1;
    }
    true
}

fn any_char(s: &str, script: Script) -> (r: bool)
    ensures
        r == script.holds_any(s@),
{
    let chars = chars_of(s);
    let mut i: usize = 0;
    while i < chars.len()
        invariant
            i <= chars.len(),
            chars@ == s@,
            forall|k: int| 0 <= k < i ==> !script.holds(#[trigger] chars@[k]),
        decreases chars.len() - i,
    {
        if script.test(chars[i]) {
            return true;
        }
        i += 1;
    }
    false
}

pub trait JapaneseExt {
    /// Returns true if self contains at least one kana character
    fn has_kana(&self) -> bool;

    /// Returns true if self is entirely written in kana
    fn is_kana(&self) -> bool;

    /// Returns true if inp is entirely written with kanji
    fn is_kanji(&self) -> bool;

    /// Returns true if inp has at least one kanji
    fn has_kanji(&self) -> bool;

    /// Returns true if inp is build with kanji and kana only
    fn is_japanese(&self) -> bool;

    /// Returns true if inp contains japanese characters
    fn has_japanese(&self) -> bool;

    /// Returns true if self is written in katakana
    fn is_katakana(&self) -> bool;

    /// Returns true if self is written in hiragana
    fn is_hiragana(&self) -> bool;

    /// Returns the amount of kanji self has
    fn kanji_count(&self) -> usize;

    /// Returns true if self is a (cjk) symbol
    fn is_symbol(&self) -> bool;

    /// Returns true if self is a (cjk) symbol
    fn has_symbol(&self) -> bool;

    fn has_roman_letter(&self) -> bool;

    fn is_roman_letter(&self) -> bool;

    /// Returns true if self is a small katakana letter
    fn is_small_katakana(&self) -> bool;

    /// Returns true if self is a small hiragana letter
    fn is_small_hiragana(&self) -> bool;

    /// Returns true if self is a small hiragana letter
    fn is_small_kana(&self) -> bool;

    fn is_particle(&self) -> bool;
}

impl JapaneseExt for char {
    fn is_katakana(&self) -> (r: bool)
        ensures
            r == Script::Katakana.holds(*self),
    {
        Script::Katakana.test(*self)
    }

    fn is_hiragana(&self) -> (r: bool)
        ensures
            r == Script::Hiragana.holds(*self),
    {
        Script::Hiragana.test(*self)
    }

    fn is_kana(&self) -> (r: bool)
        ensures
            r == Script::Kana.holds(*self),
    {
        self.is_hiragana() || self.is_katakana()
    }

    fn has_roman_letter(&self) -> (r: bool)
        ensures
            r == Script::RomanLetter.holds(*self),
    {
        self.is_roman_letter()
    }

    fn is_roman_letter(&self) -> (r: bool)
        ensures
            r == Script::RomanLetter.holds(*self),
    {
        Script::RomanLetter.test(*self)
    }

    fn is_kanji(&self) -> (r: bool)
        ensures
            r == Script::Kanji.holds(*self),
    {
        Script::Kanji.test(*self)
    }

    fn is_symbol(&self) -> (r: bool)
        ensures
            r == Script::Symbol.holds(*self),
    {
        Script::Symbol.test(*self)
    }

    fn has_symbol(&self) -> (r: bool)
        ensures
            r == Script::Symbol.holds(*self),
    {
        self.is_symbol()
    }

    fn has_kana(&self) -> (r: bool)
        ensures
            r == Script::Kana.holds(*self),
    {
        self.is_kana()
    }

    fn has_kanji(&self) -> (r: bool)
        ensures
            r == Script::Kanji.holds(*self),
    {
        self.is_kanji()
    }

    fn is_japanese(&self) -> (r: bool)
        ensures
            r == Script::Japanese.holds(*self),
    {
        self.is_kana() || self.is_kanji() || self.is_symbol() || self.is_roman_letter()
    }

    fn has_japanese(&self) -> (r: bool)
        ensures
            r == Script::Japanese.holds(*self),
    {
        self.is_japanese()
    }

    fn kanji_count(&self) -> (r: usize)
        ensures
            r == if Script::Kanji.holds(*self) { 1usize } else { 0usize },
    {
        if self.is_kanji() {
            1
        } else {
            0
        }
    }

    fn is_small_hiragana(&self) -> (r: bool)
        ensures
            r == Script::SmallHiragana.holds(*self),
    {
        Script::SmallHiragana.test(*self)
    }

    fn is_small_katakana(&self) -> (r: bool)
        ensures
            r == Script::SmallKatakana.holds(*self),
    {
        Script::SmallKatakana.test(*self)
    }

    fn is_small_kana(&self) -> (r: bool)
        ensures
            r == Script::SmallKana.holds(*self),
    {
        self.is_small_katakana() || self.is_small_hiragana()
    }

    fn is_particle(&self) -> (r: bool)
        ensures
            r == Script::Particle.holds(*self),
    {
        Script::Particle.test(*self)
    }
}

impl JapaneseExt for str {
    fn is_hiragana(&self) -> (r: bool)
        ensures
            r == Script::Hiragana.holds_all(self@),
    {
        all_chars(self, Script::Hiragana)
    }

    fn is_katakana(&self) -> (r: bool)
        ensures
            r == Script::Katakana.holds_all(self@),
    {
        all_chars(self, Script::Katakana)
    }

    fn is_roman_letter(&self) -> (r: bool)
        ensures
            r == Script::RomanLetter.holds_all(self@),
    {
        all_chars(self, Script::RomanLetter)
    }

    fn has_roman_letter(&self) -> (r: bool)
        ensures
            r == Script::RomanLetter.holds_any(self@),
    {
        any_char(self, Script::RomanLetter)
    }

    fn has_kana(&self) -> (r: bool)
        ensures
            r == Script::Kana.holds_any(self@),
    {
        any_char(self, Script::Kana)
    }

    fn has_symbol(&self) -> (r: bool)
        ensures
            r == Script::Symbol.holds_any(self@),
    {
        any_char(self, Script::Symbol)
    }

    fn is_kana(&self) -> (r: bool)
        ensures
            r == Script::Kana.holds_all(self@),
    {
        all_chars(self, Script::Kana)
    }

    fn is_kanji(&self) -> (r: bool)
        ensures
            r == Script::Kanji.holds_all(self@),
    {
        all_chars(self, Script::Kanji)
    }

    fn has_kanji(&self) -> (r: bool)
        ensures
            r == Script::Kanji.holds_any(self@),
    {
        any_char(self, Script::Kanji)
    }

    fn is_japanese(&self) -> (r: bool)
        ensures
            r == Script::Japanese.holds_all(self@),
    {
        all_chars(self, Script::Japanese)
    }

    fn has_japanese(&self) -> (r: bool)
        ensures
            r == Script::Japanese.holds_any(self@),
    {
        any_char(self, Script::Japanese)
    }

    fn kanji_count(&self) -> (r: usize)
        ensures
            r == Script::Kanji.those_of(self@).len(),
    {
        let chars = chars_of(self);
        keep(&chars, Script::Kanji).len()
    }

    fn is_symbol(&self) -> (r: bool)
        ensures
            r == Script::Symbol.holds_all(self@),
    {
        all_chars(self, Script::Symbol)
    }

    fn is_small_katakana(&self) -> (r: bool)
        ensures
            r == Script::SmallKatakana.holds_all(self@),
    {
        all_chars(self, Script::SmallKatakana)
    }

    fn is_small_hiragana(&self) -> (r: bool)
        ensures
            r == Script::SmallHiragana.holds_all(self@),
    {
        all_chars(self, Script::SmallHiragana)
    }

    fn is_small_kana(&self) -> (r: bool)
        ensures
            r == (Script::SmallKatakana.holds_all(self@) || Script::SmallHiragana.holds_all(self@)),
    {
        self.is_small_katakana() || self.is_small_hiragana()
    }

    fn is_particle(&self) -> (r: bool)
        ensures
            r == Script::Particle.holds_all(self@),
    {
        all_chars(self, Script::Particle)
    }
}

} // verus!
