//! The lines that the commands print.
use vstd::prelude::*;
use vstd::string::StringExecFns;

verus! {

/// `String::push` of std appends one character to the text.
pub assume_specification[ String::push ](s: &mut String, c: char)
    ensures
        final(s)@ == old(s)@.push(c),
;

/// The characters `chars` with a comma between each two of them.
pub open spec fn comma_joined(chars: Seq<char>) -> Seq<char>
    decreases chars.len(),
{
    if chars.len() == 0 {
        Seq::empty()
    } else if chars.len() == 1 {
        seq![chars[0]]
    } else {
        comma_joined(chars.drop_last()) + seq![',', chars.last()]
    }
}

/// The characters `chars` one after the other, or with a comma between
/// each two of them.
pub open spec fn listed(chars: Seq<char>, separated: bool) -> Seq<char> {
    if separated {
        comma_joined(chars)
    } else {
        chars
    }
}

/// Writes the characters one after the other, with a comma between each
/// two of them if `separated` is set.
pub fn list_chars(chars: &Vec<char>, separated: bool) -> (r: String)
    ensures
        r@ == listed(chars@, separated),
{
    let mut out = String::new();
    let mut i: usize = 0;
    while i < chars.len()
        invariant
            i <= chars.len(),
            out@ == listed(chars@.take(i as int), separated),
        decreases chars.len() - i,
    {
        proof {
            assert(chars@.take(i + 1).drop_last() == chars@.take(i as int));
            assert(chars@.take(i + 1).last() == chars@[i as int]);
            if i == 0 {
                assert(chars@.take(1)[0] == chars@[0]);
                assert(chars@.take(1) =~= seq![chars@[0]]);
            }
        }
        let ghost before = out@;
        if i > 0 && separated {
            out.push(',');
        }
        out.push(chars[i]);
        proof {
            if separated && i > 0 {
                assert(out@ =~= before + seq![',', chars@[i as int]]);
            } else if !separated {
                assert(out@ =~= chars@.take(i as int).push(chars@[i as int]));
                assert(chars@.take(i + 1) =~= chars@.take(i as int).push(chars@[i as int]));
            } else {
                assert(before =~= Seq::<char>::empty());
                assert(out@ =~= seq![chars@[0]]);
            }
        }
        i += 1;
    }
    proof {
        assert(chars@.take(chars.len() as int) == chars@);
    }
    out
}

/// Writes the characters with a comma between each two of them.
pub fn join_with_commas(chars: &Vec<char>) -> (r: String)
    ensures
        r@ == comma_joined(chars@),
{
    list_chars(chars, true)
}

/// What a command reports: `done` and the characters it worked on, with
/// commas; or `nothing` where there are none.
pub open spec fn report(done: Seq<char>, nothing: Seq<char>, chars: Seq<char>) -> Seq<char> {
    if chars.len() > 0 {
        done + seq![' '] + comma_joined(chars)
    } else {
        nothing
    }
}

/// Writes what a command reports, see [`report`].
pub fn write_report(done: &str, nothing: &str, chars: &Vec<char>) -> (r: String)
    ensures
        r@ == report(done@, nothing@, chars@),
{
    if chars.len() > 0 {
        let mut out = String::from_str(done);
        out.push(' ');
        let list = join_with_commas(chars);
        out.append(list.as_str());
        out
    } else {
        String::from_str(nothing)
    }
}

} // verus!
