//! String helpers for the built-in functions.
use vstd::prelude::*;
use vstd::string::*;

verus! {

/// What `char::to_uppercase` yields for a character.
pub uninterp spec fn upper_of(c: char) -> Seq<char>;

/// The string with its first character in upper case and the rest unchanged.
pub open spec fn capitalised(s: Seq<char>) -> Seq<char> {
    if s.len() == 0 {
        s
    } else {
        upper_of(s[0]) + s.drop_first()
    }
}

/// Relies on `char::to_uppercase`, collected into a string; for an ASCII
/// lower-case letter that is its upper-case letter alone.
#[verifier::external_body]
fn upper_char(c: char) -> (r: String)
    ensures
        r@ == upper_of(c),
        'a' <= c <= 'z' ==> r@ == seq![((c as u32) - 32) as char],
{
    c.to_uppercase().collect()
}

/// Relies on `String::push`: the character is added at the end.
#[verifier::external_body]
pub(crate) fn push_char(s: &mut String, c: char)
    ensures
        final(s)@ == old(s)@.push(c),
{
    s.push(c)
}

pub fn capitalise_first(s: &str) -> (r: String)
    ensures
        r@ == capitalised(s@),
        s@.len() > 0 && 'a' <= s@[0] <= 'z' ==> r@ == seq![((s@[0] as u32) - 32) as char] + s@.drop_first(),
{
    let chars = crate::eval::chars_of(s);
    if chars.len() == 0 {
        return String::new();
    }
    let mut out = upper_char(chars[0]);
    let mut i: usize = 1;
    while i < chars.len()
        invariant
            chars@ == s@,
            1 <= i <= chars@.len(),
            out@ == upper_of(s@[0]) + s@.subrange(1, i as int),
        decreases chars@.len() - i,
    {
        push_char(&mut out, chars[i]);
        i = i + 1;
        assert(out@ =~= upper_of(s@[0]) + s@.subrange(1, i as int));
    }
    assert(s@.subrange(1, s@.len() as int) =~= s@.drop_first());
    out
}

} // verus!
