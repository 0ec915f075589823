//! Moving text between `str`, `String` and vectors of characters.

use vstd::prelude::*;

use crate::lex::literal;
use crate::step::Step;

verus! {

/// `String::push` of the standard library: the character goes to the end of the string.
pub assume_specification[ String::push ](s: &mut String, c: char)
    ensures
        final(s)@ == old(s)@.push(c),
;

/// `char::from_u32` of the standard library: the character with the given scalar value, and
/// `None` for the surrogate range and for values above the last scalar.
pub assume_specification[ char::from_u32 ](i: u32) -> (c: Option<char>)
    ensures
        c is Some <==> vstd::utf8::is_scalar(i),
        c is Some ==> c->0 as u32 == i,
;

/// Appends the characters of `text` to `chars`.
pub fn push_chars(chars: &mut Vec<char>, text: &str)
    ensures
        final(chars)@ == old(chars)@ + text@,
{
    let ghost before = chars@;
    for c in it: text.chars()
        invariant
            it.seq() == text@,
            chars@ == before + text@.take(it.index()),
    {
        chars.push(c);
        assert(text@.take(it.index() + 1) == text@.take(it.index()).push(c));
    }
    assert(text@.take(text@.len() as int) == text@);
}

/// Appends `source[from..to]` to `chars`.
pub fn push_range(chars: &mut Vec<char>, source: &Vec<char>, from: usize, to: usize)
    requires
        from <= to <= source@.len(),
    ensures
        final(chars)@ == old(chars)@ + source@.subrange(from as int, to as int),
{
    let ghost before = chars@;
    let mut i: usize = from;
    while i < to
        invariant
            from <= i <= to <= source@.len(),
            chars@ == before + source@.subrange(from as int, i as int),
        decreases to - i,
    {
        chars.push(source[i]);
        assert(source@.subrange(from as int, i + 1) == source@.subrange(from as int, i as int).push(
            source@[i as int],
        ));
        i += 1;
    }
}

/// The characters `chars[from..to]` as a string.
pub fn string_of(chars: &Vec<char>, from: usize, to: usize) -> (text: String)
    requires
        from <= to <= chars@.len(),
    ensures
        text@ == chars@.subrange(from as int, to as int),
{
    let mut text: String = String::new();
    let mut i: usize = from;
    while i < to
        invariant
            from <= i <= to <= chars@.len(),
            text@ == chars@.subrange(from as int, i as int),
        decreases to - i,
    {
        text.push(chars[i]);
        assert(chars@.subrange(from as int, i + 1) == chars@.subrange(from as int, i as int).push(
            chars@[i as int],
        ));
        i += 1;
    }
    text
}

/// Whether two texts are the same.
pub fn same_text(left: &str, right: &str) -> (same: bool)
    ensures
        same == (left@ == right@),
{
    let mut chars: Vec<char> = Vec::new();
    push_chars(&mut chars, left);
    match literal(&chars, 0, right) {
        Step::Done(_, end) => {
            if end == chars.len() {
                assert(left@ == right@);
                true
            } else {
                false
            }
        },
        _ => false,
    }
}

} // verus!
