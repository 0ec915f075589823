//! Lengths in bytes: how much of a text its UTF-8 encoding takes.

use vstd::prelude::*;
use vstd::utf8::{encode_scalar, encode_utf8};

verus! {

/// The number of bytes that encode a text.
#[verifier::opaque]
pub open spec fn byte_len(text: Seq<char>) -> int {
    encode_utf8(text).len() as int
}

/// The number of bytes that encode a character.
pub open spec fn width(c: char) -> int {
    encode_scalar(c as u32).len() as int
}

/// The number of characters at the front of a text that the given number of bytes encodes.
#[verifier::opaque]
pub open spec fn chars_in(text: Seq<char>, bytes: int) -> int
    decreases text.len(),
{
    if bytes <= 0 || text.len() == 0 {
        0
    } else {
        1 + chars_in(text.drop_first(), bytes - width(text[0]))
    }
}

/// The front of a text that the given number of bytes encodes.
pub open spec fn front(text: Seq<char>, bytes: int) -> Seq<char> {
    text.subrange(0, chars_in(text, bytes))
}

/// The given number of bytes ends between two characters of the text or at one of its ends.
pub open spec fn is_boundary(text: Seq<char>, bytes: int) -> bool {
    byte_len(front(text, bytes)) == bytes
}

/// A character takes one to four bytes.
pub proof fn lemma_width(c: char)
    ensures
        width(c) == (if c as u32 <= 0x7F {
            1int
        } else if c as u32 <= 0x7FF {
            2
        } else if c as u32 <= 0xFFFF {
            3
        } else {
            4
        }),
{
}

/// The bytes of a text are those of its first character and those of the rest.
pub proof fn lemma_byte_len_first(text: Seq<char>)
    ensures
        text.len() == 0 ==> byte_len(text) == 0,
        text.len() > 0 ==> byte_len(text) == width(text[0]) + byte_len(text.drop_first()),
{
    reveal(byte_len);
}

/// Every character takes a byte at least.
pub proof fn lemma_byte_len_bound(text: Seq<char>)
    ensures
        text.len() <= byte_len(text),
    decreases text.len(),
{
    lemma_byte_len_first(text);
    if text.len() > 0 {
        lemma_width(text[0]);
        lemma_byte_len_bound(text.drop_first());
    }
}

/// The bytes of two texts in a row add up.
pub proof fn lemma_byte_len_append(first: Seq<char>, second: Seq<char>)
    ensures
        byte_len(first + second) == byte_len(first) + byte_len(second),
    decreases first.len(),
{
    lemma_byte_len_first(first);
    if first.len() == 0 {
        assert(first + second =~= second);
    } else {
        lemma_byte_len_first(first + second);
        assert((first + second).drop_first() =~= first.drop_first() + second);
        lemma_byte_len_append(first.drop_first(), second);
    }
}

/// The bytes of a text are those before a position and those behind it.
pub proof fn lemma_byte_len_split(text: Seq<char>, at: int)
    requires
        0 <= at <= text.len(),
    ensures
        byte_len(text) == byte_len(text.take(at)) + byte_len(text.skip(at)),
        at <= byte_len(text.take(at)),
        text.len() - at <= byte_len(text.skip(at)),
{
    lemma_byte_len_append(text.take(at), text.skip(at));
    assert(text.take(at) + text.skip(at) =~= text);
    lemma_byte_len_bound(text.take(at));
    lemma_byte_len_bound(text.skip(at));
}

/// A part of a text has no more bytes than the text.
pub proof fn lemma_byte_len_part(text: Seq<char>, from: int, to: int)
    requires
        0 <= from <= to <= text.len(),
    ensures
        to - from <= byte_len(text.subrange(from, to)) <= byte_len(text),
{
    lemma_byte_len_split(text, to);
    lemma_byte_len_split(text.take(to), from);
    assert(text.take(to).skip(from) =~= text.subrange(from, to));
    lemma_byte_len_bound(text.subrange(from, to));
}

/// The bytes in front of a position lead back to it.
pub broadcast proof fn lemma_chars_in(text: Seq<char>, at: int)
    requires
        0 <= at <= text.len(),
    ensures
        #[trigger] chars_in(text, byte_len(text.subrange(0, at))) == at,
    decreases at,
{
    reveal_with_fuel(chars_in, 2);
    let part = text.subrange(0, at);
    lemma_byte_len_first(part);
    if at > 0 {
        let rest = text.drop_first();
        assert(part.drop_first() =~= rest.subrange(0, at - 1));
        lemma_width(text[0]);
        lemma_byte_len_bound(part.drop_first());
        lemma_chars_in(rest, at - 1);
    }
}

/// The characters that some bytes hold are characters of the text.
pub proof fn lemma_chars_in_bounds(text: Seq<char>, bytes: int)
    ensures
        0 <= chars_in(text, bytes) <= text.len(),
    decreases text.len(),
{
    reveal_with_fuel(chars_in, 2);
    if bytes > 0 && text.len() > 0 {
        lemma_chars_in_bounds(text.drop_first(), bytes - width(text[0]));
    }
}

/// The number of bytes that encode a character.
pub fn char_width(c: char) -> (bytes: usize)
    ensures
        bytes == width(c),
{
    proof {
        lemma_width(c);
    }
    let scalar: u32 = c as u32;
    if scalar <= 0x7F {
        1
    } else if scalar <= 0x7FF {
        2
    } else if scalar <= 0xFFFF {
        3
    } else {
        4
    }
}

/// The number of bytes that encode a text.
pub fn text_bytes(text: &str) -> (bytes: usize)
    ensures
        bytes == byte_len(text@),
{
    reveal(byte_len);
    text.as_bytes().len()
}

/// The number of bytes that encode `chars[from..to]`.
pub fn byte_count(chars: &Vec<char>, from: usize, to: usize) -> (bytes: usize)
    requires
        from <= to <= chars@.len(),
        byte_len(chars@.subrange(from as int, to as int)) <= usize::MAX,
    ensures
        bytes == byte_len(chars@.subrange(from as int, to as int)),
{
    let ghost text = chars@.subrange(from as int, to as int);
    let mut bytes: usize = 0;
    let mut i: usize = from;
    proof {
        lemma_byte_len_first(text.take(0));
    }
    while i < to
        invariant
            from <= i <= to <= chars@.len(),
            text == chars@.subrange(from as int, to as int),
            byte_len(text) <= usize::MAX,
            bytes == byte_len(text.take(i - from)),
        decreases to - i,
    {
        proof {
            let done = text.take(i - from);
            let more = text.take(i - from + 1);
            assert(more =~= done + seq![chars@[i as int]]);
            lemma_byte_len_append(done, seq![chars@[i as int]]);
            lemma_byte_len_first(seq![chars@[i as int]]);
            lemma_byte_len_first(seq![chars@[i as int]].drop_first());
            lemma_byte_len_split(text, i - from + 1);
        }
        bytes += char_width(chars[i]);
        i += 1;
    }
    assert(text.take(i - from) == text);
    bytes
}

/// The number of characters at the front of `chars` that the given number of bytes encodes.
pub fn char_count(chars: &Vec<char>, bytes: usize) -> (count: usize)
    ensures
        count == chars_in(chars@, bytes as int),
{
    let mut left: usize = bytes;
    let mut count: usize = 0;
    assert(chars@.skip(0) == chars@);
    while left > 0 && count < chars.len()
        invariant
            count <= chars@.len(),
            chars_in(chars@, bytes as int) == count + chars_in(
                chars@.skip(count as int),
                left as int,
            ),
        decreases chars@.len() - count,
    {
        let taken: usize = char_width(chars[count]);
        proof {
            reveal_with_fuel(chars_in, 2);
            let rest = chars@.skip(count as int);
            assert(rest.drop_first() =~= chars@.skip(count + 1));
            assert(rest[0] == chars@[count as int]);
        }
        left = if taken <= left {
            left - taken
        } else {
            0
        };
        count += 1;
    }
    proof {
        reveal_with_fuel(chars_in, 2);
    }
    count
}

} // verus!
