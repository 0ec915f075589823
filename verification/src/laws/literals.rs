//! JSON string literals: every text has one, and it is read wherever it stands.

use vstd::prelude::*;

use crate::laws::chunking::lemma_agrees_shift;
use crate::lex::literal_step;
use crate::step::StepView;
use crate::string::{
    hex_digits, hex_number, hex_step, hex_value, is_high_surrogate, json_str_step,
    lemma_string_char_bounds, pair_char, string_char_step, string_rest_step, unicode_step,
};

verus! {

/// `c` is a hexadecimal digit, in either case, for the number `n`.
pub open spec fn is_digit(c: char, n: int) -> bool {
    ||| 0 <= n <= 9 && c as int == '0' as int + n
    ||| 10 <= n <= 15 && (c as int == 'a' as int + n - 10 || c as int == 'A' as int + n - 10)
}

/// `part` is a `\u` escape: its four digits write the number `unit`.
pub open spec fn is_unit(part: Seq<char>, unit: int) -> bool {
    &&& part.len() == 6
    &&& part[0] == '\\'
    &&& part[1] == 'u'
    &&& exists|a: int, b: int, c: int, d: int|
        #![trigger is_digit(part[2], a), is_digit(part[3], b), is_digit(part[4], c), is_digit(part[5], d)]
        {
            &&& is_digit(part[2], a)
            &&& is_digit(part[3], b)
            &&& is_digit(part[4], c)
            &&& is_digit(part[5], d)
            &&& unit == 4096 * a + 256 * b + 16 * c + d
        }
}

/// The character `e` behind a backslash stands for `c`.
pub open spec fn is_short(e: char, c: char) -> bool {
    ||| e == '"' && c == '"'
    ||| e == '\\' && c == '\\'
    ||| e == '/' && c == '/'
    ||| e == 'b' && c as int == 8
    ||| e == 'f' && c as int == 12
    ||| e == 'n' && c as int == 10
    ||| e == 'r' && c as int == 13
    ||| e == 't' && c as int == 9
}

/// `part` is a way to write the character `c` inside a JSON string literal: the character itself,
/// where it is neither a control character nor a quote or a backslash; a backslash and a letter;
/// the number of the character in four hexadecimal digits; or, for a number that takes more of
/// them, the two halves of its surrogate pair.
pub open spec fn spells(part: Seq<char>, c: char) -> bool {
    ||| part == seq![c] && 32 <= c as int && c != '"' && c != '\\'
    ||| part.len() == 2 && part[0] == '\\' && is_short(part[1], c)
    ||| is_unit(part, c as int)
    ||| exists|high: int, low: int|
        #![trigger is_unit(part.take(6), high), is_unit(part.skip(6), low)]
        {
            &&& part.len() == 12
            &&& is_unit(part.take(6), high)
            &&& is_unit(part.skip(6), low)
            &&& 0xD800 <= high < 0xDC00
            &&& 0xDC00 <= low < 0xE000
            &&& c as int == 0x10000 + 1024 * (high - 0xD800) + (low - 0xDC00)
        }
}

/// `inner` is made up of one part for each character of `text`.
pub open spec fn spelled(inner: Seq<char>, text: Seq<char>) -> bool
    decreases text.len(),
{
    if text.len() == 0 {
        inner.len() == 0
    } else {
        exists|k: int|
            0 < k <= inner.len() && #[trigger] spells(inner.take(k), text[0]) && spelled(
                inner.skip(k),
                text.drop_first(),
            )
    }
}

/// `literal` is a JSON string literal for `text`.
#[verifier::opaque]
pub open spec fn denotes(literal: Seq<char>, text: Seq<char>) -> bool {
    &&& literal.len() >= 2
    &&& literal[0] == '"'
    &&& literal.last() == '"'
    &&& spelled(literal.subrange(1, literal.len() - 1), text)
}

/// A digit has the value that the reader gives it.
proof fn lemma_digit(c: char, n: int)
    ensures
        is_digit(c, n) == (hex_value(c) == Some(n as u32) && 0 <= n < 16),
{
}

/// A `\u` escape is read as the number that it writes.
proof fn lemma_unit_read(s: Seq<char>, at: int, part: Seq<char>, unit: int)
    requires
        holds(s, at, part),
        is_unit(part, unit),
    ensures
        s[at] == '\\',
        s[at + 1] == 'u',
        hex_step(s, at + 2) == StepView::Done(unit, at + 6),
        0 <= unit < 0x10000,
{
    assert forall|i: int| 0 <= i < 6 implies s[at + i] == part[i] by {
        assert(s.subrange(at, at + 6)[i] == s[at + i]);
    }
    assert(s[at + 0] == part[0]);
    let (a, b, c, d) = choose|a: int, b: int, c: int, d: int|
        #![trigger is_digit(part[2], a), is_digit(part[3], b), is_digit(part[4], c), is_digit(part[5], d)]
        {
            &&& is_digit(part[2], a)
            &&& is_digit(part[3], b)
            &&& is_digit(part[4], c)
            &&& is_digit(part[5], d)
            &&& unit == 4096 * a + 256 * b + 16 * c + d
        };
    lemma_digit(part[2], a);
    lemma_digit(part[3], b);
    lemma_digit(part[4], c);
    lemma_digit(part[5], d);
    assert(s[at + 2] == part[2] && s[at + 3] == part[3]);
    assert(s[at + 4] == part[4] && s[at + 5] == part[5]);
    assert(hex_digits(s, at + 2));
    assert(hex_number(s, at + 2) == unit);
}

/// What the reader takes for a `\u` escape is one.
proof fn lemma_unit_sound(s: Seq<char>, at: int)
    requires
        0 <= at,
        at + 1 < s.len(),
        s[at] == '\\',
        s[at + 1] == 'u',
        hex_step(s, at + 2) is Done,
    ensures
        at + 6 <= s.len(),
        is_unit(s.subrange(at, at + 6), hex_number(s, at + 2)),
        0 <= hex_number(s, at + 2) < 0x10000,
{
    let part = s.subrange(at, at + 6);
    assert(part[0] == s[at] && part[1] == s[at + 1] && part[2] == s[at + 2] && part[3] == s[at + 3]);
    assert(part[4] == s[at + 4] && part[5] == s[at + 5]);
    assert(hex_value(s[at + 2]) is Some && hex_value(s[at + 3]) is Some);
    assert(hex_value(s[at + 4]) is Some && hex_value(s[at + 5]) is Some);
    let a = hex_value(s[at + 2])->0 as int;
    let b = hex_value(s[at + 3])->0 as int;
    let c = hex_value(s[at + 4])->0 as int;
    let d = hex_value(s[at + 5])->0 as int;
    lemma_digit(part[2], a);
    lemma_digit(part[3], b);
    lemma_digit(part[4], c);
    lemma_digit(part[5], d);
    assert(is_digit(part[2], a) && is_digit(part[3], b) && is_digit(part[4], c) && is_digit(
        part[5],
        d,
    ));
}

/// A way to write a character is read as the character.
proof fn lemma_spells_read(s: Seq<char>, at: int, part: Seq<char>, c: char)
    requires
        holds(s, at, part),
        spells(part, c),
    ensures
        part.len() > 0,
        s[at] != '"',
        string_char_step(s, at) == StepView::Done(c, at + part.len()),
{
    let all = s.subrange(at, at + part.len());
    if part == seq![c] && 32 <= c as int && c != '"' && c != '\\' {
        assert(all[0] == s[at]);
    } else if part.len() == 2 && part[0] == '\\' && is_short(part[1], c) {
        assert(all[0] == s[at]);
        assert(all[1] == s[at + 1]);
    } else if is_unit(part, c as int) {
        lemma_unit_read(s, at, part, c as int);
        assert(c as int as u32 as char == c);
    } else {
        let (high, low) = choose|high: int, low: int|
            #![trigger is_unit(part.take(6), high), is_unit(part.skip(6), low)]
            {
                &&& part.len() == 12
                &&& is_unit(part.take(6), high)
                &&& is_unit(part.skip(6), low)
                &&& 0xD800 <= high < 0xDC00
                &&& 0xDC00 <= low < 0xE000
                &&& c as int == 0x10000 + 1024 * (high - 0xD800) + (low - 0xDC00)
            };
        assert(part =~= part.take(6) + part.skip(6));
        lemma_holds_append(s, at, part.take(6), part.skip(6));
        lemma_unit_read(s, at, part.take(6), high);
        lemma_unit_read(s, at + 6, part.skip(6), low);
        reveal_strlit("\\u");
        assert(literal_step(s, at + 6, "\\u"@) == StepView::Done((), at + 8));
        assert(pair_char(high, low) == c);
    }
}

/// What the reader takes for a character is a way to write it.
proof fn lemma_spells_sound(s: Seq<char>, at: int)
    requires
        0 <= at < s.len(),
        s[at] != '"',
    ensures
        string_char_step(s, at) matches StepView::Done(c, next) ==> {
            &&& at < next <= s.len()
            &&& spells(s.subrange(at, next), c)
        },
{
    if let StepView::Done(c, next) = string_char_step(s, at) {
        let part = s.subrange(at, next);
        if s[at] != '\\' {
            assert(part =~= seq![c]);
        } else if s[at + 1] != 'u' {
            assert(part[0] == s[at] && part[1] == s[at + 1]);
            assert(is_short(part[1], c));
        } else {
            lemma_unit_sound(s, at);
            let unit = hex_number(s, at + 2);
            if is_high_surrogate(unit) {
                reveal_strlit("\\u");
                assert(s[at + 6 + 0] == "\\u"@[0]);
                assert(s[at + 6 + 1] == "\\u"@[1]);
                lemma_unit_sound(s, at + 6);
                let low = hex_number(s, at + 8);
                assert(part.take(6) =~= s.subrange(at, at + 6));
                assert(part.skip(6) =~= s.subrange(at + 6, at + 12));
                assert(is_unit(part.take(6), unit) && is_unit(part.skip(6), low));
                assert(c as int == 0x10000 + 1024 * (unit - 0xD800) + (low - 0xDC00));
            } else {
                assert(c as int == unit);
                assert(is_unit(part, c as int));
            }
        }
    }
}

/// A text that is written down is read up to the quote behind it.
proof fn lemma_spelled_read(s: Seq<char>, at: int, inner: Seq<char>, text: Seq<char>)
    requires
        holds(s, at, inner),
        at + inner.len() < s.len(),
        s[at + inner.len()] == '"',
        spelled(inner, text),
    ensures
        string_rest_step(s, at) == StepView::Done(text, at + inner.len() + 1),
    decreases text.len(),
{
    if text.len() == 0 {
        assert(text =~= Seq::empty());
    } else {
        let k = choose|k: int|
            0 < k <= inner.len() && #[trigger] spells(inner.take(k), text[0]) && spelled(
                inner.skip(k),
                text.drop_first(),
            );
        assert(inner =~= inner.take(k) + inner.skip(k));
        lemma_holds_append(s, at, inner.take(k), inner.skip(k));
        lemma_spells_read(s, at, inner.take(k), text[0]);
        lemma_spelled_read(s, at + k, inner.skip(k), text.drop_first());
        assert(seq![text[0]] + text.drop_first() =~= text);
    }
}

/// What is read up to a quote is a way to write the text.
proof fn lemma_spelled_sound(s: Seq<char>, at: int)
    requires
        0 <= at <= s.len(),
    ensures
        string_rest_step(s, at) matches StepView::Done(text, end) ==> {
            &&& at < end <= s.len()
            &&& s[end - 1] == '"'
            &&& spelled(s.subrange(at, end - 1), text)
        },
    decreases s.len() - at,
{
    if let StepView::Done(text, end) = string_rest_step(s, at) {
        if at < s.len() && s[at] != '"' {
            lemma_spells_sound(s, at);
            if let StepView::Done(c, next) = string_char_step(s, at) {
                lemma_spelled_sound(s, next);
                let inner = s.subrange(at, end - 1);
                assert(text.drop_first() =~= string_rest_step(s, next)->Done_0);
                assert(inner.take(next - at) =~= s.subrange(at, next));
                assert(inner.skip(next - at) =~= s.subrange(next, end - 1));
                assert(spells(inner.take(next - at), text[0]));
            }
        }
    }
}

/// A JSON string literal is read as the text that it stands for, wherever it is and whatever way
/// its characters are written; and what is read as a text is a literal for it.
pub proof fn law_string(s: Seq<char>, at: int, text: Seq<char>, next: int)
    requires
        0 <= at <= s.len(),
    ensures
        json_str_step(s, at) == StepView::Done(text, next) <==> {
            &&& at <= next <= s.len()
            &&& denotes(s.subrange(at, next), text)
        },
{
    reveal(denotes);
    reveal_strlit("\"");
    if at <= next <= s.len() && denotes(s.subrange(at, next), text) {
        lemma_literal_read(s, at, s.subrange(at, next), text);
    }
    if json_str_step(s, at) == StepView::Done(text, next) {
        assert(s[at + 0] == "\""@[0]);
        lemma_spelled_sound(s, at + 1);
        let literal = s.subrange(at, next);
        assert(literal.subrange(1, literal.len() - 1) =~= s.subrange(at + 1, next - 1));
    }
}

/// A `\u` escape of four hexadecimal digits, in either case, stands for the character with that
/// number, and the escapes of a surrogate pair for the character of the pair.
pub proof fn law_escapes(c: char, part: Seq<char>)
    requires
        is_unit(part, c as int) || exists|high: int, low: int|
            #![trigger is_unit(part.take(6), high), is_unit(part.skip(6), low)]
            {
                &&& part.len() == 12
                &&& is_unit(part.take(6), high)
                &&& is_unit(part.skip(6), low)
                &&& 0xD800 <= high < 0xDC00
                &&& 0xDC00 <= low < 0xE000
                &&& c as int == 0x10000 + 1024 * (high - 0xD800) + (low - 0xDC00)
            },
    ensures
        json_str_step(seq!['"'] + part + seq!['"'], 0) == StepView::Done(
            seq![c],
            part.len() as int + 2,
        ),
{
    reveal(denotes);
    let literal = seq!['"'] + part + seq!['"'];
    let inner = literal.subrange(1, literal.len() - 1);
    assert(inner =~= part);
    assert(seq![c].drop_first() =~= Seq::empty());
    assert(part.take(part.len() as int) =~= part);
    lemma_spells_read(part, 0, part, c);
    assert(inner.take(inner.len() as int) =~= inner);
    assert(spelled(inner.skip(inner.len() as int), seq![c].drop_first()));
    assert(spells(inner.take(inner.len() as int), seq![c][0]));
    assert(literal.subrange(0, literal.len() as int) =~= literal);
    law_string(literal, 0, seq![c], literal.len() as int);
}

/// The hexadecimal digit of a number below 16.
pub open spec fn hex_char(value: int) -> char {
    if value < 10 {
        ('0' as u32 + value) as u32 as char
    } else {
        ('a' as u32 + (value - 10)) as u32 as char
    }
}

/// A character inside a string literal: escaped where it has to be.
pub open spec fn escaped_char(c: char) -> Seq<char> {
    if c == '"' || c == '\\' {
        seq!['\\', c]
    } else if c <= '\u{1f}' {
        seq!['\\', 'u', '0', '0', hex_char(c as int / 16), hex_char(c as int % 16)]
    } else {
        seq![c]
    }
}

/// A text inside a string literal.
pub open spec fn escaped(text: Seq<char>) -> Seq<char>
    decreases text.len(),
{
    if text.len() == 0 {
        Seq::empty()
    } else {
        escaped_char(text[0]) + escaped(text.drop_first())
    }
}

/// The string literal of a text.
pub open spec fn quoted(text: Seq<char>) -> Seq<char> {
    seq!['"'] + escaped(text) + seq!['"']
}

/// The digit of a number has the number as its value.
pub proof fn lemma_hex_char(value: int)
    requires
        0 <= value < 16,
    ensures
        hex_value(hex_char(value)) == Some(value as u32),
{
    if value < 10 {
        assert(hex_char(value) as u32 == '0' as u32 + value);
    } else {
        assert(hex_char(value) as u32 == 'a' as u32 + (value - 10));
    }
}

/// An escaped character is read as the character.
proof fn lemma_escaped_char(s: Seq<char>, at: int, c: char)
    requires
        0 <= at,
        at + escaped_char(c).len() <= s.len(),
        s.subrange(at, at + escaped_char(c).len()) == escaped_char(c),
    ensures
        string_char_step(s, at) == StepView::Done(c, at + escaped_char(c).len()),
        s[at] != '"',
{
    let part = escaped_char(c);
    assert forall|i: int| 0 <= i < part.len() implies s[at + i] == part[i] by {
        assert(s.subrange(at, at + part.len())[i] == s[at + i]);
    }
    assert(s[at + 0] == part[0]);
    if c == '"' || c == '\\' {
        assert(s[at + 1] == c);
    } else if c <= '\u{1f}' {
        let value = c as int;
        lemma_hex_char(value / 16);
        lemma_hex_char(value % 16);
        lemma_hex_char(0);
        assert(hex_char(0) == '0');
        assert(s[at + 1] == 'u' && s[at + 2] == '0' && s[at + 3] == '0');
        assert(s[at + 4] == hex_char(value / 16) && s[at + 5] == hex_char(value % 16));
        assert(hex_digits(s, at + 2));
        assert(hex_number(s, at + 2) == value);
        assert(value as u32 as char == c);
    }
}

/// An escaped text is read up to the quote behind it.
proof fn lemma_escaped_rest(s: Seq<char>, at: int, text: Seq<char>)
    requires
        0 <= at,
        at + escaped(text).len() < s.len(),
        s.subrange(at, at + escaped(text).len()) == escaped(text),
        s[at + escaped(text).len()] == '"',
    ensures
        string_rest_step(s, at) == StepView::Done(text, at + escaped(text).len() + 1),
    decreases text.len(),
{
    if text.len() == 0 {
        assert(text =~= Seq::empty());
    } else {
        let head = escaped_char(text[0]);
        let tail = escaped(text.drop_first());
        let all = s.subrange(at, at + escaped(text).len());
        assert(s.subrange(at, at + head.len()) =~= head) by {
            assert(all.take(head.len() as int) == head);
        }
        assert(s.subrange(at + head.len(), at + head.len() + tail.len()) =~= tail) by {
            assert(all.skip(head.len() as int) == tail);
        }
        lemma_escaped_char(s, at, text[0]);
        lemma_escaped_rest(s, at + head.len(), text.drop_first());
        assert(seq![text[0]] + text.drop_first() == text);
    }
}

/// Every text has a string literal, and reading it gives the text back.
pub proof fn law_quoted(text: Seq<char>)
    ensures
        denotes(quoted(text), text),
{
    reveal(denotes);
    let s = quoted(text);
    let inner = escaped(text);
    reveal_strlit("\"");
    assert(s[0] == '"');
    assert(s.subrange(1, 1int + inner.len()) =~= inner);
    lemma_escaped_rest(s, 1, text);
    assert(s.subrange(0, s.len() as int) =~= s);
    law_string(s, 0, text, s.len() as int);
}

/// A string literal is read in the rest of an input as in the input.
pub proof fn law_string_anywhere(s: Seq<char>, from: int, at: int)
    requires
        0 <= from <= s.len(),
        0 <= at,
    ensures
        json_str_step(s, from + at) == shifted(json_str_step(s.skip(from), at), from),
{
    lemma_json_str_shift(s, from, at);
}

/// The same outcome, `by` positions further on.
pub open spec fn shifted<T>(step: StepView<T>, by: int) -> StepView<T> {
    match step {
        StepView::Done(value, next) => StepView::Done(value, next + by),
        step => step,
    }
}

/// A fixed text is read in the rest of an input as in the input.
pub proof fn lemma_literal_shift(s: Seq<char>, from: int, at: int, literal: Seq<char>)
    requires
        0 <= from <= s.len(),
        0 <= at,
    ensures
        literal_step(s, from + at, literal) == shifted(
            literal_step(s.skip(from), at, literal),
            from,
        ),
{
    lemma_agrees_shift(s, from, at, literal);
}

/// So are digits.
proof fn lemma_hex_shift(s: Seq<char>, from: int, at: int)
    requires
        0 <= from <= s.len(),
        0 <= at,
    ensures
        hex_step(s, from + at) == shifted(hex_step(s.skip(from), at), from),
{
    let rest = s.skip(from);
    assert(hex_digits(rest, at) == hex_digits(s, from + at)) by {
        if hex_digits(rest, at) {
            assert forall|k: int| from + at <= k < from + at + 4 && k < s.len() implies hex_value(
                #[trigger] s[k],
            ) is Some by {
                assert(rest[k - from] == s[k]);
            }
        }
        if hex_digits(s, from + at) {
            assert forall|k: int| at <= k < at + 4 && k < rest.len() implies hex_value(
                #[trigger] rest[k],
            ) is Some by {
                assert(rest[k] == s[from + k]);
            }
        }
    }
}

/// So is a `\u` escape.
proof fn lemma_unicode_shift(s: Seq<char>, from: int, at: int)
    requires
        0 <= from <= s.len(),
        0 <= at,
    ensures
        unicode_step(s, from + at) == shifted(unicode_step(s.skip(from), at), from),
{
    let rest = s.skip(from);
    lemma_hex_shift(s, from, at);
    if let StepView::Done(_, next) = hex_step(rest, at) {
        assert(next == at + 4);
        lemma_literal_shift(s, from, next, "\\u"@);
        if let StepView::Done(_, second) = literal_step(rest, next, "\\u"@) {
            lemma_hex_shift(s, from, second);
            assert(hex_step(s, from + second) == shifted(hex_step(rest, second), from));
        }
    }
}

/// So is a character of a string literal.
proof fn lemma_string_char_shift(s: Seq<char>, from: int, at: int)
    requires
        0 <= from <= s.len(),
        0 <= at,
    ensures
        string_char_step(s, from + at) == shifted(string_char_step(s.skip(from), at), from),
{
    let rest = s.skip(from);
    assert(from + at >= s.len() <==> at >= rest.len());
    if at < rest.len() && rest[at] == '\\' && at + 1 < rest.len() && rest[at + 1] == 'u' {
        lemma_unicode_shift(s, from, at + 2);
    }
}

/// So is the rest of a string literal.
#[verifier::spinoff_prover]
#[verifier::rlimit(50)]
proof fn lemma_string_rest_shift(s: Seq<char>, from: int, at: int)
    requires
        0 <= from <= s.len(),
        0 <= at,
    ensures
        string_rest_step(s, from + at) == shifted(string_rest_step(s.skip(from), at), from),
    decreases s.len() - from - at,
{
    let rest = s.skip(from);
    if at < rest.len() && rest[at] != '"' {
        lemma_string_char_shift(s, from, at);
        lemma_string_char_bounds(rest, at);
        if let StepView::Done(_, next) = string_char_step(rest, at) {
            lemma_string_rest_shift(s, from, next);
        }
    }
}

/// So is a string literal.
proof fn lemma_json_str_shift(s: Seq<char>, from: int, at: int)
    requires
        0 <= from <= s.len(),
        0 <= at,
    ensures
        json_str_step(s, from + at) == shifted(json_str_step(s.skip(from), at), from),
{
    lemma_literal_shift(s, from, at, "\""@);
    if let StepView::Done(_, next) = literal_step(s.skip(from), at, "\""@) {
        lemma_string_rest_shift(s, from, next);
    }
}

/// The input holds `part` at position `at`.
pub open spec fn holds(s: Seq<char>, at: int, part: Seq<char>) -> bool {
    &&& 0 <= at
    &&& at + part.len() <= s.len()
    &&& s.subrange(at, at + part.len()) == part
}

/// Two parts in a row are held one behind the other.
pub proof fn lemma_holds_append(s: Seq<char>, at: int, first: Seq<char>, second: Seq<char>)
    ensures
        holds(s, at, first + second) == (holds(s, at, first) && holds(s, at + first.len(), second)),
{
    let both = first + second;
    if holds(s, at, both) {
        let all = s.subrange(at, at + both.len());
        assert(s.subrange(at, at + first.len()) =~= first) by {
            assert(all.take(first.len() as int) == first);
        }
        assert(s.subrange(at + first.len(), at + first.len() + second.len()) =~= second) by {
            assert(all.skip(first.len() as int) == second);
        }
    }
    if holds(s, at, first) && holds(s, at + first.len(), second) {
        assert(s.subrange(at, at + both.len()) =~= both) by {
            assert(s.subrange(at, at + both.len()) =~= s.subrange(at, at + first.len())
                + s.subrange(at + first.len(), at + first.len() + second.len()));
        }
    }
}

/// A string literal is read wherever the input holds it, and starts with a quote.
pub proof fn lemma_literal_read(s: Seq<char>, at: int, literal: Seq<char>, text: Seq<char>)
    requires
        denotes(literal, text),
        holds(s, at, literal),
    ensures
        json_str_step(s, at) == StepView::Done(text, at + literal.len()),
        literal.len() > 0,
        literal[0] == '"',
        s[at] == '"',
{
    reveal(denotes);
    let inner = literal.subrange(1, literal.len() - 1);
    let last = at + literal.len() - 1;
    assert(s.subrange(at, at + literal.len())[0] == s[at]);
    assert(s.subrange(at, at + literal.len())[literal.len() - 1] == s[last]);
    assert(s.subrange(at + 1, last) =~= inner) by {
        assert(s.subrange(at, at + literal.len()).subrange(1, literal.len() - 1) =~= s.subrange(
            at + 1,
            last,
        ));
    }
    reveal_strlit("\"");
    lemma_spelled_read(s, at + 1, inner, text);
}

} // verus!
