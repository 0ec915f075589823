//! JSON string literals.

use vstd::prelude::*;

use crate::lex::{literal, literal_step};
use crate::step::{Step, StepView, SyntaxError, bare_error};

verus! {

/// The value of a hexadecimal digit.
pub open spec fn hex_value(c: char) -> Option<u32> {
    if '0' <= c <= '9' {
        Some((c as u32 - '0' as u32) as u32)
    } else if 'a' <= c <= 'f' {
        Some((c as u32 - 'a' as u32 + 10) as u32)
    } else if 'A' <= c <= 'F' {
        Some((c as u32 - 'A' as u32 + 10) as u32)
    } else {
        None
    }
}

/// As far as the input goes, the four characters from `at` on are hexadecimal digits.
pub open spec fn hex_digits(s: Seq<char>, at: int) -> bool {
    forall|k: int| at <= k < at + 4 && k < s.len() ==> hex_value(#[trigger] s[k]) is Some
}

/// The number that four hexadecimal digits write.
pub open spec fn hex_number(s: Seq<char>, at: int) -> int {
    hex_value(s[at])->0 * 0x1000 + hex_value(s[at + 1])->0 * 0x100 + hex_value(s[at + 2])->0 * 0x10
        + hex_value(s[at + 3])->0
}

/// Reading four hexadecimal digits.
pub open spec fn hex_step(s: Seq<char>, at: int) -> StepView<int> {
    if !hex_digits(s, at) {
        StepView::Failed(bare_error())
    } else if at + 4 > s.len() {
        StepView::Incomplete
    } else {
        StepView::Done(hex_number(s, at), at + 4)
    }
}

/// The character that a two-character escape stands for, by its second character.
pub open spec fn short_escape(c: char) -> Option<char> {
    if c == '"' || c == '\\' || c == '/' {
        Some(c)
    } else if c == 'b' {
        Some('\u{8}')
    } else if c == 'f' {
        Some('\u{c}')
    } else if c == 'n' {
        Some('\n')
    } else if c == 'r' {
        Some('\r')
    } else if c == 't' {
        Some('\t')
    } else {
        None
    }
}

/// The first half of a surrogate pair.
pub open spec fn is_high_surrogate(unit: int) -> bool {
    0xD800 <= unit < 0xDC00
}

/// The second half of a surrogate pair.
pub open spec fn is_low_surrogate(unit: int) -> bool {
    0xDC00 <= unit < 0xE000
}

/// The character that a surrogate pair stands for.
pub open spec fn pair_char(high: int, low: int) -> char {
    (0x10000 + (high - 0xD800) * 0x400 + (low - 0xDC00)) as u32 as char
}

/// Reading the digits of a `\u` escape, and the escape of the second half where the first is
/// the first half of a surrogate pair.
pub open spec fn unicode_step(s: Seq<char>, at: int) -> StepView<char> {
    match hex_step(s, at) {
        StepView::Done(unit, next) => if is_high_surrogate(unit) {
            match literal_step(s, next, "\\u"@) {
                StepView::Done(_, second) => match hex_step(s, second) {
                    StepView::Done(low, end) => if is_low_surrogate(low) {
                        StepView::Done(pair_char(unit, low), end)
                    } else {
                        StepView::Failed(bare_error())
                    },
                    StepView::Incomplete => StepView::Incomplete,
                    StepView::Failed(error) => StepView::Failed(error),
                },
                StepView::Incomplete => StepView::Incomplete,
                StepView::Failed(error) => StepView::Failed(error),
            }
        } else if is_low_surrogate(unit) {
            StepView::Failed(bare_error())
        } else {
            StepView::Done(unit as u32 as char, next)
        },
        StepView::Incomplete => StepView::Incomplete,
        StepView::Failed(error) => StepView::Failed(error),
    }
}

/// Reading what follows the backslash of an escape.
pub open spec fn escape_step(s: Seq<char>, at: int) -> StepView<char> {
    if at >= s.len() {
        StepView::Incomplete
    } else if s[at] == 'u' {
        unicode_step(s, at + 1)
    } else {
        match short_escape(s[at]) {
            Some(c) => StepView::Done(c, at + 1),
            None => StepView::Failed(bare_error()),
        }
    }
}

/// Reading one character of a string literal other than the closing quote: itself, or an
/// escape. Control characters have to be escaped.
pub open spec fn string_char_step(s: Seq<char>, at: int) -> StepView<char> {
    if at >= s.len() {
        StepView::Incomplete
    } else if s[at] == '\\' {
        escape_step(s, at + 1)
    } else if s[at] <= '\u{1f}' {
        StepView::Failed(bare_error())
    } else {
        StepView::Done(s[at], at + 1)
    }
}

/// `before` in front of the text that was read.
pub open spec fn prepend(before: Seq<char>, step: StepView<Seq<char>>) -> StepView<Seq<char>> {
    match step {
        StepView::Done(text, next) => StepView::Done(before + text, next),
        step => step,
    }
}

/// Reading the rest of a string literal behind its opening quote or behind one of its
/// characters.
pub open spec fn string_rest_step(s: Seq<char>, at: int) -> StepView<Seq<char>>
    decreases s.len() - at,
{
    if at < s.len() && s[at] == '"' {
        StepView::Done(Seq::empty(), at + 1)
    } else {
        match string_char_step(s, at) {
            StepView::Done(c, next) => prepend(seq![c], string_rest_step(s, next)),
            StepView::Incomplete => StepView::Incomplete,
            StepView::Failed(error) => StepView::Failed(error),
        }
    }
}

/// Reading a JSON string literal: its decoded text.
pub open spec fn json_str_step(s: Seq<char>, at: int) -> StepView<Seq<char>> {
    match literal_step(s, at, "\""@) {
        StepView::Done(_, next) => string_rest_step(s, next),
        StepView::Incomplete => StepView::Incomplete,
        StepView::Failed(error) => StepView::Failed(error),
    }
}

/// The value of a hexadecimal digit, if `c` is one.
pub fn hex_digit(c: char) -> (value: Option<u32>)
    ensures
        value == hex_value(c),
{
    if '0' <= c && c <= '9' {
        Some(c as u32 - '0' as u32)
    } else if 'a' <= c && c <= 'f' {
        Some(c as u32 - 'a' as u32 + 10)
    } else if 'A' <= c && c <= 'F' {
        Some(c as u32 - 'A' as u32 + 10)
    } else {
        None
    }
}

/// Reads four hexadecimal digits at position `at`.
fn hex4(input: &Vec<char>, at: usize) -> (step: Step<u32>)
    requires
        at <= input@.len(),
    ensures
        match step {
            Step::Done(value, next) => hex_step(input@, at as int) == StepView::Done(
                value as int,
                next as int,
            ) && value <= 0xFFFF,
            Step::Incomplete => hex_step(input@, at as int) == StepView::<int>::Incomplete,
            Step::Failed(error) => hex_step(input@, at as int) == StepView::<int>::Failed(error@),
        },
{
    let mut value: u32 = 0;
    let mut next: usize = at;
    let mut count: u32 = 0;
    while count < 4
        invariant
            count <= 4,
            next == at + count,
            next <= input@.len(),
            forall|k: int| at <= k < next ==> hex_value(#[trigger] input@[k]) is Some,
            count == 0 ==> value == 0,
            count == 1 ==> value == hex_value(input@[at as int])->0,
            count == 2 ==> value == hex_value(input@[at as int])->0 * 0x10 + hex_value(
                input@[at + 1],
            )->0,
            count == 3 ==> value == hex_value(input@[at as int])->0 * 0x100 + hex_value(
                input@[at + 1],
            )->0 * 0x10 + hex_value(input@[at + 2])->0,
            count == 4 ==> value == hex_number(input@, at as int),
        decreases 4 - count,
    {
        if next >= input.len() {
            return Step::Incomplete;
        }
        match hex_digit(input[next]) {
            Some(digit) => {
                value = value * 16 + digit;
                next += 1;
                count += 1;
            },
            None => {
                return Step::Failed(SyntaxError::bare());
            },
        }
    }
    Step::Done(value, next)
}

/// Reads the digits of a `\u` escape at position `at`.
fn unicode_escape(input: &Vec<char>, at: usize) -> (step: Step<char>)
    requires
        at <= input@.len(),
    ensures
        step@ == unicode_step(input@, at as int),
{
    let (unit, next): (u32, usize) = match hex4(input, at) {
        Step::Done(unit, next) => (unit, next),
        Step::Incomplete => {
            return Step::Incomplete;
        },
        Step::Failed(error) => {
            return Step::Failed(error);
        },
    };
    if 0xD800 <= unit && unit < 0xDC00 {
        let second: usize = match literal(input, next, "\\u") {
            Step::Done(_, second) => second,
            Step::Incomplete => {
                return Step::Incomplete;
            },
            Step::Failed(error) => {
                return Step::Failed(error);
            },
        };
        let (low, end): (u32, usize) = match hex4(input, second) {
            Step::Done(low, end) => (low, end),
            Step::Incomplete => {
                return Step::Incomplete;
            },
            Step::Failed(error) => {
                return Step::Failed(error);
            },
        };
        if 0xDC00 <= low && low < 0xE000 {
            let scalar: u32 = 0x10000 + (unit - 0xD800) * 0x400 + (low - 0xDC00);
            match char::from_u32(scalar) {
                Some(c) => {
                    proof {
                        vstd::utf8::char_u32_cast(c, scalar);
                    }
                    Step::Done(c, end)
                },
                None => Step::Failed(SyntaxError::bare()),
            }
        } else {
            Step::Failed(SyntaxError::bare())
        }
    } else {
        match char::from_u32(unit) {
            Some(c) => {
                proof {
                    vstd::utf8::char_u32_cast(c, unit);
                }
                Step::Done(c, next)
            },
            None => Step::Failed(SyntaxError::bare()),
        }
    }
}

/// Reads what follows the backslash of an escape at position `at`.
fn escape(input: &Vec<char>, at: usize) -> (step: Step<char>)
    requires
        at <= input@.len(),
    ensures
        step@ == escape_step(input@, at as int),
{
    if at >= input.len() {
        return Step::Incomplete;
    }
    let c: char = input[at];
    if c == 'u' {
        unicode_escape(input, at + 1)
    } else if c == '"' || c == '\\' || c == '/' {
        Step::Done(c, at + 1)
    } else if c == 'b' {
        Step::Done('\u{8}', at + 1)
    } else if c == 'f' {
        Step::Done('\u{c}', at + 1)
    } else if c == 'n' {
        Step::Done('\n', at + 1)
    } else if c == 'r' {
        Step::Done('\r', at + 1)
    } else if c == 't' {
        Step::Done('\t', at + 1)
    } else {
        Step::Failed(SyntaxError::bare())
    }
}

/// Reads one character of a string literal at position `at`.
fn string_char(input: &Vec<char>, at: usize) -> (step: Step<char>)
    requires
        at <= input@.len(),
    ensures
        step@ == string_char_step(input@, at as int),
{
    if at >= input.len() {
        return Step::Incomplete;
    }
    let c: char = input[at];
    if c == '\\' {
        escape(input, at + 1)
    } else if c <= '\u{1f}' {
        Step::Failed(SyntaxError::bare())
    } else {
        Step::Done(c, at + 1)
    }
}

/// A character that is read ends inside the input and behind its start.
pub proof fn lemma_string_char_bounds(s: Seq<char>, at: int)
    ensures
        string_char_step(s, at) matches StepView::Done(_, next) ==> at < next <= s.len(),
{
}

/// A string literal that is read ends inside the input and behind its start.
pub proof fn lemma_json_str_bounds(s: Seq<char>, at: int)
    ensures
        json_str_step(s, at) matches StepView::Done(_, next) ==> at < next <= s.len(),
{
    reveal_strlit("\"");
    lemma_string_rest_bounds(s, at + 1);
}

/// The rest of a string literal that is read ends inside the input and behind its start.
proof fn lemma_string_rest_bounds(s: Seq<char>, at: int)
    ensures
        string_rest_step(s, at) matches StepView::Done(_, next) ==> at < next <= s.len(),
    decreases s.len() - at,
{
    if at < s.len() && s[at] != '"' {
        lemma_string_char_bounds(s, at);
        if let StepView::Done(_, next) = string_char_step(s, at) {
            lemma_string_rest_bounds(s, next);
        }
    }
}

/// The text read so far and the character behind it, moved into one text.
proof fn lemma_prepend_push(before: Seq<char>, c: char, step: StepView<Seq<char>>)
    ensures
        prepend(before, prepend(seq![c], step)) == prepend(before.push(c), step),
{
    if let StepView::Done(text, _) = step {
        assert(before + (seq![c] + text) == before.push(c) + text);
    }
}

/// Reads the rest of a string literal whose opening quote ends at position `at`.
fn string_rest(input: &Vec<char>, at: usize) -> (step: Step<String>)
    requires
        at <= input@.len(),
    ensures
        step@ == string_rest_step(input@, at as int),
{
    let mut text: String = String::new();
    let mut next: usize = at;
    proof {
        if let StepView::Done(tail, _) = string_rest_step(input@, at as int) {
            assert(text@ + tail == tail);
        }
    }
    loop
        invariant
            next <= input@.len(),
            string_rest_step(input@, at as int) == prepend(
                text@,
                string_rest_step(input@, next as int),
            ),
        decreases input@.len() - next,
    {
        if next < input.len() && input[next] == '"' {
            assert(text@ + Seq::<char>::empty() == text@);
            return Step::Done(text, next + 1);
        }
        proof {
            lemma_string_char_bounds(input@, next as int);
        }
        match string_char(input, next) {
            Step::Done(c, end) => {
                proof {
                    lemma_prepend_push(text@, c, string_rest_step(input@, end as int));
                }
                text.push(c);
                next = end;
            },
            Step::Incomplete => {
                return Step::Incomplete;
            },
            Step::Failed(error) => {
                return Step::Failed(error);
            },
        }
    }
}

/// Reads a JSON string literal at position `at` and decodes it.
pub fn json_str(input: &Vec<char>, at: usize) -> (step: Step<String>)
    requires
        at <= input@.len(),
    ensures
        step@ == json_str_step(input@, at as int),
{
    match literal(input, at, "\"") {
        Step::Done(_, start) => string_rest(input, start),
        Step::Incomplete => Step::Incomplete,
        Step::Failed(error) => Step::Failed(error),
    }
}

} // verus!
