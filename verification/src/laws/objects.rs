//! The raw text of a JSON object ends where the object does.

use vstd::prelude::*;

use crate::laws::literals::{denotes, holds, lemma_literal_read};
use crate::object::ObjectScan;
use crate::step::StepView;
use crate::string::{
    hex_digits, hex_number, hex_value, is_high_surrogate, lemma_string_char_bounds,
    string_char_step, string_rest_step,
};

verus! {

/// A part of the text of an object, as far as its end is concerned: a brace, a string literal with
/// the text it stands for, or any other character.
pub enum Lexeme {
    Open,
    Close,
    Text { literal: Seq<char>, text: Seq<char> },
    Other(char),
}

impl Lexeme {
    /// Literals that stand for their texts, and characters other than braces and quotes.
    pub open spec fn valid(self) -> bool {
        match self {
            Lexeme::Open | Lexeme::Close => true,
            Lexeme::Text { literal, text } => denotes(literal, text),
            Lexeme::Other(c) => c != '{' && c != '}' && c != '"',
        }
    }

    /// The text of the part.
    pub open spec fn text(self) -> Seq<char> {
        match self {
            Lexeme::Open => seq!['{'],
            Lexeme::Close => seq!['}'],
            Lexeme::Text { literal, .. } => literal,
            Lexeme::Other(c) => seq![c],
        }
    }

    /// How the part changes the number of open braces.
    pub open spec fn weight(self) -> int {
        match self {
            Lexeme::Open => 1,
            Lexeme::Close => -1,
            _ => 0,
        }
    }
}

/// The text of a list of parts.
pub open spec fn text_of_lexemes(lexemes: Seq<Lexeme>) -> Seq<char>
    decreases lexemes.len(),
{
    if lexemes.len() == 0 {
        Seq::empty()
    } else {
        text_of_lexemes(lexemes.drop_last()) + lexemes.last().text()
    }
}

/// The number of braces that a list of parts leaves open.
pub open spec fn open_braces(lexemes: Seq<Lexeme>) -> int
    decreases lexemes.len(),
{
    if lexemes.len() == 0 {
        0
    } else {
        open_braces(lexemes.drop_last()) + lexemes.last().weight()
    }
}

/// The parts of an object: a brace first, some brace open before each further part, and none
/// behind the last.
pub open spec fn is_object(lexemes: Seq<Lexeme>) -> bool {
    &&& lexemes.len() > 0
    &&& lexemes[0] is Open
    &&& forall|i: int| 0 <= i < lexemes.len() ==> (#[trigger] lexemes[i]).valid()
    &&& forall|i: int| 0 < i < lexemes.len() ==> open_braces(#[trigger] lexemes.take(i)) > 0
    &&& open_braces(lexemes) == 0
}

/// The scan of a raw object text is complete behind its last character and not before.
pub open spec fn is_object_text(text: Seq<char>) -> bool {
    &&& text.len() > 0
    &&& text[0] == '{'
    &&& ObjectScan::fresh().run(text, 0).0.complete()
    &&& ObjectScan::fresh().run(text, 0).1 == text.len()
}

/// A scan between string literals, with `depth` braces open.
pub open spec fn between(depth: int) -> ObjectScan {
    ObjectScan { started: true, depth, in_string: false, escaped: false }
}

/// A scan inside a string literal.
pub open spec fn inside(depth: int) -> ObjectScan {
    ObjectScan { started: true, depth, in_string: true, escaped: false }
}

/// Four hexadecimal digits leave a scan inside the string literal.
proof fn lemma_run_hex(s: Seq<char>, at: int, depth: int)
    requires
        0 <= at,
        at + 4 <= s.len(),
        hex_digits(s, at),
        depth > 0,
    ensures
        inside(depth).run(s, at) == inside(depth).run(s, at + 4),
{
    assert(hex_value(s[at]) is Some);
    assert(hex_value(s[at + 1]) is Some);
    assert(hex_value(s[at + 2]) is Some);
    assert(hex_value(s[at + 3]) is Some);
    reveal_with_fuel(ObjectScan::run, 5);
}

/// A backslash and the character behind it leave a scan inside the string literal.
proof fn lemma_run_escape(s: Seq<char>, at: int, depth: int)
    requires
        0 <= at,
        at + 2 <= s.len(),
        s[at] == '\\',
        depth > 0,
    ensures
        inside(depth).run(s, at) == inside(depth).run(s, at + 2),
{
    let escaped = ObjectScan { escaped: true, ..inside(depth) };
    assert(inside(depth).advance(s[at]) == escaped);
    assert(escaped.advance(s[at + 1]) == inside(depth));
    reveal_with_fuel(ObjectScan::run, 3);
}

/// So does a character of the literal that is read.
proof fn lemma_run_string_char(s: Seq<char>, at: int, depth: int)
    requires
        0 <= at < s.len(),
        s[at] != '"',
        string_char_step(s, at) is Done,
        depth > 0,
    ensures
        string_char_step(s, at) matches StepView::Done(_, next) ==> inside(depth).run(s, at)
            == inside(depth).run(s, next),
{
    if s[at] != '\\' {
        reveal_with_fuel(ObjectScan::run, 2);
    } else {
        lemma_run_escape(s, at, depth);
        if s[at + 1] == 'u' {
            lemma_run_hex(s, at + 2, depth);
            if is_high_surrogate(hex_number(s, at + 2)) {
                reveal_strlit("\\u");
                assert(s[at + 6 + 0] == "\\u"@[0]);
                lemma_run_escape(s, at + 6, depth);
                lemma_run_hex(s, at + 8, depth);
            }
        }
    }
}

/// The rest of a string literal takes a scan out of it.
proof fn lemma_run_string_rest(s: Seq<char>, at: int, depth: int)
    requires
        0 <= at <= s.len(),
        string_rest_step(s, at) is Done,
        depth > 0,
    ensures
        string_rest_step(s, at) matches StepView::Done(_, end) ==> inside(depth).run(s, at)
            == between(depth).run(s, end),
    decreases s.len() - at,
{
    if at < s.len() && s[at] == '"' {
        reveal_with_fuel(ObjectScan::run, 2);
        assert(inside(depth).advance('"') == between(depth));
    } else if let StepView::Done(_, next) = string_char_step(s, at) {
        lemma_string_char_bounds(s, at);
        lemma_run_string_char(s, at, depth);
        lemma_run_string_rest(s, next, depth);
    }
}

/// A part changes the number of open braces by its weight.
proof fn lemma_run_lexeme(s: Seq<char>, at: int, lexeme: Lexeme, depth: int)
    requires
        holds(s, at, lexeme.text()),
        lexeme.valid(),
        depth > 0,
    ensures
        between(depth).run(s, at) == between(depth + lexeme.weight()).run(
            s,
            at + lexeme.text().len(),
        ),
{
    let part = lexeme.text();
    if let Lexeme::Text { literal, text } = lexeme {
        lemma_literal_read(s, at, literal, text);
    }
    assert(s.subrange(at, at + part.len())[0] == s[at]);
    reveal_with_fuel(ObjectScan::run, 2);
    if let Lexeme::Text { literal, text } = lexeme {
        lemma_literal_read(s, at, literal, text);
        reveal_strlit("\"");
        assert(between(depth).advance('"') == inside(depth));
        lemma_run_string_rest(s, at + 1, depth);
    }
}

/// Each part stands behind the text of the parts before it.
proof fn lemma_lexemes_prefix(lexemes: Seq<Lexeme>, i: int)
    requires
        0 <= i < lexemes.len(),
    ensures
        holds(
            text_of_lexemes(lexemes),
            text_of_lexemes(lexemes.take(i)).len() as int,
            lexemes[i].text(),
        ),
        text_of_lexemes(lexemes.take(i + 1)).len() == text_of_lexemes(lexemes.take(i)).len()
            + lexemes[i].text().len(),
    decreases lexemes.len(),
{
    let part = lexemes[i].text();
    let before = text_of_lexemes(lexemes.take(i));
    let shorter = lexemes.drop_last();
    assert(lexemes.take(i + 1).drop_last() == lexemes.take(i));
    let all = text_of_lexemes(lexemes);
    if i + 1 == lexemes.len() {
        assert(lexemes.take(i) == shorter);
        assert(all.subrange(before.len() as int, all.len() as int) == part);
    } else {
        lemma_lexemes_prefix(shorter, i);
        assert(shorter.take(i) == lexemes.take(i));
        let most = text_of_lexemes(shorter);
        assert(all.subrange(before.len() as int, (before.len() + part.len()) as int)
            =~= most.subrange(before.len() as int, (before.len() + part.len()) as int));
    }
}

/// The scan of an object behind its first parts has as many braces open as they leave open.
proof fn lemma_run_lexemes(lexemes: Seq<Lexeme>, i: int)
    requires
        is_object(lexemes),
        1 <= i <= lexemes.len(),
    ensures
        ObjectScan::fresh().run(text_of_lexemes(lexemes), 0) == between(
            open_braces(lexemes.take(i)),
        ).run(text_of_lexemes(lexemes), text_of_lexemes(lexemes.take(i)).len() as int),
    decreases i,
{
    let s = text_of_lexemes(lexemes);
    lemma_lexemes_prefix(lexemes, i - 1);
    assert(lexemes.take(i).drop_last() == lexemes.take(i - 1));
    let at = text_of_lexemes(lexemes.take(i - 1)).len() as int;
    if i == 1 {
        assert(s.subrange(0, 1)[0] == s[0]);
        reveal_with_fuel(ObjectScan::run, 2);
        assert(ObjectScan::fresh().advance('{') == between(1));
        reveal_with_fuel(open_braces, 2);
        assert(lexemes.take(1).drop_last().len() == 0);
    } else {
        lemma_run_lexemes(lexemes, i - 1);
        assert(open_braces(lexemes.take(i - 1)) > 0);
        lemma_run_lexeme(s, at, lexemes[i - 1], open_braces(lexemes.take(i - 1)));
    }
}

/// However an object is laid out and whatever its strings hold, the scan of its text is complete
/// behind its closing brace and not before.
pub proof fn law_object_text(lexemes: Seq<Lexeme>)
    requires
        is_object(lexemes),
    ensures
        is_object_text(text_of_lexemes(lexemes)),
{
    let s = text_of_lexemes(lexemes);
    lemma_run_lexemes(lexemes, lexemes.len() as int);
    assert(lexemes.take(lexemes.len() as int) == lexemes);
    lemma_lexemes_prefix(lexemes, 0);
    assert(s.subrange(0, 1)[0] == s[0]);
}

} // verus!
