//! What is read as a header is the text of one.

use vstd::prelude::*;

use crate::config::JsonToolCallConfig;
use crate::event::{
    Event, arguments_key_step, fence_step, header_step, name_end_step, name_pieces,
    object_head_step, separator_pieces,
};
use crate::laws::literals::{denotes, holds, law_string};
use crate::laws::readings::{
    Slot, awaiting, is_read, law_fence, law_fixed, law_whitespace, lemma_awaiting_append,
    lemma_plain_refusal, lemma_reading_append, lemma_sequence_told, lemma_space_end, reading,
    separator_slots, slot_open, slot_read, slots_of, unclosed,
};
use crate::laws::scans::{loose, quoted_run};
use crate::laws::stability::lemma_json_str_stable;
use crate::lex::{literal_step, space_step};
use crate::sequence::{PieceView, lemma_sequence_split, sequence_step};
use crate::step::{StepView, SyntaxErrorView};
use crate::string::{
    hex_digits, hex_number, hex_step, hex_value, is_high_surrogate, json_str_step,
    lemma_string_char_bounds, string_char_step, string_rest_step,
};

verus! {

/// Four hexadecimal digits before a closing quote are all there, and none of them is the quote.
proof fn lemma_hex_before_quote(s: Seq<char>, at: int, quote: int)
    requires
        0 <= at <= quote < s.len(),
        s[quote] == '"',
        loose(s.subrange(at, quote)),
    ensures
        !(hex_step(s, at) is Incomplete),
        hex_step(s, at) is Done ==> at + 4 <= quote && loose(s.subrange(at + 4, quote)),
{
    if hex_digits(s, at) {
        assert(at + 4 <= quote) by {
            if quote < at + 4 {
                assert(hex_value(s[quote]) is Some);
            }
        }
        assert(hex_value(s[at]) is Some && hex_value(s[at + 1]) is Some);
        assert(hex_value(s[at + 2]) is Some && hex_value(s[at + 3]) is Some);
        lemma_loose_next(s, at, quote);
        lemma_loose_next(s, at + 1, quote);
        lemma_loose_next(s, at + 2, quote);
        lemma_loose_next(s, at + 3, quote);
    }
}

/// Behind a character that is no backslash, what is before the quote goes on.
proof fn lemma_loose_next(s: Seq<char>, at: int, quote: int)
    requires
        0 <= at < quote < s.len(),
        loose(s.subrange(at, quote)),
    ensures
        s[at] != '"',
        s[at] != '\\' ==> loose(s.subrange(at + 1, quote)),
        s[at] == '\\' ==> at + 2 <= quote && loose(s.subrange(at + 2, quote)),
{
    let body = s.subrange(at, quote);
    assert(body[0] == s[at]);
    assert(body.skip(1) =~= s.subrange(at + 1, quote));
    if body.len() >= 2 {
        assert(body.skip(2) =~= s.subrange(at + 2, quote));
    }
}

/// Before a closing quote every character is read or refused.
proof fn lemma_char_settles(s: Seq<char>, at: int, quote: int)
    requires
        0 <= at < quote < s.len(),
        s[quote] == '"',
        loose(s.subrange(at, quote)),
    ensures
        !(string_char_step(s, at) is Incomplete),
        string_char_step(s, at) matches StepView::Done(_, next) ==> at < next <= quote && loose(
            s.subrange(next, quote),
        ),
{
    lemma_loose_next(s, at, quote);
    if s[at] == '\\' && s[at + 1] == 'u' {
        lemma_hex_before_quote(s, at + 2, quote);
        if hex_step(s, at + 2) is Done && is_high_surrogate(hex_number(s, at + 2)) {
            reveal_strlit("\\u");
            law_fixed(s, at + 6, "\\u"@);
            if at + 6 < quote {
                lemma_loose_next(s, at + 6, quote);
            }
            if literal_step(s, at + 6, "\\u"@) is Done {
                assert(s.subrange(at + 6, at + 8)[0] == s[at + 6]);
                lemma_hex_before_quote(s, at + 8, quote);
            }
            if slot_open(s, at + 6, Slot::Fixed("\\u"@)) {
                assert(s.skip(at + 6)[0] == "\\u"@.take(s.len() - (at + 6))[0]);
                assert(s[at + 6] == '\\');
            }
        }
    }
}

/// Before a closing quote the rest of a string literal is read or refused.
proof fn lemma_rest_settles(s: Seq<char>, at: int, quote: int)
    requires
        0 <= at <= quote < s.len(),
        s[quote] == '"',
        loose(s.subrange(at, quote)),
    ensures
        !(string_rest_step(s, at) is Incomplete),
    decreases quote - at,
{
    if at < quote {
        lemma_loose_next(s, at, quote);
        lemma_char_settles(s, at, quote);
        if let StepView::Done(_, next) = string_char_step(s, at) {
            lemma_rest_settles(s, next, quote);
        }
    }
}

/// The refusal of a string literal says nothing more.
proof fn lemma_rest_refusal(s: Seq<char>, at: int)
    requires
        0 <= at,
    ensures
        string_rest_step(s, at) matches StepView::Failed(error) ==> error == (SyntaxErrorView {
            label: None,
            expected: Seq::empty(),
        }),
    decreases s.len() - at,
{
    if at < s.len() && s[at] != '"' {
        if let StepView::Done(_, next) = string_char_step(s, at) {
            lemma_string_char_bounds(s, at);
            lemma_rest_refusal(s, next);
        }
    }
}

/// A string literal is awaited only as long as its closing quote has not come, and refused at once
/// where no quote opens it. What is refused is no literal, however the input goes on.
pub proof fn law_string_settled(s: Seq<char>, at: int)
    requires
        0 <= at <= s.len(),
    ensures
        json_str_step(s, at) is Incomplete ==> unclosed(s, at),
        at == s.len() ==> json_str_step(s, at) is Incomplete,
        at < s.len() && s[at] != '"' ==> json_str_step(s, at) is Failed,
        json_str_step(s, at) is Failed ==> forall|t: Seq<char>, end: int, text: Seq<char>|
            at <= end <= (s + t).len() ==> !#[trigger] denotes((s + t).subrange(at, end), text),
        json_str_step(s, at) matches StepView::Failed(error) ==> error == (SyntaxErrorView {
            label: None,
            expected: Seq::empty(),
        }),
{
    lemma_rest_refusal(s, at + 1);
    reveal_strlit("\"");
    law_fixed(s, at, "\""@);
    if at < s.len() {
        if holds(s, at, "\""@) {
            assert(s.subrange(at, at + 1)[0] == s[at]);
        }
        if s[at] == '"' {
            assert(s.subrange(at, at + 1) =~= "\""@);
        }
        let rest = s.skip(at);
        if s[at] == '"' && exists|k: int| #[trigger] quoted_run(rest, k) {
            let k = choose|k: int| #[trigger] quoted_run(rest, k);
            assert(rest.subrange(1, k - 1) =~= s.subrange(at + 1, at + k - 1));
            assert(rest[k - 1] == s[at + k - 1]);
            lemma_rest_settles(s, at + 1, at + k - 1);
        }
    }
    if json_str_step(s, at) is Failed {
        assert forall|t: Seq<char>, end: int, text: Seq<char>|
            at <= end <= (s + t).len() implies !#[trigger] denotes(
            (s + t).subrange(at, end),
            text,
        ) by {
            lemma_json_str_stable(s, t, at);
            law_string(s + t, at, text, end);
        }
    }
}

/// The keys that a format has for the arguments.
pub open spec fn arguments_keys(config: JsonToolCallConfig) -> Seq<Seq<char>> {
    config.arguments_key@.map_values(|key: &'static str| key@)
}

/// A key that is one of the candidates is read as a whole string literal, another is refused with
/// all of the candidates in the error, and it is awaited as long as its closing quote has not come.
pub proof fn law_arguments_key(s: Seq<char>, at: int, keys: Seq<Seq<char>>)
    requires
        0 <= at <= s.len(),
    ensures
        forall|end: int|
            #![trigger slot_read(s, at, Slot::OneQuoted(keys), end)]
            slot_read(s, at, Slot::OneQuoted(keys), end) <==> arguments_key_step(s, at, keys)
                == StepView::Done((), end),
        arguments_key_step(s, at, keys) is Incomplete ==> unclosed(s, at),
        arguments_key_step(s, at, keys) matches StepView::Failed(error) ==> error == (
        SyntaxErrorView { label: None, expected: keys }),
{
    law_string_settled(s, at);
    assert forall|end: int|
        #![trigger slot_read(s, at, Slot::OneQuoted(keys), end)]
        slot_read(s, at, Slot::OneQuoted(keys), end) <==> arguments_key_step(s, at, keys)
            == StepView::Done((), end) by {
        if slot_read(s, at, Slot::OneQuoted(keys), end) {
            let text = choose|text: Seq<char>|
                #[trigger] denotes(s.subrange(at, end), text) && keys.contains(text);
            law_string(s, at, text, end);
        }
        if let StepView::Done(text, next) = json_str_step(s, at) {
            law_string(s, at, text, next);
        }
    }
}

/// What stands in front of the function name.
pub open spec fn name_slots(config: JsonToolCallConfig) -> Seq<Slot> {
    seq![
        Slot::Fixed("{"@),
        Slot::Gap,
        Slot::Fixed("\""@),
        Slot::Fixed(config.name_key@),
        Slot::Fixed("\""@),
        Slot::Gap,
        Slot::Fixed(":"@),
        Slot::Gap,
    ]
}

/// What stands between the function name and the arguments.
pub open spec fn key_slots(config: JsonToolCallConfig) -> Seq<Slot> {
    separator_slots(","@) + (seq![Slot::OneQuoted(arguments_keys(config))] + separator_slots(":"@))
}

/// An object up to its arguments, with the function name as given.
pub open spec fn head_slots(config: JsonToolCallConfig, name: Slot) -> Seq<Slot> {
    name_slots(config) + (seq![name] + key_slots(config))
}

/// A part in front of others.
proof fn lemma_first_read(s: Seq<char>, at: int, slot: Slot, rest: Seq<Slot>, m: int)
    requires
        slot_read(s, at, slot, m),
    ensures
        forall|end: int| #[trigger]
            reading(s, m, rest, end) ==> reading(s, at, seq![slot] + rest, end),
        awaiting(s, m, rest) ==> awaiting(s, at, seq![slot] + rest),
{
    let both = seq![slot] + rest;
    assert(both.drop_first() =~= rest);
    assert(slot_read(s, at, both[0], m));
}

/// What follows the function name is read as its parts are.
proof fn lemma_name_end_told(s: Seq<char>, at: int, config: JsonToolCallConfig)
    requires
        0 <= at <= s.len(),
    ensures
        forall|end: int| #[trigger]
            reading(s, at, key_slots(config), end) <==> name_end_step(s, at, config)
                == StepView::Done((), end),
        name_end_step(s, at, config) is Incomplete ==> awaiting(s, at, key_slots(config)),
{
    let keys = config.keys();
    assert(keys =~= arguments_keys(config));
    let comma = separator_pieces(","@);
    let colon = separator_pieces(":"@);
    let key = Slot::OneQuoted(keys);
    let tail = seq![key] + separator_slots(":"@);
    assert(slots_of(comma) =~= separator_slots(","@));
    assert(slots_of(colon) =~= separator_slots(":"@));
    assert(tail.drop_first() =~= separator_slots(":"@));
    assert(tail[0] == key);
    lemma_sequence_told(s, at, comma);
    let first = separator_slots(","@);
    lemma_awaiting_append(s, at, first, tail);
    assert forall|end: int| #[trigger]
        reading(s, at, key_slots(config), end) implies name_end_step(s, at, config)
        == StepView::Done((), end) by {
        lemma_reading_append(s, at, first, tail, end);
        let m = choose|m: int| #[trigger] reading(s, at, first, m) && reading(s, m, tail, end);
        assert(sequence_step(s, at, comma) == StepView::Done((), m));
        let n = choose|n: int| #[trigger]
            slot_read(s, m, tail[0], n) && reading(s, n, tail.drop_first(), end);
        law_arguments_key(s, m, keys);
        assert(slot_read(s, m, key, n));
        lemma_sequence_told(s, n, colon);
    }
    if let StepView::Done(_, m) = sequence_step(s, at, comma) {
        law_arguments_key(s, m, keys);
        if let StepView::Done(_, n) = arguments_key_step(s, m, keys) {
            assert(slot_read(s, m, key, n));
            lemma_sequence_told(s, n, colon);
            lemma_first_read(s, m, key, separator_slots(":"@), n);
            if let StepView::Done(_, end) = sequence_step(s, n, colon) {
                lemma_reading_append(s, at, first, tail, end);
                assert(reading(s, m, tail, end));
                assert(reading(s, at, key_slots(config), end));
            }
        } else if arguments_key_step(s, m, keys) is Incomplete {
            assert(slot_open(s, m, tail[0]));
            assert(awaiting(s, m, tail));
        }
    }
}

/// The head of an object that the input holds is read.
proof fn lemma_object_head_read(
    s: Seq<char>,
    at: int,
    config: JsonToolCallConfig,
    name: Seq<char>,
    end: int,
)
    requires
        0 <= at <= s.len(),
        reading(s, at, head_slots(config, Slot::Quoted(name)), end),
    ensures
        object_head_step(s, at, config) == StepView::Done(name, end),
{
    let pieces = name_pieces(config);
    let first = name_slots(config);
    let slot = Slot::Quoted(name);
    let tail = seq![slot] + key_slots(config);
    assert(slots_of(pieces) =~= first);
    lemma_sequence_told(s, at, pieces);
    lemma_reading_append(s, at, first, tail, end);
    let m = choose|m: int| #[trigger] reading(s, at, first, m) && reading(s, m, tail, end);
    assert(sequence_step(s, at, pieces) == StepView::Done((), m));
    let n = lemma_first_apart(s, m, slot, key_slots(config), end);
    law_string(s, m, name, n);
    lemma_name_end_told(s, n, config);
}

/// What is read behind the opening of an object is the rest of its head.
proof fn lemma_object_name_sound(s: Seq<char>, m: int, config: JsonToolCallConfig)
    requires
        0 <= m <= s.len(),
    ensures
        json_str_step(s, m) matches StepView::Done(name, n) ==> {
            &&& name_end_step(s, n, config) matches StepView::Done(_, end) ==> reading(
                s,
                m,
                seq![Slot::Quoted(name)] + key_slots(config),
                end,
            )
            &&& name_end_step(s, n, config) is Incomplete ==> awaiting(
                s,
                m,
                seq![Slot::AnyQuoted] + key_slots(config),
            )
        },
        json_str_step(s, m) is Incomplete ==> awaiting(
            s,
            m,
            seq![Slot::AnyQuoted] + key_slots(config),
        ),
{
    law_string_settled(s, m);
    if let StepView::Done(name, n) = json_str_step(s, m) {
        law_string(s, m, name, n);
        lemma_name_end_told(s, n, config);
        lemma_first_read(s, m, Slot::Quoted(name), key_slots(config), n);
        assert(slot_read(s, m, Slot::AnyQuoted, n));
        lemma_first_read(s, m, Slot::AnyQuoted, key_slots(config), n);
        if let StepView::Done(unit, end) = name_end_step(s, n, config) {
            assert(unit == ());
            assert(reading(s, n, key_slots(config), end));
        }
    } else if json_str_step(s, m) is Incomplete {
        let any = seq![Slot::AnyQuoted] + key_slots(config);
        assert(any[0] == Slot::AnyQuoted);
        assert(slot_open(s, m, any[0]));
    }
}

/// What is read as the head of an object is one.
proof fn lemma_object_head_sound(s: Seq<char>, at: int, config: JsonToolCallConfig)
    requires
        0 <= at <= s.len(),
    ensures
        object_head_step(s, at, config) matches StepView::Done(name, end) ==> reading(
            s,
            at,
            head_slots(config, Slot::Quoted(name)),
            end,
        ),
        object_head_step(s, at, config) is Incomplete ==> awaiting(
            s,
            at,
            head_slots(config, Slot::AnyQuoted),
        ),
{
    let pieces = name_pieces(config);
    let first = name_slots(config);
    let any = seq![Slot::AnyQuoted] + key_slots(config);
    assert(slots_of(pieces) =~= first);
    lemma_sequence_told(s, at, pieces);
    lemma_awaiting_append(s, at, first, any);
    if let StepView::Done(_, m) = sequence_step(s, at, pieces) {
        assert(reading(s, at, first, m));
        lemma_object_name_sound(s, m, config);
        if let StepView::Done(name, end) = object_head_step(s, at, config) {
            let tail = seq![Slot::Quoted(name)] + key_slots(config);
            assert(reading(s, m, tail, end));
            lemma_reading_append(s, at, first, tail, end);
        }
    }
}

/// A header without a fence: an object up to its arguments, behind whitespace.
pub open spec fn plain_header(config: JsonToolCallConfig, name: Slot) -> Seq<Slot> {
    seq![Slot::Gap] + head_slots(config, name)
}

/// A header with a fence.
pub open spec fn fenced_header(config: JsonToolCallConfig, fence: Seq<char>, name: Slot) -> Seq<
    Slot,
> {
    seq![Slot::Gap] + (seq![Slot::Fixed(fence)] + (seq![Slot::Gap] + head_slots(config, name)))
}

/// The input holds a header with the given name, with a fence or without.
pub open spec fn header_read(
    s: Seq<char>,
    at: int,
    config: JsonToolCallConfig,
    name: Seq<char>,
    fenced: bool,
    end: int,
) -> bool {
    if fenced {
        &&& config.allow_markdown_fence
        &&& {
            ||| reading(s, at, fenced_header(config, "```json\n"@, Slot::Quoted(name)), end)
            ||| reading(s, at, fenced_header(config, "```\n"@, Slot::Quoted(name)), end)
        }
    } else {
        reading(s, at, plain_header(config, Slot::Quoted(name)), end)
    }
}

/// The input ends inside a header or before it.
pub open spec fn header_open(s: Seq<char>, at: int, config: JsonToolCallConfig) -> bool {
    ||| awaiting(s, at, plain_header(config, Slot::AnyQuoted))
    ||| config.allow_markdown_fence && awaiting(
        s,
        at,
        fenced_header(config, "```json\n"@, Slot::AnyQuoted),
    )
    ||| config.allow_markdown_fence && awaiting(
        s,
        at,
        fenced_header(config, "```\n"@, Slot::AnyQuoted),
    )
}

/// A part in front of others, taken apart.
proof fn lemma_first_apart(s: Seq<char>, at: int, slot: Slot, rest: Seq<Slot>, end: int) -> (m: int)
    requires
        reading(s, at, seq![slot] + rest, end),
    ensures
        slot_read(s, at, slot, m),
        reading(s, m, rest, end),
{
    let both = seq![slot] + rest;
    assert(both.drop_first() =~= rest);
    assert(both[0] == slot);
    choose|m: int| #[trigger]
        slot_read(s, at, both[0], m) && reading(s, m, both.drop_first(), end)
}

/// What a header holds is read as one.
proof fn lemma_header_read(
    s: Seq<char>,
    at: int,
    config: JsonToolCallConfig,
    name: Seq<char>,
    fenced: bool,
    end: int,
)
    requires
        0 <= at <= s.len(),
        header_read(s, at, config, name, fenced, end),
    ensures
        header_step(s, at, config) == StepView::Done(Event::ToolCallHeader { name, fenced }, end),
{
    let head = head_slots(config, Slot::Quoted(name));
    law_whitespace(s, at);
    lemma_space_end(s, at);
    reveal_strlit("```json\n");
    reveal_strlit("```\n");
    reveal_strlit("{");
    if fenced {
        let long = "```json\n"@;
        let fence = if reading(s, at, fenced_header(config, long, Slot::Quoted(name)), end) {
            long
        } else {
            "```\n"@
        };
        let inner = seq![Slot::Gap] + head;
        let m = lemma_first_apart(s, at, Slot::Gap, seq![Slot::Fixed(fence)] + inner, end);
        let n = lemma_first_apart(s, m, Slot::Fixed(fence), inner, end);
        assert(s.subrange(m, m + fence.len())[0] == s[m]);
        law_fence(s, m, true);
        let start = lemma_first_apart(s, n, Slot::Gap, head, end);
        law_whitespace(s, n);
        lemma_object_head_read(s, start, config, name, end);
    } else {
        let m = lemma_first_apart(s, at, Slot::Gap, head, end);
        lemma_object_head_read(s, m, config, name, end);
        assert(s[m] == '{') by {
            lemma_reading_append(
                s,
                m,
                name_slots(config),
                seq![Slot::Quoted(name)] + key_slots(config),
                end,
            );
            let k = choose|k: int| #[trigger]
                reading(s, m, name_slots(config), k) && reading(
                    s,
                    k,
                    seq![Slot::Quoted(name)] + key_slots(config),
                    end,
                );
            let slots = name_slots(config);
            let b = choose|b: int| #[trigger]
                slot_read(s, m, slots[0], b) && reading(s, b, slots.drop_first(), k);
            assert(holds(s, m, "{"@));
            assert(s.subrange(m, m + 1)[0] == s[m]);
        }
        law_fence(s, m, config.allow_markdown_fence);
    }
}

/// What is read as a header is the text of one: whitespace, a fence where one is allowed, and an
/// object up to its arguments, with the name that it writes. What can be no header is refused, with
/// the parser's name in the error.
pub proof fn law_header_text(s: Seq<char>, at: int, config: JsonToolCallConfig)
    requires
        0 <= at <= s.len(),
    ensures
        forall|name: Seq<char>, fenced: bool, end: int| #[trigger]
            header_read(s, at, config, name, fenced, end) <==> header_step(s, at, config)
                == StepView::Done(Event::ToolCallHeader { name, fenced }, end),
        header_step(s, at, config) matches StepView::Done(event, _) ==> event is ToolCallHeader,
        header_step(s, at, config) is Incomplete ==> header_open(s, at, config),
        header_step(s, at, config) matches StepView::Failed(error) ==> error.label == Some(
            config.parser_name@,
        ),
{
    assert forall|name: Seq<char>, fenced: bool, end: int| #[trigger]
        header_read(s, at, config, name, fenced, end) implies header_step(s, at, config)
        == StepView::Done(Event::ToolCallHeader { name, fenced }, end) by {
        lemma_header_read(s, at, config, name, fenced, end);
    }
    law_whitespace(s, at);
    lemma_space_end(s, at);
    let any = head_slots(config, Slot::AnyQuoted);
    if let StepView::Done(_, m) = space_step(s, at) {
        assert(slot_read(s, at, Slot::Gap, m));
        law_fence(s, m, config.allow_markdown_fence);
        lemma_first_read(s, at, Slot::Gap, any, m);
        match fence_step(s, m, config.allow_markdown_fence) {
            StepView::Done(fenced, n) => {
                if fenced {
                    lemma_header_fenced(s, at, m, n, config);
                } else {
                    lemma_object_head_sound(s, m, config);
                    if let StepView::Done(name, end) = object_head_step(s, m, config) {
                        let head = head_slots(config, Slot::Quoted(name));
                        assert(reading(s, m, head, end));
                        lemma_first_read(s, at, Slot::Gap, head, m);
                        assert(header_read(s, at, config, name, false, end));
                    }
                }
            },
            StepView::Incomplete => {
                let fence = "```json\n"@;
                let rest = seq![Slot::Fixed(fence)] + (seq![Slot::Gap] + any);
                assert(slot_open(s, m, rest[0]));
                assert(awaiting(s, m, rest));
                lemma_first_read(s, at, Slot::Gap, rest, m);
            },
            StepView::Failed(_) => {},
        }
    } else {
        let slots = plain_header(config, Slot::AnyQuoted);
        assert(slots[0] == Slot::Gap);
        assert(slot_open(s, at, slots[0]));
    }
}

/// The fenced case of a header.
proof fn lemma_header_fenced(s: Seq<char>, at: int, m: int, n: int, config: JsonToolCallConfig)
    requires
        0 <= at <= m < n <= s.len(),
        space_step(s, at) == StepView::Done((), m),
        config.allow_markdown_fence,
        fence_step(s, m, true) == StepView::Done(true, n),
    ensures
        header_step(s, at, config) matches StepView::Done(event, end) ==> {
            &&& event matches Event::ToolCallHeader { name, fenced }
            &&& fenced
            &&& header_read(s, at, config, name, true, end)
        },
        header_step(s, at, config) is Incomplete ==> header_open(s, at, config),
{
    reveal_strlit("```json\n");
    reveal_strlit("```\n");
    law_whitespace(s, at);
    assert(slot_read(s, at, Slot::Gap, m));
    law_fence(s, m, true);
    law_fixed(s, m, "```json\n"@);
    law_fixed(s, m, "```\n"@);
    let fence = if holds(s, m, "```json\n"@) {
        "```json\n"@
    } else {
        "```\n"@
    };
    assert(holds(s, m, fence));
    let slot = Slot::Fixed(fence);
    assert(slot_read(s, m, slot, n));
    let any = head_slots(config, Slot::AnyQuoted);
    law_whitespace(s, n);
    lemma_space_end(s, n);
    match space_step(s, n) {
        StepView::Done(_, start) => {
            assert(slot_read(s, n, Slot::Gap, start));
            lemma_object_head_sound(s, start, config);
            match object_head_step(s, start, config) {
                StepView::Done(name, end) => {
                    let head = head_slots(config, Slot::Quoted(name));
                    assert(reading(s, start, head, end));
                    lemma_first_read(s, n, Slot::Gap, head, start);
                    let inner = seq![Slot::Gap] + head;
                    assert(reading(s, n, inner, end));
                    lemma_first_read(s, m, slot, inner, n);
                    assert(reading(s, m, seq![slot] + inner, end));
                    lemma_first_read(s, at, Slot::Gap, seq![slot] + inner, m);
                    assert(header_read(s, at, config, name, true, end));
                },
                StepView::Incomplete => {
                    lemma_first_read(s, n, Slot::Gap, any, start);
                    let inner = seq![Slot::Gap] + any;
                    lemma_first_read(s, m, slot, inner, n);
                    lemma_first_read(s, at, Slot::Gap, seq![slot] + inner, m);
                },
                StepView::Failed(_) => {},
            }
        },
        _ => {
            let inner = seq![Slot::Gap] + any;
            assert(inner[0] == Slot::Gap);
            assert(slot_open(s, n, inner[0]));
            assert(awaiting(s, n, inner));
            lemma_first_read(s, m, slot, inner, n);
            lemma_first_read(s, at, Slot::Gap, seq![slot] + inner, m);
        },
    }
}

/// The object of a header starts at `start`: behind whitespace, or behind a fence with whitespace
/// around it.
pub open spec fn object_at(s: Seq<char>, at: int, config: JsonToolCallConfig, start: int) -> bool {
    ||| reading(s, at, seq![Slot::Gap], start) && !(config.allow_markdown_fence && s[start] == '`')
    ||| config.allow_markdown_fence && reading(
        s,
        at,
        seq![Slot::Gap] + (seq![Slot::Fixed("```json\n"@)] + seq![Slot::Gap]),
        start,
    )
    ||| config.allow_markdown_fence && reading(
        s,
        at,
        seq![Slot::Gap] + (seq![Slot::Fixed("```\n"@)] + seq![Slot::Gap]),
        start,
    )
}

/// The input at `at` is no literal for one of the texts: no quote opens it, or it stands for
/// another text.
pub open spec fn other_key(s: Seq<char>, at: int, texts: Seq<Seq<char>>) -> bool {
    at < s.len() && {
        ||| s[at] != '"'
        ||| exists|end: int, text: Seq<char>|
            at <= end <= s.len() && #[trigger] denotes(s.subrange(at, end), text)
                && !texts.contains(text)
    }
}

/// A whitespace slot alone ends where the whitespace does.
proof fn lemma_gap_alone(s: Seq<char>, at: int, end: int)
    requires
        0 <= at <= s.len(),
        reading(s, at, seq![Slot::Gap], end),
    ensures
        space_step(s, at) == StepView::Done((), end),
{
    let slots = seq![Slot::Gap];
    let m = choose|m: int| #[trigger]
        slot_read(s, at, slots[0], m) && reading(s, m, slots.drop_first(), end);
    assert(slots.drop_first().len() == 0);
    law_whitespace(s, at);
    assert(slot_read(s, at, Slot::Gap, end));
}

/// The header that starts with an object is refused as the object is.
proof fn lemma_header_from_object(s: Seq<char>, at: int, config: JsonToolCallConfig, start: int)
    requires
        0 <= at <= s.len(),
        object_at(s, at, config, start),
    ensures
        at <= start < s.len(),
        object_head_step(s, start, config) matches StepView::Failed(error) ==> header_step(
            s,
            at,
            config,
        ) == StepView::<Event>::Failed(
            SyntaxErrorView { label: Some(config.parser_name@), expected: error.expected },
        ),
{
    reveal_strlit("```json\n");
    reveal_strlit("```\n");
    lemma_space_end(s, at);
    if reading(s, at, seq![Slot::Gap], start) && !(config.allow_markdown_fence && s[start] == '`') {
        lemma_gap_alone(s, at, start);
        law_fence(s, start, config.allow_markdown_fence);
    } else {
        let long = "```json\n"@;
        let fence = if reading(
            s,
            at,
            seq![Slot::Gap] + (seq![Slot::Fixed(long)] + seq![Slot::Gap]),
            start,
        ) {
            long
        } else {
            "```\n"@
        };
        let rest = seq![Slot::Fixed(fence)] + seq![Slot::Gap];
        let m = lemma_first_apart(s, at, Slot::Gap, rest, start);
        law_whitespace(s, at);
        let n = lemma_first_apart(s, m, Slot::Fixed(fence), seq![Slot::Gap], start);
        assert(s.subrange(m, m + fence.len())[0] == s[m]);
        law_fence(s, m, true);
        lemma_gap_alone(s, n, start);
        lemma_space_end(s, n);
    }
}

/// An object up to the key of the name.
pub open spec fn opening_slots() -> Seq<Slot> {
    seq![Slot::Fixed("{"@), Slot::Gap, Slot::Fixed("\""@)]
}

/// An object up to the key of the arguments, with any name.
pub open spec fn before_key(config: JsonToolCallConfig) -> Seq<Slot> {
    name_slots(config) + (seq![Slot::AnyQuoted] + separator_slots(","@))
}

/// A wrong key is named: where the input differs from the key of the name, the error expects that
/// key, and where the key of the arguments is none of the candidates, it expects each of them.
pub proof fn law_header_expects(s: Seq<char>, at: int, config: JsonToolCallConfig, start: int)
    requires
        0 <= at <= s.len(),
        object_at(s, at, config, start),
    ensures
        forall|m: int|
            #[trigger] reading(s, start, opening_slots(), m) && !holds(
                s,
                m,
                config.name_key@,
            ) && !slot_open(s, m, Slot::Fixed(config.name_key@)) ==> header_step(s, at, config)
                == StepView::<Event>::Failed(
                SyntaxErrorView {
                    label: Some(config.parser_name@),
                    expected: seq![config.name_key@],
                },
            ),
        forall|m: int| #[trigger]
            reading(s, start, before_key(config), m) && other_key(s, m, arguments_keys(config)) ==> header_step(s, at, config)
                == StepView::<Event>::Failed(
                SyntaxErrorView {
                    label: Some(config.parser_name@),
                    expected: arguments_keys(config),
                },
            ),
{
    lemma_header_from_object(s, at, config, start);
    assert forall|m: int| #[trigger]
        reading(s, start, opening_slots(), m) && !holds(s, m, config.name_key@) && !slot_open(
            s,
            m,
            Slot::Fixed(config.name_key@),
        ) implies header_step(s, at, config) == StepView::<Event>::Failed(
        SyntaxErrorView { label: Some(config.parser_name@), expected: seq![config.name_key@] },
    ) by {
        lemma_name_refused(s, start, config, m);
    }
    assert forall|m: int| #[trigger]
        reading(s, start, before_key(config), m) && other_key(s, m, arguments_keys(config)) implies header_step(s, at, config)
        == StepView::<Event>::Failed(
        SyntaxErrorView { label: Some(config.parser_name@), expected: arguments_keys(config) },
    ) by {
        lemma_key_refused(s, start, config, m);
    }
}

/// Where an error of a header expects anything, it is one of the keys: that of the name, or behind
/// the name and a comma those of the arguments.
pub proof fn law_header_expects_keys(s: Seq<char>, at: int, config: JsonToolCallConfig, start: int)
    requires
        0 <= at <= s.len(),
        object_at(s, at, config, start),
    ensures
        header_step(s, at, config) matches StepView::Failed(error) ==> {
            ||| error.expected.len() == 0
            ||| error.expected == seq![config.name_key@] && is_read(s, start, opening_slots())
            ||| error.expected == arguments_keys(config) && is_read(s, start, before_key(config))
        },
{
    lemma_header_from_object(s, at, config, start);
    lemma_object_expects(s, start, config);
    if let StepView::Done(name, end) = object_head_step(s, start, config) {
        lemma_header_done_from_object(s, at, config, start);
    } else if object_head_step(s, start, config) is Incomplete {
        lemma_header_done_from_object(s, at, config, start);
    }
}

/// The header that starts with an object is read or awaited as the object is.
proof fn lemma_header_done_from_object(s: Seq<char>, at: int, config: JsonToolCallConfig, start: int)
    requires
        0 <= at <= s.len(),
        object_at(s, at, config, start),
    ensures
        !(object_head_step(s, start, config) is Failed) ==> !(header_step(s, at, config) is Failed),
{
    reveal_strlit("```json\n");
    reveal_strlit("```\n");
    lemma_space_end(s, at);
    if reading(s, at, seq![Slot::Gap], start) && !(config.allow_markdown_fence && s[start] == '`') {
        lemma_gap_alone(s, at, start);
        law_fence(s, start, config.allow_markdown_fence);
    } else {
        let long = "```json\n"@;
        let fence = if reading(
            s,
            at,
            seq![Slot::Gap] + (seq![Slot::Fixed(long)] + seq![Slot::Gap]),
            start,
        ) {
            long
        } else {
            "```\n"@
        };
        let rest = seq![Slot::Fixed(fence)] + seq![Slot::Gap];
        let m = lemma_first_apart(s, at, Slot::Gap, rest, start);
        law_whitespace(s, at);
        let n = lemma_first_apart(s, m, Slot::Fixed(fence), seq![Slot::Gap], start);
        assert(s.subrange(m, m + fence.len())[0] == s[m]);
        law_fence(s, m, true);
        lemma_gap_alone(s, n, start);
    }
}

/// What the refusal of the opening of an object expects.
proof fn lemma_opening_expects(s: Seq<char>, start: int, config: JsonToolCallConfig)
    requires
        0 <= start <= s.len(),
    ensures
        sequence_step(s, start, name_pieces(config)) matches StepView::Failed(error) ==> {
            ||| error.expected.len() == 0
            ||| error.expected == seq![config.name_key@] && is_read(s, start, opening_slots())
        },
{
    let first = seq![
        PieceView::Literal("{"@),
        PieceView::Space,
        PieceView::Literal("\""@),
    ];
    let named = seq![PieceView::Expected(config.name_key@)];
    let last = seq![PieceView::Literal("\""@)] + separator_pieces(":"@);
    assert(name_pieces(config) =~= first + (named + last));
    assert(slots_of(first) =~= opening_slots());
    lemma_sequence_told(s, start, first);
    lemma_sequence_split(s, start, first, named + last);
    lemma_plain_refusal(s, start, first);
    if let StepView::Done(_, m) = sequence_step(s, start, first) {
        lemma_sequence_split(s, m, named, last);
        lemma_single_refusal(s, m, config.name_key@);
        if let StepView::Done(_, k) = sequence_step(s, m, named) {
            lemma_plain_refusal(s, k, last);
        }
    }
}

/// A single text that is named as expected is what its refusal expects.
proof fn lemma_single_refusal(s: Seq<char>, at: int, text: Seq<char>)
    ensures
        sequence_step(s, at, seq![PieceView::Expected(text)]) matches StepView::Failed(error)
            ==> error.expected == seq![text],
{
    let pieces = seq![PieceView::Expected(text)];
    reveal_with_fuel(sequence_step, 2);
    assert(pieces.drop_first().len() == 0);
}

/// What the refusal of an object's head expects.
proof fn lemma_object_expects(s: Seq<char>, start: int, config: JsonToolCallConfig)
    requires
        0 <= start <= s.len(),
    ensures
        object_head_step(s, start, config) matches StepView::Failed(error) ==> {
            ||| error.expected.len() == 0
            ||| error.expected == seq![config.name_key@] && is_read(s, start, opening_slots())
            ||| error.expected == arguments_keys(config) && is_read(s, start, before_key(config))
        },
{
    let pieces = name_pieces(config);
    lemma_opening_expects(s, start, config);
    assert(slots_of(pieces) =~= name_slots(config));
    lemma_sequence_told(s, start, pieces);
    if let StepView::Done(_, k) = sequence_step(s, start, pieces) {
        lemma_after_name_expects(s, start, k, config);
    }
}

/// What the refusal behind the function name expects.
proof fn lemma_name_end_expects(s: Seq<char>, at: int, config: JsonToolCallConfig)
    requires
        0 <= at <= s.len(),
    ensures
        name_end_step(s, at, config) matches StepView::Failed(error) ==> {
            ||| error.expected.len() == 0
            ||| error.expected == arguments_keys(config) && is_read(s, at, separator_slots(","@))
        },
{
    let keys = config.keys();
    assert(keys =~= arguments_keys(config));
    let comma = separator_pieces(","@);
    assert(slots_of(comma) =~= separator_slots(","@));
    lemma_sequence_told(s, at, comma);
    lemma_plain_refusal(s, at, comma);
    if let StepView::Done(_, m) = sequence_step(s, at, comma) {
        law_arguments_key(s, m, keys);
        if let StepView::Done(_, e) = arguments_key_step(s, m, keys) {
            lemma_plain_refusal(s, e, separator_pieces(":"@));
        }
    }
}

/// An opening, a name and a comma lead to the key of the arguments.
proof fn lemma_before_key(s: Seq<char>, start: int, k: int, n: int, config: JsonToolCallConfig)
    requires
        reading(s, start, name_slots(config), k),
        slot_read(s, k, Slot::AnyQuoted, n),
        is_read(s, n, separator_slots(","@)),
    ensures
        is_read(s, start, before_key(config)),
{
    let m = choose|m: int| reading(s, n, separator_slots(","@), m);
    let rest = seq![Slot::AnyQuoted] + separator_slots(","@);
    lemma_first_read(s, k, Slot::AnyQuoted, separator_slots(","@), n);
    assert(reading(s, k, rest, m));
    lemma_reading_append(s, start, name_slots(config), rest, m);
    assert(reading(s, start, before_key(config), m));
}

/// What the refusal behind the opening of an object expects.
proof fn lemma_after_name_expects(s: Seq<char>, start: int, k: int, config: JsonToolCallConfig)
    requires
        0 <= start <= k <= s.len(),
        reading(s, start, name_slots(config), k),
    ensures
        json_str_step(s, k) matches StepView::Failed(error) ==> error.expected.len() == 0,
        json_str_step(s, k) matches StepView::Done(_, n) ==> (name_end_step(s, n, config) matches
            StepView::Failed(error) ==> {
            ||| error.expected.len() == 0
            ||| error.expected == arguments_keys(config) && is_read(s, start, before_key(config))
        }),
{
    law_string_settled(s, k);
    if let StepView::Done(name, n) = json_str_step(s, k) {
        law_string(s, k, name, n);
        assert(slot_read(s, k, Slot::AnyQuoted, n));
        lemma_name_end_expects(s, n, config);
        if is_read(s, n, separator_slots(","@)) {
            lemma_before_key(s, start, k, n, config);
        }
    }
}

/// The key of the name is refused.
proof fn lemma_name_refused(s: Seq<char>, start: int, config: JsonToolCallConfig, m: int)
    requires
        0 <= start <= s.len(),
        reading(s, start, opening_slots(), m),
        !holds(s, m, config.name_key@),
        !slot_open(s, m, Slot::Fixed(config.name_key@)),
    ensures
        object_head_step(s, start, config) == StepView::<Seq<char>>::Failed(
            SyntaxErrorView { label: None, expected: seq![config.name_key@] },
        ),
{
    let first = seq![
        PieceView::Literal("{"@),
        PieceView::Space,
        PieceView::Literal("\""@),
    ];
    let second = seq![PieceView::Expected(config.name_key@), PieceView::Literal("\""@)]
        + separator_pieces(":"@);
    assert(name_pieces(config) =~= first + second);
    assert(slots_of(first) =~= seq![Slot::Fixed("{"@), Slot::Gap, Slot::Fixed("\""@)]);
    lemma_sequence_told(s, start, first);
    lemma_sequence_split(s, start, first, second);
    law_fixed(s, m, config.name_key@);
    assert(second[0] == PieceView::Expected(config.name_key@));
}

/// The key of the arguments is refused.
proof fn lemma_key_refused(s: Seq<char>, start: int, config: JsonToolCallConfig, m: int)
    requires
        0 <= start <= s.len(),
        reading(s, start, before_key(config), m),
        other_key(s, m, arguments_keys(config)),
    ensures
        object_head_step(s, start, config) == StepView::<Seq<char>>::Failed(
            SyntaxErrorView { label: None, expected: arguments_keys(config) },
        ),
{
    let keys = config.keys();
    assert(keys =~= arguments_keys(config));
    let pieces = name_pieces(config);
    let comma = separator_pieces(","@);
    let rest = seq![Slot::AnyQuoted] + separator_slots(","@);
    assert(slots_of(pieces) =~= name_slots(config));
    assert(slots_of(comma) =~= separator_slots(","@));
    lemma_sequence_told(s, start, pieces);
    lemma_reading_append(s, start, name_slots(config), rest, m);
    let k = choose|k: int| #[trigger]
        reading(s, start, name_slots(config), k) && reading(s, k, rest, m);
    assert(sequence_step(s, start, pieces) == StepView::Done((), k));
    let n = lemma_first_apart(s, k, Slot::AnyQuoted, separator_slots(","@), m);
    let name = choose|name: Seq<char>| #[trigger] denotes(s.subrange(k, n), name);
    law_string(s, k, name, n);
    lemma_sequence_told(s, n, comma);
    assert(sequence_step(s, n, comma) == StepView::Done((), m));
    law_arguments_key(s, m, keys);
    law_string_settled(s, m);
    if s[m] == '"' {
        let (end, text) = choose|end: int, text: Seq<char>|
            m <= end <= s.len() && #[trigger] denotes(s.subrange(m, end), text) && !keys.contains(
                text,
            );
        law_string(s, m, text, end);
    }
    assert(arguments_key_step(s, m, keys) is Failed);
}

} // verus!
