//! What is read is what is written: each construct of the grammar is read where the input holds it,
//! awaited where the input may go on to hold it, and refused elsewhere.

use vstd::prelude::*;

use crate::config::{JsonToolCallConfig, JsonToolCallWhitespace};
use crate::event::{
    Event, close_pieces, close_step, delimiter_step, end_pieces, end_step, fence_step, key_pieces,
    separator_pieces, start_pieces, start_step,
};
use crate::laws::literals::{denotes, holds};
use crate::laws::scans::quoted_run;
use crate::lex::{agrees, literal_step, space_end, space_step};
use crate::sequence::{Piece, PieceView, lemma_sequence_bounds, piece_step, sequence_step};
use crate::step::{StepView, SyntaxErrorView};

verus! {

/// Space, tab, carriage return and line feed.
pub open spec fn blank(c: char) -> bool {
    c as int == 32 || c as int == 9 || c as int == 13 || c as int == 10
}

/// A part of a construct: whitespace of any amount, a fixed text, a string literal for a given
/// text, any string literal, or a string literal for one of some texts.
pub enum Slot {
    Gap,
    Fixed(Seq<char>),
    Quoted(Seq<char>),
    AnyQuoted,
    OneQuoted(Seq<Seq<char>>),
}

/// The input holds the part from `at` to `end`. Whitespace is taken whole: it ends where another
/// character follows it.
pub open spec fn slot_read(s: Seq<char>, at: int, slot: Slot, end: int) -> bool {
    match slot {
        Slot::Gap => {
            &&& at <= end < s.len()
            &&& forall|i: int| at <= i < end ==> blank(#[trigger] s[i])
            &&& !blank(s[end])
        },
        Slot::Fixed(text) => holds(s, at, text) && end == at + text.len(),
        Slot::Quoted(text) => at <= end <= s.len() && denotes(s.subrange(at, end), text),
        Slot::AnyQuoted => at <= end <= s.len() && exists|text: Seq<char>|
            #[trigger] denotes(s.subrange(at, end), text),
        Slot::OneQuoted(texts) => at <= end <= s.len() && exists|text: Seq<char>|
            #[trigger] denotes(s.subrange(at, end), text) && texts.contains(text),
    }
}

/// The input ends inside a string literal or before it: there is no closing quote yet.
pub open spec fn unclosed(s: Seq<char>, at: int) -> bool {
    at == s.len() || s[at] == '"' && forall|k: int| !#[trigger] quoted_run(s.skip(at), k)
}

/// The input ends inside the part or before it.
pub open spec fn slot_open(s: Seq<char>, at: int, slot: Slot) -> bool {
    match slot {
        Slot::Gap => forall|i: int| at <= i < s.len() ==> blank(#[trigger] s[i]),
        Slot::Fixed(text) => {
            &&& s.len() - at < text.len()
            &&& s.skip(at) == text.take(s.len() - at)
        },
        _ => unclosed(s, at),
    }
}

/// The input holds the parts one behind the other, from `at` to `end`.
pub open spec fn reading(s: Seq<char>, at: int, slots: Seq<Slot>, end: int) -> bool
    decreases slots.len(),
{
    if slots.len() == 0 {
        end == at
    } else {
        exists|m: int| #[trigger]
            slot_read(s, at, slots[0], m) && reading(s, m, slots.drop_first(), end)
    }
}

/// The input holds the first parts one behind the other and ends inside the next or before it.
pub open spec fn awaiting(s: Seq<char>, at: int, slots: Seq<Slot>) -> bool
    decreases slots.len(),
{
    slots.len() > 0 && {
        ||| slot_open(s, at, slots[0])
        ||| exists|m: int| #[trigger]
            slot_read(s, at, slots[0], m) && awaiting(s, m, slots.drop_first())
    }
}

/// The input holds the parts, whatever their end.
pub open spec fn is_read(s: Seq<char>, at: int, slots: Seq<Slot>) -> bool {
    exists|end: int| reading(s, at, slots, end)
}

/// What a step on the parts of a construct comes to: the value and the end of them where they are
/// read, nothing yet where they are awaited, and otherwise a refusal.
pub open spec fn told<T>(s: Seq<char>, at: int, slots: Seq<Slot>, step: StepView<T>, value: T) -> bool {
    &&& forall|end: int| #[trigger]
        reading(s, at, slots, end) ==> step == StepView::Done(value, end)
    &&& awaiting(s, at, slots) ==> step == StepView::<T>::Incomplete
    &&& !is_read(s, at, slots) && !awaiting(s, at, slots) ==> step is Failed
}

/// The part that a piece reads.
pub open spec fn slot_of(piece: PieceView) -> Slot {
    match piece {
        PieceView::Space => Slot::Gap,
        PieceView::Literal(text) => Slot::Fixed(text),
        PieceView::Expected(text) => Slot::Fixed(text),
    }
}

/// The parts that pieces read.
pub open spec fn slots_of(pieces: Seq<PieceView>) -> Seq<Slot> {
    pieces.map_values(|piece: PieceView| slot_of(piece))
}

/// A whitespace run ends at the first character that is none.
pub proof fn lemma_space_end(s: Seq<char>, at: int)
    requires
        0 <= at <= s.len(),
    ensures
        at <= space_end(s, at) <= s.len(),
        forall|i: int| at <= i < space_end(s, at) ==> blank(#[trigger] s[i]),
        space_end(s, at) < s.len() ==> !blank(s[space_end(s, at)]),
    decreases s.len() - at,
{
    if at < s.len() && blank(s[at]) {
        lemma_space_end(s, at + 1);
    }
}

/// Whitespace of any amount is read up to the first other character, and awaited as long as there
/// is none.
pub proof fn law_whitespace(s: Seq<char>, at: int)
    requires
        0 <= at <= s.len(),
    ensures
        forall|end: int|
            #![trigger slot_read(s, at, Slot::Gap, end)]
            slot_read(s, at, Slot::Gap, end) <==> space_step(s, at) == StepView::Done((), end),
        slot_open(s, at, Slot::Gap) <==> space_step(s, at) is Incomplete,
        !(space_step(s, at) is Failed),
{
    lemma_space_end(s, at);
    let end = space_end(s, at);
    assert forall|other: int|
        #![trigger slot_read(s, at, Slot::Gap, other)]
        slot_read(s, at, Slot::Gap, other) implies other == end by {
        if other < end {
            assert(blank(s[other]));
        } else if end < other {
            assert(blank(s[end]));
        }
    }
    if end < s.len() {
        assert(slot_read(s, at, Slot::Gap, end));
    }
}

/// A fixed text is read where the input holds it, awaited where the input ends inside it, and
/// refused on any difference.
pub proof fn law_fixed(s: Seq<char>, at: int, text: Seq<char>)
    requires
        0 <= at <= s.len(),
    ensures
        holds(s, at, text) <==> literal_step(s, at, text) == StepView::Done((), at + text.len()),
        holds(s, at, text) <==> literal_step(s, at, text) is Done,
        slot_open(s, at, Slot::Fixed(text)) <==> literal_step(s, at, text) is Incomplete,
        literal_step(s, at, text) matches StepView::Failed(error) ==> error == (SyntaxErrorView {
            label: None,
            expected: Seq::empty(),
        }),
{
    if holds(s, at, text) {
        assert forall|k: int| 0 <= k < text.len() && at + k < s.len() implies s[at + k]
            == #[trigger] text[k] by {
            assert(s.subrange(at, at + text.len())[k] == s[at + k]);
        }
    }
    if slot_open(s, at, Slot::Fixed(text)) {
        assert forall|k: int| 0 <= k < text.len() && at + k < s.len() implies s[at + k]
            == #[trigger] text[k] by {
            assert(s.skip(at)[k] == text.take(s.len() - at)[k]);
        }
    }
    if agrees(s, at, text) {
        if at + text.len() <= s.len() {
            assert(s.subrange(at, at + text.len()) =~= text) by {
                assert forall|k: int| 0 <= k < text.len() implies s[at + k] == text[k] by {}
            }
        } else {
            assert(s.skip(at) =~= text.take(s.len() - at)) by {
                assert forall|k: int| 0 <= k < s.len() - at implies s[at + k] == text[k] by {}
            }
        }
    }
}

/// A piece is read, awaited or refused as its part is.
proof fn lemma_piece_told(s: Seq<char>, at: int, piece: PieceView)
    requires
        0 <= at <= s.len(),
    ensures
        forall|end: int|
            #![trigger slot_read(s, at, slot_of(piece), end)]
            slot_read(s, at, slot_of(piece), end) <==> piece_step(s, at, piece) == StepView::Done(
                (),
                end,
            ),
        slot_open(s, at, slot_of(piece)) <==> piece_step(s, at, piece) is Incomplete,
        piece_step(s, at, piece) matches StepView::Done(_, end) ==> at <= end <= s.len(),
{
    match piece {
        PieceView::Space => {
            law_whitespace(s, at);
            lemma_space_end(s, at);
        },
        PieceView::Literal(text) => law_fixed(s, at, text),
        PieceView::Expected(text) => law_fixed(s, at, text),
    }
}

/// A sequence is read, awaited or refused as its parts are.
pub proof fn lemma_sequence_told(s: Seq<char>, at: int, pieces: Seq<PieceView>)
    requires
        0 <= at <= s.len(),
    ensures
        told(s, at, slots_of(pieces), sequence_step(s, at, pieces), ()),
        is_read(s, at, slots_of(pieces)) <==> sequence_step(s, at, pieces) is Done,
        awaiting(s, at, slots_of(pieces)) <==> sequence_step(s, at, pieces) is Incomplete,
        sequence_step(s, at, pieces) matches StepView::Done(_, end) ==> {
            &&& at <= end <= s.len()
            &&& reading(s, at, slots_of(pieces), end)
        },
    decreases pieces.len(),
{
    let slots = slots_of(pieces);
    if pieces.len() == 0 {
        assert(reading(s, at, slots, at));
    } else {
        let rest = pieces.drop_first();
        assert(slots.drop_first() =~= slots_of(rest));
        assert(slots[0] == slot_of(pieces[0]));
        lemma_piece_told(s, at, pieces[0]);
        match piece_step(s, at, pieces[0]) {
            StepView::Done(_, m) => {
                lemma_sequence_told(s, m, rest);
                assert(slot_read(s, at, slots[0], m));
                assert forall|end: int| #[trigger] reading(s, at, slots, end) implies
                    sequence_step(s, at, pieces) == StepView::Done((), end) by {
                    assert(reading(s, m, slots_of(rest), end));
                }
                if let StepView::Done(_, end) = sequence_step(s, m, rest) {
                    assert(reading(s, at, slots, end));
                }
            },
            StepView::Incomplete => {
                assert forall|end: int| !#[trigger] reading(s, at, slots, end) by {}
            },
            StepView::Failed(_) => {
                assert forall|end: int| !#[trigger] reading(s, at, slots, end) by {}
            },
        }
    }
}

/// Pieces are read one behind the other as their parts are. The refusal of a piece that is named as
/// expected says so, and that of another says nothing more.
pub proof fn law_pieces(
    s: Seq<char>,
    at: int,
    piece: PieceView,
    pieces: Seq<PieceView>,
    text: &'static str,
)
    requires
        0 <= at <= s.len(),
    ensures
        told(s, at, slots_of(pieces), sequence_step(s, at, pieces), ()),
        piece_step(s, at, piece) matches StepView::Failed(error) ==> error == (SyntaxErrorView {
            label: None,
            expected: if piece is Expected {
                seq![piece->Expected_0]
            } else {
                Seq::empty()
            },
        }),
        Piece::Space@ == PieceView::Space,
        Piece::Literal(text)@ == PieceView::Literal(text@),
        Piece::Expected(text)@ == PieceView::Expected(text@),
{
    lemma_sequence_told(s, at, pieces);
}

/// The whitespace that a format has next to its markers.
pub open spec fn space_slot(config: JsonToolCallConfig) -> Slot {
    match config.marker_whitespace {
        JsonToolCallWhitespace::Optional => Slot::Gap,
        JsonToolCallWhitespace::Exact(text) => Slot::Fixed(text@),
    }
}

/// The whitespace next to a marker is that of the format.
pub proof fn law_marker_space(s: Seq<char>, at: int, config: JsonToolCallConfig)
    requires
        0 <= at <= s.len(),
    ensures
        told(
            s,
            at,
            seq![space_slot(config)],
            sequence_step(s, at, seq![config.space()]),
            (),
        ),
        sequence_step(s, at, seq![config.space()]) matches StepView::Failed(error) ==> error == (
        SyntaxErrorView { label: None, expected: Seq::empty() }),
{
    lemma_plain_refusal(s, at, seq![config.space()]);
    lemma_sequence_told(s, at, seq![config.space()]);
    assert(slots_of(seq![config.space()]) =~= seq![space_slot(config)]);
}

/// A tool call starts with the start marker and the whitespace of the format, and with nothing
/// else.
pub proof fn law_start(s: Seq<char>, at: int, config: JsonToolCallConfig)
    requires
        0 <= at <= s.len(),
    ensures
        told(
            s,
            at,
            seq![Slot::Fixed(config.start_marker@), space_slot(config)],
            start_step(s, at, config),
            Event::ToolCallStart,
        ),
        start_step(s, at, config) matches StepView::Failed(error) ==> error == (
        SyntaxErrorView { label: None, expected: Seq::empty() }),
{
    lemma_plain_refusal(s, at, start_pieces(config));
    let slots = seq![Slot::Fixed(config.start_marker@), space_slot(config)];
    lemma_sequence_told(s, at, start_pieces(config));
    assert(slots_of(start_pieces(config)) =~= slots);
}

/// The end of a block: the end marker behind the whitespace of the format, and behind a fenced call
/// the closing of the fence before it.
pub open spec fn end_slots(fenced: bool, config: JsonToolCallConfig) -> Seq<Slot> {
    if fenced {
        seq![
            space_slot(config),
            Slot::Fixed("```"@),
            space_slot(config),
            Slot::Fixed(config.end_marker@),
        ]
    } else {
        seq![space_slot(config), Slot::Fixed(config.end_marker@)]
    }
}

/// A separator with whitespace around it.
pub open spec fn separator_slots(separator: Seq<char>) -> Seq<Slot> {
    seq![Slot::Gap, Slot::Fixed(separator), Slot::Gap]
}

/// The brace that closes an object, behind whitespace.
pub open spec fn brace_slots() -> Seq<Slot> {
    seq![Slot::Gap, Slot::Fixed("}"@)]
}

/// A block ends with its end marker, and behind a fenced call with the closing of the fence too.
pub proof fn law_end(s: Seq<char>, at: int, fenced: bool, config: JsonToolCallConfig)
    requires
        0 <= at <= s.len(),
    ensures
        told(
            s,
            at,
            end_slots(fenced, config),
            end_step(s, at, fenced, config),
            Event::ToolCallEnd { fenced },
        ),
        end_step(s, at, fenced, config) matches StepView::Failed(error) ==> error == (
        SyntaxErrorView { label: None, expected: Seq::empty() }),
{
    lemma_plain_refusal(s, at, end_pieces(fenced, config));
    lemma_sequence_told(s, at, end_pieces(fenced, config));
    assert(slots_of(end_pieces(fenced, config)) =~= end_slots(fenced, config));
}

/// Two calls of a block stand apart by the delimiter, with whitespace around it.
pub proof fn law_delimiter(s: Seq<char>, at: int, delimiter: Seq<char>)
    requires
        0 <= at <= s.len(),
    ensures
        told(
            s,
            at,
            separator_slots(delimiter),
            delimiter_step(s, at, delimiter),
            Event::ToolCallDelimiter,
        ),
        delimiter_step(s, at, delimiter) matches StepView::Failed(error) ==> error == (
        SyntaxErrorView { label: None, expected: Seq::empty() }),
{
    lemma_plain_refusal(s, at, separator_pieces(delimiter));
    lemma_sequence_told(s, at, separator_pieces(delimiter));
    assert(slots_of(separator_pieces(delimiter)) =~= separator_slots(delimiter));
}

/// A given key is read with its quotes, letter for letter.
pub proof fn law_key(s: Seq<char>, at: int, key: Seq<char>)
    requires
        0 <= at <= s.len(),
    ensures
        told(
            s,
            at,
            seq![Slot::Fixed("\""@), Slot::Fixed(key), Slot::Fixed("\""@)],
            sequence_step(s, at, key_pieces(key)),
            (),
        ),
        holds(s, at, "\""@) && !holds(s, at + 1, key) && !slot_open(s, at + 1, Slot::Fixed(key))
            ==> sequence_step(s, at, key_pieces(key)) == StepView::<()>::Failed(
            SyntaxErrorView { label: None, expected: seq![key] },
        ),
        !holds(s, at, "\""@) || holds(s, at + 1, key) ==> (sequence_step(s, at, key_pieces(key)) matches
            StepView::Failed(error) ==> error == (SyntaxErrorView {
            label: None,
            expected: Seq::empty(),
        })),
{
    reveal_strlit("\"");
    reveal_with_fuel(sequence_step, 4);
    let pieces = key_pieces(key);
    assert(pieces.drop_first()[0] == PieceView::Expected(key));
    assert(pieces.drop_first().drop_first()[0] == PieceView::Literal("\""@));
    assert(pieces.drop_first().drop_first().drop_first().len() == 0);
    law_fixed(s, at, "\""@);
    if holds(s, at, "\""@) {
        law_fixed(s, at + 1, key);
    }
    lemma_sequence_told(s, at, key_pieces(key));
    assert(slots_of(key_pieces(key)) =~= seq![
        Slot::Fixed("\""@),
        Slot::Fixed(key),
        Slot::Fixed("\""@),
    ]);
}

/// Parts one behind the other are read where the first ones are, and behind them the others.
pub proof fn lemma_reading_append(s: Seq<char>, at: int, first: Seq<Slot>, second: Seq<Slot>, end: int)
    ensures
        reading(s, at, first + second, end) <==> exists|m: int| #[trigger]
            reading(s, at, first, m) && reading(s, m, second, end),
    decreases first.len(),
{
    let both = first + second;
    if first.len() == 0 {
        assert(both =~= second);
        assert(reading(s, at, first, at));
    } else {
        let rest = first.drop_first();
        assert(both.drop_first() =~= rest + second);
        assert(both[0] == first[0]);
        if reading(s, at, both, end) {
            let k = choose|k: int| #[trigger]
                slot_read(s, at, both[0], k) && reading(s, k, both.drop_first(), end);
            lemma_reading_append(s, k, rest, second, end);
            let m = choose|m: int| #[trigger]
                reading(s, k, rest, m) && reading(s, m, second, end);
            assert(slot_read(s, at, first[0], k));
            assert(reading(s, at, first, m));
        }
        if exists|m: int| #[trigger] reading(s, at, first, m) && reading(s, m, second, end) {
            let m = choose|m: int| #[trigger]
                reading(s, at, first, m) && reading(s, m, second, end);
            let k = choose|k: int| #[trigger]
                slot_read(s, at, first[0], k) && reading(s, k, rest, m);
            lemma_reading_append(s, k, rest, second, end);
            assert(slot_read(s, at, both[0], k));
            assert(reading(s, k, both.drop_first(), end));
        }
    }
}

/// Parts one behind the other are awaited where the first ones are, or behind them the others.
pub proof fn lemma_awaiting_append(s: Seq<char>, at: int, first: Seq<Slot>, second: Seq<Slot>)
    ensures
        awaiting(s, at, first + second) <==> {
            ||| awaiting(s, at, first)
            ||| exists|m: int| #[trigger] reading(s, at, first, m) && awaiting(s, m, second)
        },
    decreases first.len(),
{
    let both = first + second;
    if first.len() == 0 {
        assert(both =~= second);
        assert(reading(s, at, first, at));
    } else {
        let rest = first.drop_first();
        assert(both.drop_first() =~= rest + second);
        assert(both[0] == first[0]);
        if awaiting(s, at, both) && !slot_open(s, at, both[0]) {
            let k = choose|k: int| #[trigger]
                slot_read(s, at, both[0], k) && awaiting(s, k, both.drop_first());
            lemma_awaiting_append(s, k, rest, second);
            assert(slot_read(s, at, first[0], k));
            if !awaiting(s, k, rest) {
                let m = choose|m: int| #[trigger] reading(s, k, rest, m) && awaiting(s, m, second);
                assert(reading(s, at, first, m));
            }
        }
        if awaiting(s, at, first) && !slot_open(s, at, first[0]) {
            let k = choose|k: int| #[trigger]
                slot_read(s, at, first[0], k) && awaiting(s, k, rest);
            lemma_awaiting_append(s, k, rest, second);
            assert(slot_read(s, at, both[0], k));
        }
        if exists|m: int| #[trigger] reading(s, at, first, m) && awaiting(s, m, second) {
            let m = choose|m: int| #[trigger] reading(s, at, first, m) && awaiting(s, m, second);
            let k = choose|k: int| #[trigger]
                slot_read(s, at, first[0], k) && reading(s, k, rest, m);
            lemma_awaiting_append(s, k, rest, second);
            assert(slot_read(s, at, both[0], k));
        }
    }
}

/// What closes a tool call and ends its block.
pub open spec fn ending(fenced: bool, config: JsonToolCallConfig) -> Seq<Slot> {
    brace_slots() + end_slots(fenced, config)
}

/// What closes a tool call and leads to the next.
pub open spec fn leading_on(delimiter: Seq<char>) -> Seq<Slot> {
    brace_slots() + separator_slots(delimiter)
}

/// A step on the parts behind others is told by all of them.
proof fn lemma_told_append<T>(
    s: Seq<char>,
    at: int,
    pieces: Seq<PieceView>,
    second: Seq<Slot>,
    step: StepView<T>,
    value: T,
)
    requires
        0 <= at <= s.len(),
        sequence_step(s, at, pieces) matches StepView::Done(_, m) ==> told(
            s,
            m,
            second,
            step,
            value,
        ),
        sequence_step(s, at, pieces) is Incomplete ==> step == StepView::<T>::Incomplete,
        sequence_step(s, at, pieces) is Failed ==> step is Failed,
    ensures
        told(s, at, slots_of(pieces) + second, step, value),
{
    let first = slots_of(pieces);
    let both = first + second;
    lemma_sequence_told(s, at, pieces);
    assert forall|end: int| #[trigger] reading(s, at, both, end) implies step == StepView::Done(
        value,
        end,
    ) by {
        lemma_reading_append(s, at, first, second, end);
        let m = choose|m: int| #[trigger]
            reading(s, at, first, m) && reading(s, m, second, end);
    }
    lemma_awaiting_append(s, at, first, second);
    if awaiting(s, at, both) && !awaiting(s, at, first) {
        let m = choose|m: int| #[trigger] reading(s, at, first, m) && awaiting(s, m, second);
    }
    if !is_read(s, at, both) && !awaiting(s, at, both) {
        if let StepView::Done(_, m) = sequence_step(s, at, pieces) {
            assert(reading(s, at, first, m));
            assert forall|end: int| !#[trigger] reading(s, m, second, end) by {
                lemma_reading_append(s, at, first, second, end);
                if reading(s, m, second, end) {
                    assert(reading(s, at, both, end));
                }
            }
        }
    }
}

/// A call is closed only behind the brace that closes its object. With the end marker behind the
/// brace the block ends; where the end can neither be read nor come yet, and the format has a
/// delimiter, the delimiter leads to the next call; and anything else is refused.
pub proof fn law_close(s: Seq<char>, at: int, fenced: bool, config: JsonToolCallConfig)
    requires
        0 <= at <= s.len(),
    ensures
        ({
            let step = close_step(s, at, fenced, config);
            let end = ending(fenced, config);
            if is_read(s, at, end) || awaiting(s, at, end) || config.delimiter is None {
                told(s, at, end, step, Event::ToolCallEnd { fenced })
            } else {
                told(s, at, leading_on(config.delimiter->0@), step, Event::ToolCallDelimiter)
            }
        }),
        close_step(s, at, fenced, config) matches StepView::Failed(error) ==> error == (
        SyntaxErrorView { label: None, expected: Seq::empty() }),
{
    let pieces = close_pieces();
    let step = close_step(s, at, fenced, config);
    let end = ending(fenced, config);
    assert(slots_of(pieces) =~= brace_slots());
    lemma_sequence_told(s, at, pieces);
    if let StepView::Done(_, m) = sequence_step(s, at, pieces) {
        law_end(s, m, fenced, config);
        if let Some(delimiter) = config.delimiter {
            law_delimiter(s, m, delimiter@);
        }
        let ended = end_step(s, m, fenced, config);
        let event = Event::ToolCallEnd { fenced };
        lemma_told_append(s, at, pieces, end_slots(fenced, config), ended, event);
        if ended is Failed && config.delimiter is Some {
            assert(!is_read(s, at, end)) by {
                if is_read(s, at, end) {
                    let e = choose|e: int| reading(s, at, end, e);
                    assert(reading(s, at, end, e));
                }
            }
            lemma_told_append(
                s,
                at,
                pieces,
                separator_slots(config.delimiter->0@),
                step,
                Event::ToolCallDelimiter,
            );
        }
    } else {
        let event = Event::ToolCallEnd { fenced };
        lemma_told_append(s, at, pieces, end_slots(fenced, config), step, event);
        if let Some(delimiter) = config.delimiter {
            let event = Event::ToolCallDelimiter;
            lemma_told_append(s, at, pieces, separator_slots(delimiter@), step, event);
        }
    }
    lemma_plain_refusal(s, at, pieces);
    if let StepView::Done(_, m) = sequence_step(s, at, pieces) {
        lemma_plain_refusal(s, m, end_pieces(fenced, config));
        if let Some(delimiter) = config.delimiter {
            lemma_plain_refusal(s, m, separator_pieces(delimiter@));
        }
    }
}

/// Where no text is named as expected, a refusal says nothing more.
pub proof fn lemma_plain_refusal(s: Seq<char>, at: int, pieces: Seq<PieceView>)
    requires
        forall|i: int| 0 <= i < pieces.len() ==> !((#[trigger] pieces[i]) is Expected),
    ensures
        sequence_step(s, at, pieces) matches StepView::Failed(error) ==> error == (
        SyntaxErrorView { label: None, expected: Seq::empty() }),
    decreases pieces.len(),
{
    if pieces.len() > 0 {
        if let StepView::Done(_, m) = piece_step(s, at, pieces[0]) {
            lemma_plain_refusal(s, m, pieces.drop_first());
        }
    }
}

/// The brace that closes the object comes first: whatever closes a call holds it behind nothing but
/// whitespace, and where another character comes first the call is refused.
pub proof fn law_close_brace(s: Seq<char>, at: int, fenced: bool, config: JsonToolCallConfig)
    requires
        0 <= at <= s.len(),
    ensures
        close_step(s, at, fenced, config) matches StepView::Done(_, next) ==> exists|m: int|
            at <= m < next <= s.len() && #[trigger] s[m] == '}' && forall|i: int|
                at <= i < m ==> blank(#[trigger] s[i]),
        forall|m: int|
            at <= m < s.len() && !blank(#[trigger] s[m]) && s[m] != '}' && (forall|i: int|
                at <= i < m ==> blank(#[trigger] s[i])) ==> close_step(s, at, fenced, config)
                is Failed,
{
    reveal_strlit("}");
    let pieces = close_pieces();
    reveal_with_fuel(sequence_step, 3);
    assert(pieces.drop_first()[0] == PieceView::Literal("}"@));
    assert(pieces.drop_first().drop_first().len() == 0);
    lemma_space_end(s, at);
    let m = space_end(s, at);
    law_fixed(s, m, "}"@);
    if let StepView::Done(_, next) = close_step(s, at, fenced, config) {
        assert(holds(s, m, "}"@));
        assert(s.subrange(m, m + 1)[0] == s[m]);
        lemma_sequence_bounds(s, m + 1, end_pieces(fenced, config));
        if let Some(delimiter) = config.delimiter {
            lemma_sequence_bounds(s, m + 1, separator_pieces(delimiter@));
        }
        assert(s[m] == '}');
    }
    assert forall|k: int|
        at <= k < s.len() && !blank(#[trigger] s[k]) && s[k] != '}' && (forall|i: int|
            at <= i < k ==> blank(#[trigger] s[i])) implies close_step(s, at, fenced, config)
        is Failed by {
        assert(k == m) by {
            if k < m {
                assert(blank(s[k]));
            } else if m < k {
                assert(blank(s[m]));
            }
        }
        if holds(s, m, "}"@) {
            assert(s.subrange(m, m + 1)[0] == s[m]);
        }
        if slot_open(s, m, Slot::Fixed("}"@)) {
            assert(s.len() - m < 1);
        }
    }
}

/// A fence may open where fences are enabled and a backquote comes: with the name of the language
/// or without it, and with nothing else.
pub proof fn law_fence(s: Seq<char>, at: int, enabled: bool)
    requires
        0 <= at <= s.len(),
    ensures
        !(enabled && at < s.len() && s[at] == '`') ==> fence_step(s, at, enabled)
            == StepView::Done(false, at),
        enabled && at < s.len() && s[at] == '`' ==> {
            &&& holds(s, at, "```json\n"@) ==> fence_step(s, at, enabled) == StepView::Done(
                true,
                at + 8,
            )
            &&& holds(s, at, "```\n"@) ==> fence_step(s, at, enabled) == StepView::Done(
                true,
                at + 4,
            )
            &&& slot_open(s, at, Slot::Fixed("```json\n"@)) <==> fence_step(s, at, enabled)
                is Incomplete
            &&& !holds(s, at, "```json\n"@) && !holds(s, at, "```\n"@) && !slot_open(
                s,
                at,
                Slot::Fixed("```json\n"@),
            ) ==> fence_step(s, at, enabled) == StepView::<bool>::Failed(
                SyntaxErrorView { label: None, expected: Seq::empty() },
            )
        },
{
    reveal_strlit("```json\n");
    reveal_strlit("```\n");
    let long = "```json\n"@;
    let short = "```\n"@;
    law_fixed(s, at, long);
    law_fixed(s, at, short);
    if holds(s, at, short) {
        assert(s.subrange(at, at + 4)[3] == s[at + 3]);
        if holds(s, at, long) {
            assert(s.subrange(at, at + 8)[3] == s[at + 3]);
        }
        if slot_open(s, at, Slot::Fixed(long)) {
            assert(s.skip(at)[3] == long.take(s.len() - at)[3]);
        }
    }
    if slot_open(s, at, Slot::Fixed(short)) {
        assert(s.skip(at) =~= long.take(s.len() - at)) by {
            assert forall|k: int| 0 <= k < s.len() - at implies s.skip(at)[k] == long[k] by {
                assert(s.skip(at)[k] == short.take(s.len() - at)[k]);
            }
        }
    }
}

} // verus!
