//! Blocks of tool calls that are written down are read back.

use vstd::prelude::*;

use crate::bytes::{byte_len, lemma_chars_in};
use crate::config::{JsonToolCallConfig, JsonToolCallWhitespace};
use crate::event::{
    Event, Mode, after_object_step, close_pieces, end_pieces, end_step, event_step, header_step,
    lemma_arguments_event, lemma_text_event, start_pieces, start_step,
};
use crate::laws::chunking::{lemma_no_start, lemma_run_extends};
use crate::laws::conservation::{free_of, law_plain_text, lemma_append_contents};
use crate::laws::joining::{
    arguments_part, lemma_find_call, lemma_find_call_at, lemma_push_contents,
};
use crate::laws::literals::{holds, lemma_holds_append};
use crate::laws::objects::is_object_text;
use crate::laws::round_trip::{
    CallText, all_space, law_header, lemma_held_first, lemma_literal_held, lemma_separator_read,
    lemma_space_held, solid, starts_solid,
};
use crate::lex::{agrees, is_space, space_end};
use crate::object::ObjectScan;
use crate::output::{
    DeltaView, OutputEvent, calls_of, deltas_of, merged_calls, text_events, text_of,
};
use crate::sequence::{PieceView, piece_step, sequence_step};
use crate::state::{Outcome, State};
use crate::step::StepView;
use crate::text::{lemma_next_candidate, next_candidate};

verus! {

/// An outcome with events handed out before it.
pub open spec fn onto(output: Seq<OutputEvent>, rest: Outcome) -> Outcome {
    Outcome { state: rest.state, output: output + rest.output, error: rest.error }
}

/// The first part of a tool call: its name.
pub open spec fn name_part(tool_index: int, name: Seq<char>) -> OutputEvent {
    OutputEvent::ToolCall(
        DeltaView { tool_index, name: Some(name), arguments: Seq::empty() },
    )
}

/// The two parts in which a tool call is handed out.
pub open spec fn call_output(call: CallText, tool_index: int) -> Seq<OutputEvent> {
    seq![name_part(tool_index, call.name), arguments_part(tool_index, call.arguments)]
}

/// The scan behind the arguments of a call.
pub open spec fn scanned(call: CallText) -> ObjectScan {
    ObjectScan::fresh().run(call.arguments, 0).0
}

/// The state behind the arguments of a call, with `buffer` to come.
pub open spec fn behind_arguments(state: State, call: CallText, buffer: Seq<char>) -> State {
    State {
        mode: Mode::Arguments { scan: scanned(call), fenced: false },
        active: Some(state.emitted),
        emitted: state.emitted + 1,
        buffer,
        ..state
    }
}

/// The state behind the header of a call, with `buffer` to come.
pub open spec fn behind_header(state: State, fenced: bool, buffer: Seq<char>) -> State {
    State {
        mode: Mode::Arguments { scan: ObjectScan::fresh(), fenced },
        active: Some(state.emitted),
        emitted: state.emitted + 1,
        buffer,
        ..state
    }
}

/// A header is handed out as the name of the call.
proof fn lemma_drain_name(state: State, name: Seq<char>, head: Seq<char>, rest: Seq<char>)
    requires
        state.mode is Header,
        state.buffer == head + rest,
        header_step(state.buffer, 0, state.config) == StepView::Done(
            Event::ToolCallHeader { name, fenced: false },
            head.len() as int,
        ),
    ensures
        state.drain() == onto(
            seq![name_part(state.emitted, name)],
            behind_header(state, false, rest).drain(),
        ),
{
    reveal(event_step);
    assert(state.buffer.skip(head.len() as int) =~= rest);
}

/// The header of a call is read in front of its arguments.
proof fn lemma_header_read(
    config: JsonToolCallConfig,
    gap: Seq<char>,
    call: CallText,
    rest: Seq<char>,
)
    requires
        call.valid(config),
        all_space(gap),
        rest.len() > 0,
        !is_space(rest[0]),
    ensures
        header_step(gap + call.head(config) + rest, 0, config) == StepView::Done(
            Event::ToolCallHeader { name: call.name, fenced: false },
            (gap + call.head(config)).len() as int,
        ),
{
    let head = gap + call.head(config);
    let s = head + rest;
    assert(s.subrange(0, head.len() as int) =~= head);
    assert(s[head.len() as int] == rest[0]);
    law_header(s, gap, call, config);
}

/// Concatenation is associative.
proof fn lemma_regroup(a: Seq<char>, b: Seq<char>, c: Seq<char>, d: Seq<char>, e: Seq<char>)
    ensures
        a + (b + c + d) + e == (a + b) + (c + (d + e)),
{
}

/// From its header on, a call is handed out as its name and its arguments.
proof fn lemma_drain_call(state: State, gap: Seq<char>, call: CallText, rest: Seq<char>)
    requires
        state.mode is Header,
        call.valid(state.config),
        all_space(gap),
        state.buffer == gap + call.object(state.config) + rest,
    ensures
        state.drain() == onto(
            call_output(call, state.emitted),
            behind_arguments(state, call, call.foot() + rest).drain(),
        ),
{
    let head = gap + call.head(state.config);
    let foot = call.foot() + rest;
    let after = call.arguments + foot;
    assert(after[0] == '{');
    lemma_header_read(state.config, gap, call, after);
    lemma_regroup(gap, call.head(state.config), call.arguments, call.foot(), rest);
    lemma_drain_name(state, call.name, head, after);
    let opened = behind_header(state, false, after);
    lemma_drain_arguments(opened, call.arguments, foot);
    let end = behind_arguments(state, call, foot).drain();
    assert(seq![name_part(state.emitted, call.name)] + (seq![
        arguments_part(state.emitted, call.arguments),
    ] + end.output) =~= call_output(call, state.emitted) + end.output);
}

/// Arguments are handed out up to their end.
proof fn lemma_drain_arguments(state: State, arguments: Seq<char>, rest: Seq<char>)
    requires
        is_object_text(arguments),
        state.mode == (Mode::Arguments { scan: ObjectScan::fresh(), fenced: false }),
        state.active is Some,
        state.buffer == arguments + rest,
    ensures
        state.drain() == onto(
            seq![arguments_part(state.active->0, arguments)],
            State {
                mode: Mode::Arguments {
                    scan: ObjectScan::fresh().run(arguments, 0).0,
                    fenced: false,
                },
                buffer: rest,
                ..state
            }.drain(),
        ),
{
    let s = state.buffer;
    let fresh = ObjectScan::fresh();
    lemma_run_extends(fresh, arguments, rest, 0);
    lemma_arguments_event(s, fresh, false, state.config);
    let next = arguments.len() as int;
    assert(fresh.run(s, 0) == fresh.run(arguments, 0));
    assert(s[0] == arguments[0]);
    assert(event_step(s, 0, state.mode, state.config) == StepView::Done(
        Event::Arguments { len: byte_len(s.take(next)) },
        next,
    ));
    lemma_chars_in(s, next);
    assert(s.take(next) =~= arguments);
    assert(s.skip(next) =~= rest);
}

/// Whitespace that the format takes next to a marker.
pub open spec fn fits(gap: Seq<char>, config: JsonToolCallConfig) -> bool {
    match config.marker_whitespace {
        JsonToolCallWhitespace::Optional => all_space(gap),
        JsonToolCallWhitespace::Exact(text) => gap == text@,
    }
}

/// The marker can be told from whitespace before it.
pub open spec fn stands_out(marker: Seq<char>, config: JsonToolCallConfig) -> bool {
    config.marker_whitespace is Optional ==> starts_solid(marker)
}

/// The whitespace next to a marker is read.
pub proof fn lemma_marker_space(s: Seq<char>, at: int, gap: Seq<char>, config: JsonToolCallConfig)
    requires
        holds(s, at, gap),
        fits(gap, config),
        config.marker_whitespace is Optional ==> solid(s, at + gap.len()),
    ensures
        piece_step(s, at, config.space()) == StepView::Done((), at + gap.len()),
{
    match config.marker_whitespace {
        JsonToolCallWhitespace::Optional => lemma_space_held(s, at, gap),
        JsonToolCallWhitespace::Exact(text) => lemma_literal_held(s, at, gap),
    }
}

/// The end of a call's object is read.
pub proof fn lemma_foot_read(s: Seq<char>, call: CallText, config: JsonToolCallConfig)
    requires
        call.valid(config),
        holds(s, 0, call.foot()),
    ensures
        sequence_step(s, 0, close_pieces()) == StepView::Done((), call.foot().len() as int),
{
    reveal_strlit("}");
    let gap = call.gaps[8];
    lemma_holds_append(s, 0, gap, "}"@);
    lemma_held_first(s, gap.len() as int, "}"@);
    lemma_space_held(s, 0, gap);
    lemma_literal_held(s, gap.len() as int, "}"@);
    let pieces = close_pieces();
    reveal_with_fuel(sequence_step, 3);
    assert(pieces.drop_first()[0] == PieceView::Literal("}"@));
    assert(pieces.drop_first().drop_first().len() == 0);
}

/// The end of a block is read: the whitespace that the format takes, and the end marker.
proof fn lemma_end_read(s: Seq<char>, at: int, gap: Seq<char>, config: JsonToolCallConfig)
    requires
        holds(s, at, gap + config.end_marker@),
        fits(gap, config),
        stands_out(config.end_marker@, config),
    ensures
        end_step(s, at, false, config) == StepView::Done(
            Event::ToolCallEnd { fenced: false },
            at + (gap + config.end_marker@).len(),
        ),
{
    let marker = config.end_marker@;
    lemma_holds_append(s, at, gap, marker);
    let middle = at + gap.len();
    if marker.len() > 0 {
        lemma_held_first(s, middle, marker);
    }
    lemma_marker_space(s, at, gap, config);
    lemma_literal_held(s, middle, marker);
    let pieces = end_pieces(false, config);
    reveal_with_fuel(sequence_step, 3);
    assert(pieces.drop_first()[0] == PieceView::Literal(marker));
    assert(pieces.drop_first().drop_first().len() == 0);
}

/// Behind the arguments of its last call, a block is over after the end marker.
proof fn lemma_drain_end(state: State, call: CallText, gap: Seq<char>, tail: Seq<char>)
    requires
        call.valid(state.config),
        fits(gap, state.config),
        stands_out(state.config.end_marker@, state.config),
        state.mode == (Mode::Arguments { scan: scanned(call), fenced: false }),
        state.buffer == call.foot() + (gap + state.config.end_marker@ + tail),
    ensures
        state.drain() == (State { mode: Mode::Text, active: None, buffer: tail, ..state }).drain(),
{
    let s = state.buffer;
    let config = state.config;
    let close = gap + config.end_marker@;
    let foot = call.foot();
    let next = (foot.len() + close.len()) as int;
    assert(s.subrange(0, foot.len() as int) =~= foot);
    assert(s.subrange(foot.len() as int, next) =~= close);
    lemma_foot_read(s, call, config);
    lemma_end_read(s, foot.len() as int, gap, config);
    lemma_arguments_event(s, scanned(call), false, config);
    assert(s.skip(next) =~= tail);
    assert(event_step(s, 0, state.mode, config) == StepView::Done(
        Event::ToolCallEnd { fenced: false },
        next,
    ));
    let after = State { mode: Mode::Text, active: None, buffer: tail, ..state };
    assert(state.moved() == state);
    assert(state.apply(Event::ToolCallEnd { fenced: false }, next).state.consume(next) == after);
    assert(Seq::<OutputEvent>::empty() + after.drain().output =~= after.drain().output);
}

/// A text that differs from `closing`, or is a part of it which whitespace or a brace cannot
/// continue.
pub open spec fn told_apart(closing: Seq<char>, text: Seq<char>) -> bool {
    exists|k: int|
        0 <= k <= text.len() && k < closing.len() && if k < text.len() {
            #[trigger] closing[k] != text[k]
        } else {
            !is_space(closing[k]) && closing[k] != '{'
        }
}

/// The format has a delimiter, and behind the given whitespace it is not taken for the end of the
/// block.
pub open spec fn delimits(gap: Seq<char>, config: JsonToolCallConfig) -> bool {
    match config.delimiter {
        None => false,
        Some(delimiter) => {
            &&& all_space(gap)
            &&& starts_solid(delimiter@)
            &&& match config.marker_whitespace {
                JsonToolCallWhitespace::Optional => told_apart(config.end_marker@, delimiter@),
                JsonToolCallWhitespace::Exact(text) => told_apart(
                    text@ + config.end_marker@,
                    gap + delimiter@,
                ),
            }
        },
    }
}

/// A text that is told apart from `closing` is not taken for it.
proof fn lemma_told_apart(s: Seq<char>, at: int, closing: Seq<char>, text: Seq<char>)
    requires
        told_apart(closing, text),
        holds(s, at, text),
        at + text.len() < s.len(),
        is_space(s[at + text.len()]) || s[at + text.len()] == '{',
    ensures
        exists|k: int|
            0 <= k < closing.len() && at + k < s.len() && #[trigger] closing[k] != s[at + k],
{
    let k = choose|k: int|
        0 <= k <= text.len() && k < closing.len() && if k < text.len() {
            #[trigger] closing[k] != text[k]
        } else {
            !is_space(closing[k]) && closing[k] != '{'
        };
    if k < text.len() {
        assert(s.subrange(at, at + text.len())[k] == s[at + k]);
    }
    assert(closing[k] != s[at + k]);
}

/// Where the input holds a delimiter, the end of the block is refused.
proof fn lemma_end_refused(
    s: Seq<char>,
    at: int,
    gap: Seq<char>,
    delimiter: Seq<char>,
    config: JsonToolCallConfig,
)
    requires
        config.delimiter is Some,
        config.delimiter->0@ == delimiter,
        delimits(gap, config),
        holds(s, at, gap + delimiter),
        at + (gap + delimiter).len() < s.len(),
        is_space(s[at + (gap + delimiter).len()]) || s[at + (gap + delimiter).len()] == '{',
    ensures
        end_step(s, at, false, config) is Failed,
{
    let marker = config.end_marker@;
    let pieces = end_pieces(false, config);
    reveal_with_fuel(sequence_step, 3);
    assert(pieces.drop_first()[0] == PieceView::Literal(marker));
    lemma_holds_append(s, at, gap, delimiter);
    let middle = at + gap.len();
    match config.marker_whitespace {
        JsonToolCallWhitespace::Optional => {
            lemma_held_first(s, middle, delimiter);
            lemma_space_held(s, at, gap);
            lemma_told_apart(s, middle, marker, delimiter);
            assert(!agrees(s, middle, marker));
        },
        JsonToolCallWhitespace::Exact(space) => {
            let closing = space@ + marker;
            lemma_told_apart(s, at, closing, gap + delimiter);
            let k = choose|k: int|
                0 <= k < closing.len() && at + k < s.len() && #[trigger] closing[k] != s[at + k];
            if k < space@.len() {
                assert(space@[k] == closing[k]);
                assert(!agrees(s, at, space@));
            } else {
                let j = k - space@.len();
                assert(marker[j] == closing[k]);
                assert(s[(at + space@.len()) + j] != marker[j]);
                assert(!agrees(s, at + space@.len(), marker));
            }
        },
    }
}

/// The end of a block wins over a delimiter: where the input is the end as far as it goes, the end
/// is read or more input is awaited, whatever the delimiter.
pub proof fn law_end_wins(s: Seq<char>, at: int, gap: Seq<char>, config: JsonToolCallConfig)
    requires
        holds(s, at, gap),
        fits(gap, config),
        stands_out(config.end_marker@, config),
        agrees(s, at + gap.len(), config.end_marker@),
    ensures
        after_object_step(s, at, false, config) == (if at + (gap + config.end_marker@).len()
            <= s.len() {
            StepView::Done(
                Event::ToolCallEnd { fenced: false },
                at + (gap + config.end_marker@).len(),
            )
        } else {
            StepView::Incomplete
        }),
{
    let marker = config.end_marker@;
    let middle = at + gap.len();
    let pieces = end_pieces(false, config);
    reveal_with_fuel(sequence_step, 3);
    assert(pieces.drop_first()[0] == PieceView::Literal(marker));
    assert(pieces.drop_first().drop_first().len() == 0);
    if middle < s.len() {
        assert(marker.len() > 0 ==> s[middle + 0] == marker[0]);
        lemma_marker_space(s, at, gap, config);
    } else {
        match config.marker_whitespace {
            JsonToolCallWhitespace::Optional => lemma_space_to_end(s, at, gap),
            JsonToolCallWhitespace::Exact(text) => lemma_literal_held(s, at, gap),
        }
    }
}

/// A gap up to the end of the input leaves open where the whitespace ends.
proof fn lemma_space_to_end(s: Seq<char>, at: int, gap: Seq<char>)
    requires
        holds(s, at, gap),
        all_space(gap),
        at + gap.len() == s.len(),
    ensures
        space_end(s, at) == s.len(),
    decreases gap.len(),
{
    if gap.len() > 0 {
        lemma_held_first(s, at, gap);
        assert(is_space(gap[0]));
        lemma_holds_append(s, at, seq![gap[0]], gap.drop_first());
        assert(seq![gap[0]] + gap.drop_first() =~= gap);
        lemma_space_to_end(s, at + 1, gap.drop_first());
    }
}

/// Behind the arguments of a call and a delimiter, the header of the next call comes.
proof fn lemma_drain_delimiter(
    state: State,
    call: CallText,
    gap: Seq<char>,
    after: Seq<char>,
    rest: Seq<char>,
)
    requires
        call.valid(state.config),
        delimits(gap, state.config),
        all_space(after),
        rest.len() > 0,
        rest[0] == '{',
        state.mode == (Mode::Arguments { scan: scanned(call), fenced: false }),
        state.buffer == call.foot() + (gap + state.config.delimiter->0@ + (after + rest)),
    ensures
        state.drain() == (State {
            mode: Mode::Header,
            active: None,
            buffer: rest,
            ..state
        }).drain(),
{
    let s = state.buffer;
    let config = state.config;
    let delimiter = config.delimiter->0@;
    let foot = call.foot();
    let at = foot.len() as int;
    let text = gap + delimiter;
    let all = gap + delimiter + after;
    let next = at + all.len();
    assert(s.subrange(0, at) =~= foot);
    assert(s.subrange(at, at + all.len()) =~= all);
    assert(s.subrange(at, at + text.len()) =~= text);
    assert(s[next] == rest[0]);
    assert(after.len() > 0 ==> s[at + text.len()] == after[0]);
    lemma_foot_read(s, call, config);
    lemma_end_refused(s, at, gap, delimiter, config);
    lemma_separator_read(s, at, gap, delimiter, after);
    lemma_arguments_event(s, scanned(call), false, config);
    assert(s.skip(next) =~= rest);
    assert(event_step(s, 0, state.mode, config) == StepView::Done(
        Event::ToolCallDelimiter,
        next,
    ));
    let later = State { mode: Mode::Header, active: None, buffer: rest, ..state };
    assert(state.moved() == state);
    assert(state.apply(Event::ToolCallDelimiter, next).state.consume(next) == later);
    assert(Seq::<OutputEvent>::empty() + later.drain().output =~= later.drain().output);
}

/// The calls of a block from the brace of the first on: each call but the last has the delimiter
/// behind it, and the last the end marker.
pub open spec fn block_rest(calls: Seq<CallText>, config: JsonToolCallConfig) -> Seq<char>
    decreases calls.len(),
{
    if calls.len() == 0 {
        Seq::empty()
    } else if calls.len() == 1 {
        calls[0].object(config) + (calls[0].gaps[9] + config.end_marker@)
    } else {
        calls[0].object(config) + (calls[0].gaps[9] + config.delimiter->0@ + (calls[1].gaps[0]
            + block_rest(calls.drop_first(), config)))
    }
}

/// A block of tool calls as it is written down.
pub open spec fn block(calls: Seq<CallText>, config: JsonToolCallConfig) -> Seq<char> {
    config.opening() + (calls[0].gaps[0] + block_rest(calls, config))
}

/// A block that the format can tell: one call or more, with a delimiter behind each but the last.
pub open spec fn is_block(calls: Seq<CallText>, config: JsonToolCallConfig) -> bool {
    &&& calls.len() > 0
    &&& forall|i: int| 0 <= i < calls.len() ==> (#[trigger] calls[i]).valid(config)
    &&& forall|i: int|
        0 <= i < calls.len() - 1 ==> delimits((#[trigger] calls[i]).gaps[9], config)
    &&& fits(calls.last().gaps[9], config)
    &&& stands_out(config.end_marker@, config)
}

/// What the calls of a block are handed out as, numbered from `tool_index` on.
pub open spec fn calls_output(calls: Seq<CallText>, tool_index: int) -> Seq<OutputEvent>
    decreases calls.len(),
{
    if calls.len() == 0 {
        Seq::empty()
    } else {
        call_output(calls[0], tool_index) + calls_output(calls.drop_first(), tool_index + 1)
    }
}

/// Concatenation is associative.
proof fn lemma_regroup_rest(a: Seq<char>, b: Seq<char>, c: Seq<char>, d: Seq<char>)
    ensures
        a + (b + c) + d == a + b + (c + d),
        b + c + d == b + (c + d),
{
}

/// The rest of a block starts with a brace.
proof fn lemma_block_rest_first(calls: Seq<CallText>, config: JsonToolCallConfig)
    requires
        calls.len() > 0,
        calls[0].valid(config),
    ensures
        block_rest(calls, config).len() > 0,
        block_rest(calls, config)[0] == '{',
{
    let head = calls[0].head(config);
    assert(head.len() > 0 && head[0] == '{') by {
        reveal(CallText::head);
        reveal_strlit("{");
    }
    assert(calls[0].object(config)[0] == head[0]);
}

/// From the first header on, the calls of a block are handed out in order, and plain text follows.
proof fn lemma_drain_block(
    state: State,
    gap: Seq<char>,
    calls: Seq<CallText>,
    tail: Seq<char>,
)
    requires
        state.mode is Header,
        is_block(calls, state.config),
        all_space(gap),
        state.buffer == gap + block_rest(calls, state.config) + tail,
    ensures
        state.drain() == onto(
            calls_output(calls, state.emitted),
            (State {
                mode: Mode::Text,
                active: None,
                emitted: state.emitted + calls.len(),
                buffer: tail,
                ..state
            }).drain(),
        ),
    decreases calls.len(),
{
    let config = state.config;
    let call = calls[0];
    let object = call.object(config);
    assert(call.valid(config));
    let others = calls.drop_first();
    if calls.len() == 1 {
        let close = call.gaps[9] + config.end_marker@;
        lemma_regroup_rest(gap, object, close, tail);
        lemma_drain_call(state, gap, call, close + tail);
        let behind = behind_arguments(state, call, call.foot() + (close + tail));
        lemma_drain_end(behind, call, call.gaps[9], tail);
        assert(others.len() == 0);
        assert(calls_output(others, state.emitted + 1) == Seq::<OutputEvent>::empty());
        assert(calls_output(calls, state.emitted) =~= call_output(call, state.emitted));
    } else {
        let next = calls[1];
        assert(next.valid(config));
        let text = call.gaps[9] + config.delimiter->0@;
        let more = next.gaps[0] + block_rest(others, config);
        lemma_regroup_rest(gap, object, text + more, tail);
        lemma_regroup_rest(gap, text, more, tail);
        lemma_regroup_rest(gap, next.gaps[0], block_rest(others, config), tail);
        let after = block_rest(others, config) + tail;
        lemma_drain_call(state, gap, call, text + (next.gaps[0] + after));
        let behind = behind_arguments(
            state,
            call,
            call.foot() + (text + (next.gaps[0] + after)),
        );
        assert(others[0] == next);
        lemma_block_rest_first(others, config);
        lemma_drain_delimiter(behind, call, call.gaps[9], next.gaps[0], after);
        let header = State { mode: Mode::Header, active: None, buffer: after, ..behind };
        assert(is_block(others, config)) by {
            assert(forall|i: int| 0 <= i < others.len() ==> others[i] == calls[i + 1]);
        }
        assert(after =~= Seq::<char>::empty() + block_rest(others, config) + tail);
        lemma_drain_block(header, Seq::empty(), others, tail);
        let end = State {
            mode: Mode::Text,
            active: None,
            emitted: state.emitted + calls.len(),
            buffer: tail,
            ..state
        };
        assert(call_output(call, state.emitted) + (calls_output(others, state.emitted + 1)
            + end.drain().output) =~= calls_output(calls, state.emitted) + end.drain().output);
    }
}

/// The start of a block is read, with all whitespace behind the marker where the format leaves it
/// open.
proof fn lemma_drain_start(state: State, calls: Seq<CallText>, tail: Seq<char>)
    requires
        state.mode is Text,
        is_block(calls, state.config),
        state.buffer == block(calls, state.config) + tail,
    ensures
        state.drain() == onto(
            calls_output(calls, state.emitted),
            (State {
                active: None,
                emitted: state.emitted + calls.len(),
                buffer: tail,
                ..state
            }).drain(),
        ),
{
    let s = state.buffer;
    let config = state.config;
    let marker = config.start_marker@;
    let gap = calls[0].gaps[0];
    let rest = block_rest(calls, config);
    assert(calls[0].valid(config));
    lemma_block_rest_first(calls, config);
    let pieces = start_pieces(config);
    reveal_with_fuel(sequence_step, 3);
    assert(pieces.drop_first()[0] == config.space());
    assert(pieces.drop_first().drop_first().len() == 0);
    assert(s.subrange(0, marker.len() as int) =~= marker);
    lemma_literal_held(s, 0, marker);
    lemma_text_event(s, config);
    let end = State {
        active: None,
        emitted: state.emitted + calls.len(),
        buffer: tail,
        ..state
    };
    let (next, left) = match config.marker_whitespace {
        JsonToolCallWhitespace::Optional => ((marker + gap).len() as int, Seq::empty()),
        JsonToolCallWhitespace::Exact(space) => (config.opening().len() as int, gap),
    };
    match config.marker_whitespace {
        JsonToolCallWhitespace::Optional => {
            assert(s.subrange(marker.len() as int, next) =~= gap);
            assert(s[next] == rest[0]);
            lemma_marker_space(s, marker.len() as int, gap, config);
        },
        JsonToolCallWhitespace::Exact(space) => {
            assert(s.subrange(marker.len() as int, next) =~= space@);
            lemma_marker_space(s, marker.len() as int, space@, config);
        },
    }
    assert(start_step(s, 0, config) == StepView::Done(Event::ToolCallStart, next));
    assert(s.skip(next) =~= left + rest + tail);
    let header = State { mode: Mode::Header, buffer: left + rest + tail, ..state };
    assert(state.moved() == state);
    assert(state.apply(Event::ToolCallStart, next).state.consume(next) == header);
    assert(Seq::<OutputEvent>::empty() + header.drain().output =~= header.drain().output);
    lemma_drain_block(header, left, calls, tail);
}

/// In the text with the marker behind it, the marker comes only there.
pub open spec fn ends_before(text: Seq<char>, marker: Seq<char>) -> bool {
    forall|i: int| 0 <= i < text.len() ==> !agrees(text + marker, i, marker)
}

/// Text before a start marker is handed out.
pub proof fn lemma_drain_before(state: State, before: Seq<char>, rest: Seq<char>)
    requires
        state.mode is Text,
        ends_before(before, state.config.start_marker@),
        state.config.start_marker@.is_prefix_of(rest),
        state.buffer == before + rest,
    ensures
        state.drain() == onto(text_events(before), (State { buffer: rest, ..state }).drain()),
{
    let s = state.buffer;
    let marker = state.config.start_marker@;
    let start = State { buffer: rest, ..state };
    if before.len() == 0 {
        assert(s =~= rest);
        assert(Seq::<OutputEvent>::empty() + start.drain().output =~= start.drain().output);
    } else {
        let next = before.len() as int;
        let text = before + marker;
        assert(forall|i: int| 0 <= i < text.len() ==> s[i] == text[i]) by {
            assert(rest.subrange(0, marker.len() as int) == marker);
            assert(forall|i: int| 0 <= i < marker.len() ==> rest[i] == marker[i]);
        }
        assert forall|i: int| 0 <= i < next implies !agrees(s, i, marker) by {
            assert(!agrees(text, i, marker));
            let k = choose|k: int|
                0 <= k < marker.len() && i + k < text.len() && text[i + k] != #[trigger] marker[k];
            assert(s[i + k] == text[i + k]);
        }
        assert(agrees(s, next, marker)) by {
            assert forall|k: int| 0 <= k < marker.len() && next + k < s.len() implies s[next + k]
                == #[trigger] marker[k] by {
                assert(s[next + k] == text[next + k]);
            }
        }
        lemma_next_candidate(s, 1, marker);
        assert(next_candidate(s, 1, marker) == next);
        lemma_no_start(s, 0, state.config);
        lemma_text_event(s, state.config);
        lemma_chars_in(s, next);
        assert(s.take(next) =~= before);
        assert(s.skip(next) =~= rest);
        let event = Event::Text { len: byte_len(before) };
        assert(state.read(event, next).state.consume(next) == start);
    }
}

/// A block of tool calls is read back: the text before it is handed out, then the name and the
/// arguments of each call, numbered on, and the parser goes on with the text behind the block.
pub proof fn law_block(state: State, before: Seq<char>, calls: Seq<CallText>, tail: Seq<char>)
    requires
        state.mode is Text,
        is_block(calls, state.config),
        ends_before(before, state.config.start_marker@),
        state.buffer == before + (block(calls, state.config) + tail),
    ensures
        state.drain() == onto(
            text_events(before) + calls_output(calls, state.emitted),
            (State {
                active: None,
                emitted: state.emitted + calls.len(),
                buffer: tail,
                ..state
            }).drain(),
        ),
{
    let marker = state.config.start_marker@;
    let rest = block(calls, state.config) + tail;
    let start = State { buffer: rest, ..state };
    assert(marker.is_prefix_of(rest)) by {
        assert(rest.subrange(0, marker.len() as int) =~= marker);
    }
    lemma_drain_before(state, before, rest);
    lemma_drain_start(start, calls, tail);
    let end = State {
        active: None,
        emitted: state.emitted + calls.len(),
        buffer: tail,
        ..state
    };
    assert(text_events(before) + (calls_output(calls, state.emitted) + end.drain().output)
        =~= text_events(before) + calls_output(calls, state.emitted) + end.drain().output);
}

/// A tool call as a whole.
pub open spec fn whole_call(call: CallText, tool_index: int) -> DeltaView {
    DeltaView { tool_index, name: Some(call.name), arguments: call.arguments }
}

/// The calls of a block as wholes, numbered from `tool_index` on.
pub open spec fn whole_calls(calls: Seq<CallText>, tool_index: int) -> Seq<DeltaView> {
    Seq::new(calls.len(), |i: int| whole_call(calls[i], tool_index + i))
}

/// What the calls of a block are handed out as adds up to them.
proof fn lemma_calls_contents(done: Seq<OutputEvent>, calls: Seq<CallText>, tool_index: int)
    requires
        forall|i: int|
            0 <= i < calls_of(done).len() ==> (#[trigger] calls_of(done)[i]).tool_index
                < tool_index,
    ensures
        text_of(done + calls_output(calls, tool_index)) == text_of(done),
        calls_of(done + calls_output(calls, tool_index)) == calls_of(done) + whole_calls(
            calls,
            tool_index,
        ),
    decreases calls.len(),
{
    if calls.len() == 0 {
        assert(done + calls_output(calls, tool_index) =~= done);
        assert(calls_of(done) + whole_calls(calls, tool_index) =~= calls_of(done));
    } else {
        let name = name_part(tool_index, calls[0].name);
        let arguments = arguments_part(tool_index, calls[0].arguments);
        let before = calls_of(done);
        lemma_push_contents(done, name);
        lemma_push_contents(done.push(name), arguments);
        lemma_find_call(before, tool_index, 0);
        let named = calls_of(done.push(name));
        lemma_find_call_at(named, tool_index, 0, before.len() as int);
        let more = done.push(name).push(arguments);
        let whole = whole_call(calls[0], tool_index);
        assert(Seq::<char>::empty() + calls[0].arguments =~= calls[0].arguments);
        assert(calls_of(more) =~= before.push(whole));
        let others = calls.drop_first();
        lemma_calls_contents(more, others, tool_index + 1);
        assert(done + calls_output(calls, tool_index) =~= more + calls_output(
            others,
            tool_index + 1,
        ));
        assert(before.push(whole) + whole_calls(others, tool_index + 1) =~= before + whole_calls(
            calls,
            tool_index,
        ));
    }
}

/// Whole input is read back: from text around a block of tool calls, a new parser hands out all
/// the text and each of the calls, with the last text coming at the end of the input.
pub proof fn law_round_trip(
    config: JsonToolCallConfig,
    before: Seq<char>,
    calls: Seq<CallText>,
    after: Seq<char>,
)
    requires
        is_block(calls, config),
        ends_before(before, config.start_marker@),
        free_of(after, config.start_marker@),
    ensures
        ({
            let outcome = State::fresh(config).feed(before + (block(calls, config) + after));
            let output = outcome.output + text_events(outcome.state.buffer);
            &&& outcome.error is None
            &&& outcome.state.mode is Text
            &&& text_of(output) == before + after
            &&& calls_of(output) == whole_calls(calls, 0)
        }),
{
    let input = before + (block(calls, config) + after);
    let fresh = State::fresh(config);
    let state = State { buffer: input, ..fresh };
    assert(fresh.buffer + input =~= input);
    law_block(state, before, calls, after);
    let end = State { emitted: calls.len() as int, buffer: Seq::empty(), ..fresh };
    assert(end.buffer + after =~= after);
    law_plain_text(end, after);
    let last = end.feed(after);
    let first = text_events(before) + calls_output(calls, 0);
    let output = first + last.output + text_events(last.state.buffer);
    let rest = last.output + text_events(last.state.buffer);
    assert(output =~= first + rest);
    lemma_append_contents(first, rest);
    lemma_append_contents(last.output, text_events(last.state.buffer));
    lemma_text_events(last.state.buffer);
    lemma_text_events(before);
    lemma_calls_contents(text_events(before), calls, 0);
    assert(deltas_of(last.output).len() == 0) by {
        lemma_no_calls(last.output);
    }
    assert(deltas_of(first) + deltas_of(rest) =~= deltas_of(first));
    assert(Seq::<DeltaView>::empty() + whole_calls(calls, 0) =~= whole_calls(calls, 0));
}

/// The contents of a run of text.
proof fn lemma_text_events(text: Seq<char>)
    ensures
        text_of(text_events(text)) == text,
        deltas_of(text_events(text)) == Seq::<DeltaView>::empty(),
        calls_of(text_events(text)) == Seq::<DeltaView>::empty(),
{
    if text.len() > 0 {
        assert(text_events(text) =~= Seq::<OutputEvent>::empty().push(OutputEvent::Text(text)));
        lemma_push_contents(Seq::empty(), OutputEvent::Text(text));
        assert(text_events(text).drop_last() =~= Seq::<OutputEvent>::empty());
        assert(Seq::<char>::empty() + text =~= text);
    }
}

/// Without parts there are no calls, and without calls no parts.
proof fn lemma_no_calls(events: Seq<OutputEvent>)
    requires
        calls_of(events).len() == 0,
    ensures
        deltas_of(events).len() == 0,
{
    let deltas = deltas_of(events);
    if deltas.len() > 0 {
        lemma_find_call(merged_calls(deltas.drop_last()), deltas.last().tool_index, 0);
    }
}

} // verus!
