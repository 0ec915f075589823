//! Fenced tool calls that are written down are read back as wholes, or refused.

use vstd::prelude::*;

use crate::bytes::{byte_len, lemma_chars_in};
use crate::config::JsonToolCallConfig;
use crate::error::ErrorView;
use crate::event::{
    Event, Mode, close_step, end_pieces, event_step, header_step, lemma_arguments_event,
    lemma_text_event, start_pieces, start_step,
};
use crate::json::json_object_error;
use crate::laws::blocks::{
    behind_header, ends_before, lemma_drain_before, lemma_foot_read, onto, scanned, whole_call,
};
use crate::laws::chunking::lemma_run_extends;
use crate::laws::literals::{holds, lemma_holds_append};
use crate::laws::objects::is_object_text;
use crate::laws::round_trip::{CallText, all_space, is_fence, law_fenced_header, lemma_literal_held};
use crate::lex::is_space;
use crate::object::ObjectScan;
use crate::output::{OutputEvent, text_events};
use crate::sequence::{PieceView, sequence_step};
use crate::state::{Outcome, Pending, State};
use crate::step::StepView;

verus! {

/// The exact whitespace next to a marker.
pub open spec fn exact_space(config: JsonToolCallConfig) -> Seq<char>
    recommends
        config.marker_whitespace is Exact,
{
    config.marker_whitespace->Exact_0@
}

/// What closes a fenced call: the fence and the end marker, with exact whitespace before each.
pub open spec fn fenced_close(config: JsonToolCallConfig) -> Seq<char> {
    exact_space(config) + "```"@ + (exact_space(config) + config.end_marker@)
}

/// The state behind the header of a fenced call: the call is held back.
pub open spec fn held_back(
    state: State,
    name: Seq<char>,
    raw: Seq<char>,
    buffer: Seq<char>,
) -> State {
    State {
        raw,
        pending: Some(
            Pending { tool_index: state.emitted, name, arguments_start: raw.len() as int },
        ),
        ..behind_header(state, true, buffer)
    }
}

/// The start of a fenced call is read.
proof fn lemma_drain_opening(state: State, rest: Seq<char>)
    requires
        state.mode is Text,
        state.config.marker_whitespace is Exact,
        state.buffer == state.config.opening() + rest,
    ensures
        state.drain() == (State { mode: Mode::Header, buffer: rest, ..state }).drain(),
{
    let s = state.buffer;
    let config = state.config;
    let marker = config.start_marker@;
    let space = exact_space(config);
    let opening = config.opening();
    let next = opening.len() as int;
    assert(s.subrange(0, next) =~= marker + space);
    lemma_holds_append(s, 0, marker, space);
    lemma_literal_held(s, 0, marker);
    lemma_literal_held(s, marker.len() as int, space);
    let pieces = start_pieces(config);
    reveal_with_fuel(sequence_step, 3);
    assert(pieces.drop_first()[0] == PieceView::Literal(space));
    assert(pieces.drop_first().drop_first().len() == 0);
    assert(start_step(s, 0, config) == StepView::Done(Event::ToolCallStart, next));
    lemma_text_event(s, config);
    assert(s.skip(next) =~= rest);
    let header = State { mode: Mode::Header, buffer: rest, ..state };
    assert(state.moved() == state);
    assert(state.apply(Event::ToolCallStart, next).state.consume(next) == header);
    assert(Seq::<OutputEvent>::empty() + header.drain().output =~= header.drain().output);
}

/// A fenced header is read in front of its arguments.
proof fn lemma_fenced_header_read(
    config: JsonToolCallConfig,
    fence: Seq<char>,
    inner: Seq<char>,
    call: CallText,
    rest: Seq<char>,
)
    requires
        call.valid(config),
        config.allow_markdown_fence,
        is_fence(fence),
        all_space(inner),
        rest.len() > 0,
        !is_space(rest[0]),
    ensures
        header_step(call.gaps[0] + fence + inner + call.head(config) + rest, 0, config)
            == StepView::Done(
            Event::ToolCallHeader { name: call.name, fenced: true },
            (call.gaps[0] + fence + inner + call.head(config)).len() as int,
        ),
{
    let head = call.gaps[0] + fence + inner + call.head(config);
    let s = head + rest;
    assert(s.subrange(0, head.len() as int) =~= head);
    assert(s[head.len() as int] == rest[0]);
    law_fenced_header(s, call.gaps[0], fence, inner, call, config);
}

/// The header of a fenced call makes it held back.
proof fn lemma_drain_fenced_name(state: State, name: Seq<char>, head: Seq<char>, rest: Seq<char>)
    requires
        state.mode is Header,
        state.raw.len() == 0,
        state.buffer == head + rest,
        header_step(state.buffer, 0, state.config) == StepView::Done(
            Event::ToolCallHeader { name, fenced: true },
            head.len() as int,
        ),
    ensures
        state.drain() == held_back(state, name, state.config.opening() + head, rest).drain(),
{
    reveal(event_step);
    let next = head.len() as int;
    assert(state.buffer.skip(next) =~= rest);
    lemma_chars_in(state.buffer, next);
    assert(state.buffer.take(next) =~= head);
    assert(state.raw + state.config.opening() + head =~= state.config.opening() + head);
    let held = held_back(state, name, state.config.opening() + head, rest);
    assert(Seq::<OutputEvent>::empty() + held.drain().output =~= held.drain().output);
}

/// The arguments of a fenced call are held back with it.
proof fn lemma_drain_fenced_arguments(state: State, arguments: Seq<char>, rest: Seq<char>)
    requires
        is_object_text(arguments),
        state.mode == (Mode::Arguments { scan: ObjectScan::fresh(), fenced: true }),
        state.active is Some,
        state.buffer == arguments + rest,
    ensures
        state.drain() == (State {
            mode: Mode::Arguments { scan: ObjectScan::fresh().run(arguments, 0).0, fenced: true },
            raw: state.raw + arguments,
            buffer: rest,
            ..state
        }).drain(),
{
    let s = state.buffer;
    let fresh = ObjectScan::fresh();
    lemma_run_extends(fresh, arguments, rest, 0);
    lemma_arguments_event(s, fresh, true, state.config);
    let next = arguments.len() as int;
    assert(fresh.run(s, 0) == fresh.run(arguments, 0));
    assert(s[0] == arguments[0]);
    assert(event_step(s, 0, state.mode, state.config) == StepView::Done(
        Event::Arguments { len: byte_len(s.take(next)) },
        next,
    ));
    lemma_chars_in(s, next);
    assert(s.take(next) =~= arguments);
    assert(s.skip(next) =~= rest);
    let after = State {
        mode: Mode::Arguments { scan: fresh.run(arguments, 0).0, fenced: true },
        raw: state.raw + arguments,
        buffer: rest,
        ..state
    };
    assert(Seq::<OutputEvent>::empty() + after.drain().output =~= after.drain().output);
}

/// The close of a fenced call is read.
proof fn lemma_fenced_close_read(s: Seq<char>, call: CallText, config: JsonToolCallConfig)
    requires
        call.valid(config),
        config.valid(),
        config.allow_markdown_fence,
        holds(s, 0, call.foot() + fenced_close(config)),
    ensures
        close_step(s, 0, true, config) == StepView::Done(
            Event::ToolCallEnd { fenced: true },
            (call.foot() + fenced_close(config)).len() as int,
        ),
{
    let space = exact_space(config);
    let marker = config.end_marker@;
    let at = call.foot().len() as int;
    lemma_holds_append(s, 0, call.foot(), fenced_close(config));
    lemma_foot_read(s, call, config);
    lemma_holds_append(s, at, space + "```"@, space + marker);
    lemma_holds_append(s, at, space, "```"@);
    let second = at + (space + "```"@).len();
    lemma_holds_append(s, second, space, marker);
    lemma_literal_held(s, at, space);
    lemma_literal_held(s, at + space.len(), "```"@);
    lemma_literal_held(s, second, space);
    lemma_literal_held(s, second + space.len(), marker);
    let pieces = end_pieces(true, config);
    reveal_with_fuel(sequence_step, 5);
    assert(pieces.drop_first()[0] == PieceView::Literal("```"@));
    assert(pieces.drop_first().drop_first()[0] == PieceView::Literal(space));
    assert(pieces.drop_first().drop_first().drop_first()[0] == PieceView::Literal(marker));
    assert(pieces.drop_first().drop_first().drop_first().drop_first().len() == 0);
}

/// What comes before the arguments of a fenced call, behind the start marker.
pub open spec fn fenced_head(
    call: CallText,
    fence: Seq<char>,
    inner: Seq<char>,
    config: JsonToolCallConfig,
) -> Seq<char> {
    call.gaps[0] + fence + inner + call.head(config)
}

/// A fenced call as it is written down.
pub open spec fn fenced_block(
    call: CallText,
    fence: Seq<char>,
    inner: Seq<char>,
    config: JsonToolCallConfig,
) -> Seq<char> {
    config.opening() + (fenced_head(call, fence, inner, config) + (call.arguments + (call.foot()
        + fenced_close(config))))
}

/// What the end of a fenced call leads to.
proof fn lemma_drain_fenced_end(state: State, pending: Pending, call: CallText, tail: Seq<char>)
    requires
        call.valid(state.config),
        state.config.valid(),
        state.config.allow_markdown_fence,
        state.mode == (Mode::Arguments { scan: scanned(call), fenced: true }),
        state.pending == Some(pending),
        pending.name == call.name,
        0 <= pending.arguments_start <= state.raw.len(),
        state.raw.skip(pending.arguments_start) == call.arguments,
        state.buffer == call.foot() + fenced_close(state.config) + tail,
    ensures
        match json_object_error(call.arguments) {
            None => state.drain() == onto(
                seq![OutputEvent::ToolCall(whole_call(call, pending.tool_index))],
                (State {
                    mode: Mode::Text,
                    active: None,
                    pending: None,
                    raw: Seq::empty(),
                    buffer: tail,
                    ..state
                }).drain(),
            ),
            Some(reason) => state.drain() == (Outcome {
                state,
                output: Seq::empty(),
                error: Some(
                    ErrorView::InvalidFencedArguments {
                        parser_name: state.config.parser_name@,
                        reason,
                    },
                ),
            }),
        },
{
    let s = state.buffer;
    let close = call.foot() + fenced_close(state.config);
    let next = close.len() as int;
    assert(s.subrange(0, next) =~= close);
    lemma_fenced_close_read(s, call, state.config);
    lemma_arguments_event(s, scanned(call), true, state.config);
    assert(s.skip(next) =~= tail);
    assert(event_step(s, 0, state.mode, state.config) == StepView::Done(
        Event::ToolCallEnd { fenced: true },
        next,
    ));
    assert(state.moved() == state);
}

/// A fenced call is read back as a whole where its arguments are a valid object, behind the text
/// before it. Where they are not, it is refused for that reason, nothing of it is handed out, and
/// its text is kept with all input behind it.
pub proof fn law_fenced_block(
    state: State,
    before: Seq<char>,
    call: CallText,
    fence: Seq<char>,
    inner: Seq<char>,
    tail: Seq<char>,
)
    requires
        state.wf(),
        state.mode is Text,
        state.config.allow_markdown_fence,
        call.valid(state.config),
        is_fence(fence),
        all_space(inner),
        ends_before(before, state.config.start_marker@),
        state.buffer == before + (fenced_block(call, fence, inner, state.config) + tail),
    ensures
        match json_object_error(call.arguments) {
            None => state.drain() == onto(
                text_events(before).push(OutputEvent::ToolCall(whole_call(call, state.emitted))),
                (State { emitted: state.emitted + 1, buffer: tail, ..state }).drain(),
            ),
            Some(reason) => {
                &&& state.drain().output == text_events(before)
                &&& state.drain().state.uncommitted() == fenced_block(
                    call,
                    fence,
                    inner,
                    state.config,
                ) + tail
                &&& state.drain().error == Some(
                    ErrorView::InvalidFencedArguments {
                        parser_name: state.config.parser_name@,
                        reason,
                    },
                )
            },
        },
{
    let config = state.config;
    let marker = config.start_marker@;
    let head = fenced_head(call, fence, inner, config);
    let close = call.foot() + fenced_close(config);
    let after = call.arguments + (close + tail);
    let rest = config.opening() + (head + after);
    lemma_regroup(config.opening(), head, call.arguments, close, tail);
    assert(marker.is_prefix_of(rest)) by {
        assert(rest.subrange(0, marker.len() as int) =~= marker);
    }
    lemma_drain_before(state, before, rest);
    let start = State { buffer: rest, ..state };
    lemma_drain_opening(start, head + after);
    let header = State { mode: Mode::Header, buffer: head + after, ..state };
    assert(after[0] == '{');
    lemma_fenced_header_read(config, fence, inner, call, after);
    lemma_drain_fenced_name(header, call.name, head, after);
    let raw = config.opening() + head;
    let held = held_back(header, call.name, raw, after);
    lemma_drain_fenced_arguments(held, call.arguments, close + tail);
    let last = State {
        mode: Mode::Arguments { scan: scanned(call), fenced: true },
        raw: raw + call.arguments,
        buffer: close + tail,
        ..held
    };
    assert((raw + call.arguments).skip(raw.len() as int) =~= call.arguments);
    lemma_drain_fenced_end(last, last.pending->0, call, tail);
    let whole = seq![OutputEvent::ToolCall(whole_call(call, state.emitted))];
    let end = State { emitted: state.emitted + 1, buffer: tail, ..state };
    assert(text_events(before) + Seq::<OutputEvent>::empty() =~= text_events(before));
    if json_object_error(call.arguments) is None {
        assert(state.raw =~= Seq::empty());
        assert(last.drain() == onto(whole, end.drain()));
        assert(text_events(before) + (whole + end.drain().output) =~= text_events(before).push(
            whole[0],
        ) + end.drain().output);
    } else {
        assert(last.uncommitted() =~= (raw + call.arguments) + (close + tail));
        assert((raw + call.arguments) + (close + tail) =~= config.opening() + (head + after));
    }
}

/// Concatenation is associative.
proof fn lemma_regroup(a: Seq<char>, b: Seq<char>, c: Seq<char>, d: Seq<char>, e: Seq<char>)
    ensures
        a + (b + (c + d)) + e == a + (b + (c + (d + e))),
{
}

} // verus!
