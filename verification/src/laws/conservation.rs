//! Input is neither lost nor made up.

use vstd::prelude::*;

use crate::bytes::{byte_len, lemma_byte_len_append, lemma_byte_len_bound, lemma_chars_in};
use crate::config::JsonToolCallConfig;
use crate::event::{
    Event, Mode, event_step, lemma_event_bounds, lemma_text_event, start_pieces, start_step,
};
use crate::laws::chunking::{concatenation, feed_all, lemma_agrees_shift};
use crate::lex::agrees;
use crate::output::{OutputEvent, calls_of, deltas_of, text_events, text_of};
use crate::sequence::sequence_step;
use crate::state::{State, lemma_apply_wf, lemma_drain_wf, lemma_feed_wf, lemma_fresh_wf};
use crate::step::StepView;
use crate::text::{lemma_next_candidate, next_candidate};

verus! {

broadcast use lemma_chars_in;

/// `part` is what `text` ends with.
pub open spec fn ends_with(text: Seq<char>, part: Seq<char>) -> bool {
    part.len() <= text.len() && text.skip(text.len() - part.len()) == part
}

/// The end of an end is an end.
proof fn lemma_ends_with_trans(a: Seq<char>, b: Seq<char>, c: Seq<char>)
    requires
        ends_with(a, b),
        ends_with(b, c),
    ensures
        ends_with(a, c),
{
    assert(a.skip(a.len() - c.len()) == b.skip(b.len() - c.len()));
}

/// With exact whitespace, a start that is read is the opening.
proof fn lemma_start_is_opening(state: State)
    requires
        state.config.marker_whitespace is Exact,
    ensures
        start_step(state.buffer, 0, state.config) matches StepView::Done(_, next) ==> {
            &&& 0 <= next <= state.buffer.len()
            &&& state.buffer.take(next) == state.config.opening()
        },
{
    let s = state.buffer;
    let pieces = start_pieces(state.config);
    reveal_with_fuel(sequence_step, 3);
    assert(pieces.drop_first().drop_first().len() == 0);
    assert(pieces.drop_first()[0] == state.config.space());
    if let StepView::Done(_, next) = start_step(s, 0, state.config) {
        let marker = state.config.start_marker@;
        let opening = state.config.opening();
        let space = opening.skip(marker.len() as int);
        assert(opening == marker + space);
        assert(agrees(s, 0, marker));
        assert(agrees(s, marker.len() as int, space));
        assert forall|i: int| 0 <= i < opening.len() implies s[i] == opening[i] by {
            if i < marker.len() {
                assert(s[0 + i] == marker[i]);
            } else {
                assert(s[marker.len() + (i - marker.len())] == space[i - marker.len()]);
            }
        }
        assert(s.take(next) =~= opening);
    }
}

/// One event takes nothing from the uncommitted input but its front.
proof fn lemma_step_uncommitted(state: State)
    requires
        state.wf(),
    ensures
        event_step(state.buffer, 0, state.mode, state.config) matches StepView::Done(event, next)
            ==> {
            let applied = state.read(event, next);
            applied.error is None ==> ends_with(
                state.uncommitted(),
                applied.state.consume(next).uncommitted(),
            )
        },
{
    lemma_event_bounds(state.buffer, state.mode, state.config);
    if let StepView::Done(event, next) = event_step(state.buffer, 0, state.mode, state.config) {
        let applied = state.read(event, next);
        let after = applied.state.consume(next);
        let before = state.uncommitted();
        let s = state.buffer;
        assert(s.take(next) + s.skip(next) == s);
        if applied.error is None {
            match event {
                Event::ToolCallStart => {
                    lemma_text_event(s, state.config);
                    if state.config.allow_markdown_fence {
                        lemma_start_is_opening(state);
                        assert(after.uncommitted() =~= before);
                        assert(before.skip(0) == before);
                    } else {
                        assert(before.skip(before.len() - after.uncommitted().len())
                            =~= after.uncommitted());
                    }
                },
                Event::ToolCallHeader { fenced, .. } => {
                    if fenced {
                        assert(after.uncommitted() =~= before);
                        assert(before.skip(0) == before);
                    } else {
                        assert(before.skip(before.len() - after.uncommitted().len())
                            =~= after.uncommitted());
                    }
                },
                Event::Arguments { .. } => {
                    if after.pending is Some {
                        assert(after.uncommitted() =~= before);
                        assert(before.skip(0) == before);
                    } else {
                        assert(before.skip(before.len() - after.uncommitted().len())
                            =~= after.uncommitted());
                    }
                },
                _ => {
                    assert(before.skip(before.len() - after.uncommitted().len())
                        =~= after.uncommitted());
                },
            }
        }
    }
}

/// Nor does draining the buffer.
proof fn lemma_drain_uncommitted(state: State)
    requires
        state.wf(),
    ensures
        ends_with(state.uncommitted(), state.drain().state.uncommitted()),
    decreases state.buffer.len(), state.rank(),
{
    lemma_apply_wf(state);
    lemma_event_bounds(state.buffer, state.mode, state.config);
    assert(state.uncommitted().skip(0) == state.uncommitted());
    if let StepView::Done(event, next) = event_step(state.buffer, 0, state.mode, state.config) {
        let applied = state.read(event, next);
        if applied.error is None {
            let after = applied.state.consume(next);
            lemma_step_uncommitted(state);
            lemma_drain_uncommitted(after);
            lemma_ends_with_trans(
                state.uncommitted(),
                after.uncommitted(),
                after.drain().state.uncommitted(),
            );
        }
    }
}

/// What a reset returns is always the end of the input that the parser was given: what was
/// uncommitted before a chunk, with the chunk behind it, ends with what is uncommitted after it.
pub proof fn law_uncommitted(state: State, chunk: Seq<char>)
    requires
        state.wf(),
        state.load() + byte_len(chunk) <= usize::MAX,
    ensures
        ends_with(state.uncommitted() + chunk, state.feed(chunk).state.uncommitted()),
{
    let start = State { buffer: state.buffer + chunk, ..state };
    lemma_feed_wf(state, chunk);
    lemma_drain_uncommitted(start);
    assert(start.uncommitted() =~= state.uncommitted() + chunk);
}

/// No tool call has been handed out that is not over: none is open, or it is held back.
pub open spec fn withheld(state: State) -> bool {
    !(state.mode matches Mode::Arguments { fenced: false, .. })
}

/// Without a tool call handed out, an event moves input to the text and loses none.
proof fn lemma_drain_kept(state: State)
    requires
        state.wf(),
        state.config.allow_markdown_fence,
        withheld(state),
        deltas_of(state.drain().output).len() == 0,
    ensures
        text_of(state.drain().output) + state.drain().state.uncommitted() == state.uncommitted(),
        withheld(state.drain().state),
    decreases state.buffer.len(), state.rank(),
{
    let outcome = state.drain();
    lemma_apply_wf(state);
    lemma_event_bounds(state.buffer, state.mode, state.config);
    if let StepView::Done(event, next) = event_step(state.buffer, 0, state.mode, state.config) {
        let applied = state.read(event, next);
        if applied.error is None {
            let after = applied.state.consume(next);
            let rest = after.drain();
            lemma_append_contents(applied.output, rest.output);
            lemma_event_contents(state, event, next);
            lemma_drain_kept(after);
            assert(text_of(applied.output) + (text_of(rest.output) + rest.state.uncommitted())
                =~= (text_of(applied.output) + text_of(rest.output)) + rest.state.uncommitted());
        } else {
            assert(Seq::<char>::empty() + state.uncommitted() =~= state.uncommitted());
        }
    } else {
        assert(Seq::<char>::empty() + state.uncommitted() =~= state.uncommitted());
    }
}

/// What one event hands out while no tool call is handed out, and what it leaves uncommitted.
proof fn lemma_event_contents(state: State, event: Event, next: int)
    requires
        state.wf(),
        state.config.allow_markdown_fence,
        withheld(state),
        event_step(state.buffer, 0, state.mode, state.config) == StepView::Done(event, next),
        state.read(event, next).error is None,
        deltas_of(state.read(event, next).output).len() == 0,
    ensures
        ({
            let after = state.read(event, next).state.consume(next);
            &&& withheld(after)
            &&& text_of(state.read(event, next).output) + after.uncommitted()
                == state.uncommitted()
        }),
{
    let s = state.buffer;
    let applied = state.read(event, next);
    let after = applied.state.consume(next);
    lemma_event_bounds(s, state.mode, state.config);
    assert(s.take(next) + s.skip(next) == s);
    let output = applied.output;
    if output.len() > 0 {
        assert(output =~= Seq::<OutputEvent>::empty().push(output[0]));
        assert(output.drop_last() =~= Seq::<OutputEvent>::empty());
        reveal_with_fuel(deltas_of, 2);
        reveal_with_fuel(text_of, 2);
    }
    match event {
        Event::Text { .. } => {
            assert(output == text_events(s.take(next)));
            assert(text_of(output) =~= s.take(next));
            assert(text_of(output) + after.uncommitted() =~= state.uncommitted());
        },
        Event::ToolCallStart => {
            lemma_text_event(s, state.config);
            lemma_start_is_opening(state);
            assert(text_of(output) + after.uncommitted() =~= state.uncommitted());
        },
        _ => {
            assert(text_of(output) + after.uncommitted() =~= state.uncommitted());
        },
    }
}

/// Where fences are allowed, nothing is lost before the first tool call is handed out: the text
/// that was handed out and what a reset returns make up all input.
pub proof fn law_kept(state: State, chunk: Seq<char>)
    requires
        state.wf(),
        state.load() + byte_len(chunk) <= usize::MAX,
        state.config.allow_markdown_fence,
        withheld(state),
        deltas_of(state.feed(chunk).output).len() == 0,
    ensures
        text_of(state.feed(chunk).output) + state.feed(chunk).state.uncommitted()
            == state.uncommitted() + chunk,
        withheld(state.feed(chunk).state),
{
    let start = State { buffer: state.buffer + chunk, ..state };
    lemma_feed_wf(state, chunk);
    lemma_drain_kept(start);
    assert(start.uncommitted() =~= state.uncommitted() + chunk);
}

/// So it is for a new parser over any number of chunks, up to the one that an error stops it on.
pub proof fn law_kept_from_new(config: JsonToolCallConfig, chunks: Seq<Seq<char>>)
    requires
        config.valid(),
        config.allow_markdown_fence,
        byte_len(concatenation(chunks)) <= usize::MAX,
        chunks.len() > 0 ==> feed_all(State::fresh(config), chunks.drop_last()).error is None,
        deltas_of(feed_all(State::fresh(config), chunks).output).len() == 0,
    ensures
        ({
            let outcome = feed_all(State::fresh(config), chunks);
            &&& text_of(outcome.output) + outcome.state.uncommitted() == concatenation(chunks)
            &&& withheld(outcome.state)
            &&& outcome.state.wf()
            &&& outcome.state.config == config
            &&& outcome.state.load() <= byte_len(concatenation(chunks))
        }),
    decreases chunks.len(),
{
    let fresh = State::fresh(config);
    lemma_fresh_wf(config);
    if chunks.len() == 0 {
        lemma_byte_len_bound(concatenation(chunks));
        assert(fresh.uncommitted() =~= Seq::empty());
        assert(text_of(Seq::empty()) + fresh.uncommitted() =~= Seq::empty());
    } else {
        let earlier = chunks.drop_last();
        let last = chunks.last();
        let before = feed_all(fresh, earlier);
        let fed = before.state.feed(last);
        lemma_byte_len_append(concatenation(earlier), last);
        lemma_byte_len_bound(last);
        if earlier.len() > 0 {
            assert(feed_all(fresh, earlier.drop_last()).error is None);
        }
        lemma_append_contents(before.output, fed.output);
        law_kept_from_new(config, earlier);
        law_kept(before.state, last);
        lemma_feed_wf(before.state, last);
        let start = State { buffer: before.state.buffer + last, ..before.state };
        lemma_byte_len_append(before.state.buffer, last);
        lemma_drain_wf(start);
        assert((text_of(before.output) + text_of(fed.output)) + fed.state.uncommitted()
            =~= text_of(before.output) + (text_of(fed.output) + fed.state.uncommitted()));
        assert(text_of(before.output) + (before.state.uncommitted() + last) =~= (text_of(
            before.output,
        ) + before.state.uncommitted()) + last);
    }
}

/// The text holds `marker` nowhere.
pub open spec fn free_of(text: Seq<char>, marker: Seq<char>) -> bool {
    forall|i: int| 0 <= i && i + marker.len() <= text.len() ==> !agrees(text, i, marker)
}

/// A buffer without the marker is drained as text.
proof fn lemma_drain_plain(state: State)
    requires
        state.mode is Text,
        free_of(state.buffer, state.config.start_marker@),
    ensures
        ({
            let outcome = state.drain();
            &&& outcome.error is None
            &&& outcome.state == (State { buffer: outcome.state.buffer, ..state })
            &&& deltas_of(outcome.output).len() == 0
            &&& text_of(outcome.output) + outcome.state.buffer == state.buffer
        }),
    decreases state.buffer.len(),
{
    let s = state.buffer;
    let marker = state.config.start_marker@;
    lemma_text_event(s, state.config);
    reveal_with_fuel(sequence_step, 2);
    if s.len() > 0 && start_step(s, 0, state.config) is Failed {
        let end = next_candidate(s, 1, marker);
        lemma_next_candidate(s, 1, marker);
        let after = state.consume(end);
        assert forall|i: int| 0 <= i && i + marker.len() <= after.buffer.len() implies !agrees(
            after.buffer,
            i,
            marker,
        ) by {
            lemma_agrees_shift(s, end, i, marker);
        }
        lemma_drain_plain(after);
        let rest = after.drain();
        let head = text_events(s.take(end));
        lemma_append_contents(head, rest.output);
        assert(text_of(head) =~= s.take(end)) by {
            assert(head.drop_last() == Seq::<OutputEvent>::empty());
            reveal_with_fuel(text_of, 2);
        }
        assert(deltas_of(head).len() == 0) by {
            assert(head.drop_last() == Seq::<OutputEvent>::empty());
            reveal_with_fuel(deltas_of, 2);
        }
        assert((s.take(end) + text_of(rest.output)) + rest.state.buffer =~= s.take(end) + s.skip(
            end,
        ));
        assert(s.take(end) + s.skip(end) == s);
    } else {
        assert(Seq::<char>::empty() + s == s);
    }
}

/// The text and the parts of tool calls of two outputs in a row.
pub proof fn lemma_append_contents(first: Seq<OutputEvent>, second: Seq<OutputEvent>)
    ensures
        text_of(first + second) == text_of(first) + text_of(second),
        deltas_of(first + second) == deltas_of(first) + deltas_of(second),
    decreases second.len(),
{
    if second.len() == 0 {
        assert(first + second == first);
        assert(text_of(first) + text_of(second) == text_of(first));
        assert(deltas_of(first) + deltas_of(second) == deltas_of(first));
    } else {
        assert((first + second).drop_last() == first + second.drop_last());
        lemma_append_contents(first, second.drop_last());
        match second.last() {
            OutputEvent::Text(text) => {
                assert((text_of(first) + text_of(second.drop_last())) + text == text_of(first) + (
                text_of(second.drop_last()) + text));
            },
            OutputEvent::ToolCall(call) => {
                assert((deltas_of(first) + deltas_of(second.drop_last())).push(call) == deltas_of(
                    first,
                ) + deltas_of(second.drop_last()).push(call));
            },
        }
    }
}

/// Text without the start marker passes through: it is handed out as text, and what is not yet is
/// in the buffer, to be handed out at the end of the input. Nothing else changes.
pub proof fn law_plain_text(state: State, chunk: Seq<char>)
    requires
        state.mode is Text,
        free_of(state.buffer + chunk, state.config.start_marker@),
    ensures
        ({
            let outcome = state.feed(chunk);
            &&& outcome.error is None
            &&& outcome.state == (State { buffer: outcome.state.buffer, ..state })
            &&& calls_of(outcome.output).len() == 0
            &&& text_of(outcome.output + text_events(outcome.state.buffer)) == state.buffer + chunk
        }),
{
    let start = State { buffer: state.buffer + chunk, ..state };
    lemma_drain_plain(start);
    let outcome = start.drain();
    let rest = outcome.state.buffer;
    lemma_append_contents(outcome.output, text_events(rest));
    assert(text_of(text_events(rest)) =~= rest) by {
        if rest.len() > 0 {
            assert(text_events(rest).drop_last() == Seq::<OutputEvent>::empty());
            reveal_with_fuel(text_of, 2);
        }
    }
}

/// No tool call is opened as long as the count stays, and so none is held back.
proof fn lemma_drain_count(state: State)
    requires
        state.wf(),
    ensures
        state.emitted <= state.drain().state.emitted,
        state.pending is None && state.emitted == state.drain().state.emitted
            ==> state.drain().state.pending is None,
    decreases state.buffer.len(), state.rank(),
{
    lemma_apply_wf(state);
    lemma_event_bounds(state.buffer, state.mode, state.config);
    if let StepView::Done(event, next) = event_step(state.buffer, 0, state.mode, state.config) {
        let applied = state.read(event, next);
        if applied.error is None {
            lemma_drain_count(applied.state.consume(next));
        }
    }
}

/// Draining adds to what is held back.
proof fn lemma_drain_held_back(state: State)
    requires
        state.wf(),
        state.pending is Some,
        state.drain().state.pending is Some,
        state.drain().state.emitted == state.emitted,
    ensures
        state.drain().output.len() == 0,
        state.drain().state.uncommitted() == state.uncommitted(),
        state.drain().state.pending == state.pending,
    decreases state.buffer.len(), state.rank(),
{
    lemma_apply_wf(state);
    lemma_event_bounds(state.buffer, state.mode, state.config);
    if let StepView::Done(event, next) = event_step(state.buffer, 0, state.mode, state.config) {
        let applied = state.read(event, next);
        if applied.error is None {
            let after = applied.state.consume(next);
            lemma_drain_count(after);
            assert(event is Arguments);
            let s = state.buffer;
            assert(s.take(next) + s.skip(next) == s);
            assert(after.uncommitted() =~= state.uncommitted());
            lemma_drain_held_back(after);
        }
    }
}

/// As long as a fenced tool call is held back, nothing is handed out and all input is kept.
pub proof fn law_held_back(state: State, chunk: Seq<char>)
    requires
        state.wf(),
        state.load() + byte_len(chunk) <= usize::MAX,
        state.pending is Some,
        state.feed(chunk).state.pending is Some,
        state.feed(chunk).state.emitted == state.emitted,
    ensures
        state.feed(chunk).output.len() == 0,
        state.feed(chunk).state.uncommitted() == state.uncommitted() + chunk,
        state.feed(chunk).state.pending == state.pending,
{
    let start = State { buffer: state.buffer + chunk, ..state };
    lemma_feed_wf(state, chunk);
    lemma_drain_held_back(start);
    assert(start.uncommitted() =~= state.uncommitted() + chunk);
}

} // verus!
