//! Where a stream is cut into pieces makes no difference.

use vstd::prelude::*;

use crate::bytes::{byte_len, lemma_chars_in};
use crate::config::JsonToolCallConfig;
use crate::event::{
    Event, Mode, event_step, lemma_arguments_event, lemma_event_bounds, lemma_text_event,
    mode_after, start_step,
};
use crate::laws::joining::{
    arguments_part, joined, joined_onto, law_joined_coalesces, lemma_join_arguments,
    lemma_join_texts, lemma_joined_append,
};
use crate::laws::stability::{
    law_close_settled, law_header_settled, law_start_settled, lemma_agrees_stable,
};
use crate::lex::agrees;
use crate::object::{ObjectScan, lemma_run_bounds};
use crate::output::{OutputEvent, coalesced, text_events};
use crate::sequence::sequence_step;
use crate::state::{Outcome, State};
use crate::step::StepView;
use crate::text::{lemma_next_candidate, next_candidate};

verus! {

broadcast use lemma_chars_in;

/// The state with more input behind its buffer.
pub open spec fn extended(state: State, more: Seq<char>) -> State {
    State { buffer: state.buffer + more, ..state }
}

/// What a list of chunks leads to: they are fed one after the other until an error comes.
pub open spec fn feed_all(state: State, chunks: Seq<Seq<char>>) -> Outcome
    decreases chunks.len(),
{
    if chunks.len() == 0 {
        Outcome { state, output: Seq::empty(), error: None }
    } else {
        let before = feed_all(state, chunks.drop_last());
        if before.error is Some {
            before
        } else {
            let last = before.state.feed(chunks.last());
            Outcome {
                state: last.state,
                output: before.output + last.output,
                error: last.error,
            }
        }
    }
}

/// Agreement is found again in the rest of the input.
pub proof fn lemma_agrees_shift(s: Seq<char>, from: int, at: int, literal: Seq<char>)
    requires
        0 <= from <= s.len(),
        0 <= at,
    ensures
        agrees(s.skip(from), at, literal) == agrees(s, from + at, literal),
{
    let rest = s.skip(from);
    if agrees(rest, at, literal) {
        assert forall|k: int| 0 <= k < literal.len() && from + at + k < s.len() implies s[from + at
            + k] == #[trigger] literal[k] by {
            assert(rest[at + k] == literal[k]);
        }
    }
    if agrees(s, from + at, literal) {
        assert forall|k: int| 0 <= k < literal.len() && at + k < rest.len() implies rest[at + k]
            == #[trigger] literal[k] by {
            assert(s[from + at + k] == literal[k]);
        }
    }
}

/// The next candidate is found again in the rest of the input.
proof fn lemma_candidate_shift(s: Seq<char>, from: int, at: int, marker: Seq<char>)
    requires
        0 <= from <= s.len(),
        0 <= at <= s.len() - from,
    ensures
        next_candidate(s.skip(from), at, marker) == next_candidate(s, from + at, marker) - from,
    decreases s.len() - from - at,
{
    lemma_agrees_shift(s, from, at, marker);
    if at < s.len() - from && !agrees(s, from + at, marker) {
        lemma_candidate_shift(s, from, at + 1, marker);
    }
}

/// The next candidate of more input: not before that of less, and found again from there.
proof fn lemma_candidate_extends(s: Seq<char>, t: Seq<char>, from: int, marker: Seq<char>)
    requires
        0 <= from <= s.len(),
    ensures
        next_candidate(s, from, marker) <= next_candidate(s + t, from, marker) <= (s + t).len(),
        next_candidate(s + t, from, marker) == next_candidate(
            s + t,
            next_candidate(s, from, marker),
            marker,
        ),
    decreases s.len() - from,
{
    lemma_next_candidate(s + t, from, marker);
    if from < s.len() && !agrees(s, from, marker) {
        lemma_agrees_stable(s, t, from, marker);
        lemma_candidate_extends(s, t, from + 1, marker);
    }
}

/// A scan of more input passes through where that of less ends.
pub proof fn lemma_run_extends(scan: ObjectScan, s: Seq<char>, t: Seq<char>, at: int)
    requires
        0 <= at <= s.len(),
    ensures
        scan.run(s + t, at) == scan.run(s, at).0.run(s + t, scan.run(s, at).1),
    decreases s.len() - at,
{
    if !scan.complete() && at < s.len() {
        lemma_run_extends(scan.advance(s[at]), s, t, at + 1);
    }
}

/// A scan of the rest of some input is a scan of the input from there on.
pub proof fn lemma_run_shift(scan: ObjectScan, s: Seq<char>, from: int, at: int)
    requires
        0 <= from <= s.len(),
        0 <= at <= s.len() - from,
    ensures
        scan.run(s.skip(from), at).0 == scan.run(s, from + at).0,
        scan.run(s.skip(from), at).1 == scan.run(s, from + at).1 - from,
    decreases s.len() - from - at,
{
    if !scan.complete() && at < s.len() - from {
        lemma_run_shift(scan.advance(s[from + at]), s, from, at + 1);
    }
}

/// A scan that has moved has seen the opening brace.
proof fn lemma_run_started(scan: ObjectScan, s: Seq<char>, at: int)
    requires
        0 <= at <= s.len(),
        scan.started || at < s.len(),
    ensures
        scan.run(s, at).0.started,
    decreases s.len() - at,
{
    if !scan.complete() && at < s.len() {
        lemma_run_started(scan.advance(s[at]), s, at + 1);
    }
}

/// Where the input cannot hold the start marker, no tool call starts.
pub proof fn lemma_no_start(s: Seq<char>, at: int, config: JsonToolCallConfig)
    requires
        !agrees(s, at, config.start_marker@),
    ensures
        start_step(s, at, config) is Failed,
{
    reveal_with_fuel(sequence_step, 2);
}

/// An event other than text or arguments that was read, or a refusal, stays so.
proof fn lemma_event_settled(s: Seq<char>, t: Seq<char>, mode: Mode, config: JsonToolCallConfig)
    ensures
        match event_step(s, 0, mode, config) {
            StepView::Incomplete => true,
            StepView::Done(Event::Text { .. }, _) => true,
            StepView::Done(Event::Arguments { .. }, _) => true,
            step => {
                &&& event_step(s + t, 0, mode, config) == step
                &&& mode_after(s + t, 0, mode) == mode_after(s, 0, mode)
            },
        },
{
    reveal(event_step);
    match mode {
        Mode::Text => {
            law_start_settled(s, t, 0, config);
        },
        Mode::Header => {
            law_header_settled(s, t, 0, config);
        },
        Mode::Arguments { scan, fenced } => {
            if scan.complete() {
                law_close_settled(s, t, 0, fenced, config);
            }
        },
    }
}

/// Whatever way the output is cut, more input behind the buffer leads to the same as feeding it
/// once the buffer is drained.
pub open spec fn splits(state: State, t: Seq<char>, done: Seq<OutputEvent>) -> bool {
    let whole = extended(state, t).drain();
    let first = state.drain();
    let second = first.state.feed(t);
    if first.error is None {
        &&& whole.state == second.state
        &&& whole.error == second.error
        &&& joined_onto(done, whole.output) == joined_onto(done, first.output + second.output)
    } else {
        &&& whole.error == first.error
        &&& joined_onto(done, whole.output) == joined_onto(done, first.output)
    }
}

/// The case of an event that is the same with more input.
proof fn lemma_split_same(
    state: State,
    t: Seq<char>,
    done: Seq<OutputEvent>,
    event: Event,
    next: int,
)
    requires
        event_step(state.buffer, 0, state.mode, state.config) == StepView::Done(event, next),
        event_step(state.buffer + t, 0, state.mode, state.config) == StepView::Done(event, next),
        mode_after(state.buffer + t, 0, state.mode) == mode_after(state.buffer, 0, state.mode),
    ensures
        splits(state, t, done),
    decreases state.buffer.len(), state.rank(), 0int,
{
    let s = state.buffer;
    let u = s + t;
    lemma_event_bounds(s, state.mode, state.config);
    let whole = extended(state, t);
    let applied = state.read(event, next);
    let applied_whole = whole.read(event, next);
    assert(u.take(next) =~= s.take(next));
    assert(applied_whole.state == extended(applied.state, t));
    assert(applied_whole.output == applied.output);
    assert(applied_whole.error == applied.error);
    if applied.error is None {
        let after = applied.state.consume(next);
        let done2 = joined_onto(done, applied.output);
        assert(u.skip(next) == s.skip(next) + t);
        assert(applied_whole.state.consume(next) == extended(after, t));
        lemma_split(after, t, done2);
        let rest = extended(after, t).drain();
        let first = after.drain();
        let second = first.state.feed(t);
        lemma_joined_append(done, applied.output, rest.output);
        lemma_joined_append(done, applied.output, first.output);
        lemma_joined_append(done, applied.output, first.output + second.output);
        assert((applied.output + first.output) + second.output == applied.output + (first.output
            + second.output));
    }
}

/// The case of text that goes on in the input behind the buffer.
proof fn lemma_split_text(state: State, t: Seq<char>, done: Seq<OutputEvent>)
    requires
        event_step(state.buffer, 0, state.mode, state.config) matches StepView::Done(
            Event::Text { .. },
            _,
        ),
    ensures
        splits(state, t, done),
    decreases state.buffer.len(), state.rank(), 1int,
{
    let s = state.buffer;
    let u = s + t;
    let config = state.config;
    let marker = config.start_marker@;
    let whole = extended(state, t);
    lemma_event_bounds(s, state.mode, config);
    lemma_next_candidate(s, 1, marker);
    let next = next_candidate(s, 1, marker);
    let end = next_candidate(u, 1, marker);
    law_start_settled(s, t, 0, config);
    lemma_candidate_extends(s, t, 1, marker);
    lemma_text_event(s, config);
    lemma_text_event(u, config);
    let event = Event::Text { len: byte_len(s.take(next)) };
    if next == end {
        assert(u.take(next) =~= s.take(next));
        lemma_split_same(state, t, done, event, next);
    } else {
        lemma_next_candidate(u, 1, marker);
        assert(!agrees(u, next, marker));
        let after = state.consume(next);
        let later = extended(after, t);
        assert(later.buffer == u.skip(next));
        lemma_agrees_shift(u, next, 0, marker);
        lemma_no_start(u.skip(next), 0, config);
        lemma_text_event(u.skip(next), config);
        lemma_candidate_shift(u, next, 1, marker);
        assert(next_candidate(u, next, marker) == next_candidate(u, next + 1, marker));
        let rest = whole.consume(end).drain();
        assert(u.skip(next).skip(end - next) == u.skip(end));
        assert(later.consume(end - next) == whole.consume(end));
        let head = s.take(next);
        let tail = u.skip(next).take(end - next);
        assert(head + tail == u.take(end));
        let done2 = joined_onto(done, text_events(head));
        lemma_split(after, t, done2);
        let first = after.drain();
        let second = first.state.feed(t);
        lemma_joined_append(done2, text_events(tail), rest.output);
        lemma_join_texts(done, head, tail);
        lemma_joined_append(done, text_events(u.take(end)), rest.output);
        lemma_joined_append(done, text_events(head), first.output);
        lemma_joined_append(done, text_events(head), first.output + second.output);
        assert((text_events(head) + first.output) + second.output == text_events(head) + (
        first.output + second.output));
    }
}

/// The case of arguments that go on in the input behind the buffer.
proof fn lemma_split_arguments(state: State, t: Seq<char>, done: Seq<OutputEvent>)
    requires
        event_step(state.buffer, 0, state.mode, state.config) matches StepView::Done(
            Event::Arguments { .. },
            _,
        ),
    ensures
        splits(state, t, done),
    decreases state.buffer.len(), state.rank(), 1int,
{
    let s = state.buffer;
    let u = s + t;
    let config = state.config;
    let whole = extended(state, t);
    lemma_event_bounds(s, state.mode, config);
    if let Mode::Arguments { scan, fenced } = state.mode {
        let next = scan.run(s, 0).1;
        let end = scan.run(u, 0).1;
        lemma_run_bounds(scan, s, 0);
        lemma_run_bounds(scan, u, 0);
        lemma_run_extends(scan, s, t, 0);
        lemma_arguments_event(s, scan, fenced, config);
        lemma_arguments_event(u, scan, fenced, config);
        let reached = scan.run(s, 0).0;
        let event = Event::Arguments { len: byte_len(s.take(next)) };
        let event_whole = Event::Arguments { len: byte_len(u.take(end)) };
        assert(event_step(u, 0, state.mode, config) == StepView::Done(event_whole, end));
        if reached.complete() || t.len() == 0 {
            assert(end == next);
            assert(u.take(next) =~= s.take(next));
            lemma_split_same(state, t, done, event, next);
        } else {
            assert(next == s.len());
            let part = s.take(next);
            let applied = state.read(event, next);
            let applied_whole = whole.read(event_whole, end);
            if let Some(tool_index) = state.active {
                let after = applied.state.consume(next);
                let later = extended(after, t);
                assert(later.buffer == u.skip(next));
                lemma_run_started(scan, s, 0);
                lemma_run_shift(reached, u, next, 0);
                lemma_run_bounds(reached, u, next);
                lemma_arguments_event(later.buffer, reached, fenced, config);
                let more = u.skip(next).take(end - next);
                assert(part + more == u.take(end));
                let event_later = Event::Arguments { len: byte_len(more) };
                assert(event_step(later.buffer, 0, later.mode, config) == StepView::Done(
                    event_later,
                    end - next,
                ));
                let applied_later = later.read(event_later, end - next);
                assert(u.skip(next).skip(end - next) == u.skip(end));
                assert((state.raw + part) + more == state.raw + u.take(end));
                assert(applied_later.state.consume(end - next) == applied_whole.state.consume(end));
                let rest = applied_whole.state.consume(end).drain();
                let done2 = joined_onto(done, applied.output);
                lemma_split(after, t, done2);
                let first = after.drain();
                let second = first.state.feed(t);
                lemma_joined_append(done2, applied_later.output, rest.output);
                lemma_joined_append(done, applied_whole.output, rest.output);
                lemma_joined_append(done, applied.output, first.output);
                lemma_joined_append(done, applied.output, first.output + second.output);
                assert((applied.output + first.output) + second.output == applied.output + (
                first.output + second.output));
                assert(joined_onto(done2, applied_later.output) == joined_onto(
                    done,
                    applied_whole.output,
                )) by {
                    if !fenced {
                        lemma_join_arguments(done, tool_index, part, more);
                        assert(applied.output == seq![arguments_part(tool_index, part)]);
                        assert(applied_later.output == seq![arguments_part(tool_index, more)]);
                        assert(applied_whole.output == seq![
                            arguments_part(tool_index, u.take(end)),
                        ]);
                    }
                }
            }
        }
    }
}

/// Draining a state whose buffer has more behind it: like draining the buffer first and then
/// feeding the rest.
proof fn lemma_split(state: State, t: Seq<char>, done: Seq<OutputEvent>)
    ensures
        splits(state, t, done),
    decreases state.buffer.len(), state.rank(), 2int,
{
    let s = state.buffer;
    match event_step(s, 0, state.mode, state.config) {
        StepView::Incomplete => {
            assert(Seq::<OutputEvent>::empty() + state.feed(t).output == state.feed(t).output);
        },
        StepView::Failed(error) => {
            lemma_event_settled(s, t, state.mode, state.config);
        },
        StepView::Done(event, next) => {
            match event {
                Event::Text { .. } => {
                    lemma_split_text(state, t, done);
                },
                Event::Arguments { .. } => {
                    lemma_split_arguments(state, t, done);
                },
                _ => {
                    lemma_event_settled(s, t, state.mode, state.config);
                    lemma_split_same(state, t, done, event, next);
                },
            }
        },
    }
}

/// Cutting a piece of input in two makes no difference: fed in two parts, it leads to the same
/// state, to the same error, and to an output that differs at most in where its text and its
/// arguments are cut. An error in the first part is the error of the whole.
pub proof fn law_split(state: State, first: Seq<char>, second: Seq<char>)
    ensures
        ({
            let whole = state.feed(first + second);
            let one = state.feed(first);
            let two = one.state.feed(second);
            if one.error is None {
                &&& whole.state == two.state
                &&& whole.error == two.error
                &&& joined(whole.output) == joined(one.output + two.output)
                &&& coalesced(whole.output) == coalesced(one.output + two.output)
            } else {
                &&& whole.error == one.error
                &&& joined(whole.output) == joined(one.output)
                &&& coalesced(whole.output) == coalesced(one.output)
            }
        }),
{
    let start = extended(state, first);
    lemma_split(start, second, Seq::empty());
    assert(extended(start, second) == extended(state, first + second)) by {
        assert((state.buffer + first) + second == state.buffer + (first + second));
    }
    let whole = state.feed(first + second);
    let one = state.feed(first);
    let two = one.state.feed(second);
    if one.error is None {
        law_joined_coalesces(whole.output, one.output + two.output);
    } else {
        law_joined_coalesces(whole.output, one.output);
    }
}

/// The text that chunks make up.
pub open spec fn concatenation(chunks: Seq<Seq<char>>) -> Seq<char>
    decreases chunks.len(),
{
    if chunks.len() == 0 {
        Seq::empty()
    } else {
        concatenation(chunks.drop_last()) + chunks.last()
    }
}

/// Chunks lead to what the text that they make up leads to when it is fed at once: to the same
/// error, to an output that differs at most in where its text and its arguments are cut, and to
/// the same state where there is no error.
pub proof fn law_chunks(state: State, chunks: Seq<Seq<char>>)
    requires
        chunks.len() > 0,
    ensures
        ({
            let parts = feed_all(state, chunks);
            let whole = state.feed(concatenation(chunks));
            &&& parts.error == whole.error
            &&& joined(parts.output) == joined(whole.output)
            &&& coalesced(parts.output) == coalesced(whole.output)
            &&& parts.error is None ==> parts.state == whole.state
        }),
    decreases chunks.len(),
{
    let last = chunks.last();
    let text = concatenation(chunks.drop_last());
    let parts = feed_all(state, chunks);
    let whole = state.feed(concatenation(chunks));
    if chunks.len() == 1 {
        let before = chunks.drop_last();
        assert(before.len() == 0);
        assert(text + last == last);
        assert(feed_all(state, before).output + state.feed(last).output == state.feed(last).output);
    } else {
        law_chunks(state, chunks.drop_last());
        law_split(state, text, last);
        let before = feed_all(state, chunks.drop_last());
        let one = state.feed(text);
        if before.error is None {
            let two = one.state.feed(last);
            lemma_joined_append(Seq::empty(), before.output, two.output);
            lemma_joined_append(Seq::empty(), one.output, two.output);
        }
    }
    law_joined_coalesces(parts.output, whole.output);
}

/// Two ways to cut the same text into chunks lead to the same error and to the same coalesced
/// output, whatever is handed out behind it, and to the same state where there is no error.
pub proof fn law_cuts(
    state: State,
    first: Seq<Seq<char>>,
    second: Seq<Seq<char>>,
    tail: Seq<OutputEvent>,
)
    requires
        first.len() > 0,
        second.len() > 0,
        concatenation(first) == concatenation(second),
    ensures
        feed_all(state, first).error == feed_all(state, second).error,
        coalesced(feed_all(state, first).output + tail) == coalesced(
            feed_all(state, second).output + tail,
        ),
        feed_all(state, first).error is None ==> feed_all(state, first).state == feed_all(
            state,
            second,
        ).state,
{
    law_chunks(state, first);
    law_chunks(state, second);
    let one = feed_all(state, first).output;
    let two = feed_all(state, second).output;
    lemma_joined_append(Seq::empty(), one, tail);
    lemma_joined_append(Seq::empty(), two, tail);
    law_joined_coalesces(one + tail, two + tail);
}

} // verus!
