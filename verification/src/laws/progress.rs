//! How far a parser gets with its input, and what can stop it.

use vstd::prelude::*;

use crate::bytes::byte_len;
use crate::config::JsonToolCallConfig;
use crate::error::ErrorView;
use crate::event::{Event, event_step, lemma_event_bounds, lemma_text_event, start_pieces};
use crate::laws::chunking::feed_all;
use crate::sequence::sequence_step;
use crate::state::{Outcome, State, lemma_apply_wf, lemma_feed_wf};
use crate::step::StepView;

verus! {

/// The outcome of input that was read as far as it goes: no event is left in the buffer, or the
/// grammar refuses what is left, or the arguments of a fenced tool call were refused.
pub open spec fn exhausted(outcome: Outcome) -> bool {
    let state = outcome.state;
    let step = event_step(state.buffer, 0, state.mode, state.config);
    match outcome.error {
        None => step == StepView::<Event>::Incomplete,
        Some(ErrorView::Syntax(error)) => step == StepView::<Event>::Failed(error),
        Some(ErrorView::InvalidFencedArguments { .. }) => step is Done && state.pending is Some,
        Some(_) => false,
    }
}

/// Draining stops only there.
proof fn lemma_drain_exhausted(state: State)
    requires
        state.wf(),
    ensures
        exhausted(state.drain()),
    decreases state.buffer.len(), state.rank(),
{
    lemma_apply_wf(state);
    lemma_event_bounds(state.buffer, state.mode, state.config);
    if let StepView::Done(event, next) = event_step(state.buffer, 0, state.mode, state.config) {
        let applied = state.read(event, next);
        if applied.error is None {
            lemma_drain_exhausted(applied.state.consume(next));
        }
    }
}

/// All input is used that can be: a parser stops where the rest is no event yet, or where an error
/// lies in the input. An event without its tool call or its header never comes up.
pub proof fn law_exhausted(state: State, chunk: Seq<char>)
    requires
        state.wf(),
        state.load() + byte_len(chunk) <= usize::MAX,
    ensures
        exhausted(state.feed(chunk)),
{
    lemma_feed_wf(state, chunk);
    lemma_drain_exhausted(State { buffer: state.buffer + chunk, ..state });
}

/// Where draining has come to an end without an error, no event is left.
proof fn lemma_drain_rests(state: State)
    ensures
        state.drain().error is None ==> event_step(
            state.drain().state.buffer,
            0,
            state.drain().state.mode,
            state.drain().state.config,
        ) is Incomplete,
    decreases state.buffer.len(), state.rank(),
{
    lemma_event_bounds(state.buffer, state.mode, state.config);
    if let StepView::Done(event, next) = event_step(state.buffer, 0, state.mode, state.config) {
        let applied = state.read(event, next);
        if applied.error is None {
            lemma_drain_rests(applied.state.consume(next));
        }
    }
}

/// Input of no characters changes nothing and hands out nothing.
pub open spec fn rests(state: State) -> bool {
    state.feed(Seq::empty()) == (Outcome { state, output: Seq::empty(), error: None })
}

/// Without an event in the buffer, a state rests.
proof fn lemma_rests(state: State)
    requires
        event_step(state.buffer, 0, state.mode, state.config) is Incomplete,
    ensures
        rests(state),
{
    assert(state.buffer + Seq::<char>::empty() =~= state.buffer);
}

/// Empty input changes nothing behind other input: all that could be handed out has been.
pub proof fn law_empty_input(state: State, chunk: Seq<char>)
    requires
        state.feed(chunk).error is None,
    ensures
        rests(state.feed(chunk).state),
{
    lemma_drain_rests(State { buffer: state.buffer + chunk, ..state });
    lemma_rests(state.feed(chunk).state);
}

/// Whatever a new parser was fed without an error, be it nothing, empty input changes nothing. A
/// format of which nothing opens a tool call is left out: there the first call opens at once.
pub proof fn law_empty_input_from_new(config: JsonToolCallConfig, chunks: Seq<Seq<char>>)
    requires
        chunks.len() > 0 || config.marker_whitespace is Optional || config.opening().len() > 0,
        feed_all(State::fresh(config), chunks).error is None,
    ensures
        rests(feed_all(State::fresh(config), chunks).state),
{
    let fresh = State::fresh(config);
    if chunks.len() > 0 {
        law_empty_input(feed_all(fresh, chunks.drop_last()).state, chunks.last());
    } else {
        let s = fresh.buffer;
        let pieces = start_pieces(config);
        lemma_text_event(s, config);
        reveal_with_fuel(sequence_step, 3);
        assert(pieces.drop_first()[0] == config.space());
        assert(pieces.drop_first().drop_first().len() == 0);
        lemma_rests(fresh);
    }
}

/// A parser that has stopped on an error stops there again, and hands out nothing more, when it is
/// given no further input.
pub proof fn law_error_stays(state: State, chunk: Seq<char>)
    requires
        state.wf(),
        state.load() + byte_len(chunk) <= usize::MAX,
        state.feed(chunk).error is Some,
    ensures
        ({
            let stopped = state.feed(chunk);
            let again = stopped.state.feed(Seq::empty());
            &&& again.error == stopped.error
            &&& again.state == stopped.state
            &&& again.output.len() == 0
        }),
{
    let start = State { buffer: state.buffer + chunk, ..state };
    lemma_feed_wf(state, chunk);
    lemma_drain_stops(start);
    let stopped = start.drain();
    assert(stopped.state.buffer + Seq::<char>::empty() =~= stopped.state.buffer);
}

/// Where draining has stopped on an error, it stops again.
proof fn lemma_drain_stops(state: State)
    requires
        state.wf(),
    ensures
        state.drain().error is Some ==> {
            let again = state.drain().state.drain();
            &&& again.error == state.drain().error
            &&& again.state == state.drain().state
            &&& again.output.len() == 0
        },
    decreases state.buffer.len(), state.rank(),
{
    lemma_apply_wf(state);
    lemma_event_bounds(state.buffer, state.mode, state.config);
    if let StepView::Done(event, next) = event_step(state.buffer, 0, state.mode, state.config) {
        let applied = state.read(event, next);
        if applied.error is None {
            lemma_drain_stops(applied.state.consume(next));
        }
    }
}

} // verus!
