//! Tool calls are numbered in the order in which they are handed out.

use vstd::prelude::*;

use crate::bytes::byte_len;
use crate::config::JsonToolCallConfig;
use crate::event::{event_step, lemma_event_bounds};
use crate::laws::joining::{lemma_find_call, lemma_find_call_at, lemma_push_contents};
use crate::output::{OutputEvent, calls_of};
use crate::state::{State, lemma_apply_wf, lemma_feed_wf};
use crate::step::StepView;

verus! {

/// The number of tool calls that have been handed out: all that were counted, but for one that is
/// held back.
pub open spec fn handed_out(state: State) -> int {
    if state.pending is Some {
        state.emitted - 1
    } else {
        state.emitted
    }
}

/// The tool calls of an output: one for each that was handed out, with its position as its index,
/// and with a name.
pub open spec fn numbered(output: Seq<OutputEvent>, state: State) -> bool {
    let calls = calls_of(output);
    &&& calls.len() == handed_out(state)
    &&& forall|i: int|
        0 <= i < calls.len() ==> (#[trigger] calls[i]).tool_index == i && calls[i].name is Some
}

/// One event keeps the numbering.
proof fn lemma_step_numbered(state: State, output: Seq<OutputEvent>)
    requires
        state.wf(),
        numbered(output, state),
    ensures
        event_step(state.buffer, 0, state.mode, state.config) matches StepView::Done(event, next)
            ==> {
            let applied = state.read(event, next);
            numbered(output + applied.output, applied.state.consume(next))
        },
{
    lemma_apply_wf(state);
    lemma_event_bounds(state.buffer, state.mode, state.config);
    if let StepView::Done(event, next) = event_step(state.buffer, 0, state.mode, state.config) {
        let applied = state.read(event, next);
        if applied.output.len() == 0 {
            assert(output + applied.output == output);
        } else {
            let part = applied.output[0];
            assert(output + applied.output == output.push(part));
            lemma_push_contents(output, part);
            if let OutputEvent::ToolCall(delta) = part {
                let calls = calls_of(output);
                lemma_find_call(calls, delta.tool_index, 0);
                if delta.tool_index < calls.len() {
                    lemma_find_call_at(calls, delta.tool_index, 0, delta.tool_index);
                }
            }
        }
    }
}

/// Draining the buffer keeps the numbering.
proof fn lemma_drain_numbered(state: State, output: Seq<OutputEvent>)
    requires
        state.wf(),
        numbered(output, state),
    ensures
        numbered(output + state.drain().output, state.drain().state),
    decreases state.buffer.len(), state.rank(),
{
    lemma_apply_wf(state);
    lemma_event_bounds(state.buffer, state.mode, state.config);
    lemma_step_numbered(state, output);
    assert(output + Seq::<OutputEvent>::empty() == output);
    if let StepView::Done(event, next) = event_step(state.buffer, 0, state.mode, state.config) {
        let applied = state.read(event, next);
        if applied.error is None {
            let after = applied.state.consume(next);
            lemma_drain_numbered(after, output + applied.output);
            assert((output + applied.output) + after.drain().output == output + (applied.output
                + after.drain().output));
        }
    }
}

/// If the tool calls handed out so far are numbered from zero on without a gap, each with a name,
/// then so they are after another chunk.
pub proof fn law_numbered(state: State, output: Seq<OutputEvent>, chunk: Seq<char>)
    requires
        state.wf(),
        state.load() + byte_len(chunk) <= usize::MAX,
        numbered(output, state),
    ensures
        numbered(output + state.feed(chunk).output, state.feed(chunk).state),
{
    lemma_feed_wf(state, chunk);
    lemma_drain_numbered(State { buffer: state.buffer + chunk, ..state }, output);
}

/// A new parser has handed out nothing.
pub proof fn law_numbered_from_zero(config: JsonToolCallConfig)
    ensures
        numbered(Seq::empty(), State::fresh(config)),
{
}

} // verus!
