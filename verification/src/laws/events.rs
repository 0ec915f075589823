//! Events applied one by one: each header opens the next tool call, and its parts carry its number.

use vstd::prelude::*;

use crate::config::JsonToolCallConfig;
use crate::event::{Event, Mode};
use crate::laws::blocks::name_part;
use crate::laws::conservation::lemma_append_contents;
use crate::object::ObjectScan;
use crate::output::{DeltaView, OutputEvent, deltas_of};
use crate::state::{Outcome, State};

verus! {

/// An event that is applied, with the buffer and the scan that the parser has come to by then.
pub struct Application {
    pub buffer: Seq<char>,
    pub scan: ObjectScan,
    pub event: Event,
    pub consumed: int,
}

/// The state in which an event is applied: between two events only the buffer and the scan of
/// unfinished arguments change.
pub open spec fn found(state: State, application: Application) -> State {
    State {
        buffer: application.buffer,
        mode: match state.mode {
            Mode::Arguments { fenced, .. } => Mode::Arguments { scan: application.scan, fenced },
            mode => mode,
        },
        ..state
    }
}

/// What events applied one after the other lead to. The error is that of the last.
pub open spec fn apply_all(state: State, applications: Seq<Application>) -> Outcome
    decreases applications.len(),
{
    if applications.len() == 0 {
        Outcome { state, output: Seq::empty(), error: None }
    } else {
        let before = apply_all(state, applications.drop_last());
        let last = applications.last();
        let applied = found(before.state, last).apply(last.event, last.consumed);
        Outcome {
            state: applied.state,
            output: before.output + applied.output,
            error: applied.error,
        }
    }
}

/// The headers among the events, in order: the name of each, and whether it is fenced.
pub open spec fn headers(applications: Seq<Application>) -> Seq<(Seq<char>, bool)>
    decreases applications.len(),
{
    if applications.len() == 0 {
        Seq::empty()
    } else {
        let before = headers(applications.drop_last());
        match applications.last().event {
            Event::ToolCallHeader { name, fenced } => before.push((name, fenced)),
            _ => before,
        }
    }
}

/// Every header opens the next tool call: with `k` headers before it, whatever came between them,
/// the call has the number `k` and becomes the active one. Without a fence its name is handed out
/// at once; with one it is held back.
pub proof fn law_header_number(
    config: JsonToolCallConfig,
    applications: Seq<Application>,
    application: Application,
)
    ensures
        application.event matches Event::ToolCallHeader { name, fenced } ==> {
            let k = headers(applications).len() as int;
            let state = apply_all(State::fresh(config), applications).state;
            let applied = found(state, application).apply(
                application.event,
                application.consumed,
            );
            &&& applied.error is None
            &&& applied.state.emitted == k + 1
            &&& applied.state.active == Some(k)
            &&& if fenced {
                &&& applied.output.len() == 0
                &&& applied.state.pending matches Some(pending)
                &&& pending.tool_index == k
                &&& pending.name == name
            } else {
                applied.output == seq![name_part(k, name)]
            }
        },
{
    lemma_count(config, applications);
}

/// As many tool calls are counted as there were headers.
proof fn lemma_count(config: JsonToolCallConfig, applications: Seq<Application>)
    ensures
        apply_all(State::fresh(config), applications).state.emitted == headers(applications).len(),
    decreases applications.len(),
{
    if applications.len() > 0 {
        lemma_count(config, applications.drop_last());
    }
}

/// No part before position `i` belongs to the same tool call.
pub open spec fn is_first(deltas: Seq<DeltaView>, i: int) -> bool {
    forall|j: int| 0 <= j < i ==> (#[trigger] deltas[j]).tool_index != deltas[i].tool_index
}

/// Every part belongs to a tool call that a header has opened, and the name of that header comes
/// with the first part of the call and with no other.
pub open spec fn named_first(deltas: Seq<DeltaView>, opened: Seq<(Seq<char>, bool)>) -> bool {
    forall|i: int|
        0 <= i < deltas.len() ==> {
            &&& 0 <= (#[trigger] deltas[i]).tool_index < opened.len()
            &&& deltas[i].name == (if is_first(deltas, i) {
                Some(opened[deltas[i].tool_index].0)
            } else {
                None
            })
        }
}

/// A fenced tool call is the active one, but its arguments are no longer held back: an event that
/// starts another call has come before the end of it.
pub open spec fn strayed(state: State, opened: Seq<(Seq<char>, bool)>) -> bool {
    &&& state.active matches Some(k) && opened[k].1
    &&& !(state.mode matches Mode::Arguments { fenced: true, .. })
}

/// Arguments never come while the active tool call has strayed.
pub open spec fn orderly(state: State, applications: Seq<Application>) -> bool {
    forall|i: int|
        0 <= i < applications.len() && (#[trigger] applications[i]).event is Arguments ==> !strayed(
            apply_all(state, applications.take(i)).state,
            headers(applications.take(i)),
        )
}

/// Some part belongs to the given tool call.
spec fn has_part(deltas: Seq<DeltaView>, tool_index: int) -> bool {
    exists|i: int| 0 <= i < deltas.len() && (#[trigger] deltas[i]).tool_index == tool_index
}

/// What holds between two events: the active call was opened, and without a fence its name was
/// handed out; of the call that is held back nothing was.
spec fn consistent(
    state: State,
    deltas: Seq<DeltaView>,
    opened: Seq<(Seq<char>, bool)>,
) -> bool {
    &&& state.emitted == opened.len()
    &&& named_first(deltas, opened)
    &&& state.active matches Some(k) ==> {
        &&& 0 <= k < opened.len()
        &&& !opened[k].1 ==> has_part(deltas, k)
    }
    &&& state.pending matches Some(pending) ==> {
        &&& 0 <= pending.tool_index < opened.len()
        &&& opened[pending.tool_index] == (pending.name, true)
        &&& !has_part(deltas, pending.tool_index)
    }
}

/// One more part: the first of its call with the name, or a further one without.
proof fn lemma_push_part(
    deltas: Seq<DeltaView>,
    opened: Seq<(Seq<char>, bool)>,
    part: DeltaView,
)
    requires
        named_first(deltas, opened),
        0 <= part.tool_index < opened.len(),
        part.name == (if has_part(deltas, part.tool_index) {
            None
        } else {
            Some(opened[part.tool_index].0)
        }),
    ensures
        named_first(deltas.push(part), opened),
        forall|k: int| #[trigger]
            has_part(deltas.push(part), k) == (has_part(deltas, k) || k == part.tool_index),
{
    let more = deltas.push(part);
    assert forall|i: int| 0 <= i < more.len() implies {
        &&& 0 <= (#[trigger] more[i]).tool_index < opened.len()
        &&& more[i].name == (if is_first(more, i) {
            Some(opened[more[i].tool_index].0)
        } else {
            None
        })
    } by {
        if i < deltas.len() {
            assert(more[i] == deltas[i]);
            assert(is_first(more, i) == is_first(deltas, i)) by {
                assert(forall|j: int| 0 <= j < i ==> more[j] == deltas[j]);
            }
        } else {
            assert(is_first(more, i) == !has_part(deltas, part.tool_index)) by {
                assert(forall|j: int| 0 <= j < i ==> more[j] == deltas[j]);
                if has_part(deltas, part.tool_index) {
                    let j = choose|j: int|
                        0 <= j < deltas.len() && (#[trigger] deltas[j]).tool_index
                            == part.tool_index;
                    assert(more[j].tool_index == part.tool_index);
                }
            }
        }
    }
    assert forall|k: int| #[trigger]
        has_part(more, k) == (has_part(deltas, k) || k == part.tool_index) by {
        if has_part(deltas, k) {
            let j = choose|j: int|
                0 <= j < deltas.len() && (#[trigger] deltas[j]).tool_index == k;
            assert(more[j].tool_index == k);
        }
        if k == part.tool_index {
            assert(more[deltas.len() as int].tool_index == k);
        }
        if has_part(more, k) {
            let j = choose|j: int| 0 <= j < more.len() && (#[trigger] more[j]).tool_index == k;
            if j < deltas.len() {
                assert(deltas[j].tool_index == k);
            }
        }
    }
}

/// One more opened call changes nothing for the parts of those before it.
proof fn lemma_push_header(
    deltas: Seq<DeltaView>,
    opened: Seq<(Seq<char>, bool)>,
    header: (Seq<char>, bool),
)
    requires
        named_first(deltas, opened),
    ensures
        named_first(deltas, opened.push(header)),
        !has_part(deltas, opened.len() as int),
{
    let more = opened.push(header);
    assert forall|i: int| 0 <= i < deltas.len() implies {
        &&& 0 <= (#[trigger] deltas[i]).tool_index < more.len()
        &&& deltas[i].name == (if is_first(deltas, i) {
            Some(more[deltas[i].tool_index].0)
        } else {
            None
        })
    } by {
        assert(more[deltas[i].tool_index] == opened[deltas[i].tool_index]);
    }
}

/// The parts of one event.
proof fn lemma_one_delta(event: OutputEvent)
    ensures
        deltas_of(seq![event]) == (match event {
            OutputEvent::Text(_) => Seq::<DeltaView>::empty(),
            OutputEvent::ToolCall(call) => seq![call],
        }),
{
    assert(seq![event].drop_last() =~= Seq::<OutputEvent>::empty());
    reveal_with_fuel(deltas_of, 2);
    if let OutputEvent::ToolCall(call) = event {
        assert(Seq::<DeltaView>::empty().push(call) =~= seq![call]);
    }
}

/// An event keeps what holds between two events.
proof fn lemma_apply_consistent(
    state: State,
    deltas: Seq<DeltaView>,
    opened: Seq<(Seq<char>, bool)>,
    event: Event,
    consumed: int,
)
    requires
        consistent(state, deltas, opened),
        event is Arguments ==> !strayed(state, opened),
    ensures
        ({
            let applied = state.apply(event, consumed);
            let after = match event {
                Event::ToolCallHeader { name, fenced } => opened.push((name, fenced)),
                _ => opened,
            };
            consistent(applied.state, deltas + deltas_of(applied.output), after)
        }),
{
    let applied = state.apply(event, consumed);
    let output = applied.output;
    if output.len() == 0 {
        assert(deltas + deltas_of(output) =~= deltas);
    } else {
        assert(output =~= seq![output[0]]);
        lemma_one_delta(output[0]);
    }
    if let Event::ToolCallHeader { name, fenced } = event {
        let k = opened.len() as int;
        let after = opened.push((name, fenced));
        lemma_push_header(deltas, opened, (name, fenced));
        if !fenced {
            let part = output[0]->ToolCall_0;
            assert(deltas + seq![part] =~= deltas.push(part));
            lemma_push_part(deltas, after, part);
            assert(has_part(deltas.push(part), k));
            if let Some(pending) = state.pending {
                assert(after[pending.tool_index] == opened[pending.tool_index]);
                assert(!has_part(deltas.push(part), pending.tool_index));
            }
        }
    } else if output.len() > 0 {
        if let OutputEvent::ToolCall(part) = output[0] {
            assert(deltas + seq![part] =~= deltas.push(part));
            lemma_push_part(deltas, opened, part);
            if let Some(k) = applied.state.active {
                assert(!opened[k].1 ==> has_part(deltas.push(part), k));
            }
            if let Some(pending) = applied.state.pending {
                assert(!has_part(deltas.push(part), pending.tool_index));
            }
        } else {
            assert(deltas + Seq::<DeltaView>::empty() =~= deltas);
        }
    }
}

/// Applied one by one, events keep what holds between two of them.
proof fn lemma_all_consistent(config: JsonToolCallConfig, applications: Seq<Application>)
    requires
        orderly(State::fresh(config), applications),
    ensures
        ({
            let outcome = apply_all(State::fresh(config), applications);
            consistent(outcome.state, deltas_of(outcome.output), headers(applications))
        }),
    decreases applications.len(),
{
    let fresh = State::fresh(config);
    if applications.len() > 0 {
        let earlier = applications.drop_last();
        let last = applications.last();
        assert(orderly(fresh, earlier)) by {
            assert forall|i: int|
                0 <= i < earlier.len() && (#[trigger] earlier[i]).event is Arguments
                implies !strayed(
                apply_all(fresh, earlier.take(i)).state,
                headers(earlier.take(i)),
            ) by {
                assert(applications[i].event is Arguments);
                assert(earlier.take(i) =~= applications.take(i));
            }
        }
        lemma_all_consistent(config, earlier);
        let before = apply_all(fresh, earlier);
        let state = found(before.state, last);
        if last.event is Arguments {
            assert(applications[applications.len() - 1].event is Arguments);
            assert(applications.take(applications.len() - 1) =~= earlier);
        }
        lemma_apply_consistent(
            state,
            deltas_of(before.output),
            headers(earlier),
            last.event,
            last.consumed,
        );
        let applied = state.apply(last.event, last.consumed);
        lemma_append_contents(before.output, applied.output);
    }
}

/// Whatever events are applied to a new parser, every part that is handed out carries the number of
/// a header, and of the parts with one number the first has that header's name and the others have
/// none. Arguments that come for a fenced call which another start has cut off are left out: they
/// would be handed out before its name.
pub proof fn law_events_numbered(config: JsonToolCallConfig, applications: Seq<Application>)
    requires
        orderly(State::fresh(config), applications),
    ensures
        ({
            let outcome = apply_all(State::fresh(config), applications);
            &&& outcome.state.emitted == headers(applications).len()
            &&& named_first(deltas_of(outcome.output), headers(applications))
        }),
{
    lemma_all_consistent(config, applications);
}

} // verus!
