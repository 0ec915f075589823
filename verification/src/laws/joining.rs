//! Outputs that differ only in where text and arguments are cut.

use vstd::prelude::*;

use crate::output::{
    DeltaView, OutputEvent, absorb, calls_of, coalesced, deltas_of, find_call, merge, text_events,
    text_of,
};

verus! {

/// One more event behind `done`: text goes to the text before it, and a nameless part of a tool
/// call to a part of the same call before it.
pub open spec fn join_event(done: Seq<OutputEvent>, event: OutputEvent) -> Seq<OutputEvent> {
    if done.len() == 0 {
        seq![event]
    } else {
        match (done.last(), event) {
            (OutputEvent::Text(before), OutputEvent::Text(text)) => done.drop_last().push(
                OutputEvent::Text(before + text),
            ),
            (OutputEvent::ToolCall(before), OutputEvent::ToolCall(call)) => {
                if before.tool_index == call.tool_index && call.name is None {
                    done.drop_last().push(OutputEvent::ToolCall(merge(before, call)))
                } else {
                    done.push(event)
                }
            },
            _ => done.push(event),
        }
    }
}

/// The events behind `done`, joined one after the other.
pub open spec fn joined_onto(done: Seq<OutputEvent>, events: Seq<OutputEvent>) -> Seq<OutputEvent>
    decreases events.len(),
{
    if events.len() == 0 {
        done
    } else {
        join_event(joined_onto(done, events.drop_last()), events.last())
    }
}

/// The events with neighbours joined: what is left of an output when one forgets where its text
/// and its arguments are cut.
pub open spec fn joined(events: Seq<OutputEvent>) -> Seq<OutputEvent> {
    joined_onto(Seq::empty(), events)
}

/// Joining goes on where it stopped.
pub proof fn lemma_joined_append(
    done: Seq<OutputEvent>,
    first: Seq<OutputEvent>,
    second: Seq<OutputEvent>,
)
    ensures
        joined_onto(done, first + second) == joined_onto(joined_onto(done, first), second),
    decreases second.len(),
{
    if second.len() == 0 {
        assert(first + second == first);
    } else {
        assert((first + second).drop_last() == first + second.drop_last());
        lemma_joined_append(done, first, second.drop_last());
    }
}

/// A single event is joined as such.
pub proof fn lemma_joined_one(done: Seq<OutputEvent>, event: OutputEvent)
    ensures
        joined_onto(done, seq![event]) == join_event(done, event),
{
    assert(seq![event].drop_last() == Seq::<OutputEvent>::empty());
    reveal_with_fuel(joined_onto, 2);
}

/// Two runs of text in a row join to their concatenation.
pub proof fn lemma_join_texts(done: Seq<OutputEvent>, first: Seq<char>, second: Seq<char>)
    ensures
        joined_onto(joined_onto(done, text_events(first)), text_events(second)) == joined_onto(
            done,
            text_events(first + second),
        ),
{
    let both = first + second;
    if first.len() == 0 {
        assert(both == second);
    } else if second.len() == 0 {
        assert(both == first);
    } else {
        lemma_joined_one(done, OutputEvent::Text(first));
        let middle = join_event(done, OutputEvent::Text(first));
        lemma_joined_one(middle, OutputEvent::Text(second));
        lemma_joined_one(done, OutputEvent::Text(both));
        if done.len() > 0 {
            if let OutputEvent::Text(before) = done.last() {
                assert(middle.drop_last() == done.drop_last());
                assert((before + first) + second == before + both);
            } else {
                assert(middle.drop_last() == done);
            }
        } else {
            assert(middle.drop_last() =~= done);
            assert(join_event(middle, OutputEvent::Text(second)) =~= seq![OutputEvent::Text(both)]);
        }
    }
}

/// A nameless part of a tool call.
pub open spec fn arguments_part(tool_index: int, arguments: Seq<char>) -> OutputEvent {
    OutputEvent::ToolCall(DeltaView { tool_index, name: None, arguments })
}

/// Two nameless parts of a tool call in a row join to one with both arguments.
pub proof fn lemma_join_arguments(
    done: Seq<OutputEvent>,
    tool_index: int,
    first: Seq<char>,
    second: Seq<char>,
)
    ensures
        joined_onto(
            joined_onto(done, seq![arguments_part(tool_index, first)]),
            seq![arguments_part(tool_index, second)],
        ) == joined_onto(done, seq![arguments_part(tool_index, first + second)]),
{
    let a = arguments_part(tool_index, first);
    let b = arguments_part(tool_index, second);
    let both = arguments_part(tool_index, first + second);
    lemma_joined_one(done, a);
    let middle = join_event(done, a);
    lemma_joined_one(middle, b);
    lemma_joined_one(done, both);
    if done.len() > 0 {
        match done.last() {
            OutputEvent::ToolCall(before) if before.tool_index == tool_index => {
                assert(middle.drop_last() == done.drop_last());
                assert((before.arguments + first) + second == before.arguments + (first + second));
            },
            _ => {
                assert(middle.drop_last() == done);
            },
        }
    } else {
        assert(middle.drop_last() =~= done);
        assert(join_event(middle, b) =~= seq![both]);
    }
}

/// The search ends at the first position with the given index, or at the end of the list.
pub proof fn lemma_find_call(calls: Seq<DeltaView>, tool_index: int, from: int)
    requires
        0 <= from <= calls.len(),
    ensures
        from <= find_call(calls, tool_index, from) <= calls.len(),
        find_call(calls, tool_index, from) < calls.len() ==> calls[find_call(
            calls,
            tool_index,
            from,
        )].tool_index == tool_index,
        forall|i: int|
            from <= i < find_call(calls, tool_index, from) ==> calls[i].tool_index != tool_index,
    decreases calls.len() - from,
{
    if from < calls.len() && calls[from].tool_index != tool_index {
        lemma_find_call(calls, tool_index, from + 1);
    }
}

/// The first position with the given index is where the search ends.
pub proof fn lemma_find_call_at(calls: Seq<DeltaView>, tool_index: int, from: int, i: int)
    requires
        0 <= from <= i < calls.len(),
        calls[i].tool_index == tool_index,
        forall|j: int| from <= j < i ==> calls[j].tool_index != tool_index,
    ensures
        find_call(calls, tool_index, from) == i,
{
    lemma_find_call(calls, tool_index, from);
}

/// Absorbing two parts of the same call one after the other is absorbing both at once.
pub proof fn lemma_absorb_merge(calls: Seq<DeltaView>, first: DeltaView, second: DeltaView)
    requires
        first.tool_index == second.tool_index,
    ensures
        absorb(absorb(calls, first), second) == absorb(calls, merge(first, second)),
{
    let i = find_call(calls, first.tool_index, 0);
    lemma_find_call(calls, first.tool_index, 0);
    let middle = absorb(calls, first);
    lemma_find_call_at(middle, first.tool_index, 0, i);
    assert(absorb(middle, second) =~= absorb(calls, merge(first, second))) by {
        if i < calls.len() {
            let before = calls[i].arguments;
            assert((before + first.arguments) + second.arguments == before + (first.arguments
                + second.arguments));
        }
    }
}

/// Joining neighbours changes neither the text nor the tool calls.
proof fn lemma_joined_contents(events: Seq<OutputEvent>)
    ensures
        text_of(joined(events)) == text_of(events),
        calls_of(joined(events)) == calls_of(events),
    decreases events.len(),
{
    if events.len() > 0 {
        let before = events.drop_last();
        let event = events.last();
        lemma_joined_contents(before);
        let done = joined(before);
        let all = join_event(done, event);
        assert(joined(events) == all);
        if done.len() == 0 {
            assert(all.drop_last() =~= done);
            lemma_push_contents(done, event);
            assert(all =~= done.push(event));
        } else {
            lemma_push_contents(done, event);
            lemma_push_contents(done.drop_last(), done.last());
            assert(done.drop_last().push(done.last()) == done);
            match (done.last(), event) {
                (OutputEvent::Text(a), OutputEvent::Text(b)) => {
                    lemma_push_contents(done.drop_last(), OutputEvent::Text(a + b));
                    let head = text_of(done.drop_last());
                    assert(head + (a + b) == (head + a) + b);
                },
                (OutputEvent::ToolCall(a), OutputEvent::ToolCall(b)) => {
                    if a.tool_index == b.tool_index && b.name is None {
                        lemma_push_contents(
                            done.drop_last(),
                            OutputEvent::ToolCall(merge(a, b)),
                        );
                        lemma_absorb_merge(calls_of(done.drop_last()), a, b);
                    }
                },
                _ => {},
            }
        }
        lemma_push_contents(before, event);
        assert(before.push(event) == events);
    } else {
        assert(joined(events) =~= events);
    }
}

/// What one more event adds to the text and to the tool calls.
pub proof fn lemma_push_contents(events: Seq<OutputEvent>, event: OutputEvent)
    ensures
        text_of(events.push(event)) == (match event {
            OutputEvent::Text(text) => text_of(events) + text,
            OutputEvent::ToolCall(_) => text_of(events),
        }),
        calls_of(events.push(event)) == (match event {
            OutputEvent::Text(_) => calls_of(events),
            OutputEvent::ToolCall(call) => absorb(calls_of(events), call),
        }),
{
    assert(events.push(event).drop_last() == events);
    if let OutputEvent::ToolCall(call) = event {
        assert(deltas_of(events).push(call).drop_last() == deltas_of(events));
    }
}

/// Joining neighbours changes nothing of what an output adds up to, and so outputs that join to
/// the same events coalesce to the same events.
pub proof fn law_joined_coalesces(first: Seq<OutputEvent>, second: Seq<OutputEvent>)
    requires
        joined(first) == joined(second),
    ensures
        coalesced(first) == coalesced(second),
{
    lemma_joined_contents(first);
    lemma_joined_contents(second);
}

} // verus!
