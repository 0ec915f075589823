//! What an output holds: its text, the parts of tool calls and the calls that they add up to.

use vstd::prelude::*;

use crate::laws::joining::lemma_find_call;
use crate::output::{
    DeltaView, OutputEvent, ToolCallDelta, ToolParserEvent, ToolParserOutput, calls_of, coalesced,
    deltas_of, find_call, merge, merged_calls, text_events, text_of,
};

verus! {

/// The text of an output is the text of its events in order, and every event counts.
pub proof fn law_text(first: Seq<OutputEvent>, second: Seq<OutputEvent>, text: Seq<char>)
    ensures
        text_of(Seq::empty()) == Seq::<char>::empty(),
        text_of(seq![OutputEvent::Text(text)]) == text,
        forall|call: DeltaView| #[trigger]
            text_of(seq![OutputEvent::ToolCall(call)]) == Seq::<char>::empty(),
        text_of(first + second) == text_of(first) + text_of(second),
    decreases second.len(),
{
    assert(seq![OutputEvent::Text(text)].drop_last() =~= Seq::<OutputEvent>::empty());
    reveal_with_fuel(text_of, 2);
    assert(Seq::<char>::empty() + text =~= text);
    assert forall|call: DeltaView| #[trigger]
        text_of(seq![OutputEvent::ToolCall(call)]) == Seq::<char>::empty() by {
        assert(seq![OutputEvent::ToolCall(call)].drop_last() =~= Seq::<OutputEvent>::empty());
    }
    if second.len() == 0 {
        assert(first + second =~= first);
        assert(text_of(first) + text_of(second) =~= text_of(first));
    } else {
        assert((first + second).drop_last() =~= first + second.drop_last());
        law_text(first, second.drop_last(), text);
        if let OutputEvent::Text(last) = second.last() {
            assert((text_of(first) + text_of(second.drop_last())) + last =~= text_of(first) + (
            text_of(second.drop_last()) + last));
        }
    }
}

/// The parts of tool calls of an output are those of its events in order, and none is left out.
pub proof fn law_parts(first: Seq<OutputEvent>, second: Seq<OutputEvent>, call: DeltaView)
    ensures
        deltas_of(Seq::empty()) == Seq::<DeltaView>::empty(),
        deltas_of(seq![OutputEvent::ToolCall(call)]) == seq![call],
        forall|text: Seq<char>| #[trigger]
            deltas_of(seq![OutputEvent::Text(text)]) == Seq::<DeltaView>::empty(),
        deltas_of(first + second) == deltas_of(first) + deltas_of(second),
    decreases second.len(),
{
    assert(seq![OutputEvent::ToolCall(call)].drop_last() =~= Seq::<OutputEvent>::empty());
    reveal_with_fuel(deltas_of, 2);
    assert(Seq::<DeltaView>::empty().push(call) =~= seq![call]);
    assert forall|text: Seq<char>| #[trigger]
        deltas_of(seq![OutputEvent::Text(text)]) == Seq::<DeltaView>::empty() by {
        assert(seq![OutputEvent::Text(text)].drop_last() =~= Seq::<OutputEvent>::empty());
    }
    if second.len() == 0 {
        assert(first + second =~= first);
        assert(deltas_of(first) + deltas_of(second) =~= deltas_of(first));
    } else {
        assert((first + second).drop_last() =~= first + second.drop_last());
        law_parts(first, second.drop_last(), call);
        if let OutputEvent::ToolCall(last) = second.last() {
            assert((deltas_of(first) + deltas_of(second.drop_last())).push(last) =~= deltas_of(first)
                + deltas_of(second.drop_last()).push(last));
        }
    }
}

/// A run of text is handed out as it is, and an empty one as no event.
pub proof fn law_text_run(text: Seq<char>)
    ensures
        text_of(text_events(text)) == text,
        text_events(text).len() == (if text.len() == 0 {
            0nat
        } else {
            1
        }),
{
    law_text(Seq::empty(), Seq::empty(), text);
}

/// The arguments of all parts with the given number, one behind the other.
pub open spec fn arguments_with(deltas: Seq<DeltaView>, tool_index: int) -> Seq<char>
    decreases deltas.len(),
{
    if deltas.len() == 0 {
        Seq::empty()
    } else {
        let before = arguments_with(deltas.drop_last(), tool_index);
        if deltas.last().tool_index == tool_index {
            before + deltas.last().arguments
        } else {
            before
        }
    }
}

/// The first name among the parts with the given number.
pub open spec fn name_with(deltas: Seq<DeltaView>, tool_index: int) -> Option<Seq<char>>
    decreases deltas.len(),
{
    if deltas.len() == 0 {
        None
    } else {
        let before = name_with(deltas.drop_last(), tool_index);
        if before is None && deltas.last().tool_index == tool_index {
            deltas.last().name
        } else {
            before
        }
    }
}

/// The position of the first part with the given number, or the end of the list.
pub open spec fn first_with(deltas: Seq<DeltaView>, tool_index: int) -> int
    decreases deltas.len(),
{
    if deltas.len() == 0 {
        0
    } else {
        let before = first_with(deltas.drop_last(), tool_index);
        if before < deltas.len() - 1 || deltas.last().tool_index == tool_index {
            before
        } else {
            deltas.len() as int
        }
    }
}

/// No two calls have the same number.
pub open spec fn distinct(calls: Seq<DeltaView>) -> bool {
    forall|i: int, j: int|
        0 <= i < j < calls.len() ==> (#[trigger] calls[i]).tool_index != (
        #[trigger] calls[j]).tool_index
}

/// Some call has the given number.
pub open spec fn has_call(calls: Seq<DeltaView>, tool_index: int) -> bool {
    exists|i: int| 0 <= i < calls.len() && (#[trigger] calls[i]).tool_index == tool_index
}

/// Each call has a number that occurs, with the first name and all the arguments of it.
pub open spec fn sums_up(deltas: Seq<DeltaView>, calls: Seq<DeltaView>) -> bool {
    forall|i: int|
        0 <= i < calls.len() ==> {
            &&& (#[trigger] calls[i]).arguments == arguments_with(deltas, calls[i].tool_index)
            &&& calls[i].name == name_with(deltas, calls[i].tool_index)
            &&& first_with(deltas, calls[i].tool_index) < deltas.len()
        }
}

/// The calls come in the order in which their numbers first occur.
pub open spec fn in_order(deltas: Seq<DeltaView>, calls: Seq<DeltaView>) -> bool {
    forall|i: int, j: int|
        0 <= i < j < calls.len() ==> first_with(deltas, (#[trigger] calls[i]).tool_index)
            < first_with(deltas, (#[trigger] calls[j]).tool_index)
}

/// The calls are what the parts add up to: one call for each number that occurs, in the order in
/// which the numbers first occur, with the first name and all the arguments.
pub open spec fn adds_up(deltas: Seq<DeltaView>, calls: Seq<DeltaView>) -> bool {
    &&& distinct(calls)
    &&& sums_up(deltas, calls)
    &&& in_order(deltas, calls)
    &&& forall|p: int|
        0 <= p < deltas.len() ==> has_call(calls, (#[trigger] deltas[p]).tool_index)
}

/// The first position of a number lies in the list, and the number occurs there.
proof fn lemma_first_with(deltas: Seq<DeltaView>, tool_index: int)
    ensures
        0 <= first_with(deltas, tool_index) <= deltas.len(),
        first_with(deltas, tool_index) < deltas.len() ==> deltas[first_with(
            deltas,
            tool_index,
        )].tool_index == tool_index,
        first_with(deltas, tool_index) == deltas.len() ==> {
            &&& arguments_with(deltas, tool_index) == Seq::<char>::empty()
            &&& name_with(deltas, tool_index) is None
        },
    decreases deltas.len(),
{
    if deltas.len() > 0 {
        lemma_first_with(deltas.drop_last(), tool_index);
    }
}

/// One more part leaves the calls with other numbers as they are.
proof fn lemma_other(deltas: Seq<DeltaView>, tool_index: int)
    requires
        deltas.len() > 0,
    ensures
        ({
            let before = deltas.drop_last();
            &&& first_with(before, tool_index) < before.len() ==> first_with(deltas, tool_index)
                == first_with(before, tool_index)
            &&& deltas.last().tool_index != tool_index ==> {
                &&& arguments_with(deltas, tool_index) == arguments_with(before, tool_index)
                &&& name_with(deltas, tool_index) == name_with(before, tool_index)
            }
        }),
{
    lemma_first_with(deltas.drop_last(), tool_index);
}

/// The parts of an output add up to its calls.
pub proof fn law_calls(deltas: Seq<DeltaView>)
    ensures
        adds_up(deltas, merged_calls(deltas)),
    decreases deltas.len(),
{
    if deltas.len() > 0 {
        let before = deltas.drop_last();
        let last = deltas.last();
        let calls = merged_calls(before);
        law_calls(before);
        lemma_find_call(calls, last.tool_index, 0);
        let at = find_call(calls, last.tool_index, 0);
        lemma_first_with(before, last.tool_index);
        if at < calls.len() {
            lemma_adds_to(deltas, calls, at);
        } else {
            let p = first_with(before, last.tool_index);
            if p < before.len() {
                assert(has_call(calls, before[p].tool_index));
            }
            lemma_adds_new(deltas, calls);
        }
    }
}

/// One more part of a call that there is.
proof fn lemma_adds_to(deltas: Seq<DeltaView>, calls: Seq<DeltaView>, at: int)
    requires
        deltas.len() > 0,
        adds_up(deltas.drop_last(), calls),
        0 <= at < calls.len(),
        calls[at].tool_index == deltas.last().tool_index,
    ensures
        adds_up(deltas, calls.update(at, merge(calls[at], deltas.last()))),
{
    let before = deltas.drop_last();
    let more = calls.update(at, merge(calls[at], deltas.last()));
    assert forall|i: int| 0 <= i < more.len() implies {
        &&& (#[trigger] more[i]).tool_index == calls[i].tool_index
        &&& more[i].arguments == arguments_with(deltas, more[i].tool_index)
        &&& more[i].name == name_with(deltas, more[i].tool_index)
        &&& first_with(deltas, more[i].tool_index) == first_with(before, calls[i].tool_index)
        &&& first_with(deltas, more[i].tool_index) < deltas.len()
    } by {
        lemma_other(deltas, calls[i].tool_index);
        if i != at {
            assert(more[i] == calls[i]);
            assert(calls[i].tool_index != calls[at].tool_index);
        }
    }
    assert forall|p: int| 0 <= p < deltas.len() implies has_call(
        more,
        (#[trigger] deltas[p]).tool_index,
    ) by {
        if p < before.len() {
            assert(has_call(calls, before[p].tool_index));
            let i = choose|i: int|
                0 <= i < calls.len() && (#[trigger] calls[i]).tool_index == before[p].tool_index;
            assert(more[i].tool_index == deltas[p].tool_index);
        } else {
            assert(more[at].tool_index == deltas[p].tool_index);
        }
    }
}

/// The first part of a new call.
proof fn lemma_adds_new(deltas: Seq<DeltaView>, calls: Seq<DeltaView>)
    requires
        deltas.len() > 0,
        adds_up(deltas.drop_last(), calls),
        forall|i: int|
            0 <= i < calls.len() ==> (#[trigger] calls[i]).tool_index != deltas.last().tool_index,
        first_with(deltas.drop_last(), deltas.last().tool_index) == deltas.len() - 1,
    ensures
        adds_up(deltas, calls.push(deltas.last())),
{
    let before = deltas.drop_last();
    let last = deltas.last();
    let more = calls.push(last);
    lemma_first_with(before, last.tool_index);
    assert(Seq::<char>::empty() + last.arguments =~= last.arguments);
    assert forall|i: int| 0 <= i < more.len() implies {
        &&& (#[trigger] more[i]).arguments == arguments_with(deltas, more[i].tool_index)
        &&& more[i].name == name_with(deltas, more[i].tool_index)
        &&& first_with(deltas, more[i].tool_index) < deltas.len()
        &&& i < calls.len() ==> first_with(deltas, more[i].tool_index) < before.len()
        &&& i < calls.len() ==> first_with(deltas, more[i].tool_index) == first_with(
            before,
            calls[i].tool_index,
        )
    } by {
        if i < calls.len() {
            assert(more[i] == calls[i]);
            lemma_other(deltas, calls[i].tool_index);
        }
    }
    assert forall|i: int, j: int| 0 <= i < j < more.len() implies first_with(
        deltas,
        (#[trigger] more[i]).tool_index,
    ) < first_with(deltas, (#[trigger] more[j]).tool_index) by {
        if j < calls.len() {
            assert(more[i] == calls[i] && more[j] == calls[j]);
        }
    }
    assert forall|p: int| 0 <= p < deltas.len() implies has_call(
        more,
        (#[trigger] deltas[p]).tool_index,
    ) by {
        if p < before.len() {
            assert(has_call(calls, before[p].tool_index));
            let i = choose|i: int|
                0 <= i < calls.len() && (#[trigger] calls[i]).tool_index == before[p].tool_index;
            assert(more[i].tool_index == deltas[p].tool_index);
        } else {
            assert(more[calls.len() as int].tool_index == deltas[p].tool_index);
        }
    }
}

/// Calls that all have different numbers add up to themselves.
proof fn lemma_merged_distinct(calls: Seq<DeltaView>)
    requires
        forall|i: int, j: int|
            0 <= i < j < calls.len() ==> (#[trigger] calls[i]).tool_index != (
            #[trigger] calls[j]).tool_index,
    ensures
        merged_calls(calls) == calls,
    decreases calls.len(),
{
    if calls.len() > 0 {
        let before = calls.drop_last();
        assert forall|i: int, j: int| 0 <= i < j < before.len() implies (
        #[trigger] before[i]).tool_index != (#[trigger] before[j]).tool_index by {
            assert(before[i] == calls[i] && before[j] == calls[j]);
        }
        lemma_merged_distinct(before);
        lemma_find_call(before, calls.last().tool_index, 0);
        let at = find_call(before, calls.last().tool_index, 0);
        if at < before.len() {
            assert(before[at] == calls[at]);
        }
        assert(before.push(calls.last()) =~= calls);
    } else {
        assert(merged_calls(calls) =~= calls);
    }
}

/// The text and the parts of a list of calls, each as one event.
proof fn lemma_call_events(calls: Seq<DeltaView>)
    ensures
        text_of(calls.map_values(|call: DeltaView| OutputEvent::ToolCall(call))) == Seq::<
            char,
        >::empty(),
        deltas_of(calls.map_values(|call: DeltaView| OutputEvent::ToolCall(call))) == calls,
    decreases calls.len(),
{
    let events = calls.map_values(|call: DeltaView| OutputEvent::ToolCall(call));
    if calls.len() > 0 {
        let before = calls.drop_last();
        lemma_call_events(before);
        assert(events.drop_last() =~= before.map_values(
            |call: DeltaView| OutputEvent::ToolCall(call),
        ));
        assert(before.push(calls.last()) =~= calls);
    } else {
        assert(deltas_of(events) =~= calls);
    }
}

/// Coalescing loses nothing and adds nothing: the text and the tool calls stay the same, whatever
/// their number. The text comes first, as one event where there is any, and every call as one.
pub proof fn law_coalesced(events: Seq<OutputEvent>)
    ensures
        text_of(coalesced(events)) == text_of(events),
        calls_of(coalesced(events)) == calls_of(events),
        deltas_of(coalesced(events)) == calls_of(events),
        coalesced(coalesced(events)) == coalesced(events),
        coalesced(events).len() == calls_of(events).len() + (if text_of(events).len() == 0 {
            0nat
        } else {
            1
        }),
        forall|i: int|
            0 <= i < coalesced(events).len() && (#[trigger] coalesced(events)[i]) is Text ==> i == 0,
{
    let text = text_of(events);
    let calls = calls_of(events);
    let tail = calls.map_values(|call: DeltaView| OutputEvent::ToolCall(call));
    law_calls(deltas_of(events));
    lemma_merged_distinct(calls);
    lemma_call_events(calls);
    law_text(text_events(text), tail, text);
    law_parts(
        text_events(text),
        tail,
        DeltaView { tool_index: 0, name: None, arguments: Seq::empty() },
    );
    law_text_run(text);
    assert(coalesced(events) == text_events(text) + tail);
    assert(text + Seq::<char>::empty() =~= text);
    assert(Seq::<DeltaView>::empty() + calls =~= calls);
    assert(deltas_of(text_events(text)) =~= Seq::<DeltaView>::empty());
}

/// What a part of a tool call, an event and an output hold, they show.
pub proof fn law_output_contents(
    delta: ToolCallDelta,
    name: String,
    text: String,
    output: ToolParserOutput,
)
    ensures
        delta@.tool_index == delta.tool_index,
        delta@.arguments == delta.arguments@,
        delta.name is None ==> delta@.name is None,
        delta.name == Some(name) ==> delta@.name == Some(name@),
        ToolParserEvent::Text(text)@ == OutputEvent::Text(text@),
        ToolParserEvent::ToolCall(delta)@ == OutputEvent::ToolCall(delta@),
        output@.len() == output.events@.len(),
        forall|i: int| 0 <= i < output@.len() ==> #[trigger] output@[i] == output.events@[i]@,
{
}

} // verus!
