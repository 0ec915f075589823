//! What a parser hands out: text and parts of tool calls, in order.

use vstd::prelude::*;
use vstd::string::StringExecFns;

verus! {

/// A part of a tool call: the name comes with the first part, the arguments may come in several.
#[derive(Debug, Clone, PartialEq, Eq)]
pub struct ToolCallDelta {
    pub tool_index: usize,
    pub name: Option<String>,
    pub arguments: String,
}

/// The contents of a [`ToolCallDelta`].
#[verifier::ext_equal]
pub struct DeltaView {
    pub tool_index: int,
    pub name: Option<Seq<char>>,
    pub arguments: Seq<char>,
}

/// The text of an optional string.
pub open spec fn optional_text(text: Option<String>) -> Option<Seq<char>> {
    match text {
        Some(text) => Some(text@),
        None => None,
    }
}

impl View for ToolCallDelta {
    type V = DeltaView;

    open spec fn view(&self) -> DeltaView {
        DeltaView {
            tool_index: self.tool_index as int,
            name: optional_text(self.name),
            arguments: self.arguments@,
        }
    }
}

/// One event of the output.
#[derive(Debug, Clone, PartialEq, Eq)]
pub enum ToolParserEvent {
    Text(String),
    ToolCall(ToolCallDelta),
}

/// The contents of a [`ToolParserEvent`].
#[verifier::ext_equal]
pub enum OutputEvent {
    Text(Seq<char>),
    ToolCall(DeltaView),
}

impl View for ToolParserEvent {
    type V = OutputEvent;

    open spec fn view(&self) -> OutputEvent {
        match self {
            ToolParserEvent::Text(text) => OutputEvent::Text(text@),
            ToolParserEvent::ToolCall(call) => OutputEvent::ToolCall(call@),
        }
    }
}

/// The events that a parser has handed out.
#[derive(Debug, Clone, PartialEq, Eq)]
pub struct ToolParserOutput {
    pub events: Vec<ToolParserEvent>,
}

impl View for ToolParserOutput {
    type V = Seq<OutputEvent>;

    open spec fn view(&self) -> Seq<OutputEvent> {
        self.events@.map_values(|event: ToolParserEvent| event@)
    }
}

/// The events of a run of text: none where it is empty.
pub open spec fn text_events(text: Seq<char>) -> Seq<OutputEvent> {
    if text.len() == 0 {
        Seq::empty()
    } else {
        seq![OutputEvent::Text(text)]
    }
}

/// All text of the events, in order.
pub open spec fn text_of(events: Seq<OutputEvent>) -> Seq<char>
    decreases events.len(),
{
    if events.len() == 0 {
        Seq::empty()
    } else {
        match events.last() {
            OutputEvent::Text(text) => text_of(events.drop_last()) + text,
            OutputEvent::ToolCall(_) => text_of(events.drop_last()),
        }
    }
}

/// All parts of tool calls of the events, in order.
pub open spec fn deltas_of(events: Seq<OutputEvent>) -> Seq<DeltaView>
    decreases events.len(),
{
    if events.len() == 0 {
        Seq::empty()
    } else {
        match events.last() {
            OutputEvent::Text(_) => deltas_of(events.drop_last()),
            OutputEvent::ToolCall(call) => deltas_of(events.drop_last()).push(call),
        }
    }
}

/// The position of the tool call with the given index, from `from` on, or the end of the list.
pub open spec fn find_call(calls: Seq<DeltaView>, tool_index: int, from: int) -> int
    decreases calls.len() - from,
{
    if from >= calls.len() || calls[from].tool_index == tool_index {
        from
    } else {
        find_call(calls, tool_index, from + 1)
    }
}

/// A tool call with one more of its parts: arguments add up, the first name stays.
pub open spec fn merge(call: DeltaView, delta: DeltaView) -> DeltaView {
    DeltaView {
        tool_index: call.tool_index,
        name: if call.name is Some {
            call.name
        } else {
            delta.name
        },
        arguments: call.arguments + delta.arguments,
    }
}

/// The tool calls after one more part: it goes to the call with its index, or starts a new one.
pub open spec fn absorb(calls: Seq<DeltaView>, delta: DeltaView) -> Seq<DeltaView> {
    let i = find_call(calls, delta.tool_index, 0);
    if i < calls.len() {
        calls.update(i, merge(calls[i], delta))
    } else {
        calls.push(delta)
    }
}

/// The tool calls that a list of parts adds up to.
pub open spec fn merged_calls(deltas: Seq<DeltaView>) -> Seq<DeltaView>
    decreases deltas.len(),
{
    if deltas.len() == 0 {
        Seq::empty()
    } else {
        absorb(merged_calls(deltas.drop_last()), deltas.last())
    }
}

/// The tool calls that the events add up to.
pub open spec fn calls_of(events: Seq<OutputEvent>) -> Seq<DeltaView> {
    merged_calls(deltas_of(events))
}

/// The events with all text joined into one event in front, and each tool call into one event.
pub open spec fn coalesced(events: Seq<OutputEvent>) -> Seq<OutputEvent> {
    text_events(text_of(events)) + calls_of(events).map_values(
        |call: DeltaView| OutputEvent::ToolCall(call),
    )
}

/// The contents of a list of tool calls.
pub open spec fn deltas_view(calls: Seq<ToolCallDelta>) -> Seq<DeltaView> {
    calls.map_values(|call: ToolCallDelta| call@)
}

/// A copy of an optional string.
fn copy_name(name: &Option<String>) -> (copy: Option<String>)
    ensures
        optional_text(copy) == optional_text(*name),
{
    match name {
        Some(name) => Some(name.clone()),
        None => None,
    }
}

/// Adds one more part to the tool calls.
fn absorb_delta(calls: &mut Vec<ToolCallDelta>, delta: &ToolCallDelta)
    ensures
        deltas_view(final(calls)@) == absorb(deltas_view(old(calls)@), delta@),
{
    let ghost before = deltas_view(calls@);
    let mut i: usize = 0;
    while i < calls.len() && calls[i].tool_index != delta.tool_index
        invariant
            i <= calls@.len(),
            before == deltas_view(calls@),
            find_call(before, delta@.tool_index, 0) == find_call(
                before,
                delta@.tool_index,
                i as int,
            ),
        decreases calls@.len() - i,
    {
        assert(before[i as int] == calls@[i as int]@);
        i += 1;
    }
    if i < calls.len() {
        assert(before[i as int] == calls@[i as int]@);
        let name: Option<String> = match &calls[i].name {
            Some(name) => Some(name.clone()),
            None => copy_name(&delta.name),
        };
        let mut arguments: String = calls[i].arguments.clone();
        arguments.append(delta.arguments.as_str());
        calls[i] = ToolCallDelta { tool_index: delta.tool_index, name, arguments };
        assert(deltas_view(calls@) =~= absorb(before, delta@));
    } else {
        calls.push(
            ToolCallDelta {
                tool_index: delta.tool_index,
                name: copy_name(&delta.name),
                arguments: delta.arguments.clone(),
            },
        );
        assert(deltas_view(calls@) =~= absorb(before, delta@));
    }
}

impl Default for ToolParserOutput {
    /// An output without events.
    fn default() -> (output: Self)
        ensures
            output@ == Seq::<OutputEvent>::empty(),
    {
        let output = ToolParserOutput { events: Vec::new() };
        assert(output@ =~= Seq::<OutputEvent>::empty());
        output
    }
}

impl ToolParserOutput {
    /// Appends one event.
    fn push(&mut self, event: ToolParserEvent)
        ensures
            final(self)@ == old(self)@.push(event@),
    {
        self.events.push(event);
        assert(self@ =~= old(self)@.push(event@));
    }

    /// Appends a run of text, unless it is empty.
    pub fn push_text(&mut self, text: &str)
        ensures
            final(self)@ == old(self)@ + text_events(text@),
    {
        if !text.is_empty() {
            self.push(ToolParserEvent::Text(text.to_owned()));
        }
        assert(self@ =~= old(self)@ + text_events(text@));
    }

    /// Appends a part of a tool call.
    pub fn push_call(&mut self, call: ToolCallDelta)
        ensures
            final(self)@ == old(self)@.push(OutputEvent::ToolCall(call@)),
    {
        self.push(ToolParserEvent::ToolCall(call));
    }

    /// Appends the events of another output.
    pub fn append(&mut self, other: ToolParserOutput)
        ensures
            final(self)@ == old(self)@ + other@,
    {
        let mut other = other;
        let ghost added = other@;
        self.events.append(&mut other.events);
        assert(self@ =~= old(self)@ + added);
    }

    /// The parts of tool calls among the events, in order.
    pub fn calls(&self) -> (calls: Vec<&ToolCallDelta>)
        ensures
            calls@.map_values(|call: &ToolCallDelta| call@) == deltas_of(self@),
    {
        let mut calls: Vec<&ToolCallDelta> = Vec::new();
        let mut i: usize = 0;
        assert(calls@.map_values(|call: &ToolCallDelta| call@) =~= Seq::<DeltaView>::empty());
        while i < self.events.len()
            invariant
                i <= self.events@.len(),
                calls@.map_values(|call: &ToolCallDelta| call@) == deltas_of(
                    self@.take(i as int),
                ),
            decreases self.events@.len() - i,
        {
            let ghost before = calls@;
            proof {
                assert(self@.take(i + 1).drop_last() == self@.take(i as int));
                assert(self@.take(i + 1).last() == self.events@[i as int]@);
            }
            if let ToolParserEvent::ToolCall(call) = &self.events[i] {
                calls.push(call);
                assert(calls@.map_values(|call: &ToolCallDelta| call@) =~= before.map_values(
                    |call: &ToolCallDelta| call@,
                ).push(call@));
            }
            i += 1;
        }
        assert(self@.take(i as int) == self@);
        calls
    }

    /// The output with all text joined into one event in front, and each tool call into one.
    pub fn coalesce(self) -> (output: Self)
        ensures
            output@ == coalesced(self@),
    {
        let mut text: String = String::new();
        let mut calls: Vec<ToolCallDelta> = Vec::new();
        let mut i: usize = 0;
        assert(deltas_view(calls@) =~= Seq::<DeltaView>::empty());
        while i < self.events.len()
            invariant
                i <= self.events@.len(),
                text@ == text_of(self@.take(i as int)),
                deltas_view(calls@) == calls_of(self@.take(i as int)),
            decreases self.events@.len() - i,
        {
            proof {
                assert(self@.take(i + 1).drop_last() == self@.take(i as int));
                assert(self@.take(i + 1).last() == self.events@[i as int]@);
            }
            match &self.events[i] {
                ToolParserEvent::Text(part) => {
                    text.append(part.as_str());
                },
                ToolParserEvent::ToolCall(delta) => {
                    let ghost deltas = deltas_of(self@.take(i as int));
                    assert(deltas.push(delta@).drop_last() == deltas);
                    absorb_delta(&mut calls, delta);
                },
            }
            i += 1;
        }
        assert(self@.take(i as int) == self@);
        let mut output = ToolParserOutput::default();
        output.push_text(text.as_str());
        let ghost head = output@;
        let ghost tail = deltas_view(calls@).map_values(
            |call: DeltaView| OutputEvent::ToolCall(call),
        );
        for call in it: calls
            invariant
                it.seq() == calls@,
                tail == deltas_view(calls@).map_values(
                    |call: DeltaView| OutputEvent::ToolCall(call),
                ),
                output@ == head + tail.take(it.index()),
        {
            output.push_call(call);
            assert(tail.take(it.index() + 1) == tail.take(it.index()).push(
                OutputEvent::ToolCall(call@),
            ));
        }
        assert(tail.take(tail.len() as int) == tail);
        output
    }
}

} // verus!
