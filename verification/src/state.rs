//! The mathematical model of the parser: its state and what input does to it.

use vstd::prelude::*;

use crate::bytes::{
    byte_len, front, lemma_byte_len_append, lemma_byte_len_first, lemma_byte_len_split,
    lemma_chars_in,
};
use crate::config::JsonToolCallConfig;
use crate::error::ErrorView;
use crate::event::{Event, Mode, event_step, lemma_arguments_event, lemma_event_bounds, mode_after};
use crate::json::json_object_error;
use crate::object::{ObjectScan, lemma_run_bounds};
use crate::output::{DeltaView, OutputEvent, text_events};
use crate::step::StepView;

verus! {

broadcast use lemma_chars_in;

/// A fenced tool call whose end has not come yet, with the position at which its arguments start in
/// the text that is held back.
#[verifier::ext_equal]
pub struct Pending {
    pub tool_index: int,
    pub name: Seq<char>,
    pub arguments_start: int,
}

/// The state of a parser.
#[verifier::ext_equal]
pub struct State {
    pub config: JsonToolCallConfig,
    pub buffer: Seq<char>,
    pub mode: Mode,
    pub active: Option<int>,
    pub emitted: int,
    pub raw: Seq<char>,
    pub pending: Option<Pending>,
}

/// What input did: the state after it, the events handed out, and the error that stopped the
/// parser, if one did.
#[verifier::ext_equal]
pub struct Outcome {
    pub state: State,
    pub output: Seq<OutputEvent>,
    pub error: Option<ErrorView>,
}

impl State {
    /// The state of a new parser.
    pub open spec fn fresh(config: JsonToolCallConfig) -> State {
        State {
            config,
            buffer: Seq::empty(),
            mode: Mode::Text,
            active: None,
            emitted: 0,
            raw: Seq::empty(),
            pending: None,
        }
    }

    /// The number of braces that are open in the arguments.
    pub open spec fn depth(self) -> int {
        match self.mode {
            Mode::Arguments { scan, .. } => scan.depth,
            _ => 0,
        }
    }

    /// What the counters of the parser hold, with the bytes of the buffer: never more than the
    /// number of bytes that it was given.
    pub open spec fn load(self) -> int {
        self.emitted + self.depth() + byte_len(self.buffer)
    }

    /// The arguments of the pending fenced tool call.
    pub open spec fn pending_arguments(self) -> Seq<char>
        recommends
            self.pending is Some,
    {
        self.raw.skip(self.pending->0.arguments_start)
    }

    /// A tool call is active exactly inside arguments, and it is the last that was counted. It
    /// is held back, with its text, exactly where it is fenced.
    pub open spec fn wf(self) -> bool {
        &&& self.config.valid()
        &&& 0 <= self.emitted
        &&& 0 <= self.depth()
        &&& self.load() <= usize::MAX
        &&& match self.mode {
            Mode::Text | Mode::Header => {
                &&& self.active is None
                &&& self.pending is None
                &&& self.raw.len() == 0
            },
            Mode::Arguments { scan, fenced } => {
                &&& self.active == Some(self.emitted - 1)
                &&& 1 <= self.emitted
                &&& fenced ==> self.config.allow_markdown_fence
                &&& if fenced {
                    &&& self.pending is Some
                    &&& self.pending->0.tool_index == self.emitted - 1
                    &&& 0 <= self.pending->0.arguments_start <= self.raw.len()
                    &&& 0 < self.raw.len()
                } else {
                    &&& self.pending is None
                    &&& self.raw.len() == 0
                }
            },
        }
    }

    /// The input that has had no effect on the output yet: the buffer, and before it what was
    /// read of a tool call that is held back.
    pub open spec fn uncommitted(self) -> Seq<char> {
        (if self.config.allow_markdown_fence && self.mode is Header {
            self.config.opening()
        } else {
            Seq::empty()
        }) + self.raw + self.buffer
    }

    /// The state without the first `len` characters of the buffer.
    pub open spec fn consume(self, len: int) -> State {
        State { buffer: self.buffer.skip(len), ..self }
    }

    /// The state with the scan of unfinished arguments moved over what can be read of them.
    pub open spec fn moved(self) -> State {
        State { mode: mode_after(self.buffer, 0, self.mode), ..self }
    }

    /// The state behind a closed block.
    pub open spec fn closed(self) -> State {
        State { active: None, mode: Mode::Text, ..self }
    }

    /// The effect of the end of the pending fenced tool call: it is handed out whole, unless its
    /// arguments are refused for the given reason.
    pub open spec fn close_fenced(self, pending: Pending, refusal: Option<Seq<char>>) -> Outcome {
        match refusal {
            Some(reason) => Outcome {
                state: self,
                output: Seq::empty(),
                error: Some(
                    ErrorView::InvalidFencedArguments {
                        parser_name: self.config.parser_name@,
                        reason,
                    },
                ),
            },
            None => Outcome {
                state: State { pending: None, raw: Seq::empty(), ..self.closed() },
                output: seq![
                    OutputEvent::ToolCall(
                        DeltaView {
                            tool_index: pending.tool_index,
                            name: Some(pending.name),
                            arguments: self.raw.skip(pending.arguments_start),
                        },
                    ),
                ],
                error: None,
            },
        }
    }

    /// The effect of the header of a tool call: the call is counted and becomes the active one.
    /// It is handed out at once, unless it is fenced: then it is held back.
    pub open spec fn open_call(self, name: Seq<char>, fenced: bool, consumed: int) -> Outcome {
        let opened = State {
            emitted: self.emitted + 1,
            active: Some(self.emitted),
            mode: Mode::Arguments { scan: ObjectScan::fresh(), fenced },
            ..self
        };
        if fenced {
            let raw = self.raw + self.config.opening() + front(self.buffer, consumed);
            Outcome {
                state: State {
                    raw,
                    pending: Some(
                        Pending {
                            tool_index: self.emitted,
                            name,
                            arguments_start: raw.len() as int,
                        },
                    ),
                    ..opened
                },
                output: Seq::empty(),
                error: None,
            }
        } else {
            Outcome {
                state: opened,
                output: seq![
                    OutputEvent::ToolCall(
                        DeltaView {
                            tool_index: self.emitted,
                            name: Some(name),
                            arguments: Seq::empty(),
                        },
                    ),
                ],
                error: None,
            }
        }
    }

    /// The effect of a part of the arguments: it goes to the active tool call, or to what is
    /// held back of it.
    pub open spec fn add_arguments(self, part: Seq<char>) -> Outcome {
        match self.active {
            None => Outcome {
                state: self,
                output: Seq::empty(),
                error: Some(
                    ErrorView::NoActiveToolCall { parser_name: self.config.parser_name@ },
                ),
            },
            Some(tool_index) => if self.mode matches Mode::Arguments { fenced: true, .. } {
                Outcome {
                    state: State { raw: self.raw + part, ..self },
                    output: Seq::empty(),
                    error: None,
                }
            } else {
                Outcome {
                    state: self,
                    output: seq![
                        OutputEvent::ToolCall(
                            DeltaView { tool_index, name: None, arguments: part },
                        ),
                    ],
                    error: None,
                }
            },
        }
    }

    /// The effect of an event of which the text is the first `consumed` bytes of the buffer.
    pub open spec fn apply(self, event: Event, consumed: int) -> Outcome {
        match event {
            Event::Text { len } => Outcome {
                state: self,
                output: text_events(front(self.buffer, len)),
                error: None,
            },
            Event::ToolCallStart => Outcome {
                state: State { mode: Mode::Header, ..self },
                output: Seq::empty(),
                error: None,
            },
            Event::ToolCallHeader { name, fenced } => self.open_call(name, fenced, consumed),
            Event::Arguments { len } => self.add_arguments(front(self.buffer, len)),
            Event::ToolCallDelimiter => Outcome {
                state: State { active: None, mode: Mode::Header, ..self },
                output: Seq::empty(),
                error: None,
            },
            Event::ToolCallEnd { fenced } => if fenced {
                match self.pending {
                    None => Outcome {
                        state: self,
                        output: Seq::empty(),
                        error: Some(
                            ErrorView::NoFencedHeader { parser_name: self.config.parser_name@ },
                        ),
                    },
                    Some(pending) => self.close_fenced(
                        pending,
                        json_object_error(self.raw.skip(pending.arguments_start)),
                    ),
                }
            } else {
                Outcome { state: self.closed(), output: Seq::empty(), error: None }
            },
        }
    }

    /// The effect of an event that is read up to position `next` of the buffer.
    pub open spec fn read(self, event: Event, next: int) -> Outcome {
        self.moved().apply(event, byte_len(self.buffer.take(next)))
    }

    /// Text comes before the start of a tool call.
    pub open spec fn rank(self) -> nat {
        if self.mode is Text {
            1
        } else {
            0
        }
    }

    /// What the buffer leads to: its events have their effects one after the other, until the
    /// rest is no event yet or an error stops the parser.
    pub open spec fn drain(self) -> Outcome
        decreases self.buffer.len(), self.rank(),
    {
        match event_step(self.buffer, 0, self.mode, self.config) {
            StepView::Incomplete => Outcome { state: self, output: Seq::empty(), error: None },
            StepView::Failed(error) => Outcome {
                state: self,
                output: Seq::empty(),
                error: Some(ErrorView::Syntax(error)),
            },
            StepView::Done(event, next) => {
                proof {
                    lemma_event_bounds(self.buffer, self.mode, self.config);
                }
                let applied = self.read(event, next);
                if applied.error is Some {
                    applied
                } else {
                    let rest = applied.state.consume(next).drain();
                    Outcome {
                        state: rest.state,
                        output: applied.output + rest.output,
                        error: rest.error,
                    }
                }
            },
        }
    }

    /// What a piece of input leads to.
    pub open spec fn feed(self, chunk: Seq<char>) -> Outcome {
        State { buffer: self.buffer + chunk, ..self }.drain()
    }
}

/// The effect of an event that the grammar yields keeps the state well-formed, with the event's
/// text taken from the buffer where there was no error. The one error there can be is that the
/// arguments of a fenced tool call are refused.
pub proof fn lemma_apply_wf(state: State)
    requires
        state.wf(),
    ensures
        event_step(state.buffer, 0, state.mode, state.config) matches StepView::Done(event, next)
            ==> {
            let applied = state.read(event, next);
            &&& applied.state.config == state.config
            &&& applied.error is None ==> applied.state.consume(next).wf()
            &&& applied.error is None ==> applied.state.consume(next).load() <= state.load()
            &&& applied.error matches Some(error) ==> {
                &&& error is InvalidFencedArguments
                &&& applied.state == state
            }
        },
{
    lemma_event_bounds(state.buffer, state.mode, state.config);
    if let StepView::Done(event, next) = event_step(state.buffer, 0, state.mode, state.config) {
        lemma_byte_len_split(state.buffer, next);
        if let Mode::Arguments { scan, fenced } = state.mode {
            lemma_arguments_event(state.buffer, scan, fenced, state.config);
            lemma_run_bounds(scan, state.buffer, 0);
        }
    }
}

/// The state of a new parser is well-formed.
pub proof fn lemma_fresh_wf(config: JsonToolCallConfig)
    requires
        config.valid(),
    ensures
        State::fresh(config).wf(),
        State::fresh(config).load() == 0,
{
    lemma_byte_len_first(Seq::empty());
}

/// Input that the counters have room for keeps the state well-formed.
pub proof fn lemma_feed_wf(state: State, chunk: Seq<char>)
    requires
        state.wf(),
        state.load() + byte_len(chunk) <= usize::MAX,
    ensures
        (State { buffer: state.buffer + chunk, ..state }).wf(),
{
    lemma_byte_len_append(state.buffer, chunk);
}

/// Draining the buffer keeps the state well-formed and its configuration unchanged.
pub proof fn lemma_drain_wf(state: State)
    requires
        state.wf(),
    ensures
        state.drain().state.wf(),
        state.drain().state.config == state.config,
        state.drain().state.load() <= state.load(),
    decreases state.buffer.len(), state.rank(),
{
    lemma_apply_wf(state);
    lemma_event_bounds(state.buffer, state.mode, state.config);
    if let StepView::Done(event, next) = event_step(state.buffer, 0, state.mode, state.config) {
        let applied = state.read(event, next);
        if applied.error is None {
            lemma_drain_wf(applied.state.consume(next));
        }
    }
}

} // verus!
