//! What each event does to a parser and to its output.

use vstd::prelude::*;
use vstd::utf8::encode_utf8;

use crate::bytes::{byte_len, lemma_chars_in};
use crate::config::{JsonToolCallConfig, JsonToolCallWhitespace};
use crate::error::ErrorView;
use crate::event::{Event, Mode, event_step, mode_after};
use crate::json::json_object_error;
use crate::object::ObjectScan;
use crate::output::{DeltaView, OutputEvent};
use crate::state::{Outcome, Pending, State, lemma_drain_wf, lemma_feed_wf, lemma_fresh_wf};
use crate::step::StepView;

verus! {

/// The start marker with the exact whitespace behind it.
pub open spec fn marker_text(config: JsonToolCallConfig) -> Seq<char> {
    match config.marker_whitespace {
        JsonToolCallWhitespace::Optional => config.start_marker@,
        JsonToolCallWhitespace::Exact(text) => config.start_marker@ + text@,
    }
}

/// The bytes of the first characters of the buffer.
pub open spec fn bytes_of(state: State, count: int) -> int {
    encode_utf8(state.buffer.take(count)).len() as int
}

/// One part of a tool call.
pub open spec fn part_of(
    tool_index: int,
    name: Option<Seq<char>>,
    arguments: Seq<char>,
) -> OutputEvent {
    OutputEvent::ToolCall(DeltaView { tool_index, name, arguments })
}

/// Text is handed out as it stands at the front of the buffer; the start of a call and a delimiter
/// lead to a header, and a delimiter ends the call before it.
pub proof fn law_text_effect(state: State, count: int, consumed: int)
    requires
        0 <= count <= state.buffer.len(),
    ensures
        state.apply(Event::Text { len: bytes_of(state, count) }, consumed) == (Outcome {
            state,
            output: if count == 0 {
                Seq::empty()
            } else {
                seq![OutputEvent::Text(state.buffer.take(count))]
            },
            error: None,
        }),
        state.apply(Event::ToolCallStart, consumed) == (Outcome {
            state: State { mode: Mode::Header, ..state },
            output: Seq::empty(),
            error: None,
        }),
        state.apply(Event::ToolCallDelimiter, consumed) == (Outcome {
            state: State { mode: Mode::Header, active: None, ..state },
            output: Seq::empty(),
            error: None,
        }),
{
    reveal(byte_len);
    lemma_chars_in(state.buffer, count);
}

/// A header opens the next call. Without a fence its name is handed out; with one the call is held
/// back, and the text of it that was read is kept behind the start marker.
pub proof fn law_header_effect(state: State, name: Seq<char>, count: int)
    requires
        0 <= count <= state.buffer.len(),
    ensures
        ({
            let k = state.emitted;
            let raw = state.raw + marker_text(state.config) + state.buffer.take(count);
            &&& state.apply(Event::ToolCallHeader { name, fenced: false }, bytes_of(state, count))
                == (Outcome {
                state: State {
                    emitted: k + 1,
                    active: Some(k),
                    mode: Mode::Arguments {
                        scan: ObjectScan {
                            started: false,
                            depth: 0,
                            in_string: false,
                            escaped: false,
                        },
                        fenced: false,
                    },
                    ..state
                },
                output: seq![part_of(k, Some(name), Seq::empty())],
                error: None,
            })
            &&& state.apply(Event::ToolCallHeader { name, fenced: true }, bytes_of(state, count))
                == (Outcome {
                state: State {
                    emitted: k + 1,
                    active: Some(k),
                    mode: Mode::Arguments {
                        scan: ObjectScan {
                            started: false,
                            depth: 0,
                            in_string: false,
                            escaped: false,
                        },
                        fenced: true,
                    },
                    raw,
                    pending: Some(
                        Pending { tool_index: k, name, arguments_start: raw.len() as int },
                    ),
                    ..state
                },
                output: Seq::empty(),
                error: None,
            })
        }),
{
    reveal(byte_len);
    lemma_chars_in(state.buffer, count);
}

/// Arguments go to the active call as they stand at the front of the buffer, or to what is held
/// back of it; without an active call they are an error.
pub proof fn law_arguments_effect(state: State, count: int, consumed: int)
    requires
        0 <= count <= state.buffer.len(),
    ensures
        ({
            let event = Event::Arguments { len: bytes_of(state, count) };
            let part = state.buffer.take(count);
            state.apply(event, consumed) == (match state.active {
                None => Outcome {
                    state,
                    output: Seq::empty(),
                    error: Some(
                        ErrorView::NoActiveToolCall { parser_name: state.config.parser_name@ },
                    ),
                },
                Some(k) => if state.mode is Arguments && state.mode->fenced {
                    Outcome {
                        state: State { raw: state.raw + part, ..state },
                        output: Seq::empty(),
                        error: None,
                    }
                } else {
                    Outcome { state, output: seq![part_of(k, None, part)], error: None }
                },
            })
        }),
{
    reveal(byte_len);
    lemma_chars_in(state.buffer, count);
}

/// The end of a block leads back to text. The call that was held back is then handed out whole,
/// with the arguments that were read, unless they are refused: then the parser keeps it and stops.
pub proof fn law_end_effect(state: State, consumed: int)
    ensures
        state.apply(Event::ToolCallEnd { fenced: false }, consumed) == (Outcome {
            state: State { mode: Mode::Text, active: None, ..state },
            output: Seq::empty(),
            error: None,
        }),
        state.apply(Event::ToolCallEnd { fenced: true }, consumed) == (match state.pending {
            None => Outcome {
                state,
                output: Seq::empty(),
                error: Some(ErrorView::NoFencedHeader { parser_name: state.config.parser_name@ }),
            },
            Some(pending) => {
                let arguments = state.raw.skip(pending.arguments_start);
                match json_object_error(arguments) {
                    Some(reason) => Outcome {
                        state,
                        output: Seq::empty(),
                        error: Some(
                            ErrorView::InvalidFencedArguments {
                                parser_name: state.config.parser_name@,
                                reason,
                            },
                        ),
                    },
                    None => Outcome {
                        state: State {
                            mode: Mode::Text,
                            active: None,
                            pending: None,
                            raw: Seq::empty(),
                            ..state
                        },
                        output: seq![part_of(pending.tool_index, Some(pending.name), arguments)],
                        error: None,
                    },
                }
            },
        }),
{
}

/// The end of a call that is held back, by the word on its arguments: it is handed out whole, or
/// kept with the reason as the error.
pub proof fn law_fenced_close(state: State, pending: Pending, reason: Seq<char>)
    ensures
        state.close_fenced(pending, None) == (Outcome {
            state: State {
                mode: Mode::Text,
                active: None,
                pending: None,
                raw: Seq::empty(),
                ..state
            },
            output: seq![
                part_of(
                    pending.tool_index,
                    Some(pending.name),
                    state.raw.skip(pending.arguments_start),
                ),
            ],
            error: None,
        }),
        state.close_fenced(pending, Some(reason)) == (Outcome {
            state,
            output: Seq::empty(),
            error: Some(
                ErrorView::InvalidFencedArguments {
                    parser_name: state.config.parser_name@,
                    reason,
                },
            ),
        }),
{
}

/// The effects of the events of a call taken one by one are those of the events themselves.
pub proof fn law_call_effects(state: State, name: Seq<char>, fenced: bool, bytes: int, consumed: int)
    ensures
        state.apply(Event::ToolCallHeader { name, fenced }, consumed) == state.open_call(
            name,
            fenced,
            consumed,
        ),
        state.apply(Event::Arguments { len: bytes }, consumed) == state.add_arguments(
            crate::bytes::front(state.buffer, bytes),
        ),
        state.pending matches Some(pending) ==> state.apply(
            Event::ToolCallEnd { fenced: true },
            consumed,
        ) == state.close_fenced(
            pending,
            json_object_error(state.raw.skip(pending.arguments_start)),
        ),
{
}

/// A parser takes its buffer event by event: each has its effect, its text is taken off the buffer,
/// and the rest is taken in the same way. It stops where no event has come yet, on input that is
/// refused, or on an event whose effect is an error; what was handed out before stays.
pub proof fn law_event_by_event(state: State)
    ensures
        match event_step(state.buffer, 0, state.mode, state.config) {
            StepView::Incomplete => state.drain() == (Outcome {
                state,
                output: Seq::empty(),
                error: None,
            }),
            StepView::Failed(error) => state.drain() == (Outcome {
                state,
                output: Seq::empty(),
                error: Some(ErrorView::Syntax(error)),
            }),
            StepView::Done(event, next) => {
                let read = State { mode: mode_after(state.buffer, 0, state.mode), ..state };
                let applied = read.apply(event, bytes_of(state, next));
                if applied.error is Some {
                    state.drain() == applied
                } else {
                    let rest = (State {
                        buffer: applied.state.buffer.skip(next),
                        ..applied.state
                    }).drain();
                    state.drain() == (Outcome {
                        state: rest.state,
                        output: applied.output + rest.output,
                        error: rest.error,
                    })
                }
            },
        },
{
    reveal(byte_len);
}

/// Input goes behind what is in the buffer.
pub proof fn law_fed(state: State, chunk: Seq<char>)
    ensures
        state.feed(chunk) == (State { buffer: state.buffer + chunk, ..state }).drain(),
{
}

/// A new parser has read nothing, handed out nothing and counted nothing.
pub proof fn law_new(config: JsonToolCallConfig)
    ensures
        State::fresh(config) == (State {
            config,
            buffer: Seq::empty(),
            mode: Mode::Text,
            active: None,
            emitted: 0,
            raw: Seq::empty(),
            pending: None,
        }),
        State::fresh(config).load() == 0,
        config.valid() ==> State::fresh(config).wf(),
{
    reveal(byte_len);
    if config.valid() {
        lemma_fresh_wf(config);
    }
}

/// What a reset returns, for every format and state: the start marker where a header is awaited
/// that may be fenced, then all that is held back, and then the whole buffer.
pub proof fn law_reset(state: State)
    ensures
        state.uncommitted() == (if state.mode is Header && state.config.allow_markdown_fence {
            marker_text(state.config)
        } else {
            Seq::empty()
        }) + state.raw + state.buffer,
        state.uncommitted().len() >= state.buffer.len(),
        state.uncommitted().skip(state.uncommitted().len() - state.buffer.len()) == state.buffer,
{
    assert(state.uncommitted().skip(state.uncommitted().len() - state.buffer.len())
        =~= state.buffer);
}

/// Input in which no event comes to its end is kept whole, with fences or without: what a reset
/// returns after it is what it would have returned before, with the input behind it.
pub proof fn law_reset_keeps(state: State, chunk: Seq<char>)
    requires
        event_step(state.buffer + chunk, 0, state.mode, state.config) is Incomplete,
    ensures
        state.feed(chunk).error is None,
        state.feed(chunk).output.len() == 0,
        state.feed(chunk).state.uncommitted() == state.uncommitted() + chunk,
{
    assert(state.feed(chunk).state.uncommitted() =~= state.uncommitted() + chunk);
}

/// What is used up of the counters: the tool calls that were counted, the braces that are open in
/// the arguments, and the bytes of the buffer.
pub proof fn law_load(state: State)
    ensures
        state.load() == state.emitted + (if state.mode is Arguments {
            state.mode->scan.depth
        } else {
            0
        }) + encode_utf8(state.buffer).len(),
{
    reveal(byte_len);
}

/// The counters have room for as many bytes as the machine can count: input uses up at most its own
/// bytes.
pub proof fn law_room(state: State, chunk: Seq<char>)
    requires
        state.wf(),
        state.load() + encode_utf8(chunk).len() <= usize::MAX,
    ensures
        state.feed(chunk).state.load() <= state.load() + encode_utf8(chunk).len(),
        state.feed(chunk).state.wf(),
{
    assert(byte_len(chunk) == encode_utf8(chunk).len()) by {
        reveal(byte_len);
    }
    lemma_feed_wf(state, chunk);
    crate::bytes::lemma_byte_len_append(state.buffer, chunk);
    lemma_drain_wf(State { buffer: state.buffer + chunk, ..state });
}

} // verus!
