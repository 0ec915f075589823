//! The parser for marker-wrapped JSON tool calls.

use vstd::prelude::*;
use vstd::string::StringExecFns;

use crate::bytes::{
    byte_count, byte_len, char_count, front, is_boundary, lemma_byte_len_bound,
    lemma_byte_len_split, lemma_chars_in, lemma_chars_in_bounds,
};
use crate::chars::{push_chars, push_range, string_of};
use crate::config::{JsonToolCallConfig, JsonToolCallWhitespace};
use crate::error::{ErrorView, ToolParserError};
use crate::event::{
    Event, JsonToolCallEvent, JsonToolCallMode, lemma_event_bounds, parse_next_json_tool_call_event,
};
use crate::json::{check_json_object, reason_of};
use crate::object::JsonObjectScanState;
use crate::output::{ToolCallDelta, ToolParserOutput, text_events};
use crate::state::{Pending, State, lemma_apply_wf, lemma_feed_wf, lemma_fresh_wf};
use crate::step::Step;

verus! {

broadcast use lemma_chars_in;

/// A fenced tool call that is held back until it ends.
#[derive(Debug)]
struct PendingFencedToolCall {
    tool_index: usize,
    function_name: String,
    arguments_start: usize,
}

/// Tool parser core for marker-wrapped JSON tool calls.
#[derive(Debug)]
pub struct JsonToolCallParser {
    config: JsonToolCallConfig,
    buffer: Vec<char>,
    mode: JsonToolCallMode,
    active_tool_index: Option<usize>,
    emitted_tool_count: usize,
    pending_fenced_raw: Vec<char>,
    pending_fenced_call: Option<PendingFencedToolCall>,
}

impl View for JsonToolCallParser {
    type V = State;

    closed spec fn view(&self) -> State {
        State {
            config: self.config,
            buffer: self.buffer@,
            mode: self.mode@,
            active: match self.active_tool_index {
                Some(tool_index) => Some(tool_index as int),
                None => None,
            },
            emitted: self.emitted_tool_count as int,
            raw: self.pending_fenced_raw@,
            pending: match self.pending_fenced_call {
                Some(pending) => Some(
                    Pending {
                        tool_index: pending.tool_index as int,
                        name: pending.function_name@,
                        arguments_start: pending.arguments_start as int,
                    },
                ),
                None => None,
            },
        }
    }
}

/// The error of a result.
pub open spec fn error_of<T>(result: Result<T, ToolParserError>) -> Option<ErrorView> {
    match result {
        Ok(_) => None,
        Err(error) => Some(error@),
    }
}

/// An event that the state can take: its text is the front of the buffer up to the end of a
/// character, it can be counted, and a fenced one has the exact whitespace and the arguments that
/// belong to it.
pub open spec fn admits(state: State, event: Event, consumed: int) -> bool {
    match event {
        Event::Text { len } | Event::Arguments { len } => is_boundary(state.buffer, len),
        Event::ToolCallHeader { fenced, .. } => {
            &&& state.emitted < usize::MAX
            &&& fenced ==> is_boundary(state.buffer, consumed)
            &&& fenced ==> state.config.marker_whitespace is Exact
        },
        Event::ToolCallEnd { fenced } => fenced ==> (state.pending matches Some(pending)
            ==> 0 <= pending.arguments_start <= state.raw.len()),
        _ => true,
    }
}

/// What a step of the grammar from the front of the input means for the parser: an event with the
/// number of bytes that it takes, nothing yet, or an error.
pub fn parse_buffered_event(input: &Vec<char>, step: Step<JsonToolCallEvent>) -> (result: Result<
    Option<(JsonToolCallEvent, usize)>,
    ToolParserError,
>)
    requires
        byte_len(input@) <= usize::MAX,
        step matches Step::Done(_, next) ==> next <= input@.len(),
    ensures
        match step {
            Step::Done(event, next) => {
                &&& result matches Ok(Some((read, consumed)))
                &&& read == event
                &&& consumed == byte_len(input@.take(next as int))
            },
            Step::Incomplete => result == Ok::<
                Option<(JsonToolCallEvent, usize)>,
                ToolParserError,
            >(None),
            Step::Failed(error) => result == Err::<
                Option<(JsonToolCallEvent, usize)>,
                ToolParserError,
            >(ToolParserError::Syntax(error)),
        },
{
    match step {
        Step::Done(event, next) => {
            proof {
                lemma_byte_len_split(input@, next as int);
            }
            Ok(Some((event, byte_count(input, 0, next))))
        },
        Step::Incomplete => Ok(None),
        Step::Failed(error) => Err(ToolParserError::Syntax(error)),
    }
}

impl JsonToolCallParser {
    /// Creates a marker-wrapped JSON tool-call parser.
    pub fn new(config: JsonToolCallConfig) -> (parser: Self)
        requires
            config.valid(),
        ensures
            parser@ == State::fresh(config),
            parser@.wf(),
    {
        let parser = JsonToolCallParser {
            config,
            buffer: Vec::new(),
            mode: JsonToolCallMode::Text,
            active_tool_index: None,
            emitted_tool_count: 0,
            pending_fenced_raw: Vec::new(),
            pending_fenced_call: None,
        };
        proof {
            assert(parser@ =~= State::fresh(config));
            lemma_fresh_wf(config);
        }
        parser
    }

    /// The number of bytes that the counters of the parser still have room for.
    pub fn room(&self) -> (room: usize)
        requires
            self@.wf(),
        ensures
            room == usize::MAX - self@.load(),
    {
        let depth: usize = match &self.mode {
            JsonToolCallMode::Arguments { json_scan, .. } => json_scan.depth(),
            _ => 0,
        };
        proof {
            assert(self.buffer@.subrange(0, self.buffer@.len() as int) == self.buffer@);
        }
        let buffered: usize = byte_count(&self.buffer, 0, self.buffer.len());
        usize::MAX - self.emitted_tool_count - depth - buffered
    }

    /// Takes a piece of input and hands out what it leads to.
    pub fn parse_into(&mut self, chunk: &str, output: &mut ToolParserOutput) -> (result: Result<
        (),
        ToolParserError,
    >)
        requires
            old(self)@.wf(),
            old(self)@.load() + byte_len(chunk@) <= usize::MAX,
        ensures
            final(self)@ == old(self)@.feed(chunk@).state,
            final(output)@ == old(output)@ + old(self)@.feed(chunk@).output,
            error_of(result) == old(self)@.feed(chunk@).error,
            final(self)@.wf(),
    {
        push_chars(&mut self.buffer, chunk);
        let ghost outcome = self@.drain();
        let ghost handed = output@;
        proof {
            lemma_feed_wf(old(self)@, chunk@);
            assert(self@ =~= (State { buffer: old(self)@.buffer + chunk@, ..old(self)@ }));
        }
        loop
            invariant
                self@.wf(),
                outcome.state == self@.drain().state,
                outcome.error == self@.drain().error,
                handed + outcome.output == output@ + self@.drain().output,
                outcome == old(self)@.feed(chunk@),
                handed == old(output)@,
            decreases self@.buffer.len(), self@.rank(),
        {
            let ghost before = self@;
            let mut mode: JsonToolCallMode = self.mode;
            proof {
                lemma_byte_len_bound(before.buffer);
                lemma_event_bounds(before.buffer, before.mode, before.config);
            }
            let step = parse_next_json_tool_call_event(&self.buffer, 0, &mut mode, self.config);
            match parse_buffered_event(&self.buffer, step) {
                Ok(Some((event, consumed))) => {
                    self.mode = mode;
                    let ghost next = step@->Done_1;
                    proof {
                        assert(self@ =~= before.moved());
                        lemma_apply_wf(before);
                    }
                    let ghost applied = before.read(event@, next);
                    if let Err(error) = self.apply_event(event, consumed, output) {
                        return Err(error);
                    }
                    let count: usize = char_count(&self.buffer, consumed);
                    let rest: Vec<char> = self.buffer.split_off(count);
                    self.buffer = rest;
                    proof {
                        assert(self@ =~= applied.state.consume(next));
                    }
                },
                Ok(None) => {
                    return Ok(());
                },
                Err(error) => {
                    return Err(error);
                },
            }
        }
    }

    /// Ends the input: what is left in the buffer is text, and the parser is as new. Inside a
    /// tool call that is an error, and the parser stays as it is.
    pub fn finish(&mut self) -> (result: Result<ToolParserOutput, ToolParserError>)
        requires
            old(self)@.config.valid(),
        ensures
            match result {
                Ok(output) => {
                    &&& old(self)@.mode is Text
                    &&& output@ == text_events(old(self)@.buffer)
                    &&& final(self)@ == State::fresh(old(self)@.config)
                },
                Err(error) => {
                    &&& !(old(self)@.mode is Text)
                    &&& error@ == ErrorView::IncompleteToolCall {
                        parser_name: old(self)@.config.parser_name@,
                    }
                    &&& final(self)@ == old(self)@
                },
            },
            old(self)@.wf() ==> final(self)@.wf(),
    {
        let mut output = ToolParserOutput::default();
        match &self.mode {
            JsonToolCallMode::Text => {
                let text: String = string_of(&self.buffer, 0, self.buffer.len());
                assert(self.buffer@.subrange(0, self.buffer@.len() as int) == self.buffer@);
                output.push_text(text.as_str());
            },
            JsonToolCallMode::Header | JsonToolCallMode::Arguments { .. } => {
                return Err(
                    ToolParserError::IncompleteToolCall { parser_name: self.config.parser_name },
                );
            },
        }
        let _ = self.reset();
        assert(output@ =~= text_events(old(self)@.buffer));
        Ok(output)
    }

    /// Applies one event to the parser and the output. The text of the event is still in the
    /// buffer.
    pub fn apply_event(
        &mut self,
        event: JsonToolCallEvent,
        consumed_len: usize,
        output: &mut ToolParserOutput,
    ) -> (result: Result<(), ToolParserError>)
        requires
            admits(old(self)@, event@, consumed_len as int),
        ensures
            final(self)@ == old(self)@.apply(event@, consumed_len as int).state,
            final(output)@ == old(output)@ + old(self)@.apply(event@, consumed_len as int).output,
            error_of(result) == old(self)@.apply(event@, consumed_len as int).error,
    {
        match event {
            JsonToolCallEvent::Text { len } => {
                let text: String = self.front_text(len);
                output.push_text(text.as_str());
            },
            JsonToolCallEvent::ToolCallStart => {
                self.mode = JsonToolCallMode::Header;
            },
            JsonToolCallEvent::ToolCallHeader { function_name, markdown_fenced } => {
                self.open_call(function_name, markdown_fenced, consumed_len, output);
            },
            JsonToolCallEvent::Arguments { len } => {
                return self.add_arguments(len, output);
            },
            JsonToolCallEvent::ToolCallDelimiter => {
                self.active_tool_index = None;
                self.mode = JsonToolCallMode::Header;
            },
            JsonToolCallEvent::ToolCallEnd { markdown_fenced } => {
                if markdown_fenced {
                    let Some(pending) = self.pending_fenced_call.as_ref() else {
                        return Err(
                            ToolParserError::NoFencedHeader {
                                parser_name: self.config.parser_name,
                            },
                        );
                    };
                    let arguments: String = string_of(
                        &self.pending_fenced_raw,
                        pending.arguments_start,
                        self.pending_fenced_raw.len(),
                    );
                    assert(arguments@ == self@.pending_arguments());
                    let checked = check_json_object(arguments.as_str());
                    return self.close_fenced_call(checked, output);
                }
                self.active_tool_index = None;
                self.mode = JsonToolCallMode::Text;
            },
        }
        assert(self@ =~= old(self)@.apply(event@, consumed_len as int).state);
        assert(output@ =~= old(output)@ + old(self)@.apply(event@, consumed_len as int).output);
        Ok(())
    }

    /// Opens a tool call. A fenced one is held back until its end, together with its text.
    pub fn open_call(
        &mut self,
        function_name: String,
        markdown_fenced: bool,
        consumed_len: usize,
        output: &mut ToolParserOutput,
    )
        requires
            old(self)@.emitted < usize::MAX,
            markdown_fenced ==> is_boundary(old(self)@.buffer, consumed_len as int),
            markdown_fenced ==> old(self)@.config.marker_whitespace is Exact,
        ensures
            final(self)@ == old(self)@.open_call(
                function_name@,
                markdown_fenced,
                consumed_len as int,
            ).state,
            final(output)@ == old(output)@ + old(self)@.open_call(
                function_name@,
                markdown_fenced,
                consumed_len as int,
            ).output,
    {
        let ghost opened = old(self)@.open_call(
            function_name@,
            markdown_fenced,
            consumed_len as int,
        );
        let tool_index: usize = self.emitted_tool_count;
        self.emitted_tool_count += 1;
        self.active_tool_index = Some(tool_index);
        self.mode = JsonToolCallMode::Arguments {
            json_scan: JsonObjectScanState::default(),
            markdown_fenced,
        };
        if markdown_fenced {
            push_chars(&mut self.pending_fenced_raw, self.config.start_marker);
            if let JsonToolCallWhitespace::Exact(space) = self.config.marker_whitespace {
                push_chars(&mut self.pending_fenced_raw, space);
            }
            let count: usize = char_count(&self.buffer, consumed_len);
            proof {
                lemma_chars_in_bounds(self.buffer@, consumed_len as int);
            }
            push_range(&mut self.pending_fenced_raw, &self.buffer, 0, count);
            assert(self.pending_fenced_raw@ =~= opened.state.raw);
            self.pending_fenced_call = Some(
                PendingFencedToolCall {
                    tool_index,
                    function_name,
                    arguments_start: self.pending_fenced_raw.len(),
                },
            );
        } else {
            output.push_call(
                ToolCallDelta {
                    tool_index,
                    name: Some(function_name),
                    arguments: String::new(),
                },
            );
        }
        assert(self@ =~= opened.state);
        assert(output@ =~= old(output)@ + opened.output);
    }

    /// The first `len` bytes of the buffer as a string.
    fn front_text(&self, len: usize) -> (text: String)
        requires
            is_boundary(self@.buffer, len as int),
        ensures
            text@ == front(self@.buffer, len as int),
    {
        let count: usize = char_count(&self.buffer, len);
        proof {
            lemma_chars_in_bounds(self.buffer@, len as int);
        }
        string_of(&self.buffer, 0, count)
    }

    /// Adds the first `len` bytes of the buffer to the arguments of the active tool call.
    pub fn add_arguments(&mut self, len: usize, output: &mut ToolParserOutput) -> (result: Result<
        (),
        ToolParserError,
    >)
        requires
            is_boundary(old(self)@.buffer, len as int),
        ensures
            final(self)@ == old(self)@.add_arguments(front(old(self)@.buffer, len as int)).state,
            final(output)@ == old(output)@ + old(self)@.add_arguments(
                front(old(self)@.buffer, len as int),
            ).output,
            error_of(result) == old(self)@.add_arguments(
                front(old(self)@.buffer, len as int),
            ).error,
    {
        let ghost added = old(self)@.add_arguments(front(old(self)@.buffer, len as int));
        let Some(tool_index) = self.active_tool_index else {
            assert(output@ =~= old(output)@ + added.output);
            return Err(
                ToolParserError::NoActiveToolCall { parser_name: self.config.parser_name },
            );
        };
        let markdown_fenced: bool = match &self.mode {
            JsonToolCallMode::Arguments { markdown_fenced, .. } => *markdown_fenced,
            _ => false,
        };
        if markdown_fenced {
            let count: usize = char_count(&self.buffer, len);
            proof {
                lemma_chars_in_bounds(self.buffer@, len as int);
            }
            push_range(&mut self.pending_fenced_raw, &self.buffer, 0, count);
        } else {
            output.push_call(
                ToolCallDelta {
                    tool_index,
                    name: None,
                    arguments: self.front_text(len),
                },
            );
        }
        assert(self@ =~= added.state);
        assert(output@ =~= old(output)@ + added.output);
        Ok(())
    }

    /// Ends the fenced tool call that is held back, given whether its arguments were taken as a
    /// JSON object or else the reason why they were not: it is handed out, or it stays.
    pub fn close_fenced_call(
        &mut self,
        checked: Result<(), String>,
        output: &mut ToolParserOutput,
    ) -> (result: Result<(), ToolParserError>)
        requires
            old(self)@.pending matches Some(pending) && 0 <= pending.arguments_start <= old(
                self,
            )@.raw.len(),
        ensures
            final(self)@ == old(self)@.close_fenced(
                old(self)@.pending->0,
                reason_of(checked),
            ).state,
            final(output)@ == old(output)@ + old(self)@.close_fenced(
                old(self)@.pending->0,
                reason_of(checked),
            ).output,
            error_of(result) == old(self)@.close_fenced(
                old(self)@.pending->0,
                reason_of(checked),
            ).error,
    {
        let ghost ended = old(self)@.close_fenced(old(self)@.pending->0, reason_of(checked));
        if let Err(reason) = checked {
            assert(output@ =~= old(output)@ + ended.output);
            return Err(
                ToolParserError::InvalidFencedArguments {
                    parser_name: self.config.parser_name,
                    reason,
                },
            );
        }
        if let Some(pending) = self.pending_fenced_call.take() {
            let arguments: String = string_of(
                &self.pending_fenced_raw,
                pending.arguments_start,
                self.pending_fenced_raw.len(),
            );
            assert(arguments@ == old(self)@.pending_arguments());
            output.push_call(
                ToolCallDelta {
                    tool_index: pending.tool_index,
                    name: Some(pending.function_name),
                    arguments,
                },
            );
            self.pending_fenced_raw.clear();
        }
        self.active_tool_index = None;
        self.mode = JsonToolCallMode::Text;
        assert(self@ =~= ended.state);
        assert(output@ =~= old(output)@ + ended.output);
        Ok(())
    }

    /// Makes the parser as new and returns the input that had no effect on the output yet.
    pub fn reset(&mut self) -> (uncommitted: String)
        requires
            old(self)@.config.valid(),
        ensures
            uncommitted@ == old(self)@.uncommitted(),
            final(self)@ == State::fresh(old(self)@.config),
            final(self)@.wf(),
    {
        let pending_tool_call_start: bool = self.config.allow_markdown_fence && match &self.mode {
            JsonToolCallMode::Header => true,
            _ => false,
        };
        let mut uncommitted: String = String::new();
        if pending_tool_call_start {
            uncommitted.append(self.config.start_marker);
            if let JsonToolCallWhitespace::Exact(space) = self.config.marker_whitespace {
                uncommitted.append(space);
            }
        }
        let raw: String = string_of(&self.pending_fenced_raw, 0, self.pending_fenced_raw.len());
        let rest: String = string_of(&self.buffer, 0, self.buffer.len());
        uncommitted.append(raw.as_str());
        uncommitted.append(rest.as_str());
        assert(uncommitted@ =~= old(self)@.uncommitted());
        self.mode = JsonToolCallMode::Text;
        self.active_tool_index = None;
        self.emitted_tool_count = 0;
        self.pending_fenced_call = None;
        self.pending_fenced_raw.clear();
        self.buffer.clear();
        proof {
            assert(self@ =~= State::fresh(old(self)@.config));
            lemma_fresh_wf(old(self)@.config);
        }
        uncommitted
    }
}

} // verus!
