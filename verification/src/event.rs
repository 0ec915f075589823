//! The events of a tool-call stream and the grammar that yields them.

use vstd::prelude::*;

use crate::bytes::byte_len;
use crate::chars::same_text;
use crate::config::JsonToolCallConfig;
use crate::lex::{literal, literal_step, space_step, ws0};
use crate::object::{JsonObjectScanState, ObjectScan, lemma_run_bounds, take_json_object};
use crate::sequence::{
    Piece, PieceView, lemma_sequence_bounds, lemma_sequence_split, lemma_space_end_bounds,
    pieces_view, sequence, sequence_step,
};
use crate::step::{Step, StepView, SyntaxError, SyntaxErrorView, texts};
use crate::string::{json_str, json_str_step, lemma_json_str_bounds};
use crate::text::{lemma_next_candidate, next_candidate, safe_text_len, safe_text_step};

verus! {

/// Where a parser is in the stream.
#[derive(Debug, Clone, Copy, PartialEq, Eq)]
pub enum JsonToolCallMode {
    Text,
    Header,
    Arguments { json_scan: JsonObjectScanState, markdown_fenced: bool },
}

/// The contents of a [`JsonToolCallMode`].
pub enum Mode {
    Text,
    Header,
    Arguments { scan: ObjectScan, fenced: bool },
}

impl View for JsonToolCallMode {
    type V = Mode;

    open spec fn view(&self) -> Mode {
        match self {
            JsonToolCallMode::Text => Mode::Text,
            JsonToolCallMode::Header => Mode::Header,
            JsonToolCallMode::Arguments { json_scan, markdown_fenced } => Mode::Arguments {
                scan: json_scan@,
                fenced: *markdown_fenced,
            },
        }
    }
}

/// What a parser has found next in the stream. Lengths count bytes.
#[derive(Debug, Clone, PartialEq, Eq)]
pub enum JsonToolCallEvent {
    Text { len: usize },
    ToolCallStart,
    ToolCallHeader { function_name: String, markdown_fenced: bool },
    Arguments { len: usize },
    ToolCallDelimiter,
    ToolCallEnd { markdown_fenced: bool },
}

/// The contents of a [`JsonToolCallEvent`].
#[verifier::ext_equal]
pub enum Event {
    Text { len: int },
    ToolCallStart,
    ToolCallHeader { name: Seq<char>, fenced: bool },
    Arguments { len: int },
    ToolCallDelimiter,
    ToolCallEnd { fenced: bool },
}

impl View for JsonToolCallEvent {
    type V = Event;

    open spec fn view(&self) -> Event {
        match self {
            JsonToolCallEvent::Text { len } => Event::Text { len: *len as int },
            JsonToolCallEvent::ToolCallStart => Event::ToolCallStart,
            JsonToolCallEvent::ToolCallHeader { function_name, markdown_fenced } => {
                Event::ToolCallHeader { name: function_name@, fenced: *markdown_fenced }
            },
            JsonToolCallEvent::Arguments { len } => Event::Arguments { len: *len as int },
            JsonToolCallEvent::ToolCallDelimiter => Event::ToolCallDelimiter,
            JsonToolCallEvent::ToolCallEnd { markdown_fenced } => Event::ToolCallEnd {
                fenced: *markdown_fenced,
            },
        }
    }
}

/// A step that stands for the given value.
pub open spec fn valued<T>(step: StepView<()>, value: T) -> StepView<T> {
    match step {
        StepView::Done(_, next) => StepView::Done(value, next),
        StepView::Incomplete => StepView::Incomplete,
        StepView::Failed(error) => StepView::Failed(error),
    }
}

/// The start marker and the whitespace behind it.
pub open spec fn start_pieces(config: JsonToolCallConfig) -> Seq<PieceView> {
    seq![PieceView::Literal(config.start_marker@), config.space()]
}

/// Reading the start of a tool call.
pub open spec fn start_step(s: Seq<char>, at: int, config: JsonToolCallConfig) -> StepView<Event> {
    valued(sequence_step(s, at, start_pieces(config)), Event::ToolCallStart)
}

/// Reading outside of tool calls: the start of one, or else plain text.
pub open spec fn text_event_step(s: Seq<char>, at: int, config: JsonToolCallConfig) -> StepView<
    Event,
> {
    match start_step(s, at, config) {
        StepView::Failed(_) => match safe_text_step(s, at, config.start_marker@) {
            StepView::Done(len, next) => StepView::Done(Event::Text { len }, next),
            StepView::Incomplete => StepView::Incomplete,
            StepView::Failed(error) => StepView::Failed(error),
        },
        step => step,
    }
}

/// Reading the opening of a Markdown fence, where fences are allowed and a backquote comes next.
pub open spec fn fence_step(s: Seq<char>, at: int, enabled: bool) -> StepView<bool> {
    if !enabled || at >= s.len() || s[at] != '`' {
        StepView::Done(false, at)
    } else {
        match literal_step(s, at, "```json\n"@) {
            StepView::Failed(_) => valued(literal_step(s, at, "```\n"@), true),
            step => valued(step, true),
        }
    }
}

/// A given key of a JSON object.
pub open spec fn key_pieces(key: Seq<char>) -> Seq<PieceView> {
    seq![PieceView::Literal("\""@), PieceView::Expected(key), PieceView::Literal("\""@)]
}

/// A colon or comma with whitespace around it.
pub open spec fn separator_pieces(separator: Seq<char>) -> Seq<PieceView> {
    seq![PieceView::Space, PieceView::Literal(separator), PieceView::Space]
}

/// The opening brace of an object and the whitespace behind it.
pub open spec fn brace_pieces() -> Seq<PieceView> {
    seq![PieceView::Literal("{"@), PieceView::Space]
}

/// What comes before the function name: the opening brace and the name's key.
pub open spec fn name_pieces(config: JsonToolCallConfig) -> Seq<PieceView> {
    brace_pieces() + key_pieces(config.name_key@) + separator_pieces(":"@)
}

/// The error of a key that is none of the candidates: it enumerates all of them.
pub open spec fn keys_error(keys: Seq<Seq<char>>) -> SyntaxErrorView {
    SyntaxErrorView { label: None, expected: keys }
}

/// Reading a key that is one of the candidates. The whole quoted key is read and then compared.
pub open spec fn arguments_key_step(s: Seq<char>, at: int, keys: Seq<Seq<char>>) -> StepView<()> {
    match json_str_step(s, at) {
        StepView::Done(key, next) => if keys.contains(key) {
            StepView::Done((), next)
        } else {
            StepView::Failed(keys_error(keys))
        },
        StepView::Incomplete => StepView::Incomplete,
        StepView::Failed(_) => StepView::Failed(keys_error(keys)),
    }
}

/// Reading what follows the function name, up to the arguments.
pub open spec fn name_end_step(s: Seq<char>, at: int, config: JsonToolCallConfig) -> StepView<()> {
    match sequence_step(s, at, separator_pieces(","@)) {
        StepView::Done(_, key) => match arguments_key_step(s, key, config.keys()) {
            StepView::Done(_, next) => sequence_step(s, next, separator_pieces(":"@)),
            step => step,
        },
        step => step,
    }
}

/// Reading a tool-call object up to its arguments: the function name.
pub open spec fn object_head_step(s: Seq<char>, at: int, config: JsonToolCallConfig) -> StepView<
    Seq<char>,
> {
    match sequence_step(s, at, name_pieces(config)) {
        StepView::Done(_, start) => match json_str_step(s, start) {
            StepView::Done(name, next) => valued(name_end_step(s, next, config), name),
            step => step,
        },
        StepView::Incomplete => StepView::Incomplete,
        StepView::Failed(error) => StepView::Failed(error),
    }
}

/// The head of an object as a header event.
pub open spec fn as_header(step: StepView<Seq<char>>, fenced: bool) -> StepView<Event> {
    match step {
        StepView::Done(name, next) => StepView::Done(Event::ToolCallHeader { name, fenced }, next),
        StepView::Incomplete => StepView::Incomplete,
        StepView::Failed(error) => StepView::Failed(error),
    }
}

/// Reading a header: whitespace, a fence where one is allowed, and the head of the object.
pub open spec fn bare_header_step(s: Seq<char>, at: int, config: JsonToolCallConfig) -> StepView<
    Event,
> {
    match space_step(s, at) {
        StepView::Done(_, first) => match fence_step(s, first, config.allow_markdown_fence) {
            StepView::Done(fenced, next) => if fenced {
                match space_step(s, next) {
                    StepView::Done(_, start) => as_header(object_head_step(s, start, config), true),
                    StepView::Incomplete => StepView::Incomplete,
                    StepView::Failed(error) => StepView::Failed(error),
                }
            } else {
                as_header(object_head_step(s, next, config), false)
            },
            StepView::Incomplete => StepView::Incomplete,
            StepView::Failed(error) => StepView::Failed(error),
        },
        StepView::Incomplete => StepView::Incomplete,
        StepView::Failed(error) => StepView::Failed(error),
    }
}

/// A step whose error names the construct.
pub open spec fn labelled(step: StepView<Event>, label: Seq<char>) -> StepView<Event> {
    match step {
        StepView::Failed(error) => StepView::Failed(
            SyntaxErrorView { label: Some(label), expected: error.expected },
        ),
        step => step,
    }
}

/// Reading a header, with the name of the parser on its errors.
pub open spec fn header_step(s: Seq<char>, at: int, config: JsonToolCallConfig) -> StepView<Event> {
    labelled(bare_header_step(s, at, config), config.parser_name@)
}

/// The end of a block of tool calls: the end marker with its whitespace, and behind a fenced
/// object the closing of the fence before it.
pub open spec fn end_pieces(fenced: bool, config: JsonToolCallConfig) -> Seq<PieceView> {
    if fenced {
        seq![
            config.space(),
            PieceView::Literal("```"@),
            config.space(),
            PieceView::Literal(config.end_marker@),
        ]
    } else {
        seq![config.space(), PieceView::Literal(config.end_marker@)]
    }
}

/// Reading the end of a block.
pub open spec fn end_step(
    s: Seq<char>,
    at: int,
    fenced: bool,
    config: JsonToolCallConfig,
) -> StepView<Event> {
    valued(sequence_step(s, at, end_pieces(fenced, config)), Event::ToolCallEnd { fenced })
}

/// Reading the delimiter between two tool calls of a block.
pub open spec fn delimiter_step(s: Seq<char>, at: int, delimiter: Seq<char>) -> StepView<Event> {
    valued(sequence_step(s, at, separator_pieces(delimiter)), Event::ToolCallDelimiter)
}

/// The closing brace of a tool-call object and the whitespace before it.
pub open spec fn close_pieces() -> Seq<PieceView> {
    seq![PieceView::Space, PieceView::Literal("}"@)]
}

/// Reading what follows the object's closing brace: the end of the block, or else a delimiter
/// where the format has one.
pub open spec fn after_object_step(
    s: Seq<char>,
    at: int,
    fenced: bool,
    config: JsonToolCallConfig,
) -> StepView<Event> {
    match config.delimiter {
        Some(delimiter) => match end_step(s, at, fenced, config) {
            StepView::Failed(_) => delimiter_step(s, at, delimiter@),
            step => step,
        },
        None => end_step(s, at, fenced, config),
    }
}

/// Reading the close of a tool call.
pub open spec fn close_step(
    s: Seq<char>,
    at: int,
    fenced: bool,
    config: JsonToolCallConfig,
) -> StepView<Event> {
    match sequence_step(s, at, close_pieces()) {
        StepView::Done(_, next) => after_object_step(s, next, fenced, config),
        StepView::Incomplete => StepView::Incomplete,
        StepView::Failed(error) => StepView::Failed(error),
    }
}

/// Reading a part of the arguments.
pub open spec fn delta_step(s: Seq<char>, at: int, scan: ObjectScan) -> StepView<Event> {
    match scan.step(s, at) {
        StepView::Done(len, next) => StepView::Done(Event::Arguments { len }, next),
        StepView::Incomplete => StepView::Incomplete,
        StepView::Failed(error) => StepView::Failed(error),
    }
}

/// The scan after reading a part of the arguments: it moves only where there was one.
pub open spec fn scan_after(s: Seq<char>, at: int, scan: ObjectScan) -> ObjectScan {
    if scan.step(s, at) is Done {
        scan.run(s, at).0
    } else {
        scan
    }
}

/// Reading inside the arguments: a part of them, or the close of the call once they are over.
pub open spec fn arguments_event_step(
    s: Seq<char>,
    at: int,
    scan: ObjectScan,
    fenced: bool,
    config: JsonToolCallConfig,
) -> StepView<Event> {
    if scan.complete() {
        close_step(s, at, fenced, config)
    } else {
        delta_step(s, at, scan)
    }
}

/// The next event of the stream in the given mode.
#[verifier::opaque]
pub open spec fn event_step(
    s: Seq<char>,
    at: int,
    mode: Mode,
    config: JsonToolCallConfig,
) -> StepView<Event> {
    match mode {
        Mode::Text => text_event_step(s, at, config),
        Mode::Header => header_step(s, at, config),
        Mode::Arguments { scan, fenced } => arguments_event_step(s, at, scan, fenced, config),
    }
}

/// The mode after reading the next event, before the event has its effect: only the scan of
/// unfinished arguments moves.
pub open spec fn mode_after(s: Seq<char>, at: int, mode: Mode) -> Mode {
    match mode {
        Mode::Arguments { scan, fenced } if !scan.complete() => Mode::Arguments {
            scan: scan_after(s, at, scan),
            fenced,
        },
        mode => mode,
    }
}

/// An event that is read ends inside the buffer; it takes some of it, unless it is the start of a
/// tool call. What kind of event it is depends on the mode.
pub proof fn lemma_event_bounds(s: Seq<char>, mode: Mode, config: JsonToolCallConfig)
    ensures
        event_step(s, 0, mode, config) matches StepView::Done(event, next) ==> {
            &&& 0 <= next <= s.len()
            &&& 0 < next || event is ToolCallStart
            &&& match mode {
                Mode::Text => match event {
                    Event::Text { len } => len == byte_len(s.take(next)),
                    Event::ToolCallStart => true,
                    _ => false,
                },
                Mode::Header => event is ToolCallHeader && (event->ToolCallHeader_fenced
                    ==> config.allow_markdown_fence),
                Mode::Arguments { scan, fenced } => if scan.complete() {
                    match event {
                        Event::ToolCallDelimiter => config.delimiter is Some,
                        Event::ToolCallEnd { fenced: ended } => ended == fenced,
                        _ => false,
                    }
                } else {
                    event matches Event::Arguments { len } && len == byte_len(s.take(next))
                },
            }
        },
{
    reveal(event_step);
    match mode {
        Mode::Text => {
            lemma_sequence_bounds(s, 0, start_pieces(config));
            if s.len() > 0 {
                lemma_next_candidate(s, 1, config.start_marker@);
            }
        },
        Mode::Header => {
            lemma_header_bounds(s, config);
        },
        Mode::Arguments { scan, fenced } => {
            if scan.complete() {
                lemma_close_bounds(s, fenced, config);
            } else {
                lemma_run_bounds(scan, s, 0);
            }
        },
    }
}

/// Text comes next exactly where there is input and no tool call starts.
pub proof fn lemma_text_event(s: Seq<char>, config: JsonToolCallConfig)
    ensures
        event_step(s, 0, Mode::Text, config) == (if start_step(s, 0, config) is Failed && s.len()
            > 0 {
            let end = next_candidate(s, 1, config.start_marker@);
            StepView::Done(Event::Text { len: byte_len(s.take(end)) }, end)
        } else if start_step(s, 0, config) is Failed {
            StepView::Incomplete
        } else {
            start_step(s, 0, config)
        }),
{
    reveal(event_step);
}

/// A part of the arguments comes next until they are over, and then the close of the call.
pub proof fn lemma_arguments_event(
    s: Seq<char>,
    scan: ObjectScan,
    fenced: bool,
    config: JsonToolCallConfig,
)
    ensures
        event_step(s, 0, Mode::Arguments { scan, fenced }, config) == (if scan.complete() {
            close_step(s, 0, fenced, config)
        } else {
            delta_step(s, 0, scan)
        }),
{
    reveal(event_step);
}

/// The head of an object ends inside the input and behind its start.
proof fn lemma_object_head_bounds(s: Seq<char>, at: int, config: JsonToolCallConfig)
    requires
        0 <= at <= s.len(),
    ensures
        object_head_step(s, at, config) matches StepView::Done(_, next) ==> at < next <= s.len(),
{
    lemma_sequence_bounds(s, at, name_pieces(config));
    if let StepView::Done(_, start) = sequence_step(s, at, name_pieces(config)) {
        lemma_json_str_bounds(s, start);
        if let StepView::Done(_, next) = json_str_step(s, start) {
            lemma_sequence_bounds(s, next, separator_pieces(","@));
            if let StepView::Done(_, key) = sequence_step(s, next, separator_pieces(","@)) {
                lemma_json_str_bounds(s, key);
                if let StepView::Done(_, end) = json_str_step(s, key) {
                    lemma_sequence_bounds(s, end, separator_pieces(":"@));
                }
            }
        }
    }
}

/// A header ends inside the buffer and takes some of it.
proof fn lemma_header_bounds(s: Seq<char>, config: JsonToolCallConfig)
    ensures
        header_step(s, 0, config) matches StepView::Done(event, next) ==> {
            &&& 0 < next <= s.len()
            &&& event is ToolCallHeader
            &&& event->ToolCallHeader_fenced ==> config.allow_markdown_fence
        },
{
    lemma_space_end_bounds(s, 0);
    if let StepView::Done(_, first) = space_step(s, 0) {
        if let StepView::Done(fenced, next) = fence_step(s, first, config.allow_markdown_fence) {
            if fenced {
                lemma_space_end_bounds(s, next);
                if let StepView::Done(_, start) = space_step(s, next) {
                    lemma_object_head_bounds(s, start, config);
                }
            } else {
                lemma_object_head_bounds(s, next, config);
            }
        }
    }
}

/// The close of a tool call ends inside the buffer and takes some of it.
proof fn lemma_close_bounds(s: Seq<char>, fenced: bool, config: JsonToolCallConfig)
    ensures
        close_step(s, 0, fenced, config) matches StepView::Done(event, next) ==> {
            &&& 0 < next <= s.len()
            &&& match event {
                Event::ToolCallDelimiter => config.delimiter is Some,
                Event::ToolCallEnd { fenced: ended } => ended == fenced,
                _ => false,
            }
        },
{
    reveal_strlit("}");
    lemma_space_end_bounds(s, 0);
    reveal_with_fuel(sequence_step, 3);
    assert(close_pieces().drop_first().drop_first().len() == 0);
    if let StepView::Done(_, next) = sequence_step(s, 0, close_pieces()) {
        assert(0 < next <= s.len());
        lemma_sequence_bounds(s, next, end_pieces(fenced, config));
        if let Some(delimiter) = config.delimiter {
            lemma_sequence_bounds(s, next, separator_pieces(delimiter@));
        }
    }
}

/// Reads the next event of the stream in the given mode, and moves the scan of unfinished
/// arguments over what was read.
pub fn parse_next_json_tool_call_event(
    input: &Vec<char>,
    at: usize,
    mode: &mut JsonToolCallMode,
    config: JsonToolCallConfig,
) -> (step: Step<JsonToolCallEvent>)
    requires
        at <= input@.len(),
        byte_len(input@) <= usize::MAX,
        old(mode)@ matches Mode::Arguments { scan, .. } ==> scan.depth + (input@.len() - at)
            <= usize::MAX,
    ensures
        step@ == event_step(input@, at as int, old(mode)@, config),
        final(mode)@ == mode_after(input@, at as int, old(mode)@),
{
    reveal(event_step);
    match mode {
        JsonToolCallMode::Text => parse_text_event(input, at, config),
        JsonToolCallMode::Header => tool_call_header_event(input, at, config),
        JsonToolCallMode::Arguments { json_scan, markdown_fenced } => parse_arguments_event(
            input,
            at,
            json_scan,
            *markdown_fenced,
            config,
        ),
    }
}

/// Reads a text-mode event: the start of a tool call, or else plain text.
pub fn parse_text_event(input: &Vec<char>, at: usize, config: JsonToolCallConfig) -> (step: Step<
    JsonToolCallEvent,
>)
    requires
        at <= input@.len(),
        byte_len(input@) <= usize::MAX,
    ensures
        step@ == text_event_step(input@, at as int, config),
{
    match tool_call_start_event(input, at, config) {
        Step::Failed(_) => safe_text_event(input, at, config),
        step => step,
    }
}

/// Reads the start marker of a tool call and the whitespace behind it.
pub fn tool_call_start_event(
    input: &Vec<char>,
    at: usize,
    config: JsonToolCallConfig,
) -> (step: Step<JsonToolCallEvent>)
    requires
        at <= input@.len(),
    ensures
        step@ == start_step(input@, at as int, config),
{
    let marker = vec![Piece::Literal(config.start_marker)];
    let ghost space = seq![config.space()];
    proof {
        assert(pieces_view(marker@) =~= seq![PieceView::Literal(config.start_marker@)]);
        assert(start_pieces(config) =~= pieces_view(marker@) + space);
        lemma_sequence_split(input@, at as int, pieces_view(marker@), space);
        lemma_sequence_bounds(input@, at as int, pieces_view(marker@));
    }
    match sequence(input, at, &marker) {
        Step::Done(_, next) => match marker_whitespace(input, next, config) {
            Step::Done(_, end) => Step::Done(JsonToolCallEvent::ToolCallStart, end),
            Step::Incomplete => Step::Incomplete,
            Step::Failed(error) => Step::Failed(error),
        },
        Step::Incomplete => Step::Incomplete,
        Step::Failed(error) => Step::Failed(error),
    }
}

/// Reads the header of a tool call, up to the raw arguments.
pub fn tool_call_header_event(
    input: &Vec<char>,
    at: usize,
    config: JsonToolCallConfig,
) -> (step: Step<JsonToolCallEvent>)
    requires
        at <= input@.len(),
    ensures
        step@ == header_step(input@, at as int, config),
{
    match bare_header(input, at, config) {
        Step::Failed(error) => Step::Failed(
            SyntaxError { label: Some(config.parser_name), expected: error.expected },
        ),
        step => step,
    }
}

/// Reads the header of a tool call.
fn bare_header(input: &Vec<char>, at: usize, config: JsonToolCallConfig) -> (step: Step<
    JsonToolCallEvent,
>)
    requires
        at <= input@.len(),
    ensures
        step@ == bare_header_step(input@, at as int, config),
{
    let first: usize = match ws0(input, at) {
        Step::Done(_, first) => first,
        Step::Incomplete => {
            return Step::Incomplete;
        },
        Step::Failed(error) => {
            return Step::Failed(error);
        },
    };
    let (markdown_fenced, next): (bool, usize) = match markdown_fence_start(
        input,
        first,
        config.allow_markdown_fence,
    ) {
        Step::Done(markdown_fenced, next) => (markdown_fenced, next),
        Step::Incomplete => {
            return Step::Incomplete;
        },
        Step::Failed(error) => {
            return Step::Failed(error);
        },
    };
    let mut start: usize = next;
    if markdown_fenced {
        match ws0(input, next) {
            Step::Done(_, end) => {
                start = end;
            },
            Step::Incomplete => {
                return Step::Incomplete;
            },
            Step::Failed(error) => {
                return Step::Failed(error);
            },
        }
    }
    match object_head(input, start, config) {
        Step::Done(function_name, end) => Step::Done(
            JsonToolCallEvent::ToolCallHeader { function_name, markdown_fenced },
            end,
        ),
        Step::Incomplete => Step::Incomplete,
        Step::Failed(error) => Step::Failed(error),
    }
}

/// Reads a tool-call object up to its arguments and returns the function name.
fn object_head(input: &Vec<char>, at: usize, config: JsonToolCallConfig) -> (step: Step<String>)
    requires
        at <= input@.len(),
    ensures
        step@ == object_head_step(input@, at as int, config),
{
    let start: usize = match name_start(input, at, config) {
        Step::Done(_, start) => start,
        Step::Incomplete => {
            return Step::Incomplete;
        },
        Step::Failed(error) => {
            return Step::Failed(error);
        },
    };
    proof {
        lemma_sequence_bounds(input@, at as int, name_pieces(config));
        lemma_json_str_bounds(input@, start as int);
    }
    let (function_name, next): (String, usize) = match json_str(input, start) {
        Step::Done(function_name, next) => (function_name, next),
        Step::Incomplete => {
            return Step::Incomplete;
        },
        Step::Failed(error) => {
            return Step::Failed(error);
        },
    };
    match name_end(input, next, config) {
        Step::Done(_, end) => Step::Done(function_name, end),
        Step::Incomplete => Step::Incomplete,
        Step::Failed(error) => Step::Failed(error),
    }
}

/// Reads a brace, the key of the function name and a colon.
fn name_start(input: &Vec<char>, at: usize, config: JsonToolCallConfig) -> (step: Step<()>)
    requires
        at <= input@.len(),
    ensures
        step@ == sequence_step(input@, at as int, name_pieces(config)),
{
    let ghost key = key_pieces(config.name_key@);
    let ghost colon = separator_pieces(":"@);
    proof {
        assert(name_pieces(config) == (brace_pieces() + key) + colon);
        lemma_sequence_split(input@, at as int, brace_pieces() + key, colon);
        lemma_sequence_split(input@, at as int, brace_pieces(), key);
        lemma_sequence_bounds(input@, at as int, brace_pieces());
    }
    let brace = vec![Piece::Literal("{"), Piece::Space];
    assert(pieces_view(brace@) =~= brace_pieces());
    match sequence(input, at, &brace) {
        Step::Done(_, next) => {
            proof {
                lemma_sequence_bounds(input@, next as int, key);
            }
            match json_key(input, next, config.name_key) {
                Step::Done(_, end) => separator(input, end, ":"),
                step => step,
            }
        },
        step => step,
    }
}

/// Reads what follows the function name, up to the arguments.
fn name_end(input: &Vec<char>, at: usize, config: JsonToolCallConfig) -> (step: Step<()>)
    requires
        at <= input@.len(),
    ensures
        step@ == name_end_step(input@, at as int, config),
{
    proof {
        lemma_sequence_bounds(input@, at as int, separator_pieces(","@));
    }
    match separator(input, at, ",") {
        Step::Done(_, key) => {
            proof {
                lemma_json_str_bounds(input@, key as int);
            }
            match json_arguments_key(input, key, config.arguments_key) {
                Step::Done(_, next) => separator(input, next, ":"),
                step => step,
            }
        },
        step => step,
    }
}

/// Reads a separator with whitespace around it.
fn separator(input: &Vec<char>, at: usize, text: &'static str) -> (step: Step<()>)
    requires
        at <= input@.len(),
    ensures
        step@ == sequence_step(input@, at as int, separator_pieces(text@)),
{
    let pieces = vec![Piece::Space, Piece::Literal(text), Piece::Space];
    assert(pieces_view(pieces@) =~= separator_pieces(text@));
    sequence(input, at, &pieces)
}

/// Reads the opening of a Markdown fence when fences are enabled and a backquote comes next.
pub fn markdown_fence_start(input: &Vec<char>, at: usize, enabled: bool) -> (step: Step<bool>)
    requires
        at <= input@.len(),
    ensures
        step@ == fence_step(input@, at as int, enabled),
{
    if !enabled || at >= input.len() || input[at] != '`' {
        return Step::Done(false, at);
    }
    let step = match literal(input, at, "```json\n") {
        Step::Failed(_) => literal(input, at, "```\n"),
        step => step,
    };
    match step {
        Step::Done(_, next) => Step::Done(true, next),
        Step::Incomplete => Step::Incomplete,
        Step::Failed(error) => Step::Failed(error),
    }
}

/// Reads a configured JSON object key.
pub fn json_key(input: &Vec<char>, at: usize, key: &'static str) -> (step: Step<()>)
    requires
        at <= input@.len(),
    ensures
        step@ == sequence_step(input@, at as int, key_pieces(key@)),
{
    let pieces = vec![Piece::Literal("\""), Piece::Expected(key), Piece::Literal("\"")];
    assert(pieces_view(pieces@) =~= key_pieces(key@));
    sequence(input, at, &pieces)
}

/// Reads a JSON object key that is one of `candidates`.
///
/// The full quoted key is read and compared against the candidates, so this works under partial
/// input regardless of key lengths. On a mismatch the error enumerates every candidate.
pub fn json_arguments_key(
    input: &Vec<char>,
    at: usize,
    candidates: &'static [&'static str],
) -> (step: Step<()>)
    requires
        at <= input@.len(),
    ensures
        step@ == arguments_key_step(input@, at as int, texts(candidates@)),
        step matches Step::Failed(error) ==> error@.expected == texts(candidates@),
{
    match json_str(input, at) {
        Step::Done(key, next) => {
            if is_candidate(key.as_str(), candidates) {
                Step::Done((), next)
            } else {
                Step::Failed(candidates_error(candidates))
            }
        },
        Step::Incomplete => Step::Incomplete,
        Step::Failed(_) => Step::Failed(candidates_error(candidates)),
    }
}

/// Whether `key` is one of the candidates.
fn is_candidate(key: &str, candidates: &'static [&'static str]) -> (found: bool)
    ensures
        found == texts(candidates@).contains(key@),
{
    let mut i: usize = 0;
    while i < candidates.len()
        invariant
            i <= candidates@.len(),
            forall|j: int| 0 <= j < i ==> texts(candidates@)[j] != key@,
        decreases candidates@.len() - i,
    {
        assert(texts(candidates@)[i as int] == candidates@[i as int]@);
        if same_text(key, candidates[i]) {
            return true;
        }
        i += 1;
    }
    false
}

/// The error that enumerates every candidate.
fn candidates_error(candidates: &'static [&'static str]) -> (error: SyntaxError)
    ensures
        error@ == keys_error(texts(candidates@)),
{
    let mut expected: Vec<&'static str> = Vec::new();
    let mut i: usize = 0;
    while i < candidates.len()
        invariant
            i <= candidates@.len(),
            expected@ == candidates@.take(i as int),
        decreases candidates@.len() - i,
    {
        expected.push(candidates[i]);
        assert(candidates@.take(i + 1) == candidates@.take(i as int).push(candidates@[i as int]));
        i += 1;
    }
    assert(candidates@.take(i as int) == candidates@);
    SyntaxError { label: None, expected }
}

/// Reads one event inside the arguments of a tool call.
pub fn parse_arguments_event(
    input: &Vec<char>,
    at: usize,
    json_scan: &mut JsonObjectScanState,
    markdown_fenced: bool,
    config: JsonToolCallConfig,
) -> (step: Step<JsonToolCallEvent>)
    requires
        at <= input@.len(),
        byte_len(input@) <= usize::MAX,
        old(json_scan)@.depth + (input@.len() - at) <= usize::MAX,
    ensures
        step@ == arguments_event_step(
            input@,
            at as int,
            old(json_scan)@,
            markdown_fenced,
            config,
        ),
        final(json_scan)@ == (if old(json_scan)@.complete() {
            old(json_scan)@
        } else {
            scan_after(input@, at as int, old(json_scan)@)
        }),
{
    if json_scan.complete() {
        tool_call_close_event(input, at, markdown_fenced, config)
    } else {
        argument_delta_event(input, at, json_scan)
    }
}

/// Reads a part of the raw arguments.
pub fn argument_delta_event(
    input: &Vec<char>,
    at: usize,
    json_scan: &mut JsonObjectScanState,
) -> (step: Step<JsonToolCallEvent>)
    requires
        at <= input@.len(),
        byte_len(input@) <= usize::MAX,
        old(json_scan)@.depth + (input@.len() - at) <= usize::MAX,
    ensures
        step@ == delta_step(input@, at as int, old(json_scan)@),
        final(json_scan)@ == scan_after(input@, at as int, old(json_scan)@),
{
    match take_json_object(input, at, json_scan) {
        Step::Done(len, next) => Step::Done(JsonToolCallEvent::Arguments { len }, next),
        Step::Incomplete => Step::Incomplete,
        Step::Failed(error) => Step::Failed(error),
    }
}

/// Reads the close of a tool call: the object's closing brace, and behind it the end of the
/// block or a delimiter.
pub fn tool_call_close_event(
    input: &Vec<char>,
    at: usize,
    markdown_fenced: bool,
    config: JsonToolCallConfig,
) -> (step: Step<JsonToolCallEvent>)
    requires
        at <= input@.len(),
    ensures
        step@ == close_step(input@, at as int, markdown_fenced, config),
{
    let pieces = vec![Piece::Space, Piece::Literal("}")];
    proof {
        assert(pieces_view(pieces@) =~= close_pieces());
        lemma_sequence_bounds(input@, at as int, close_pieces());
    }
    let next: usize = match sequence(input, at, &pieces) {
        Step::Done(_, next) => next,
        Step::Incomplete => {
            return Step::Incomplete;
        },
        Step::Failed(error) => {
            return Step::Failed(error);
        },
    };
    match config.delimiter {
        Some(delimiter) => match tool_call_end_event(input, next, markdown_fenced, config) {
            Step::Failed(_) => tool_call_delimiter_event(input, next, delimiter),
            step => step,
        },
        None => tool_call_end_event(input, next, markdown_fenced, config),
    }
}

/// Reads the end of a block of tool calls.
pub fn tool_call_end_event(
    input: &Vec<char>,
    at: usize,
    markdown_fenced: bool,
    config: JsonToolCallConfig,
) -> (step: Step<JsonToolCallEvent>)
    requires
        at <= input@.len(),
    ensures
        step@ == end_step(input@, at as int, markdown_fenced, config),
{
    let space: Piece = config.space_piece();
    let pieces = if markdown_fenced {
        vec![space, Piece::Literal("```"), space, Piece::Literal(config.end_marker)]
    } else {
        vec![space, Piece::Literal(config.end_marker)]
    };
    assert(pieces_view(pieces@) =~= end_pieces(markdown_fenced, config));
    match sequence(input, at, &pieces) {
        Step::Done(_, next) => Step::Done(
            JsonToolCallEvent::ToolCallEnd { markdown_fenced },
            next,
        ),
        Step::Incomplete => Step::Incomplete,
        Step::Failed(error) => Step::Failed(error),
    }
}

/// Reads a delimiter between two tool calls of a block.
pub fn tool_call_delimiter_event(
    input: &Vec<char>,
    at: usize,
    delimiter: &'static str,
) -> (step: Step<JsonToolCallEvent>)
    requires
        at <= input@.len(),
    ensures
        step@ == delimiter_step(input@, at as int, delimiter@),
{
    match separator(input, at, delimiter) {
        Step::Done(_, next) => Step::Done(JsonToolCallEvent::ToolCallDelimiter, next),
        Step::Incomplete => Step::Incomplete,
        Step::Failed(error) => Step::Failed(error),
    }
}

/// Reads the configured whitespace next to a marker.
pub fn marker_whitespace(input: &Vec<char>, at: usize, config: JsonToolCallConfig) -> (step: Step<
    (),
>)
    requires
        at <= input@.len(),
    ensures
        step@ == sequence_step(input@, at as int, seq![config.space()]),
{
    let pieces = vec![config.space_piece()];
    assert(pieces_view(pieces@) =~= seq![config.space()]);
    sequence(input, at, &pieces)
}

/// Reads plain text before the next marker.
pub fn safe_text_event(input: &Vec<char>, at: usize, config: JsonToolCallConfig) -> (step: Step<
    JsonToolCallEvent,
>)
    requires
        at <= input@.len(),
        byte_len(input@) <= usize::MAX,
    ensures
        match step {
            Step::Done(event, next) => {
                &&& event@ matches Event::Text { len }
                &&& safe_text_step(input@, at as int, config.start_marker@) == StepView::Done(
                    len,
                    next as int,
                )
            },
            Step::Incomplete => safe_text_step(input@, at as int, config.start_marker@)
                == StepView::<int>::Incomplete,
            Step::Failed(_) => false,
        },
{
    match safe_text_len(input, at, config.start_marker) {
        Step::Done(len, next) => Step::Done(JsonToolCallEvent::Text { len }, next),
        Step::Incomplete => Step::Incomplete,
        Step::Failed(error) => Step::Failed(error),
    }
}

} // verus!
