use json_tool_parser::config::{JsonToolCallConfig, JsonToolCallWhitespace};
use json_tool_parser::error::ToolParserError;
use json_tool_parser::event::JsonToolCallEvent;
use json_tool_parser::output::{ToolCallDelta, ToolParserEvent, ToolParserOutput};
use json_tool_parser::parser::JsonToolCallParser;

const DELIMITED: JsonToolCallConfig = JsonToolCallConfig {
    parser_name: "Delimited JSON",
    start_marker: "<tool_calls>",
    end_marker: "</tool_calls>",
    marker_whitespace: JsonToolCallWhitespace::Optional,
    delimiter: Some("<"),
    name_key: "function",
    arguments_key: &["parameters", "arguments"],
    allow_markdown_fence: false,
};

const FENCED: JsonToolCallConfig = JsonToolCallConfig {
    parser_name: "Fenced JSON",
    start_marker: "<tool_call>",
    end_marker: "</tool_call>",
    marker_whitespace: JsonToolCallWhitespace::Exact("\n"),
    delimiter: None,
    name_key: "name",
    arguments_key: &["arguments"],
    allow_markdown_fence: true,
};

fn text(text: &str) -> ToolParserEvent {
    ToolParserEvent::Text(text.to_string())
}

fn part(tool_index: usize, name: Option<&str>, arguments: &str) -> ToolParserEvent {
    ToolParserEvent::ToolCall(ToolCallDelta {
        tool_index,
        name: name.map(str::to_string),
        arguments: arguments.to_string(),
    })
}

fn call(tool_index: usize, name: &str, arguments: &str) -> ToolParserEvent {
    part(tool_index, Some(name), arguments)
}

/// The events of the chunks, and the message of the error that stopped the parser.
fn feed(parser: &mut JsonToolCallParser, chunks: &[&str]) -> (ToolParserOutput, Option<String>) {
    let mut output = ToolParserOutput::default();
    for chunk in chunks {
        if let Err(error) = parser.parse_into(chunk, &mut output) {
            return (output, Some(error.message()));
        }
    }
    (output, None)
}

/// The coalesced events of whole input.
fn read(config: JsonToolCallConfig, chunks: &[&str]) -> Vec<ToolParserEvent> {
    let mut parser = JsonToolCallParser::new(config);
    let (mut output, error) = feed(&mut parser, chunks);
    assert_eq!(error, None);
    output.append(parser.finish().unwrap());
    output.coalesce().events
}

/// The positions between the characters of a text, with both ends.
fn cuts(input: &str) -> Vec<usize> {
    let mut cuts: Vec<usize> = input.char_indices().map(|(i, _)| i).collect();
    cuts.push(input.len());
    cuts
}

fn assert_cuts_do_not_matter(config: JsonToolCallConfig, input: &str) {
    let whole = read(config, &[input]);
    let cuts = cuts(input);
    for first in 0..cuts.len() {
        for second in first..cuts.len() {
            let (a, b) = (cuts[first], cuts[second]);
            assert_eq!(read(config, &[&input[..a], &input[a..b], &input[b..]]), whole);
        }
    }
    let characters: Vec<String> = input.chars().map(String::from).collect();
    let pieces: Vec<&str> = characters.iter().map(String::as_str).collect();
    assert_eq!(read(config, &pieces), whole);
}

const DELIMITED_INPUT: &str = "hé <tool <tool_calls> {\"function\" : \"a\\u00e9\\\"\", \
    \"arguments\":{\"s\":\"} \\\" {\",\"o\":{}} } <\n{\"function\":\"b\",\"parameters\":{}}\n\
    </tool_calls> bye <tool_call";

const FENCED_INPUT: &str = "go <tool_call>\n```json\n {\"name\": \"f\", \"arguments\": \
    {\"x\": [1, {\"y\": \"}\"}]} }\n```\n</tool_call> and <tool_call>\n\
    {\"name\":\"g\",\"arguments\":{}}\n</tool_call>.";

#[test]
fn chunk_boundaries_do_not_matter() {
    assert_eq!(
        read(DELIMITED, &[DELIMITED_INPUT]),
        vec![
            text("hé <tool  bye <tool_call"),
            call(0, "aé\"", "{\"s\":\"} \\\" {\",\"o\":{}}"),
            call(1, "b", "{}"),
        ]
    );
    assert_cuts_do_not_matter(DELIMITED, DELIMITED_INPUT);
}

#[test]
fn chunk_boundaries_do_not_matter_for_fences() {
    assert_eq!(
        read(FENCED, &[FENCED_INPUT]),
        vec![
            text("go  and ."),
            call(0, "f", "{\"x\": [1, {\"y\": \"}\"}]}"),
            call(1, "g", "{}"),
        ]
    );
    assert_cuts_do_not_matter(FENCED, FENCED_INPUT);
}

#[test]
fn chunk_boundaries_do_not_matter_for_errors() {
    let input = "a<tool_calls>{\"function\":\"f\",\"args\":{}}";
    let mut parser = JsonToolCallParser::new(DELIMITED);
    let (whole, error) = feed(&mut parser, &[input]);
    assert_eq!(whole.events, vec![text("a")]);
    let message = "invalid Delimited JSON\nexpected `parameters`, expected `arguments`";
    assert_eq!(error.as_deref(), Some(message));
    for cut in cuts(input) {
        let mut parser = JsonToolCallParser::new(DELIMITED);
        let (output, error) = feed(&mut parser, &[&input[..cut], &input[cut..]]);
        assert_eq!(output.coalesce().events, vec![text("a")]);
        assert_eq!(error.as_deref(), Some(message));
    }
}

#[test]
fn plain_text_passes_through() {
    for input in ["", "plain", "a < b <tool_ <<tool_calls", "ünïcode <tool_call >"] {
        let events = read(DELIMITED, &[input]);
        if input.is_empty() {
            assert_eq!(events, vec![]);
        } else {
            assert_eq!(events, vec![text(input)]);
        }
        assert_cuts_do_not_matter(DELIMITED, input);
    }
}

#[test]
fn text_is_handed_out_up_to_a_possible_marker() {
    let mut parser = JsonToolCallParser::new(DELIMITED);
    let (output, _) = feed(&mut parser, &["one <tool_"]);
    assert_eq!(output.events, vec![text("one ")]);
    let (output, _) = feed(&mut parser, &["box>"]);
    assert_eq!(output.events, vec![text("<tool_box>")]);
    let (output, _) = feed(&mut parser, &["<<"]);
    assert_eq!(output.events, vec![text("<")]);
    assert_eq!(parser.finish().unwrap().events, vec![text("<")]);
}

#[test]
fn calls_are_numbered_across_blocks() {
    let block = |name: &str| {
        format!("<tool_calls>{{\"function\":\"{name}\",\"parameters\":{{}}}}</tool_calls>")
    };
    let input = format!("{} {} {}", block("a"), block("b"), block("c"));
    assert_eq!(
        read(DELIMITED, &[&input]),
        vec![text("  "), call(0, "a", "{}"), call(1, "b", "{}"), call(2, "c", "{}")]
    );
}

#[test]
fn a_parser_is_as_new_after_the_end_of_input() {
    let block = "<tool_calls>{\"function\":\"a\",\"parameters\":{}}</tool_calls>";
    let mut parser = JsonToolCallParser::new(DELIMITED);
    for _ in 0..2 {
        let (mut output, _) = feed(&mut parser, &[block, "<"]);
        output.append(parser.finish().unwrap());
        assert_eq!(output.coalesce().events, vec![text("<"), call(0, "a", "{}")]);
        assert_eq!(parser.room(), usize::MAX);
    }
}

#[test]
fn a_call_is_handed_out_as_it_arrives() {
    let mut parser = JsonToolCallParser::new(DELIMITED);
    let (output, _) = feed(&mut parser, &["<tool_calls>{\"function\":\"f\",\"parameters\":"]);
    assert_eq!(output.events, vec![]);
    let (output, _) = feed(&mut parser, &["{\"x\""]);
    assert_eq!(output.events, vec![call(0, "f", ""), part(0, None, "{\"x\"")]);
    let (output, _) = feed(&mut parser, &[":1"]);
    assert_eq!(output.events, vec![part(0, None, ":1")]);
    let (output, _) = feed(&mut parser, &["}} "]);
    assert_eq!(output.events, vec![part(0, None, "}")]);
    let (output, _) = feed(&mut parser, &["</tool_calls>x"]);
    assert_eq!(output.events, vec![text("x")]);
}

#[test]
fn a_fenced_call_is_held_back_until_it_ends() {
    let mut parser = JsonToolCallParser::new(FENCED);
    let chunks = [
        "a<tool_call>\n```json\n",
        "{\"name\":\"f\",\"arguments\":",
        "{\"x\":1}",
        "}\n```\n</tool_call",
    ];
    let (output, _) = feed(&mut parser, &chunks);
    assert_eq!(output.events, vec![text("a")]);
    let (output, _) = feed(&mut parser, &[">b"]);
    assert_eq!(output.events, vec![call(0, "f", "{\"x\":1}"), text("b")]);
}

#[test]
fn a_reset_returns_what_had_no_effect_yet() {
    let start = "<tool_call>\n```\n{\"name\":\"f\",\"arguments\":{\"x\"";
    for cut in cuts(start) {
        let mut parser = JsonToolCallParser::new(FENCED);
        let (output, _) = feed(&mut parser, &["text ", &start[..cut]]);
        assert_eq!(output.events, vec![text("text ")]);
        assert_eq!(parser.reset(), &start[..cut]);
        assert_eq!(parser.reset(), "");
        assert_eq!(parser.finish().unwrap().events, vec![]);
    }
}

#[test]
fn a_reset_leaves_out_what_was_handed_out() {
    let mut parser = JsonToolCallParser::new(DELIMITED);
    feed(&mut parser, &["<tool_calls>{\"function\":\"f\",\"parameters\":{} } "]);
    assert_eq!(parser.reset(), " } ");
    feed(&mut parser, &["<tool_calls> {\"func"]);
    assert_eq!(parser.reset(), "{\"func");
    let (output, _) = feed(&mut parser, &["<tool_calls>{\"function\":\"g\",\"parameters\":{"]);
    assert_eq!(output.events, vec![call(0, "g", ""), part(0, None, "{")]);
}

#[test]
fn invalid_fenced_arguments_are_refused_and_kept() {
    let block = "<tool_call>\n```json\n{\"name\":\"f\",\"arguments\":{\"x\":}}\n```\n</tool_call>";
    let reason = "invalid fenced Fenced JSON arguments: expected value at line 1 column 6";
    let mut parser = JsonToolCallParser::new(FENCED);
    let (output, error) = feed(&mut parser, &["a", block, "b"]);
    assert_eq!(output.events, vec![text("a")]);
    assert_eq!(error.as_deref(), Some(reason));
    let (output, error) = feed(&mut parser, &[""]);
    assert_eq!(output.events, vec![]);
    assert_eq!(error.as_deref(), Some(reason));
    assert_eq!(parser.reset(), block);
}

#[test]
fn arguments_without_a_fence_are_not_checked() {
    let block = "<tool_call>\n{\"name\":\"f\",\"arguments\":{\"x\":}}\n</tool_call>";
    assert_eq!(read(FENCED, &[block]), vec![call(0, "f", "{\"x\":}")]);
}

#[test]
fn whitespace_of_any_amount_stands_between_the_parts() {
    let gaps = ["", " ", "\t\r\n "];
    for gap in gaps {
        let input = [
            "<tool_calls>", "{", "\"function\"", ":", "\"f\"", ",", "\"arguments\"", ":", "{}", "}",
            "<", "{", "\"function\"", ":", "\"g\"", ",", "\"parameters\"", ":", "{ }", "}",
            "</tool_calls>",
        ]
        .join(gap);
        assert_eq!(read(DELIMITED, &[&input]), vec![call(0, "f", "{}"), call(1, "g", "{ }")]);
    }
}

#[test]
fn braces_inside_strings_do_not_count() {
    for arguments in [
        "{}",
        "{\"a\":\"}\"}",
        "{\"a\":\"\\\\\"}",
        "{\"a\":\"\\\"}{{\"}",
        "{\"\\u007b\":{\"}\":[{},{}]}}",
        "{\"\\ud83d\\ude00\":\"\\\\\\\"{\"}",
    ] {
        let input = format!(
            "<tool_calls>{{\"function\":\"f\",\"parameters\":{arguments}}}</tool_calls>"
        );
        assert_eq!(read(DELIMITED, &[&input]), vec![call(0, "f", arguments)]);
    }
}

#[test]
fn the_end_marker_wins_over_a_delimiter_that_starts_it() {
    let open = "<tool_calls>{\"function\":\"f\",\"parameters\":{}}";
    for tail in ["", " ", "<", " </", "\n</tool_call"] {
        let mut parser = JsonToolCallParser::new(DELIMITED);
        let (output, error) = feed(&mut parser, &[open, tail]);
        assert_eq!(output.coalesce().events, vec![call(0, "f", "{}")]);
        assert_eq!(error, None);
        assert_eq!(parser.reset(), format!("}}{tail}"));
    }
    let mut parser = JsonToolCallParser::new(DELIMITED);
    let (_, error) = feed(&mut parser, &[open, "<\t"]);
    assert_eq!(error, None);
    assert_eq!(parser.reset(), "}<\t");
    let mut parser = JsonToolCallParser::new(DELIMITED);
    let (_, error) = feed(&mut parser, &[open, "</tool_box>"]);
    assert_eq!(error.as_deref(), Some("invalid Delimited JSON"));
    assert_eq!(parser.room(), usize::MAX - 1 - "/tool_box>".len());
    assert!(matches!(
        parser.finish(),
        Err(ToolParserError::IncompleteToolCall { parser_name: "Delimited JSON" })
    ));
}

#[test]
fn exact_whitespace_is_asked_for() {
    assert_eq!(
        read(FENCED, &["<tool_call> {\"name\":\"f\",\"arguments\":{}}"]),
        vec![text("<tool_call> {\"name\":\"f\",\"arguments\":{}}")]
    );
    let mut parser = JsonToolCallParser::new(FENCED);
    let (_, error) = feed(
        &mut parser,
        &["<tool_call>\n{\"name\":\"f\",\"arguments\":{}} </tool_call>"],
    );
    assert_eq!(error.as_deref(), Some(""));
}

#[test]
fn event_lengths_count_bytes() {
    let mut parser = JsonToolCallParser::new(FENCED);
    feed(&mut parser, &["<tool_call>\n{\"name\":\"é€"]);
    assert_eq!(parser.room(), usize::MAX - "{\"name\":\"é€".len());
    let mut output = ToolParserOutput::default();
    let event = JsonToolCallEvent::Text { len: "{\"name\":\"é".len() };
    parser.apply_event(event, 0, &mut output).unwrap();
    let event = JsonToolCallEvent::ToolCallHeader {
        function_name: "f".to_string(),
        markdown_fenced: true,
    };
    parser.apply_event(event, "{\"name\":\"é€".len(), &mut output).unwrap();
    assert_eq!(output.events, vec![text("{\"name\":\"é")]);
    assert_eq!(parser.reset(), "<tool_call>\n{\"name\":\"é€{\"name\":\"é€");
}

#[test]
fn headers_are_numbered_in_the_order_in_which_they_are_applied() {
    let header = |name: &str, markdown_fenced| JsonToolCallEvent::ToolCallHeader {
        function_name: name.to_string(),
        markdown_fenced,
    };
    let mut parser = JsonToolCallParser::new(FENCED);
    let mut output = ToolParserOutput::default();
    let events = [
        header("a", false),
        JsonToolCallEvent::Arguments { len: 0 },
        header("b", true),
        JsonToolCallEvent::Arguments { len: 0 },
        JsonToolCallEvent::ToolCallDelimiter,
        header("c", false),
        JsonToolCallEvent::Arguments { len: 0 },
        JsonToolCallEvent::ToolCallEnd { markdown_fenced: false },
        header("d", false),
    ];
    for event in events {
        parser.apply_event(event, 0, &mut output).unwrap();
    }
    parser.close_fenced_call(Ok(()), &mut output).unwrap();
    assert_eq!(
        output.events,
        vec![
            part(0, Some("a"), ""),
            part(0, None, ""),
            part(2, Some("c"), ""),
            part(2, None, ""),
            part(3, Some("d"), ""),
            part(1, Some("b"), ""),
        ]
    );
}

#[test]
fn empty_input_changes_nothing() {
    for cut in cuts(FENCED_INPUT) {
        let mut parser = JsonToolCallParser::new(FENCED);
        let (mut output, _) = feed(&mut parser, &[&FENCED_INPUT[..cut]]);
        let room = parser.room();
        let (more, error) = feed(&mut parser, &["", ""]);
        assert_eq!((more.events, error), (vec![], None));
        assert_eq!(parser.room(), room);
        let (rest, _) = feed(&mut parser, &[&FENCED_INPUT[cut..]]);
        output.append(rest);
        output.append(parser.finish().unwrap());
        assert_eq!(output.coalesce().events, read(FENCED, &[FENCED_INPUT]));
    }
}

#[test]
fn no_input_is_lost_before_the_first_call() {
    let input = "é <tool_call> x <tool_call>\n```json\n\
        {\"name\":\"f\",\"arguments\":{\"x\":}}\n```";
    for cut in cuts(input) {
        let mut parser = JsonToolCallParser::new(FENCED);
        let (output, _) = feed(&mut parser, &[&input[..cut]]);
        let mut all = String::new();
        for event in &output.events {
            match event {
                ToolParserEvent::Text(part) => all.push_str(part),
                ToolParserEvent::ToolCall(_) => unreachable!(),
            }
        }
        all.push_str(&parser.reset());
        assert_eq!(all, &input[..cut]);
    }
}
