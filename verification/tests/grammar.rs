use json_tool_parser::config::{JsonToolCallConfig, JsonToolCallWhitespace};
use json_tool_parser::event::{
    JsonToolCallEvent, JsonToolCallMode, json_arguments_key, json_key, markdown_fence_start,
    parse_next_json_tool_call_event, parse_text_event, safe_text_event, tool_call_close_event,
    tool_call_delimiter_event, tool_call_end_event, tool_call_header_event, tool_call_start_event,
};
use json_tool_parser::object::{JsonObjectScanState, take_json_object};
use json_tool_parser::parser::parse_buffered_event;
use json_tool_parser::step::{Step, SyntaxError};
use json_tool_parser::string::{hex_digit, json_str};
use json_tool_parser::text::safe_text_len;

const CONFIG: JsonToolCallConfig = JsonToolCallConfig {
    parser_name: "Example",
    start_marker: "[CALLS]",
    end_marker: "]",
    marker_whitespace: JsonToolCallWhitespace::Optional,
    delimiter: Some(","),
    name_key: "name",
    arguments_key: &["parameters", "arguments"],
    allow_markdown_fence: false,
};

const FENCED: JsonToolCallConfig = JsonToolCallConfig {
    parser_name: "Example",
    start_marker: "<call>",
    end_marker: "</call>",
    marker_whitespace: JsonToolCallWhitespace::Exact("\n"),
    delimiter: None,
    name_key: "name",
    arguments_key: &["arguments"],
    allow_markdown_fence: true,
};

fn chars(text: &str) -> Vec<char> {
    text.chars().collect()
}

/// The outcome of a step, without the details of a refusal.
#[derive(Debug, PartialEq)]
enum Outcome<T> {
    Done(T, usize),
    Incomplete,
    Failed,
}

fn outcome<T>(step: Step<T>) -> Outcome<T> {
    match step {
        Step::Done(value, next) => Outcome::Done(value, next),
        Step::Incomplete => Outcome::Incomplete,
        Step::Failed(_) => Outcome::Failed,
    }
}

fn string(text: &str) -> Outcome<String> {
    outcome(json_str(&chars(text), 0))
}

#[test]
fn strings_are_decoded() {
    assert_eq!(string("\"\""), Outcome::Done(String::new(), 2));
    assert_eq!(string("\"aé😀\" x"), Outcome::Done("aé😀".to_string(), 5));
    assert_eq!(
        string("\"\\\"\\\\\\/\\b\\f\\n\\r\\t\""),
        Outcome::Done("\"\\/\u{8}\u{c}\n\r\t".to_string(), 18)
    );
    assert_eq!(string("\"\\u0041\\u00E9\\u20ac\""), Outcome::Done("Aé€".to_string(), 20));
    assert_eq!(string("\"\\ud83d\\ude00\""), Outcome::Done("😀".to_string(), 14));
    assert_eq!(string("\"\\u0000\""), Outcome::Done("\0".to_string(), 8));
}

#[test]
fn strings_are_refused_where_json_refuses_them() {
    for text in [
        "x",
        "'a'",
        "\"\n\"",
        "\"\u{1f}\"",
        "\"\\x\"",
        "\"\\u12g4\"",
        "\"\\ud83d\"",
        "\"\\ud83dx\"",
        "\"\\ud83d\\n\"",
        "\"\\ud83d\\u0041\"",
        "\"\\ude00\"",
    ] {
        assert_eq!(string(text), Outcome::Failed, "{text:?}");
    }
}

#[test]
fn strings_are_awaited_to_their_end() {
    let text = "\"a\\n\\ud83d\\ude00é\"";
    let whole = chars(text);
    for end in 0..whole.len() {
        assert_eq!(outcome(json_str(&whole[..end].to_vec(), 0)), Outcome::Incomplete);
    }
    assert_eq!(string(text), Outcome::Done("a\n😀é".to_string(), whole.len()));
}

#[test]
fn strings_agree_with_the_json_library() {
    for text in [
        "\"\"",
        "\"plain\"",
        "\"\u{7f}\u{80}\u{2028}\"",
        "\"\\u001f\\u007F\\uFFFF\\uD7FF\\uE000\"",
        "\"\\uD800\\uDC00\\uDBFF\\uDFFF\"",
        "\"\\/\\b\\f\\n\\r\\t\\\\\\\"\"",
        "\"\\v\"",
        "\"\\uDC00\"",
        "\"\\uD800\\uD800\"",
        "\"\\u+123\"",
        "\"\t\"",
    ] {
        let length = text.chars().count();
        let expected = match serde_json::from_str::<String>(text) {
            Ok(value) => Outcome::Done(value, length),
            Err(_) => Outcome::Failed,
        };
        assert_eq!(string(text), expected, "{text:?}");
    }
}

#[test]
fn digits_have_their_values() {
    for (value, digit) in "0123456789abcdef".chars().enumerate() {
        assert_eq!(hex_digit(digit), Some(value as u32));
        assert_eq!(hex_digit(digit.to_ascii_uppercase()), Some(value as u32));
    }
    for other in ['/', ':', '@', 'G', '`', 'g', 'é'] {
        assert_eq!(hex_digit(other), None);
    }
}

#[test]
fn keys_are_read_with_their_quotes() {
    assert_eq!(outcome(json_key(&chars("\"name\":"), 0, "name")), Outcome::Done((), 6));
    assert_eq!(outcome(json_key(&chars("\"na"), 0, "name")), Outcome::Incomplete);
    assert_eq!(outcome(json_key(&chars("\"names\""), 0, "name")), Outcome::Failed);
    match json_key(&chars("\"nope\""), 0, "name") {
        Step::Failed(error) => assert_eq!(error.expected, vec!["name"]),
        step => panic!("{step:?}"),
    }
}

#[test]
fn argument_keys_are_any_of_the_candidates() {
    let keys: &'static [&'static str] = &["parameters", "arguments"];
    let read = |text: &str| json_arguments_key(&chars(text), 0, keys);
    assert_eq!(outcome(read("\"parameters\":")), Outcome::Done((), 12));
    assert_eq!(outcome(read("\"arguments\":")), Outcome::Done((), 11));
    assert_eq!(outcome(read("\"\\u0061rguments\"")), Outcome::Done((), 16));
    assert_eq!(outcome(read("\"argu")), Outcome::Incomplete);
    assert_eq!(outcome(read("\"nothing of the kind")), Outcome::Incomplete);
    for text in ["\"args\"", "\"\"", "\"Parameters\"", "arguments", "\"parameters \""] {
        match read(text) {
            Step::Failed(error) => {
                assert_eq!(error.label, None);
                assert_eq!(error.expected, vec!["parameters", "arguments"]);
            }
            step => panic!("{step:?}"),
        }
    }
    assert_eq!(outcome(json_arguments_key(&chars("\"a\""), 0, &[])), Outcome::Failed);
}

#[test]
fn fences_open_with_or_without_a_language() {
    let read = |text: &str, enabled| outcome(markdown_fence_start(&chars(text), 0, enabled));
    assert_eq!(read("```json\n{", true), Outcome::Done(true, 8));
    assert_eq!(read("```\n{", true), Outcome::Done(true, 4));
    assert_eq!(read("```js", true), Outcome::Incomplete);
    assert_eq!(read("``", true), Outcome::Incomplete);
    assert_eq!(read("``` \n", true), Outcome::Failed);
    assert_eq!(read("{", true), Outcome::Done(false, 0));
    assert_eq!(read("```json\n{", false), Outcome::Done(false, 0));
}

#[test]
fn starts_take_the_whitespace_of_the_format() {
    let start = |text: &str, config| outcome(tool_call_start_event(&chars(text), 0, config));
    let event = || JsonToolCallEvent::ToolCallStart;
    assert_eq!(start("[CALLS] \n{", CONFIG), Outcome::Done(event(), 9));
    assert_eq!(start("[CALLS]{", CONFIG), Outcome::Done(event(), 7));
    assert_eq!(start("[CALLS] ", CONFIG), Outcome::Incomplete);
    assert_eq!(start("[CALL", CONFIG), Outcome::Incomplete);
    assert_eq!(start("[CALLED]", CONFIG), Outcome::Failed);
    assert_eq!(start("<call>\n", FENCED), Outcome::Done(event(), 7));
    assert_eq!(start("<call>", FENCED), Outcome::Incomplete);
    assert_eq!(start("<call> ", FENCED), Outcome::Failed);
}

#[test]
fn text_ends_where_a_marker_may_start() {
    let read = |text: &str| outcome(safe_text_len(&chars(text), 0, "<call>"));
    assert_eq!(read("abc"), Outcome::Done(3, 3));
    assert_eq!(read("ab<c"), Outcome::Done(2, 2));
    assert_eq!(read("ab<d<call>"), Outcome::Done(4, 4));
    assert_eq!(read("é<call>"), Outcome::Done(2, 1));
    assert_eq!(read("a€😀<"), Outcome::Done(8, 3));
    assert_eq!(read(""), Outcome::Incomplete);
    assert_eq!(
        outcome(safe_text_event(&chars("ab<call>"), 0, FENCED)),
        Outcome::Done(JsonToolCallEvent::Text { len: 2 }, 2)
    );
    assert_eq!(
        outcome(parse_text_event(&chars("<call>\n{"), 0, FENCED)),
        Outcome::Done(JsonToolCallEvent::ToolCallStart, 7)
    );
    assert_eq!(
        outcome(parse_text_event(&chars("<call>x<"), 0, FENCED)),
        Outcome::Done(JsonToolCallEvent::Text { len: 7 }, 7)
    );
    assert_eq!(outcome(parse_text_event(&chars("<cal"), 0, FENCED)), Outcome::Incomplete);
}

#[test]
fn headers_are_read_up_to_the_arguments() {
    let header = |text: &str, config| outcome(tool_call_header_event(&chars(text), 0, config));
    let event = |name: &str, markdown_fenced| JsonToolCallEvent::ToolCallHeader {
        function_name: name.to_string(),
        markdown_fenced,
    };
    assert_eq!(
        header(" {\"name\" : \"f\\n\", \"parameters\": {", CONFIG),
        Outcome::Done(event("f\n", false), 32)
    );
    assert_eq!(
        header("\n```json\n\n{\"name\":\"f\",\"arguments\":{", FENCED),
        Outcome::Done(event("f", true), 34)
    );
    assert_eq!(header("{\"name\":\"f\",\"arguments\":", FENCED), Outcome::Incomplete);
    assert_eq!(header("```json\n{\"name\":\"f\",\"arguments\":{", CONFIG), Outcome::Failed);
    match tool_call_header_event(&chars("["), 0, CONFIG) {
        Step::Failed(error) => assert_eq!(error.label, Some("Example")),
        step => panic!("{step:?}"),
    }
}

#[test]
fn closes_end_the_block_or_lead_to_the_next_call() {
    let close = |text: &str, fenced, config| {
        outcome(tool_call_close_event(&chars(text), 0, fenced, config))
    };
    let end = |markdown_fenced| JsonToolCallEvent::ToolCallEnd { markdown_fenced };
    let delimiter = || JsonToolCallEvent::ToolCallDelimiter;
    assert_eq!(close(" } ] x", false, CONFIG), Outcome::Done(end(false), 4));
    assert_eq!(close("} , {", false, CONFIG), Outcome::Done(delimiter(), 4));
    assert_eq!(close("} ", false, CONFIG), Outcome::Incomplete);
    assert_eq!(close("},", false, CONFIG), Outcome::Incomplete);
    assert_eq!(close("};", false, CONFIG), Outcome::Failed);
    assert_eq!(close("]", false, CONFIG), Outcome::Failed);
    assert_eq!(close("}\n```\n</call>", true, FENCED), Outcome::Done(end(true), 13));
    assert_eq!(close("}\n</call>", false, FENCED), Outcome::Done(end(false), 9));
    assert_eq!(close("}\n</call>", true, FENCED), Outcome::Failed);
    assert_eq!(close("}</call>", false, FENCED), Outcome::Failed);
    assert_eq!(
        outcome(tool_call_end_event(&chars("\n```\n</call>"), 0, true, FENCED)),
        Outcome::Done(end(true), 12)
    );
    assert_eq!(
        outcome(tool_call_delimiter_event(&chars(" , x"), 0, ",")),
        Outcome::Done(delimiter(), 3)
    );
}

#[test]
fn objects_are_taken_up_to_their_closing_brace() {
    let mut scan = JsonObjectScanState::default();
    assert_eq!(outcome(take_json_object(&chars("[]"), 0, &mut scan)), Outcome::Failed);
    assert_eq!(outcome(take_json_object(&chars(""), 0, &mut scan)), Outcome::Incomplete);
    assert_eq!(scan, JsonObjectScanState::default());
    assert_eq!(outcome(take_json_object(&chars("{\"a}\\"), 0, &mut scan)), Outcome::Done(5, 5));
    assert!(!scan.complete());
    assert_eq!(scan.depth(), 1);
    assert_eq!(outcome(take_json_object(&chars("\"}\":{"), 0, &mut scan)), Outcome::Done(5, 5));
    assert_eq!(scan.depth(), 2);
    assert_eq!(outcome(take_json_object(&chars("}}}}"), 0, &mut scan)), Outcome::Done(2, 2));
    assert!(scan.complete());
}

#[test]
fn events_follow_the_mode() {
    let mut mode = JsonToolCallMode::Arguments {
        json_scan: JsonObjectScanState::default(),
        markdown_fenced: false,
    };
    let input = chars("{\"é\":{}}}]");
    let step = parse_next_json_tool_call_event(&input, 0, &mut mode, CONFIG);
    assert_eq!(outcome(step), Outcome::Done(JsonToolCallEvent::Arguments { len: 9 }, 8));
    let step = parse_next_json_tool_call_event(&input, 8, &mut mode, CONFIG);
    let end = JsonToolCallEvent::ToolCallEnd { markdown_fenced: false };
    assert_eq!(outcome(step), Outcome::Done(end, 10));
    let mut mode = JsonToolCallMode::Text;
    let step = parse_next_json_tool_call_event(&chars("hi"), 0, &mut mode, CONFIG);
    assert_eq!(outcome(step), Outcome::Done(JsonToolCallEvent::Text { len: 2 }, 2));
    assert_eq!(mode, JsonToolCallMode::Text);
}

#[test]
fn a_step_is_an_event_nothing_yet_or_an_error() {
    let input = chars("aé😀b");
    for (next, bytes) in [(0, 0), (1, 1), (2, 3), (3, 7), (4, 8)] {
        let done = Step::Done(JsonToolCallEvent::ToolCallStart, next);
        assert_eq!(
            parse_buffered_event(&input, done).unwrap(),
            Some((JsonToolCallEvent::ToolCallStart, bytes))
        );
    }
    assert_eq!(parse_buffered_event(&input, Step::Incomplete).unwrap(), None);
    let error = parse_buffered_event(
        &input,
        Step::Failed(SyntaxError { label: Some("x"), expected: vec!["a"] }),
    );
    assert_eq!(error.unwrap_err().message(), "invalid x\nexpected `a`");
}

#[test]
fn fences_need_exact_whitespace_and_single_calls() {
    assert!(CONFIG.is_valid());
    assert!(FENCED.is_valid());
    assert!(!JsonToolCallConfig { allow_markdown_fence: true, ..CONFIG }.is_valid());
    assert!(!JsonToolCallConfig { delimiter: Some(","), ..FENCED }.is_valid());
    let optional = JsonToolCallWhitespace::Optional;
    assert!(!JsonToolCallConfig { marker_whitespace: optional, ..FENCED }.is_valid());
}
