use json_tool_parser::config::{JsonToolCallConfig, JsonToolCallWhitespace};
use json_tool_parser::error::ToolParserError;
use json_tool_parser::event::JsonToolCallEvent;
use json_tool_parser::output::ToolParserOutput;
use json_tool_parser::parser::JsonToolCallParser;
use json_tool_parser::step::SyntaxError;

const CONFIG: JsonToolCallConfig = JsonToolCallConfig {
    parser_name: "Example",
    start_marker: "<call>",
    end_marker: "</call>",
    marker_whitespace: JsonToolCallWhitespace::Exact("\n"),
    delimiter: None,
    name_key: "name",
    arguments_key: &["parameters", "arguments"],
    allow_markdown_fence: true,
};

/// The message with which the input is refused.
fn refusal(input: &str) -> String {
    let mut parser = JsonToolCallParser::new(CONFIG);
    let mut output = ToolParserOutput::default();
    parser.parse_into(input, &mut output).unwrap_err().message()
}

#[test]
fn input_that_ends_inside_a_call_is_refused() {
    for input in ["<call>\n", "<call>\n{\"name\"", "<call>\n{\"name\":\"f\",\"arguments\":{}}"] {
        let mut parser = JsonToolCallParser::new(CONFIG);
        let mut output = ToolParserOutput::default();
        parser.parse_into(input, &mut output).unwrap();
        let error = parser.finish().unwrap_err();
        assert!(matches!(
            error,
            ToolParserError::IncompleteToolCall { parser_name: "Example" }
        ));
        assert_eq!(error.message(), "incomplete Example tool call");
        assert!(parser.finish().is_err());
    }
}

#[test]
fn arguments_without_a_call_are_refused() {
    let mut parser = JsonToolCallParser::new(CONFIG);
    let mut output = ToolParserOutput::default();
    let error = parser
        .apply_event(JsonToolCallEvent::Arguments { len: 0 }, 0, &mut output)
        .unwrap_err();
    assert!(matches!(error, ToolParserError::NoActiveToolCall { parser_name: "Example" }));
    assert_eq!(error.message(), "Example arguments without an active tool call");
    assert_eq!(output, ToolParserOutput::default());
}

#[test]
fn the_end_of_a_fenced_call_without_a_header_is_refused() {
    let mut parser = JsonToolCallParser::new(CONFIG);
    let mut output = ToolParserOutput::default();
    let event = JsonToolCallEvent::ToolCallEnd { markdown_fenced: true };
    let error = parser.apply_event(event, 0, &mut output).unwrap_err();
    assert!(matches!(error, ToolParserError::NoFencedHeader { parser_name: "Example" }));
    assert_eq!(error.message(), "Example fenced tool call ended without a header");
}

#[test]
fn fenced_arguments_are_refused_with_the_reason() {
    let block = |arguments: &str| {
        format!("<call>\n```\n{{\"name\":\"f\",\"arguments\":{arguments}}}\n```\n</call>")
    };
    assert_eq!(
        refusal(&block("{x}")),
        "invalid fenced Example arguments: key must be a string at line 1 column 2"
    );
    assert_eq!(
        refusal(&block("{\"a\":1,}")),
        "invalid fenced Example arguments: trailing comma at line 1 column 8"
    );
    assert_eq!(
        refusal(&block("{\"a\":01}")),
        "invalid fenced Example arguments: invalid number at line 1 column 7"
    );
    let mut parser = JsonToolCallParser::new(CONFIG);
    let mut output = ToolParserOutput::default();
    parser.parse_into(&block("{ \"a\" : [1e3, null] }"), &mut output).unwrap();
    assert_eq!(output.calls()[0].arguments, "{ \"a\" : [1e3, null] }");
}

#[test]
fn a_fenced_call_is_closed_by_the_given_check() {
    let open = |parser: &mut JsonToolCallParser| {
        let mut output = ToolParserOutput::default();
        parser
            .parse_into("<call>\n```\n{\"name\":\"f\",\"arguments\":{}", &mut output)
            .unwrap();
        assert_eq!(output, ToolParserOutput::default());
    };
    let mut output = ToolParserOutput::default();
    let mut parser = JsonToolCallParser::new(CONFIG);
    open(&mut parser);
    let error = parser
        .close_fenced_call(Err("no object".to_string()), &mut output)
        .unwrap_err();
    assert_eq!(error.message(), "invalid fenced Example arguments: no object");
    assert_eq!(output, ToolParserOutput::default());
    parser.close_fenced_call(Ok(()), &mut output).unwrap();
    assert_eq!(output.calls().len(), 1);
    assert_eq!(output.calls()[0].name.as_deref(), Some("f"));
    assert_eq!(output.calls()[0].arguments, "{}");
    assert_eq!(parser.finish().unwrap(), ToolParserOutput::default());
}

#[test]
fn a_header_is_refused_with_what_was_expected() {
    assert_eq!(refusal("<call>\nx"), "invalid Example");
    assert_eq!(refusal("<call>\n{\"nome"), "invalid Example\nexpected `name`");
    assert_eq!(refusal("<call>\n{\"names\""), "invalid Example");
    assert_eq!(refusal("<call>\n{\"name\":1"), "invalid Example");
    assert_eq!(
        refusal("<call>\n{\"name\":\"f\",\"args\""),
        "invalid Example\nexpected `parameters`, expected `arguments`"
    );
    assert_eq!(
        refusal("<call>\n{\"name\":\"f\",1"),
        "invalid Example\nexpected `parameters`, expected `arguments`"
    );
    assert_eq!(refusal("<call>\n```yaml\n"), "invalid Example");
    assert_eq!(refusal("<call>\n{\"name\":\"f\",\"arguments\":["), "");
}

#[test]
fn a_message_has_a_line_for_each_part() {
    let message = |label, expected| SyntaxError { label, expected }.message();
    assert_eq!(message(None, vec![]), "");
    assert_eq!(message(Some("x"), vec![]), "invalid x");
    assert_eq!(message(None, vec!["a"]), "expected `a`");
    assert_eq!(
        message(Some("x"), vec!["a", "b", "c"]),
        "invalid x\nexpected `a`, expected `b`, expected `c`"
    );
}
