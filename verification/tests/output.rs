use json_tool_parser::bytes::{byte_count, char_count, char_width, text_bytes};
use json_tool_parser::chars::{push_chars, push_range, same_text, string_of};
use json_tool_parser::output::{ToolCallDelta, ToolParserEvent, ToolParserOutput};

fn delta(tool_index: usize, name: Option<&str>, arguments: &str) -> ToolCallDelta {
    ToolCallDelta {
        tool_index,
        name: name.map(str::to_string),
        arguments: arguments.to_string(),
    }
}

#[test]
fn empty_text_is_no_event() {
    let mut output = ToolParserOutput::default();
    output.push_text("");
    assert_eq!(output.events, vec![]);
    output.push_text("a");
    output.push_text("");
    output.push_text("b");
    assert_eq!(
        output.events,
        vec![ToolParserEvent::Text("a".to_string()), ToolParserEvent::Text("b".to_string())]
    );
}

#[test]
fn text_comes_first_and_parts_of_a_call_are_joined() {
    let mut output = ToolParserOutput::default();
    output.push_call(delta(1, None, "x"));
    output.push_text("a");
    output.push_call(delta(0, Some("f"), ""));
    output.push_call(delta(1, Some("g"), "y"));
    output.push_call(delta(0, Some("ignored"), "{"));
    let mut more = ToolParserOutput::default();
    more.push_call(delta(0, None, "}"));
    more.push_text("b");
    output.append(more);
    assert_eq!(output.events.len(), 7);
    assert_eq!(output.calls().len(), 5);
    assert_eq!(*output.calls()[3], delta(0, Some("ignored"), "{"));
    let joined = output.coalesce();
    assert_eq!(
        joined.events,
        vec![
            ToolParserEvent::Text("ab".to_string()),
            ToolParserEvent::ToolCall(delta(1, Some("g"), "xy")),
            ToolParserEvent::ToolCall(delta(0, Some("f"), "{}")),
        ]
    );
    assert_eq!(joined.clone().coalesce(), joined);
}

#[test]
fn text_moves_between_strings_and_characters() {
    let mut chars: Vec<char> = vec!['x'];
    push_chars(&mut chars, "aé😀");
    assert_eq!(chars, vec!['x', 'a', 'é', '😀']);
    let mut range: Vec<char> = Vec::new();
    push_range(&mut range, &chars, 1, 3);
    assert_eq!(range, vec!['a', 'é']);
    assert_eq!(string_of(&chars, 2, 4), "é😀");
    assert_eq!(string_of(&chars, 4, 4), "");
}

#[test]
fn texts_are_compared_as_wholes() {
    assert!(same_text("", ""));
    assert!(same_text("aé", "aé"));
    assert!(!same_text("a", "ab"));
    assert!(!same_text("ab", "a"));
    assert!(!same_text("ab", "ac"));
}

#[test]
fn lengths_count_the_bytes_of_the_encoding() {
    for c in ['\0', '\u{7f}', '\u{80}', '\u{7ff}', '\u{800}', '\u{ffff}', '\u{10000}'] {
        assert_eq!(char_width(c), c.len_utf8());
    }
    let text = "aé€😀";
    let chars: Vec<char> = text.chars().collect();
    assert_eq!(text_bytes(text), text.len());
    assert_eq!(byte_count(&chars, 0, 4), text.len());
    assert_eq!(byte_count(&chars, 1, 3), 5);
    assert_eq!(byte_count(&chars, 2, 2), 0);
    for (count, (bytes, _)) in text.char_indices().enumerate() {
        assert_eq!(char_count(&chars, bytes), count);
    }
    assert_eq!(char_count(&chars, text.len()), 4);
}
