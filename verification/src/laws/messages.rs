//! What the messages of errors say.

use vstd::prelude::*;

use crate::error::{ErrorView, ToolParserError, expected_list, syntax_message};
use crate::json::reason_of;
use crate::parser::error_of;
use crate::step::{SyntaxError, SyntaxErrorView};

verus! {

/// The messages of errors other than those of syntax, each with the name of the parser.
pub proof fn law_messages(parser_name: Seq<char>, reason: Seq<char>)
    ensures
        (ErrorView::IncompleteToolCall { parser_name }).message() == "incomplete "@ + parser_name
            + " tool call"@,
        (ErrorView::NoActiveToolCall { parser_name }).message() == parser_name
            + " arguments without an active tool call"@,
        (ErrorView::NoFencedHeader { parser_name }).message() == parser_name
            + " fenced tool call ended without a header"@,
        (ErrorView::InvalidFencedArguments { parser_name, reason }).message() == "invalid fenced "@
            + parser_name + " arguments: "@ + reason,
{
}

/// The message of a syntax error names the construct and then every expectation: one more
/// expectation adds its own words to the message of the others.
pub proof fn law_syntax_messages(error: SyntaxErrorView, key: Seq<char>)
    ensures
        ErrorView::Syntax(error).message() == syntax_message(error),
        error.label is None && error.expected.len() == 0 ==> syntax_message(error).len() == 0,
        error.label is Some && error.expected.len() == 0 ==> syntax_message(error) == "invalid "@
            + error.label->0,
        ({
            let more = SyntaxErrorView { expected: error.expected.push(key), ..error };
            let between = if error.expected.len() > 0 {
                ", "@
            } else if error.label is Some {
                "\n"@
            } else {
                Seq::empty()
            };
            syntax_message(more) == syntax_message(error) + between + ("expected `"@ + key + "`"@)
        }),
{
    reveal_with_fuel(expected_list, 2);
    let more = error.expected.push(key);
    assert(more.drop_last() =~= error.expected);
    let longer = SyntaxErrorView { expected: more, ..error };
    let between = if error.expected.len() > 0 {
        ", "@
    } else if error.label is Some {
        "\n"@
    } else {
        Seq::empty()
    };
    assert(syntax_message(longer) =~= syntax_message(error) + between + ("expected `"@ + key
        + "`"@));
    if let Some(label) = error.label {
        if error.expected.len() == 0 {
            assert(syntax_message(error) =~= "invalid "@ + label);
        }
    }
}

/// An error is what a failure holds, and there is none otherwise.
pub proof fn law_errors<T>(value: T, error: ToolParserError, reason: String)
    ensures
        error_of(Ok::<T, ToolParserError>(value)) is None,
        error_of(Err::<T, ToolParserError>(error)) == Some(error@),
        reason_of(Ok(())) is None,
        reason_of(Err(reason)) == Some(reason@),
{
}

/// What an error holds, it shows.
pub proof fn law_error_contents(
    parser_name: &'static str,
    reason: String,
    error: SyntaxError,
    label: &'static str,
)
    ensures
        (ToolParserError::IncompleteToolCall { parser_name })@ == (ErrorView::IncompleteToolCall {
            parser_name: parser_name@,
        }),
        (ToolParserError::NoActiveToolCall { parser_name })@ == (ErrorView::NoActiveToolCall {
            parser_name: parser_name@,
        }),
        (ToolParserError::NoFencedHeader { parser_name })@ == (ErrorView::NoFencedHeader {
            parser_name: parser_name@,
        }),
        (ToolParserError::InvalidFencedArguments { parser_name, reason })@ == (
        ErrorView::InvalidFencedArguments { parser_name: parser_name@, reason: reason@ }),
        ToolParserError::Syntax(error)@ == ErrorView::Syntax(error@),
        error.label is None ==> error@.label is None,
        error.label == Some(label) ==> error@.label == Some(label@),
        error@.expected == error.expected@.map_values(|text: &'static str| text@),
{
}

} // verus!
