//! The errors of the parser and their messages.

use vstd::prelude::*;
use vstd::string::StringExecFns;

use crate::step::{SyntaxError, SyntaxErrorView, texts};

verus! {

/// Why a parser stopped.
#[derive(Debug)]
pub enum ToolParserError {
    /// The input ended inside a tool call.
    IncompleteToolCall { parser_name: &'static str },
    /// Arguments came while no tool call was open.
    NoActiveToolCall { parser_name: &'static str },
    /// A fenced tool call ended that had no header.
    NoFencedHeader { parser_name: &'static str },
    /// The arguments of a fenced tool call are no JSON object.
    InvalidFencedArguments { parser_name: &'static str, reason: String },
    /// The text of a tool call is not what its grammar asks for.
    Syntax(SyntaxError),
}

/// The contents of a [`ToolParserError`].
#[verifier::ext_equal]
pub enum ErrorView {
    IncompleteToolCall { parser_name: Seq<char> },
    NoActiveToolCall { parser_name: Seq<char> },
    NoFencedHeader { parser_name: Seq<char> },
    InvalidFencedArguments { parser_name: Seq<char>, reason: Seq<char> },
    Syntax(SyntaxErrorView),
}

impl View for ToolParserError {
    type V = ErrorView;

    open spec fn view(&self) -> ErrorView {
        match self {
            ToolParserError::IncompleteToolCall { parser_name } => ErrorView::IncompleteToolCall {
                parser_name: parser_name@,
            },
            ToolParserError::NoActiveToolCall { parser_name } => ErrorView::NoActiveToolCall {
                parser_name: parser_name@,
            },
            ToolParserError::NoFencedHeader { parser_name } => ErrorView::NoFencedHeader {
                parser_name: parser_name@,
            },
            ToolParserError::InvalidFencedArguments { parser_name, reason } => {
                ErrorView::InvalidFencedArguments { parser_name: parser_name@, reason: reason@ }
            },
            ToolParserError::Syntax(error) => ErrorView::Syntax(error@),
        }
    }
}

/// A list of expectations: each on its own, in backquotes, with commas between them.
pub open spec fn expected_list(expected: Seq<Seq<char>>) -> Seq<char>
    decreases expected.len(),
{
    if expected.len() == 0 {
        Seq::empty()
    } else {
        expected_list(expected.drop_last()) + (if expected.len() == 1 {
            Seq::empty()
        } else {
            ", "@
        }) + "expected `"@ + expected.last() + "`"@
    }
}

/// The message of a syntax error: a line on the construct, where it is known, and a line on what
/// was expected, where that is.
pub open spec fn syntax_message(error: SyntaxErrorView) -> Seq<char> {
    let construct = match error.label {
        Some(label) => "invalid "@ + label,
        None => Seq::empty(),
    };
    let between = if error.label is Some && error.expected.len() > 0 {
        "\n"@
    } else {
        Seq::empty()
    };
    construct + between + expected_list(error.expected)
}

impl ErrorView {
    /// The message of the error.
    pub open spec fn message(self) -> Seq<char> {
        match self {
            ErrorView::IncompleteToolCall { parser_name } => "incomplete "@ + parser_name
                + " tool call"@,
            ErrorView::NoActiveToolCall { parser_name } => parser_name
                + " arguments without an active tool call"@,
            ErrorView::NoFencedHeader { parser_name } => parser_name
                + " fenced tool call ended without a header"@,
            ErrorView::InvalidFencedArguments { parser_name, reason } => "invalid fenced "@
                + parser_name + " arguments: "@ + reason,
            ErrorView::Syntax(error) => syntax_message(error),
        }
    }
}

impl SyntaxError {
    /// The message of the error.
    pub fn message(&self) -> (message: String)
        ensures
            message@ == syntax_message(self@),
    {
        let mut message: String = String::new();
        if let Some(label) = self.label {
            message.append("invalid ");
            message.append(label);
        }
        if self.expected.len() > 0 {
            if self.label.is_some() {
                message.append("\n");
            }
            let ghost before = message@;
            let mut i: usize = 0;
            while i < self.expected.len()
                invariant
                    i <= self.expected@.len(),
                    message@ == before + expected_list(texts(self.expected@).take(i as int)),
                decreases self.expected@.len() - i,
            {
                proof {
                    let list = texts(self.expected@);
                    assert(list.take(i + 1).drop_last() == list.take(i as int));
                    assert(list.take(i + 1).last() == self.expected@[i as int]@);
                }
                if i > 0 {
                    message.append(", ");
                }
                message.append("expected `");
                message.append(self.expected[i]);
                message.append("`");
                i += 1;
            }
            assert(texts(self.expected@).take(i as int) == texts(self.expected@));
        }
        message
    }
}

impl ToolParserError {
    /// The message of the error.
    pub fn message(&self) -> (message: String)
        ensures
            message@ == self@.message(),
    {
        let mut message: String = String::new();
        match self {
            ToolParserError::IncompleteToolCall { parser_name } => {
                message.append("incomplete ");
                message.append(parser_name);
                message.append(" tool call");
            },
            ToolParserError::NoActiveToolCall { parser_name } => {
                message.append(parser_name);
                message.append(" arguments without an active tool call");
            },
            ToolParserError::NoFencedHeader { parser_name } => {
                message.append(parser_name);
                message.append(" fenced tool call ended without a header");
            },
            ToolParserError::InvalidFencedArguments { parser_name, reason } => {
                message.append("invalid fenced ");
                message.append(parser_name);
                message.append(" arguments: ");
                message.append(reason.as_str());
            },
            ToolParserError::Syntax(error) => {
                return error.message();
            },
        }
        message
    }
}

} // verus!
