use json_tool_parser::lex::{literal, ws0};
use json_tool_parser::step::{Step, SyntaxError};
use winnow::ascii::multispace0;
use winnow::error::{ContextError, ErrMode, StrContext, StrContextValue};
use winnow::stream::{Partial, Stream};
use winnow::Parser;

const INPUTS: [&str; 14] = [
    "", " ", "\t\r\n ", " x", "x", "xé", "<", "</", "</tool", "</tool>", "</tool> ", " </tool>",
    "\u{a0}x", "\u{b}x",
];

const LITERALS: [&str; 7] = ["", "<", "</tool>", "x", "xé", " ", "é"];

/// The number of characters that were read, nothing yet, or a refusal.
type Outcome = Result<Option<usize>, ()>;

fn of_step(step: Step<()>) -> Outcome {
    match step {
        Step::Done(_, next) => Ok(Some(next)),
        Step::Incomplete => Ok(None),
        Step::Failed(_) => Err(()),
    }
}

fn of_combinator<'i>(
    input: &'i str,
    mut parser: impl Parser<Partial<&'i str>, &'i str, ErrMode<ContextError>>,
) -> Outcome {
    let mut rest = Partial::new(input);
    match parser.parse_next(&mut rest) {
        Ok(read) => Ok(Some(read.chars().count())),
        Err(ErrMode::Incomplete(_)) => Ok(None),
        Err(_) => Err(()),
    }
}

#[test]
fn whitespace_is_read_as_the_combinator_reads_it() {
    for input in INPUTS {
        let chars: Vec<char> = input.chars().collect();
        let expected = of_combinator(input, multispace0);
        assert_eq!(of_step(ws0(&chars, 0)), expected, "{input:?}");
    }
}

#[test]
fn literals_are_read_as_the_combinator_reads_them() {
    for input in INPUTS {
        let chars: Vec<char> = input.chars().collect();
        for text in LITERALS {
            let expected = of_combinator(input, winnow::token::literal(text));
            assert_eq!(of_step(literal(&chars, 0, text)), expected, "{input:?} {text:?}");
        }
    }
}

#[test]
fn messages_read_as_those_of_contexts() {
    let labels = [None, Some("Example")];
    let lists: [&[&'static str]; 2] = [&[], &["name"]];
    for label in labels {
        for expected in lists {
            let input = Partial::new("input");
            let start = input.checkpoint();
            let mut error = ContextError::new();
            for text in expected {
                let context = StrContext::Expected(StrContextValue::StringLiteral(text));
                error = winnow::error::AddContext::add_context(error, &input, &start, context);
            }
            if let Some(label) = label {
                let context = StrContext::Label(label);
                error = winnow::error::AddContext::add_context(error, &input, &start, context);
            }
            let message = SyntaxError { label, expected: expected.to_vec() }.message();
            assert_eq!(message, error.to_string());
        }
    }
}
