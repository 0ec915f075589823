//! Whitespace and literals.

use vstd::prelude::*;

use crate::step::{Step, StepView, SyntaxError, bare_error};

verus! {

/// `literal` and the input agree as far as the input goes from `at` on.
pub open spec fn agrees(s: Seq<char>, at: int, literal: Seq<char>) -> bool {
    forall|k: int| 0 <= k < literal.len() && at + k < s.len() ==> s[at + k] == #[trigger] literal[k]
}

/// Reading a fixed text: refused on the first difference, and in want of more input where the
/// input ends before the literal does.
pub open spec fn literal_step(s: Seq<char>, at: int, literal: Seq<char>) -> StepView<()> {
    if !agrees(s, at, literal) {
        StepView::Failed(bare_error())
    } else if at + literal.len() > s.len() {
        StepView::Incomplete
    } else {
        StepView::Done((), at + literal.len())
    }
}

/// Space, tab, carriage return and line feed.
pub open spec fn is_space(c: char) -> bool {
    c == ' ' || c == '\t' || c == '\r' || c == '\n'
}

/// The end of the whitespace run that starts at `at`.
pub open spec fn space_end(s: Seq<char>, at: int) -> int
    decreases s.len() - at,
{
    if 0 <= at < s.len() && is_space(s[at]) {
        space_end(s, at + 1)
    } else {
        at
    }
}

/// Reading any amount of whitespace: the run has ended once another character follows it.
pub open spec fn space_step(s: Seq<char>, at: int) -> StepView<()> {
    let end = space_end(s, at);
    if end < s.len() {
        StepView::Done((), end)
    } else {
        StepView::Incomplete
    }
}

/// Reads the fixed text `text` at position `at`.
pub fn literal(input: &Vec<char>, at: usize, text: &str) -> (step: Step<()>)
    requires
        at <= input@.len(),
    ensures
        step@ == literal_step(input@, at as int, text@),
{
    let mut next: usize = at;
    let mut rest = text.chars();
    let ghost mut k: int = 0;
    while next < input.len()
        invariant
            at <= next <= input@.len(),
            k == next - at,
            k <= text@.len(),
            vstd::std_specs::iter::IteratorSpec::remaining(&rest) == text@.skip(k),
            forall|j: int| 0 <= j < k ==> input@[at + j] == #[trigger] text@[j],
        decreases input@.len() - next,
    {
        match rest.next() {
            None => {
                return Step::Done((), next);
            },
            Some(c) => {
                if input[next] != c {
                    assert(text@[k] == c);
                    return Step::Failed(SyntaxError::bare());
                }
                proof {
                    assert(text@.skip(k).drop_first() == text@.skip(k + 1));
                    k = k + 1;
                }
                next += 1;
            },
        }
    }
    if rest.next().is_none() {
        Step::Done((), next)
    } else {
        Step::Incomplete
    }
}

/// Reads any amount of whitespace at position `at`.
pub fn ws0(input: &Vec<char>, at: usize) -> (step: Step<()>)
    requires
        at <= input@.len(),
    ensures
        step@ == space_step(input@, at as int),
{
    let mut next: usize = at;
    while next < input.len()
        invariant
            at <= next <= input@.len(),
            space_end(input@, at as int) == space_end(input@, next as int),
        decreases input@.len() - next,
    {
        let c: char = input[next];
        if !(c == ' ' || c == '\t' || c == '\r' || c == '\n') {
            return Step::Done((), next);
        }
        next += 1;
    }
    Step::Incomplete
}

} // verus!
