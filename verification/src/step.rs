//! The outcome of one parsing step on input that may still grow.

use vstd::prelude::*;

verus! {

/// Why a step refused its input: the construct it was in, and what it would have taken.
#[derive(Debug)]
pub struct SyntaxError {
    pub label: Option<&'static str>,
    pub expected: Vec<&'static str>,
}

/// The contents of a [`SyntaxError`].
#[verifier::ext_equal]
pub struct SyntaxErrorView {
    pub label: Option<Seq<char>>,
    pub expected: Seq<Seq<char>>,
}

/// The texts of a list of strings.
pub open spec fn texts(list: Seq<&'static str>) -> Seq<Seq<char>> {
    list.map_values(|text: &'static str| text@)
}

impl View for SyntaxError {
    type V = SyntaxErrorView;

    open spec fn view(&self) -> SyntaxErrorView {
        SyntaxErrorView {
            label: match self.label {
                Some(label) => Some(label@),
                None => None,
            },
            expected: texts(self.expected@),
        }
    }
}

/// A syntax error that names neither a construct nor an expectation.
pub open spec fn bare_error() -> SyntaxErrorView {
    SyntaxErrorView { label: None, expected: Seq::empty() }
}

impl SyntaxError {
    /// An error without a label and without expectations.
    pub fn bare() -> (error: Self)
        ensures
            error@ == bare_error(),
    {
        SyntaxError { label: None, expected: Vec::new() }
    }
}

/// The outcome of a step: a value with the position behind what was read, a demand for more
/// input, or a refusal that no further input can change.
#[derive(Debug)]
pub enum Step<T> {
    Done(T, usize),
    Incomplete,
    Failed(SyntaxError),
}

/// The contents of a [`Step`].
#[verifier::ext_equal]
pub enum StepView<T> {
    Done(T, int),
    Incomplete,
    Failed(SyntaxErrorView),
}

impl<T: View> View for Step<T> {
    type V = StepView<T::V>;

    open spec fn view(&self) -> StepView<T::V> {
        match self {
            Step::Done(value, next) => StepView::Done(value@, *next as int),
            Step::Incomplete => StepView::Incomplete,
            Step::Failed(error) => StepView::Failed(error@),
        }
    }
}

} // verus!
