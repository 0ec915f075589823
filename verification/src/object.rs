//! Finding the end of a raw JSON object that arrives in parts.

use vstd::prelude::*;

use crate::bytes::{byte_count, byte_len, lemma_byte_len_part};
use crate::step::{Step, StepView, SyntaxError, bare_error};

verus! {

/// How far a scan has come in a JSON object: its opening brace has been seen or not, the number
/// of braces that are open, and the position with respect to string literals and escapes.
#[derive(Debug, Clone, Copy, PartialEq, Eq, Structural)]
pub struct JsonObjectScanState {
    started: bool,
    depth: usize,
    in_string: bool,
    escaped: bool,
}

/// The contents of a [`JsonObjectScanState`].
pub struct ObjectScan {
    pub started: bool,
    pub depth: int,
    pub in_string: bool,
    pub escaped: bool,
}

impl View for JsonObjectScanState {
    type V = ObjectScan;

    closed spec fn view(&self) -> ObjectScan {
        ObjectScan {
            started: self.started,
            depth: self.depth as int,
            in_string: self.in_string,
            escaped: self.escaped,
        }
    }
}

impl ObjectScan {
    /// The scan of an object of which nothing has been read.
    pub open spec fn fresh() -> ObjectScan {
        ObjectScan { started: false, depth: 0, in_string: false, escaped: false }
    }

    /// The closing brace of the object has been read.
    pub open spec fn complete(self) -> bool {
        self.started && self.depth == 0
    }

    /// The scan after one more character. Braces inside string literals do not count, nor does
    /// a quote behind a backslash inside one.
    pub open spec fn advance(self, c: char) -> ObjectScan {
        if !self.started {
            ObjectScan { started: true, depth: 1, ..self }
        } else if self.in_string {
            if self.escaped {
                ObjectScan { escaped: false, ..self }
            } else if c == '\\' {
                ObjectScan { escaped: true, ..self }
            } else if c == '"' {
                ObjectScan { in_string: false, ..self }
            } else {
                self
            }
        } else if c == '"' {
            ObjectScan { in_string: true, ..self }
        } else if c == '{' {
            ObjectScan { depth: self.depth + 1, ..self }
        } else if c == '}' {
            ObjectScan { depth: self.depth - 1, ..self }
        } else {
            self
        }
    }

    /// The scan after the input from `at` on, up to the end of the object or of the input, and
    /// the position that it has reached.
    pub open spec fn run(self, s: Seq<char>, at: int) -> (ObjectScan, int)
        decreases s.len() - at,
    {
        if self.complete() || at >= s.len() {
            (self, at)
        } else {
            self.advance(s[at]).run(s, at + 1)
        }
    }

    /// Reading what there is of an object: the number of bytes, up to its end or that of
    /// the input. An object starts with a brace.
    pub open spec fn step(self, s: Seq<char>, at: int) -> StepView<int> {
        if at >= s.len() {
            StepView::Incomplete
        } else if !self.started && s[at] != '{' {
            StepView::Failed(bare_error())
        } else {
            let end = self.run(s, at).1;
            StepView::Done(byte_len(s.subrange(at, end)), end)
        }
    }
}

/// A scan does not leave the input, moves on where there is input, and opens at most one brace
/// with each character.
pub proof fn lemma_run_bounds(scan: ObjectScan, s: Seq<char>, at: int)
    requires
        0 <= at <= s.len(),
    ensures
        at <= scan.run(s, at).1 <= s.len(),
        scan.run(s, at).1 == at ==> scan.complete() || at == s.len(),
        scan.depth >= 0 ==> 0 <= scan.run(s, at).0.depth <= scan.depth + (scan.run(s, at).1 - at),
        !scan.run(s, at).0.complete() ==> scan.run(s, at).1 == s.len(),
    decreases s.len() - at,
{
    if !scan.complete() && at < s.len() {
        lemma_run_bounds(scan.advance(s[at]), s, at + 1);
    }
}

impl Default for JsonObjectScanState {
    /// The scan of an object of which nothing has been read.
    fn default() -> (state: Self)
        ensures
            state@ == ObjectScan::fresh(),
    {
        JsonObjectScanState { started: false, depth: 0, in_string: false, escaped: false }
    }
}

impl JsonObjectScanState {
    /// Whether the closing brace of the object has been read.
    pub fn complete(&self) -> (complete: bool)
        ensures
            complete == self@.complete(),
    {
        self.started && self.depth == 0
    }

    /// The number of braces that are open.
    pub fn depth(&self) -> (depth: usize)
        ensures
            depth == self@.depth,
    {
        self.depth
    }

    /// Moves the scan over one more character.
    fn advance(&mut self, c: char)
        requires
            !old(self)@.complete(),
            old(self)@.depth < usize::MAX,
        ensures
            final(self)@ == old(self)@.advance(c),
    {
        if !self.started {
            self.started = true;
            self.depth = 1;
        } else if self.in_string {
            if self.escaped {
                self.escaped = false;
            } else if c == '\\' {
                self.escaped = true;
            } else if c == '"' {
                self.in_string = false;
            }
        } else if c == '"' {
            self.in_string = true;
        } else if c == '{' {
            self.depth += 1;
        } else if c == '}' {
            self.depth -= 1;
        }
    }
}

/// Reads what there is of a JSON object from position `at` on, moves `state` over it and returns
/// the number of bytes read.
pub fn take_json_object(
    input: &Vec<char>,
    at: usize,
    state: &mut JsonObjectScanState,
) -> (step: Step<usize>)
    requires
        at <= input@.len(),
        byte_len(input@) <= usize::MAX,
        old(state)@.depth + (input@.len() - at) <= usize::MAX,
    ensures
        match step {
            Step::Done(len, next) => {
                &&& old(state)@.step(input@, at as int) == StepView::Done(len as int, next as int)
                &&& final(state)@ == old(state)@.run(input@, at as int).0
            },
            Step::Incomplete => {
                &&& old(state)@.step(input@, at as int) == StepView::<int>::Incomplete
                &&& final(state)@ == old(state)@
            },
            Step::Failed(error) => {
                &&& old(state)@.step(input@, at as int) == StepView::<int>::Failed(error@)
                &&& final(state)@ == old(state)@
            },
        },
{
    if at >= input.len() {
        return Step::Incomplete;
    }
    if !state.started && input[at] != '{' {
        return Step::Failed(SyntaxError::bare());
    }
    let ghost before = state@;
    let mut next: usize = at;
    while next < input.len() && !state.complete()
        invariant
            at <= next <= input@.len(),
            state@.depth + (input@.len() - next) <= usize::MAX,
            before.run(input@, at as int) == state@.run(input@, next as int),
        decreases input@.len() - next,
    {
        state.advance(input[next]);
        next += 1;
    }
    proof {
        lemma_byte_len_part(input@, at as int, next as int);
    }
    Step::Done(byte_count(input, at, next), next)
}

} // verus!
