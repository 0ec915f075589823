//! Plain text in front of a marker.

use vstd::prelude::*;

use crate::bytes::{byte_count, byte_len, lemma_byte_len_part};
use crate::lex::{agrees, literal};
use crate::step::{Step, StepView};

verus! {

/// The first position from `from` on at which the input may hold `marker`: all of it, or what
/// the input has of it up to its end. The end of the input is such a position.
pub open spec fn next_candidate(s: Seq<char>, from: int, marker: Seq<char>) -> int
    decreases s.len() - from,
{
    if from >= s.len() || agrees(s, from, marker) {
        from
    } else {
        next_candidate(s, from + 1, marker)
    }
}

/// Reading plain text of which the first character is known to start no marker: the number of
/// bytes before the next position that may.
pub open spec fn safe_text_step(s: Seq<char>, at: int, marker: Seq<char>) -> StepView<int> {
    if at >= s.len() {
        StepView::Incomplete
    } else {
        let end = next_candidate(s, at + 1, marker);
        StepView::Done(byte_len(s.subrange(at, end)), end)
    }
}

/// The next candidate lies inside the input, it is one, and there is none before it.
pub proof fn lemma_next_candidate(s: Seq<char>, from: int, marker: Seq<char>)
    requires
        0 <= from <= s.len(),
    ensures
        from <= next_candidate(s, from, marker) <= s.len(),
        agrees(s, next_candidate(s, from, marker), marker),
        forall|i: int| from <= i < next_candidate(s, from, marker) ==> !agrees(s, i, marker),
    decreases s.len() - from,
{
    if from < s.len() && !agrees(s, from, marker) {
        lemma_next_candidate(s, from + 1, marker);
    }
}

/// Reads the plain text from position `at` on, up to where `marker` may come next, and returns
/// its length in bytes. The text is not empty: the caller has found that no marker starts at `at`.
pub fn safe_text_len(input: &Vec<char>, at: usize, marker: &str) -> (step: Step<usize>)
    requires
        at <= input@.len(),
        byte_len(input@) <= usize::MAX,
    ensures
        match step {
            Step::Done(len, next) => safe_text_step(input@, at as int, marker@) == StepView::Done(
                len as int,
                next as int,
            ),
            Step::Incomplete => safe_text_step(input@, at as int, marker@) == StepView::<
                int,
            >::Incomplete,
            Step::Failed(_) => false,
        },
{
    if at >= input.len() {
        return Step::Incomplete;
    }
    let mut next: usize = at + 1;
    while next < input.len()
        invariant
            at < next <= input@.len(),
            byte_len(input@) <= usize::MAX,
            next_candidate(input@, at + 1, marker@) == next_candidate(
                input@,
                next as int,
                marker@,
            ),
        decreases input@.len() - next,
    {
        match literal(input, next, marker) {
            Step::Failed(_) => {
                next += 1;
            },
            _ => {
                proof {
                    lemma_byte_len_part(input@, at as int, next as int);
                }
                return Step::Done(byte_count(input, at, next), next);
            },
        }
    }
    proof {
        lemma_byte_len_part(input@, at as int, next as int);
    }
    Step::Done(byte_count(input, at, next), next)
}

} // verus!
