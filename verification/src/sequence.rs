//! Fixed sequences of literals and whitespace.

use vstd::prelude::*;

use crate::lex::{is_space, literal, literal_step, space_end, space_step, ws0};
use crate::step::{Step, StepView, SyntaxError, SyntaxErrorView};

verus! {

/// One element of a sequence: whitespace, a fixed text, or a fixed text that the error names
/// where it is missing.
#[derive(Debug, Clone, Copy)]
pub enum Piece {
    Space,
    Literal(&'static str),
    Expected(&'static str),
}

/// The contents of a [`Piece`].
pub enum PieceView {
    Space,
    Literal(Seq<char>),
    Expected(Seq<char>),
}

impl View for Piece {
    type V = PieceView;

    open spec fn view(&self) -> PieceView {
        match self {
            Piece::Space => PieceView::Space,
            Piece::Literal(text) => PieceView::Literal(text@),
            Piece::Expected(text) => PieceView::Expected(text@),
        }
    }
}

/// The contents of a list of pieces.
pub open spec fn pieces_view(pieces: Seq<Piece>) -> Seq<PieceView> {
    pieces.map_values(|piece: Piece| piece@)
}

/// The error of a missing fixed text that is named.
pub open spec fn expected_error(text: Seq<char>) -> SyntaxErrorView {
    SyntaxErrorView { label: None, expected: seq![text] }
}

/// Reading one piece.
pub open spec fn piece_step(s: Seq<char>, at: int, piece: PieceView) -> StepView<()> {
    match piece {
        PieceView::Space => space_step(s, at),
        PieceView::Literal(text) => literal_step(s, at, text),
        PieceView::Expected(text) => match literal_step(s, at, text) {
            StepView::Failed(_) => StepView::Failed(expected_error(text)),
            step => step,
        },
    }
}

/// Reading the pieces one after the other, up to the first that does not succeed.
pub open spec fn sequence_step(s: Seq<char>, at: int, pieces: Seq<PieceView>) -> StepView<()>
    decreases pieces.len(),
{
    if pieces.len() == 0 {
        StepView::Done((), at)
    } else {
        match piece_step(s, at, pieces[0]) {
            StepView::Done(_, next) => sequence_step(s, next, pieces.drop_first()),
            step => step,
        }
    }
}

/// A piece that is read ends inside the input and not before its start.
pub proof fn lemma_piece_bounds(s: Seq<char>, at: int, piece: PieceView)
    requires
        0 <= at <= s.len(),
    ensures
        piece_step(s, at, piece) matches StepView::Done(_, next) ==> at <= next <= s.len(),
{
    lemma_space_end_bounds(s, at);
}

/// A whitespace run ends inside the input and not before its start.
pub proof fn lemma_space_end_bounds(s: Seq<char>, at: int)
    requires
        0 <= at <= s.len(),
    ensures
        at <= space_end(s, at) <= s.len(),
    decreases s.len() - at,
{
    if at < s.len() && is_space(s[at]) {
        lemma_space_end_bounds(s, at + 1);
    }
}

/// A sequence that is read ends inside the input and not before its start.
pub proof fn lemma_sequence_bounds(s: Seq<char>, at: int, pieces: Seq<PieceView>)
    requires
        0 <= at <= s.len(),
    ensures
        sequence_step(s, at, pieces) matches StepView::Done(_, next) ==> at <= next <= s.len(),
    decreases pieces.len(),
{
    if pieces.len() > 0 {
        lemma_piece_bounds(s, at, pieces[0]);
        if let StepView::Done(_, next) = piece_step(s, at, pieces[0]) {
            lemma_sequence_bounds(s, next, pieces.drop_first());
        }
    }
}

/// Two sequences in a row are read like one.
pub proof fn lemma_sequence_split(
    s: Seq<char>,
    at: int,
    first: Seq<PieceView>,
    second: Seq<PieceView>,
)
    ensures
        sequence_step(s, at, first + second) == (match sequence_step(s, at, first) {
            StepView::Done(_, next) => sequence_step(s, next, second),
            step => step,
        }),
    decreases first.len(),
{
    if first.len() == 0 {
        assert(first + second == second);
    } else {
        assert((first + second).drop_first() == first.drop_first() + second);
        if let StepView::Done(_, next) = piece_step(s, at, first[0]) {
            lemma_sequence_split(s, next, first.drop_first(), second);
        }
    }
}

/// Reads one piece at position `at`.
pub fn read_piece(input: &Vec<char>, at: usize, piece: Piece) -> (step: Step<()>)
    requires
        at <= input@.len(),
    ensures
        step@ == piece_step(input@, at as int, piece@),
{
    match piece {
        Piece::Space => ws0(input, at),
        Piece::Literal(text) => literal(input, at, text),
        Piece::Expected(text) => match literal(input, at, text) {
            Step::Failed(_) => {
                let error = SyntaxError { label: None, expected: vec![text] };
                assert(error@ =~= expected_error(text@));
                Step::Failed(error)
            },
            step => step,
        },
    }
}

/// Reads `pieces` one after the other from position `at` on.
pub fn sequence(input: &Vec<char>, at: usize, pieces: &Vec<Piece>) -> (step: Step<()>)
    requires
        at <= input@.len(),
    ensures
        step@ == sequence_step(input@, at as int, pieces_view(pieces@)),
{
    let ghost views = pieces_view(pieces@);
    let mut next: usize = at;
    let mut i: usize = 0;
    assert(views.skip(0) == views);
    while i < pieces.len()
        invariant
            i <= pieces@.len(),
            next <= input@.len(),
            views == pieces_view(pieces@),
            sequence_step(input@, at as int, views) == sequence_step(
                input@,
                next as int,
                views.skip(i as int),
            ),
        decreases pieces@.len() - i,
    {
        proof {
            assert(views.skip(i as int)[0] == pieces@[i as int]@);
            assert(views.skip(i as int).drop_first() == views.skip(i + 1));
            lemma_piece_bounds(input@, next as int, pieces@[i as int]@);
        }
        match read_piece(input, next, pieces[i]) {
            Step::Done(_, end) => {
                next = end;
            },
            step => {
                return step;
            },
        }
        i += 1;
    }
    assert(views.skip(i as int).len() == 0);
    Step::Done((), next)
}

} // verus!
