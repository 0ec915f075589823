//! What has been read or refused of an input stays so, however the input goes on.

use vstd::prelude::*;

use crate::config::JsonToolCallConfig;
use crate::event::{
    close_pieces, close_step, end_pieces, fence_step, header_step, name_end_step, name_pieces,
    object_head_step, separator_pieces, start_pieces, start_step,
};
use crate::lex::{agrees, is_space, literal_step, space_end, space_step};
use crate::sequence::{
    PieceView, lemma_piece_bounds, lemma_sequence_bounds, lemma_space_end_bounds, piece_step,
    sequence_step,
};
use crate::step::StepView;
use crate::string::{
    hex_digits, hex_step, json_str_step, lemma_json_str_bounds, lemma_string_char_bounds,
    string_char_step, string_rest_step, unicode_step,
};

verus! {

/// A step that came to an end on some input comes to the same end on more input.
pub open spec fn settled<T>(step: StepView<T>, later: StepView<T>) -> bool {
    !(step is Incomplete) ==> later == step
}

/// A difference between the input and a literal does not go away, and a literal that the input
/// holds is not lost.
pub proof fn lemma_agrees_stable(s: Seq<char>, t: Seq<char>, at: int, literal: Seq<char>)
    requires
        0 <= at,
    ensures
        agrees(s + t, at, literal) ==> agrees(s, at, literal),
        at + literal.len() <= s.len() ==> agrees(s + t, at, literal) == agrees(s, at, literal),
{
    if agrees(s + t, at, literal) {
        assert forall|k: int| 0 <= k < literal.len() && at + k < s.len() implies s[at + k]
            == #[trigger] literal[k] by {
            assert((s + t)[at + k] == literal[k]);
        }
    }
    if at + literal.len() <= s.len() && agrees(s, at, literal) {
        assert forall|k: int| 0 <= k < literal.len() && at + k < (s + t).len() implies (s + t)[at
            + k] == #[trigger] literal[k] by {
            assert(s[at + k] == literal[k]);
        }
    }
}

/// A fixed text is settled.
proof fn lemma_literal_stable(s: Seq<char>, t: Seq<char>, at: int, literal: Seq<char>)
    requires
        0 <= at,
    ensures
        settled(literal_step(s, at, literal), literal_step(s + t, at, literal)),
{
    lemma_agrees_stable(s, t, at, literal);
}

/// A whitespace run that has ended stays so.
proof fn lemma_space_end_stable(s: Seq<char>, t: Seq<char>, at: int)
    requires
        0 <= at <= s.len(),
    ensures
        space_end(s, at) < s.len() ==> space_end(s + t, at) == space_end(s, at),
    decreases s.len() - at,
{
    if at < s.len() && is_space(s[at]) {
        lemma_space_end_stable(s, t, at + 1);
    }
}

/// A piece is settled.
proof fn lemma_piece_stable(s: Seq<char>, t: Seq<char>, at: int, piece: PieceView)
    requires
        0 <= at <= s.len(),
    ensures
        settled(piece_step(s, at, piece), piece_step(s + t, at, piece)),
{
    match piece {
        PieceView::Space => lemma_space_end_stable(s, t, at),
        PieceView::Literal(text) => lemma_literal_stable(s, t, at, text),
        PieceView::Expected(text) => lemma_literal_stable(s, t, at, text),
    }
}

/// A sequence is settled.
proof fn lemma_sequence_stable(s: Seq<char>, t: Seq<char>, at: int, pieces: Seq<PieceView>)
    requires
        0 <= at <= s.len(),
    ensures
        settled(sequence_step(s, at, pieces), sequence_step(s + t, at, pieces)),
    decreases pieces.len(),
{
    if pieces.len() > 0 {
        lemma_piece_stable(s, t, at, pieces[0]);
        lemma_piece_bounds(s, at, pieces[0]);
        if let StepView::Done(_, next) = piece_step(s, at, pieces[0]) {
            lemma_sequence_stable(s, t, next, pieces.drop_first());
        }
    }
}

/// Hexadecimal digits are settled.
proof fn lemma_hex_stable(s: Seq<char>, t: Seq<char>, at: int)
    requires
        0 <= at,
    ensures
        settled(hex_step(s, at), hex_step(s + t, at)),
{
    if hex_digits(s + t, at) {
        assert forall|k: int| at <= k < at + 4 && k < s.len() implies crate::string::hex_value(
            #[trigger] s[k],
        ) is Some by {
            assert((s + t)[k] == s[k]);
        }
    }
    if at + 4 <= s.len() {
        assert forall|k: int| at <= k < at + 4 implies (s + t)[k] == s[k] by {}
    }
}

/// A `\u` escape is settled.
proof fn lemma_unicode_stable(s: Seq<char>, t: Seq<char>, at: int)
    requires
        0 <= at,
    ensures
        settled(unicode_step(s, at), unicode_step(s + t, at)),
{
    lemma_hex_stable(s, t, at);
    if let StepView::Done(_, next) = hex_step(s, at) {
        lemma_literal_stable(s, t, next, "\\u"@);
        if let StepView::Done(_, second) = literal_step(s, next, "\\u"@) {
            lemma_hex_stable(s, t, second);
        }
    }
}

/// A character of a string literal is settled.
proof fn lemma_string_char_stable(s: Seq<char>, t: Seq<char>, at: int)
    requires
        0 <= at,
    ensures
        settled(string_char_step(s, at), string_char_step(s + t, at)),
{
    lemma_unicode_stable(s, t, at + 2);
}

/// The rest of a string literal is settled.
proof fn lemma_string_rest_stable(s: Seq<char>, t: Seq<char>, at: int)
    requires
        0 <= at,
    ensures
        settled(string_rest_step(s, at), string_rest_step(s + t, at)),
    decreases s.len() - at,
{
    if at < s.len() && s[at] != '"' {
        lemma_string_char_stable(s, t, at);
        lemma_string_char_bounds(s, at);
        if let StepView::Done(_, next) = string_char_step(s, at) {
            lemma_string_rest_stable(s, t, next);
        }
    }
}

/// A string literal is settled.
pub proof fn lemma_json_str_stable(s: Seq<char>, t: Seq<char>, at: int)
    requires
        0 <= at,
    ensures
        settled(json_str_step(s, at), json_str_step(s + t, at)),
{
    lemma_literal_stable(s, t, at, "\""@);
    if let StepView::Done(_, next) = literal_step(s, at, "\""@) {
        lemma_string_rest_stable(s, t, next);
    }
}

/// The opening of a fence is settled.
proof fn lemma_fence_stable(s: Seq<char>, t: Seq<char>, at: int, enabled: bool)
    requires
        0 <= at < s.len(),
    ensures
        settled(fence_step(s, at, enabled), fence_step(s + t, at, enabled)),
{
    lemma_literal_stable(s, t, at, "```json\n"@);
    lemma_literal_stable(s, t, at, "```\n"@);
}

/// What follows the function name is settled.
proof fn lemma_name_end_stable(s: Seq<char>, t: Seq<char>, at: int, config: JsonToolCallConfig)
    requires
        0 <= at <= s.len(),
    ensures
        settled(name_end_step(s, at, config), name_end_step(s + t, at, config)),
{
    lemma_sequence_stable(s, t, at, separator_pieces(","@));
    lemma_sequence_bounds(s, at, separator_pieces(","@));
    if let StepView::Done(_, key) = sequence_step(s, at, separator_pieces(","@)) {
        lemma_json_str_stable(s, t, key);
        lemma_json_str_bounds(s, key);
        if let StepView::Done(_, next) = json_str_step(s, key) {
            lemma_sequence_stable(s, t, next, separator_pieces(":"@));
        }
    }
}

/// The head of a tool-call object is settled.
proof fn lemma_object_head_stable(s: Seq<char>, t: Seq<char>, at: int, config: JsonToolCallConfig)
    requires
        0 <= at <= s.len(),
    ensures
        settled(object_head_step(s, at, config), object_head_step(s + t, at, config)),
{
    lemma_sequence_stable(s, t, at, name_pieces(config));
    lemma_sequence_bounds(s, at, name_pieces(config));
    if let StepView::Done(_, start) = sequence_step(s, at, name_pieces(config)) {
        lemma_json_str_stable(s, t, start);
        lemma_json_str_bounds(s, start);
        if let StepView::Done(_, next) = json_str_step(s, start) {
            lemma_name_end_stable(s, t, next, config);
        }
    }
}

/// A header that was read or refused stays so when more input comes.
pub proof fn law_header_settled(s: Seq<char>, t: Seq<char>, at: int, config: JsonToolCallConfig)
    requires
        0 <= at <= s.len(),
    ensures
        settled(header_step(s, at, config), header_step(s + t, at, config)),
{
    lemma_space_end_stable(s, t, at);
    lemma_space_end_bounds(s, at);
    if let StepView::Done(_, first) = space_step(s, at) {
        lemma_fence_stable(s, t, first, config.allow_markdown_fence);
        if let StepView::Done(fenced, next) = fence_step(s, first, config.allow_markdown_fence) {
            if fenced {
                lemma_space_end_stable(s, t, next);
                lemma_space_end_bounds(s, next);
                if let StepView::Done(_, start) = space_step(s, next) {
                    lemma_object_head_stable(s, t, start, config);
                }
            } else {
                lemma_object_head_stable(s, t, next, config);
            }
        }
    }
}

/// The close of a tool call that was read or refused stays so when more input comes.
pub proof fn law_close_settled(
    s: Seq<char>,
    t: Seq<char>,
    at: int,
    fenced: bool,
    config: JsonToolCallConfig,
)
    requires
        0 <= at <= s.len(),
    ensures
        settled(close_step(s, at, fenced, config), close_step(s + t, at, fenced, config)),
{
    lemma_sequence_stable(s, t, at, close_pieces());
    lemma_sequence_bounds(s, at, close_pieces());
    if let StepView::Done(_, next) = sequence_step(s, at, close_pieces()) {
        lemma_sequence_stable(s, t, next, end_pieces(fenced, config));
        if let Some(delimiter) = config.delimiter {
            lemma_sequence_stable(s, t, next, separator_pieces(delimiter@));
        }
    }
}

/// The start of a tool call that was read or refused stays so when more input comes.
pub proof fn law_start_settled(s: Seq<char>, t: Seq<char>, at: int, config: JsonToolCallConfig)
    requires
        0 <= at <= s.len(),
    ensures
        settled(start_step(s, at, config), start_step(s + t, at, config)),
{
    lemma_sequence_stable(s, t, at, start_pieces(config));
}

} // verus!
