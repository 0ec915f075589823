//! What sets one tool-call format apart from another.

use vstd::prelude::*;

use crate::sequence::{Piece, PieceView};
use crate::step::texts;

verus! {

/// The whitespace between a marker and the JSON next to it.
#[derive(Debug, Clone, Copy)]
pub enum JsonToolCallWhitespace {
    Optional,
    Exact(&'static str),
}

/// A format of tool calls: JSON objects between two markers.
#[derive(Debug, Clone, Copy)]
pub struct JsonToolCallConfig {
    pub parser_name: &'static str,
    pub start_marker: &'static str,
    pub end_marker: &'static str,
    pub marker_whitespace: JsonToolCallWhitespace,
    pub delimiter: Option<&'static str>,
    pub name_key: &'static str,
    /// Candidate JSON keys naming the arguments payload, tried in order. Most formats use a
    /// single key like `["arguments"]`, but some accept multiple.
    pub arguments_key: &'static [&'static str],
    /// Accept one matching Markdown fence around the tool-call JSON.
    pub allow_markdown_fence: bool,
}

impl JsonToolCallConfig {
    /// Markdown fences need one tool call per marker and exact marker whitespace.
    pub open spec fn valid(self) -> bool {
        self.allow_markdown_fence ==> {
            &&& self.delimiter is None
            &&& self.marker_whitespace is Exact
        }
    }

    /// The whitespace next to a marker, as an element of a sequence.
    pub open spec fn space(self) -> PieceView {
        match self.marker_whitespace {
            JsonToolCallWhitespace::Optional => PieceView::Space,
            JsonToolCallWhitespace::Exact(text) => PieceView::Literal(text@),
        }
    }

    /// The start marker with the exact whitespace behind it.
    pub open spec fn opening(self) -> Seq<char> {
        match self.marker_whitespace {
            JsonToolCallWhitespace::Optional => self.start_marker@,
            JsonToolCallWhitespace::Exact(text) => self.start_marker@ + text@,
        }
    }

    /// The keys that may name the arguments.
    pub open spec fn keys(self) -> Seq<Seq<char>> {
        texts(self.arguments_key@)
    }

    /// Whether Markdown fences, where they are allowed, come with one tool call per marker and
    /// with exact marker whitespace.
    pub fn is_valid(&self) -> (valid: bool)
        ensures
            valid == self.valid(),
    {
        !self.allow_markdown_fence || (self.delimiter.is_none() && match self.marker_whitespace {
            JsonToolCallWhitespace::Exact(_) => true,
            JsonToolCallWhitespace::Optional => false,
        })
    }

    /// The whitespace next to a marker, as an element of a sequence.
    pub fn space_piece(&self) -> (piece: Piece)
        ensures
            piece@ == self.space(),
    {
        match self.marker_whitespace {
            JsonToolCallWhitespace::Optional => Piece::Space,
            JsonToolCallWhitespace::Exact(text) => Piece::Literal(text),
        }
    }
}

} // verus!
