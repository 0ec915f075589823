//! What the settings of a format stand for.

use vstd::prelude::*;

use crate::config::{JsonToolCallConfig, JsonToolCallWhitespace};
use crate::laws::effects::marker_text;
use crate::laws::headers::arguments_keys;
use crate::laws::readings::blank;
use crate::lex::is_space;
use crate::sequence::PieceView;

verus! {

/// A format is valid unless it allows fences and has a delimiter or leaves whitespace open.
pub proof fn law_valid(config: JsonToolCallConfig)
    ensures
        config.valid() <==> !(config.allow_markdown_fence && (config.delimiter is Some
            || config.marker_whitespace is Optional)),
{
}

/// All the keys of a format may name the arguments, and its whitespace is the one that it gives.
pub proof fn law_settings(config: JsonToolCallConfig)
    ensures
        config.keys().len() == config.arguments_key@.len(),
        forall|i: int|
            0 <= i < config.keys().len() ==> #[trigger] config.keys()[i]
                == config.arguments_key@[i]@,
        config.keys() == arguments_keys(config),
        config.opening() == marker_text(config),
        config.marker_whitespace is Optional ==> config.space() == PieceView::Space,
        config.marker_whitespace matches JsonToolCallWhitespace::Exact(text) ==> config.space()
            == PieceView::Literal(text@),
{
}

/// Whitespace is space, tab, carriage return and line feed, and no other character.
pub proof fn law_blank(c: char)
    ensures
        is_space(c) == blank(c),
{
}

} // verus!
