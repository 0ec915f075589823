//! The header of a tool call that is written down is read back.

use vstd::prelude::*;

use crate::config::JsonToolCallConfig;
use crate::event::{
    Event, brace_pieces, header_step, key_pieces, name_end_step, name_pieces, object_head_step,
    separator_pieces,
};
use crate::laws::literals::{denotes, holds, lemma_holds_append, lemma_literal_read};
use crate::laws::objects::is_object_text;
use crate::lex::{agrees, is_space, literal_step, space_end, space_step};
use crate::sequence::{PieceView, lemma_sequence_split, sequence_step};
use crate::step::StepView;

verus! {

/// A run of whitespace.
pub open spec fn all_space(text: Seq<char>) -> bool {
    forall|i: int| 0 <= i < text.len() ==> is_space(#[trigger] text[i])
}

/// A character other than whitespace comes at position `at`.
pub open spec fn solid(s: Seq<char>, at: int) -> bool {
    0 <= at < s.len() && !is_space(s[at])
}

/// A text that does not start with whitespace.
pub open spec fn starts_solid(text: Seq<char>) -> bool {
    text.len() > 0 && !is_space(text[0])
}

/// A tool call as it is written down: its parts, with whitespace in the gaps between them.
pub struct CallText {
    pub name: Seq<char>,
    pub name_literal: Seq<char>,
    pub key: Seq<char>,
    pub key_literal: Seq<char>,
    pub arguments: Seq<char>,
    pub gaps: Seq<Seq<char>>,
}

/// The opening brace and the key of the function name with what separates it.
pub open spec fn name_head(config: JsonToolCallConfig, call: CallText) -> Seq<char> {
    ("{"@ + call.gaps[1]) + ("\""@ + config.name_key@ + "\""@) + (call.gaps[2] + ":"@
        + call.gaps[3])
}

/// What stands between the function name and the arguments.
pub open spec fn name_tail(call: CallText) -> Seq<char> {
    (call.gaps[4] + ","@ + call.gaps[5]) + call.key_literal + (call.gaps[6] + ":"@ + call.gaps[7])
}

impl CallText {
    /// The literals stand for the name and the key, the key is one of the configured ones, the
    /// arguments are an object, and the gaps hold whitespace.
    pub open spec fn valid(self, config: JsonToolCallConfig) -> bool {
        &&& denotes(self.name_literal, self.name)
        &&& denotes(self.key_literal, self.key)
        &&& config.keys().contains(self.key)
        &&& is_object_text(self.arguments)
        &&& self.gaps.len() == 10
        &&& forall|i: int| 0 <= i < 9 ==> all_space(#[trigger] self.gaps[i])
    }

    /// The call up to its arguments.
    #[verifier::opaque]
    pub open spec fn head(self, config: JsonToolCallConfig) -> Seq<char> {
        name_head(config, self) + self.name_literal + name_tail(self)
    }

    /// The end of the call's object.
    pub open spec fn foot(self) -> Seq<char> {
        self.gaps[8] + "}"@
    }

    /// The call from brace to brace.
    pub open spec fn object(self, config: JsonToolCallConfig) -> Seq<char> {
        self.head(config) + self.arguments + self.foot()
    }
}

/// A fixed text is read where the input holds it.
pub proof fn lemma_literal_held(s: Seq<char>, at: int, literal: Seq<char>)
    requires
        holds(s, at, literal),
    ensures
        literal_step(s, at, literal) == StepView::Done((), at + literal.len()),
{
    assert forall|k: int| 0 <= k < literal.len() && at + k < s.len() implies s[at + k]
        == #[trigger] literal[k] by {
        assert(s.subrange(at, at + literal.len())[k] == s[at + k]);
    }
}

/// A gap is read where something other than whitespace follows it.
pub proof fn lemma_space_held(s: Seq<char>, at: int, gap: Seq<char>)
    requires
        holds(s, at, gap),
        all_space(gap),
        solid(s, at + gap.len()),
    ensures
        space_end(s, at) == at + gap.len(),
        space_step(s, at) == StepView::Done((), at + gap.len()),
    decreases gap.len(),
{
    if gap.len() > 0 {
        assert(s.subrange(at, at + gap.len())[0] == s[at]);
        assert(is_space(gap[0]));
        let rest = gap.drop_first();
        assert(s.subrange(at + 1, at + 1 + rest.len()) =~= rest) by {
            assert(s.subrange(at, at + gap.len()).drop_first() == rest);
        }
        lemma_space_held(s, at + 1, rest);
    }
}

/// The first character of a part that the input holds.
pub proof fn lemma_held_first(s: Seq<char>, at: int, part: Seq<char>)
    requires
        holds(s, at, part),
        part.len() > 0,
    ensures
        s[at] == part[0],
{
    assert(s.subrange(at, at + part.len())[0] == s[at]);
}

/// A separator is read with the gaps around it.
pub proof fn lemma_separator_read(
    s: Seq<char>,
    at: int,
    before: Seq<char>,
    separator: Seq<char>,
    after: Seq<char>,
)
    requires
        holds(s, at, before + separator + after),
        all_space(before),
        all_space(after),
        starts_solid(separator),
        solid(s, at + (before + separator + after).len()),
    ensures
        sequence_step(s, at, separator_pieces(separator)) == StepView::Done(
            (),
            at + (before + separator + after).len(),
        ),
{
    lemma_holds_append(s, at, before + separator, after);
    lemma_holds_append(s, at, before, separator);
    let middle = at + before.len();
    lemma_held_first(s, middle, separator);
    lemma_space_held(s, at, before);
    lemma_literal_held(s, middle, separator);
    lemma_space_held(s, middle + separator.len(), after);
    let pieces = separator_pieces(separator);
    reveal_with_fuel(sequence_step, 4);
    assert(pieces.drop_first()[0] == PieceView::Literal(separator));
    assert(pieces.drop_first().drop_first()[0] == PieceView::Space);
    assert(pieces.drop_first().drop_first().drop_first().len() == 0);
}

/// What comes before the function name is read.
proof fn lemma_name_head_read(s: Seq<char>, at: int, call: CallText, config: JsonToolCallConfig)
    requires
        call.valid(config),
        holds(s, at, name_head(config, call)),
        solid(s, at + name_head(config, call).len()),
    ensures
        sequence_step(s, at, name_pieces(config)) == StepView::Done(
            (),
            at + name_head(config, call).len(),
        ),
{
    reveal_strlit("{");
    reveal_strlit("\"");
    reveal_strlit(":");
    let brace = "{"@ + call.gaps[1];
    let key = "\""@ + config.name_key@ + "\""@;
    let colon = call.gaps[2] + ":"@ + call.gaps[3];
    lemma_holds_append(s, at, brace + key, colon);
    lemma_holds_append(s, at, brace, key);
    lemma_holds_append(s, at, "{"@, call.gaps[1]);
    let key_at = at + brace.len();
    lemma_holds_append(s, key_at, "\""@ + config.name_key@, "\""@);
    lemma_holds_append(s, key_at, "\""@, config.name_key@);
    lemma_held_first(s, key_at, "\""@);
    lemma_literal_held(s, at, "{"@);
    lemma_space_held(s, at + 1, call.gaps[1]);
    lemma_literal_held(s, key_at, "\""@);
    lemma_literal_held(s, key_at + 1, config.name_key@);
    lemma_literal_held(s, key_at + 1 + config.name_key@.len(), "\""@);
    let key_end = key_at + key.len();
    lemma_separator_read(s, key_end, call.gaps[2], ":"@, call.gaps[3]);
    lemma_sequence_split(
        s,
        at,
        brace_pieces() + key_pieces(config.name_key@),
        separator_pieces(":"@),
    );
    lemma_sequence_split(s, at, brace_pieces(), key_pieces(config.name_key@));
    assert(sequence_step(s, at, brace_pieces()) == StepView::Done((), key_at)) by {
        let pieces = brace_pieces();
        reveal_with_fuel(sequence_step, 3);
        assert(pieces.drop_first()[0] == PieceView::Space);
        assert(pieces.drop_first().drop_first().len() == 0);
    }
    assert(sequence_step(s, key_at, key_pieces(config.name_key@)) == StepView::Done((), key_end))
        by {
        let pieces = key_pieces(config.name_key@);
        reveal_with_fuel(sequence_step, 4);
        assert(pieces.drop_first()[0] == PieceView::Expected(config.name_key@));
        assert(pieces.drop_first().drop_first()[0] == PieceView::Literal("\""@));
        assert(pieces.drop_first().drop_first().drop_first().len() == 0);
    }
}

/// What comes between the function name and the arguments is read.
proof fn lemma_name_tail_read(s: Seq<char>, at: int, call: CallText, config: JsonToolCallConfig)
    requires
        call.valid(config),
        holds(s, at, name_tail(call)),
        solid(s, at + name_tail(call).len()),
    ensures
        name_end_step(s, at, config) == StepView::Done((), at + name_tail(call).len()),
{
    reveal_strlit(",");
    reveal_strlit(":");
    let comma = call.gaps[4] + ","@ + call.gaps[5];
    let colon = call.gaps[6] + ":"@ + call.gaps[7];
    lemma_holds_append(s, at, comma + call.key_literal, colon);
    lemma_holds_append(s, at, comma, call.key_literal);
    lemma_literal_read(s, at + comma.len(), call.key_literal, call.key);
    lemma_separator_read(s, at, call.gaps[4], ","@, call.gaps[5]);
    lemma_separator_read(
        s,
        at + comma.len() + call.key_literal.len(),
        call.gaps[6],
        ":"@,
        call.gaps[7],
    );
}

/// The head of a call is read where something other than whitespace follows it.
proof fn lemma_head_read(s: Seq<char>, at: int, call: CallText, config: JsonToolCallConfig)
    requires
        call.valid(config),
        holds(s, at, call.head(config)),
        solid(s, at + call.head(config).len()),
    ensures
        object_head_step(s, at, config) == StepView::Done(call.name, at + call.head(config).len()),
        s[at] == '{',
{
    reveal(CallText::head);
    let first = name_head(config, call);
    lemma_holds_append(s, at, first + call.name_literal, name_tail(call));
    lemma_holds_append(s, at, first, call.name_literal);
    lemma_literal_read(s, at + first.len(), call.name_literal, call.name);
    lemma_name_head_read(s, at, call, config);
    lemma_name_tail_read(s, at + first.len() + call.name_literal.len(), call, config);
    reveal_strlit("{");
    lemma_held_first(s, at, first);
}

/// The header of a call that is written down is read: whitespace of any amount stands between its
/// parts, and the name comes back decoded.
pub proof fn law_header(s: Seq<char>, gap: Seq<char>, call: CallText, config: JsonToolCallConfig)
    requires
        call.valid(config),
        all_space(gap),
        holds(s, 0, gap + call.head(config)),
        solid(s, (gap + call.head(config)).len() as int),
    ensures
        header_step(s, 0, config) == StepView::Done(
            Event::ToolCallHeader { name: call.name, fenced: false },
            (gap + call.head(config)).len() as int,
        ),
{
    lemma_holds_append(s, 0, gap, call.head(config));
    let at = gap.len() as int;
    lemma_head_read(s, at, call, config);
    lemma_space_held(s, 0, gap);
}

/// A fence that may open: with or without the name of the language.
pub open spec fn is_fence(fence: Seq<char>) -> bool {
    fence == "```json\n"@ || fence == "```\n"@
}

/// The header of a fenced call that is written down is read where fences are allowed.
pub proof fn law_fenced_header(
    s: Seq<char>,
    gap: Seq<char>,
    fence: Seq<char>,
    inner: Seq<char>,
    call: CallText,
    config: JsonToolCallConfig,
)
    requires
        call.valid(config),
        config.allow_markdown_fence,
        all_space(gap),
        is_fence(fence),
        all_space(inner),
        holds(s, 0, gap + fence + inner + call.head(config)),
        solid(s, (gap + fence + inner + call.head(config)).len() as int),
    ensures
        header_step(s, 0, config) == StepView::Done(
            Event::ToolCallHeader { name: call.name, fenced: true },
            (gap + fence + inner + call.head(config)).len() as int,
        ),
{
    reveal_strlit("```json\n");
    reveal_strlit("```\n");
    lemma_holds_append(s, 0, gap + fence + inner, call.head(config));
    lemma_holds_append(s, 0, gap + fence, inner);
    lemma_holds_append(s, 0, gap, fence);
    let first = gap.len() as int;
    lemma_held_first(s, first, fence);
    lemma_space_held(s, 0, gap);
    let next = first + fence.len();
    let at = next + inner.len();
    lemma_head_read(s, at, call, config);
    lemma_space_held(s, next, inner);
    lemma_literal_held(s, first, fence);
    if fence == "```\n"@ {
        assert(s.subrange(first, first + fence.len())[3] == s[first + 3]);
        assert(s[first + 3] != "```json\n"@[3]);
        assert(!agrees(s, first, "```json\n"@));
    }
}

} // verus!
