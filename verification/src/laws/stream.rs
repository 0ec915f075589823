//! Where a stream of plain text may turn into a tool call, and what comes next in each mode.

use vstd::prelude::*;
use vstd::utf8::encode_utf8;

use crate::bytes::{
    byte_len, chars_in, front, is_boundary, lemma_chars_in, lemma_chars_in_bounds, width,
};
use crate::config::JsonToolCallConfig;
use crate::event::{
    Event, JsonToolCallEvent, JsonToolCallMode, Mode, arguments_event_step, close_step, delta_step,
    event_step, header_step, mode_after, scan_after, text_event_step,
};
use crate::laws::literals::holds;
use crate::laws::readings::{
    Slot, awaiting, is_read, law_fixed, law_start, reading, slot_open, space_slot,
};
use crate::lex::{agrees, literal_step};
use crate::object::JsonObjectScanState;
use crate::step::{Step, StepView, SyntaxError};
use crate::text::{lemma_next_candidate, next_candidate, safe_text_step};

verus! {

/// The input holds the marker at `at`, or it ends inside the marker or before it.
pub open spec fn may_start(s: Seq<char>, at: int, marker: Seq<char>) -> bool {
    holds(s, at, marker) || slot_open(s, at, Slot::Fixed(marker))
}

/// Text from `at` on reaches `end`: some of it, and up to the next position at which the marker may
/// start, or to the end of the input.
pub open spec fn text_reaches(s: Seq<char>, at: int, marker: Seq<char>, end: int) -> bool {
    &&& at < end <= s.len()
    &&& end == s.len() || may_start(s, end, marker)
    &&& forall|i: int| at < i < end ==> !#[trigger] may_start(s, i, marker)
}

/// The reader's word on whether the marker may start somewhere.
proof fn lemma_may_start(s: Seq<char>, at: int, marker: Seq<char>)
    requires
        0 <= at <= s.len(),
    ensures
        agrees(s, at, marker) == may_start(s, at, marker),
{
    law_fixed(s, at, marker);
    let step = literal_step(s, at, marker);
}

/// Plain text is taken up to where the marker may start next, and counted in bytes.
pub proof fn law_safe_text(s: Seq<char>, at: int, marker: Seq<char>)
    requires
        0 <= at <= s.len(),
    ensures
        at == s.len() ==> safe_text_step(s, at, marker) is Incomplete,
        forall|end: int| #[trigger]
            text_reaches(s, at, marker, end) ==> safe_text_step(s, at, marker) == StepView::Done(
                encode_utf8(s.subrange(at, end)).len() as int,
                end,
            ),
        at < s.len() ==> exists|end: int| text_reaches(s, at, marker, end),
{
    reveal(byte_len);
    if at < s.len() {
        let next = next_candidate(s, at + 1, marker);
        lemma_next_candidate(s, at + 1, marker);
        lemma_may_start(s, next, marker);
        assert forall|i: int| at < i < next implies !#[trigger] may_start(s, i, marker) by {
            lemma_may_start(s, i, marker);
        }
        assert(text_reaches(s, at, marker, next));
        assert forall|end: int| #[trigger] text_reaches(s, at, marker, end) implies end == next by {
            if end < next {
                assert(!may_start(s, end, marker));
            } else if next < end {
                assert(!may_start(s, next, marker));
            }
        }
    }
}

/// What starts a tool call.
pub open spec fn start_slots(config: JsonToolCallConfig) -> Seq<Slot> {
    seq![Slot::Fixed(config.start_marker@), space_slot(config)]
}

/// Outside of tool calls, the start of one comes next where the input holds it; it is awaited where
/// the input may go on to hold it; and otherwise there is text, up to where a start may come.
pub proof fn law_text_mode(s: Seq<char>, at: int, config: JsonToolCallConfig)
    requires
        0 <= at <= s.len(),
    ensures
        ({
            let step = event_step(s, at, Mode::Text, config);
            let slots = start_slots(config);
            &&& forall|end: int| #[trigger]
                reading(s, at, slots, end) ==> step == StepView::Done(Event::ToolCallStart, end)
            &&& awaiting(s, at, slots) ==> step is Incomplete
            &&& !is_read(s, at, slots) && !awaiting(s, at, slots) ==> {
                &&& s.len() == at ==> step is Incomplete
                &&& s.len() > at ==> exists|end: int|
                    text_reaches(s, at, config.start_marker@, end)
                &&& forall|end: int| #[trigger]
                    text_reaches(s, at, config.start_marker@, end) ==> step == StepView::Done(
                        Event::Text { len: encode_utf8(s.subrange(at, end)).len() as int },
                        end,
                    )
            }
            &&& text_event_step(s, at, config) == step
        }),
        mode_after(s, at, Mode::Text) == Mode::Text,
{
    reveal(event_step);
    law_start(s, at, config);
    law_safe_text(s, at, config.start_marker@);
}

/// Inside a tool call, its header comes next; then its arguments, until the object is over; and
/// then what closes the call. Only the scan of the arguments moves with what is read of them.
pub proof fn law_call_modes(s: Seq<char>, at: int, mode: Mode, config: JsonToolCallConfig)
    ensures
        event_step(s, at, Mode::Header, config) == header_step(s, at, config),
        mode_after(s, at, Mode::Header) == Mode::Header,
        mode matches Mode::Arguments { scan, fenced } ==> {
            let over = scan.started && scan.depth == 0;
            &&& event_step(s, at, mode, config) == (if over {
                close_step(s, at, fenced, config)
            } else {
                delta_step(s, at, scan)
            })
            &&& arguments_event_step(s, at, scan, fenced, config) == event_step(s, at, mode, config)
            &&& mode_after(s, at, mode) == (if over {
                mode
            } else {
                Mode::Arguments { scan: scan_after(s, at, scan), fenced }
            })
        },
{
    reveal(event_step);
}

/// A length counts the bytes of the encoding, and leads back to the text that it was taken from.
pub proof fn law_lengths(text: Seq<char>, count: int)
    requires
        0 <= count <= text.len(),
    ensures
        byte_len(text) == encode_utf8(text).len(),
        front(text, encode_utf8(text.take(count)).len() as int) == text.take(count),
        chars_in(text, encode_utf8(text.take(count)).len() as int) == count,
        is_boundary(text, encode_utf8(text.take(count)).len() as int),
{
    reveal(byte_len);
    lemma_chars_in(text, count);
}

/// Lengths between two characters are those of the fronts of the text, and there are no others.
pub proof fn law_boundaries(text: Seq<char>, bytes: int, c: char)
    ensures
        is_boundary(text, bytes) ==> exists|count: int|
            0 <= count <= text.len() && bytes == encode_utf8(#[trigger] text.take(count)).len(),
        width(c) == encode_utf8(seq![c]).len(),
{
    reveal(byte_len);
    lemma_chars_in_bounds(text, bytes);
    assert(seq![c].drop_first() =~= Seq::empty());
    reveal_with_fuel(encode_utf8, 2);
    if is_boundary(text, bytes) {
        let count = chars_in(text, bytes);
        assert(text.take(count) == front(text, bytes));
    }
}

/// What an event and a mode hold, they show, and a step shows its outcome with its position.
pub proof fn law_event_contents(
    len: usize,
    function_name: String,
    markdown_fenced: bool,
    json_scan: JsonObjectScanState,
    event: JsonToolCallEvent,
    error: SyntaxError,
    text: String,
)
    ensures
        (JsonToolCallEvent::Text { len })@ == (Event::Text { len: len as int }),
        JsonToolCallEvent::ToolCallStart@ == Event::ToolCallStart,
        (JsonToolCallEvent::ToolCallHeader { function_name, markdown_fenced })@ == (
        Event::ToolCallHeader { name: function_name@, fenced: markdown_fenced }),
        (JsonToolCallEvent::Arguments { len })@ == (Event::Arguments { len: len as int }),
        JsonToolCallEvent::ToolCallDelimiter@ == Event::ToolCallDelimiter,
        (JsonToolCallEvent::ToolCallEnd { markdown_fenced })@ == (Event::ToolCallEnd {
            fenced: markdown_fenced,
        }),
        JsonToolCallMode::Text@ == Mode::Text,
        JsonToolCallMode::Header@ == Mode::Header,
        (JsonToolCallMode::Arguments { json_scan, markdown_fenced })@ == (Mode::Arguments {
            scan: json_scan@,
            fenced: markdown_fenced,
        }),
        Step::Done(event, len)@ == StepView::Done(event@, len as int),
        Step::<JsonToolCallEvent>::Incomplete@ == StepView::<Event>::Incomplete,
        Step::<JsonToolCallEvent>::Failed(error)@ == StepView::<Event>::Failed(error@),
        Step::Done(text, len)@ == StepView::Done(text@, len as int),
        Step::<String>::Incomplete@ == StepView::<Seq<char>>::Incomplete,
        Step::<String>::Failed(error)@ == StepView::<Seq<char>>::Failed(error@),
        Step::Done((), len)@ == StepView::Done((), len as int),
        Step::<()>::Incomplete@ == StepView::<()>::Incomplete,
        Step::<()>::Failed(error)@ == StepView::<()>::Failed(error@),
        Step::Done(markdown_fenced, len)@ == StepView::Done(markdown_fenced, len as int),
{
}

} // verus!
