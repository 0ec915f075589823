//! What is taken as arguments is an object, from its opening brace to its closing brace.

use vstd::prelude::*;
use vstd::utf8::encode_utf8;

use crate::bytes::byte_len;
use crate::event::{Event, delta_step, scan_after};
use crate::laws::chunking::{lemma_run_extends, lemma_run_shift};
use crate::laws::literals::shifted;
use crate::laws::objects::{between, inside, is_object_text};
use crate::object::{ObjectScan, lemma_run_bounds};
use crate::step::{StepView, SyntaxErrorView};

verus! {

/// What may stand between two quotes: no quote but behind a backslash.
pub open spec fn loose(body: Seq<char>) -> bool
    decreases body.len(),
{
    ||| body.len() == 0
    ||| body[0] != '"' && body[0] != '\\' && loose(body.skip(1))
    ||| body.len() >= 2 && body[0] == '\\' && loose(body.skip(2))
}

/// The text starts with a quoted run of `k` characters.
pub open spec fn quoted_run(text: Seq<char>, k: int) -> bool {
    &&& 2 <= k <= text.len()
    &&& text[0] == '"'
    &&& text[k - 1] == '"'
    &&& loose(text.subrange(1, k - 1))
}

/// `text` is the rest of an object in which `depth` braces are open: it ends with the brace that
/// closes the first of them. Braces count wherever they stand outside of quotes.
pub open spec fn closes(text: Seq<char>, depth: int) -> bool
    decreases text.len(),
{
    &&& text.len() > 0
    &&& if text[0] == '{' {
        closes(text.skip(1), depth + 1)
    } else if text[0] == '}' {
        if depth == 1 {
            text.len() == 1
        } else {
            closes(text.skip(1), depth - 1)
        }
    } else if text[0] == '"' {
        exists|k: int| #[trigger] quoted_run(text, k) && closes(text.skip(k), depth)
    } else {
        closes(text.skip(1), depth)
    }
}

/// `text` is an object, as far as its braces and quotes tell: it starts with a brace and ends with
/// the one that closes it.
pub open spec fn object_text(text: Seq<char>) -> bool {
    text.len() > 0 && text[0] == '{' && closes(text.skip(1), 1)
}

/// What is between quotes leaves a scan inside the string literal.
proof fn lemma_run_loose(s: Seq<char>, at: int, to: int, depth: int)
    requires
        0 <= at <= to <= s.len(),
        loose(s.subrange(at, to)),
        depth > 0,
    ensures
        inside(depth).run(s, at) == inside(depth).run(s, to),
    decreases to - at,
{
    let body = s.subrange(at, to);
    if body.len() > 0 {
        reveal_with_fuel(ObjectScan::run, 3);
        assert(body[0] == s[at]);
        if body[0] != '\\' {
            assert(body.skip(1) =~= s.subrange(at + 1, to));
            lemma_run_loose(s, at + 1, to, depth);
        } else {
            let escaped = ObjectScan { escaped: true, ..inside(depth) };
            assert(inside(depth).advance(s[at]) == escaped);
            assert(escaped.advance(s[at + 1]) == inside(depth));
            assert(body.skip(2) =~= s.subrange(at + 2, to));
            lemma_run_loose(s, at + 2, to, depth);
        }
    }
}

/// A scan that gets out of a string literal passes its closing quote.
proof fn lemma_loose_found(s: Seq<char>, at: int, depth: int) -> (quote: int)
    requires
        0 <= at <= s.len(),
        depth > 0,
        inside(depth).run(s, at).0.complete(),
    ensures
        at <= quote < s.len(),
        s[quote] == '"',
        loose(s.subrange(at, quote)),
        inside(depth).run(s, at) == between(depth).run(s, quote + 1),
    decreases s.len() - at,
{
    reveal_with_fuel(ObjectScan::run, 3);
    assert(at < s.len());
    if s[at] == '"' {
        assert(inside(depth).advance(s[at]) == between(depth));
        assert(s.subrange(at, at).len() == 0);
        at
    } else if s[at] == '\\' {
        let escaped = ObjectScan { escaped: true, ..inside(depth) };
        assert(inside(depth).advance(s[at]) == escaped);
        assert(at + 1 < s.len());
        assert(escaped.advance(s[at + 1]) == inside(depth));
        let quote = lemma_loose_found(s, at + 2, depth);
        let body = s.subrange(at, quote);
        assert(body.skip(2) =~= s.subrange(at + 2, quote));
        quote
    } else {
        let quote = lemma_loose_found(s, at + 1, depth);
        let body = s.subrange(at, quote);
        assert(body.skip(1) =~= s.subrange(at + 1, quote));
        quote
    }
}

/// The scan of the rest of an object is complete at its end.
proof fn lemma_closes_run(s: Seq<char>, at: int, to: int, depth: int)
    requires
        0 <= at <= to <= s.len(),
        depth > 0,
        closes(s.subrange(at, to), depth),
    ensures
        between(depth).run(s, at) == (between(0), to),
    decreases to - at,
{
    let text = s.subrange(at, to);
    assert(text[0] == s[at]);
    reveal_with_fuel(ObjectScan::run, 2);
    assert(text.skip(1) =~= s.subrange(at + 1, to));
    if s[at] == '{' {
        assert(between(depth).advance('{') == between(depth + 1));
        lemma_closes_run(s, at + 1, to, depth + 1);
    } else if s[at] == '}' {
        assert(between(depth).advance('}') == between(depth - 1));
        if depth > 1 {
            lemma_closes_run(s, at + 1, to, depth - 1);
        }
    } else if s[at] == '"' {
        let k = choose|k: int| #[trigger] quoted_run(text, k) && closes(text.skip(k), depth);
        assert(between(depth).advance('"') == inside(depth));
        assert(text.subrange(1, k - 1) =~= s.subrange(at + 1, at + k - 1));
        lemma_run_loose(s, at + 1, at + k - 1, depth);
        assert(s[at + k - 1] == text[k - 1]);
        assert(inside(depth).advance('"') == between(depth));
        assert(text.skip(k) =~= s.subrange(at + k, to));
        lemma_closes_run(s, at + k, to, depth);
    } else {
        assert(between(depth).advance(s[at]) == between(depth));
        lemma_closes_run(s, at + 1, to, depth);
    }
}

/// Where a scan becomes complete, the rest of the object ends.
proof fn lemma_run_closes(s: Seq<char>, at: int, depth: int)
    requires
        0 <= at <= s.len(),
        depth > 0,
        between(depth).run(s, at).0.complete(),
    ensures
        at < between(depth).run(s, at).1 <= s.len(),
        closes(s.subrange(at, between(depth).run(s, at).1), depth),
    decreases s.len() - at,
{
    reveal_with_fuel(ObjectScan::run, 2);
    assert(at < s.len());
    let end = between(depth).run(s, at).1;
    lemma_run_bounds(between(depth), s, at);
    if s[at] == '{' {
        assert(between(depth).advance('{') == between(depth + 1));
        lemma_run_closes(s, at + 1, depth + 1);
        let text = s.subrange(at, end);
        assert(text.skip(1) =~= s.subrange(at + 1, end));
    } else if s[at] == '}' {
        assert(between(depth).advance('}') == between(depth - 1));
        if depth > 1 {
            lemma_run_closes(s, at + 1, depth - 1);
        }
        let text = s.subrange(at, end);
        assert(text.skip(1) =~= s.subrange(at + 1, end));
    } else if s[at] == '"' {
        assert(between(depth).advance('"') == inside(depth));
        let quote = lemma_loose_found(s, at + 1, depth);
        lemma_run_closes(s, quote + 1, depth);
        let text = s.subrange(at, end);
        let k = quote + 1 - at;
        assert(text.subrange(1, k - 1) =~= s.subrange(at + 1, quote));
        assert(text.skip(k) =~= s.subrange(quote + 1, end));
        assert(quoted_run(text, k));
    } else {
        assert(between(depth).advance(s[at]) == between(depth));
        lemma_run_closes(s, at + 1, depth);
        let text = s.subrange(at, end);
        assert(text.skip(1) =~= s.subrange(at + 1, end));
    }
}

/// The scan of an object starts behind its opening brace.
proof fn lemma_run_opened(s: Seq<char>, at: int)
    requires
        0 <= at < s.len(),
    ensures
        ObjectScan::fresh().run(s, at) == between(1).run(s, at + 1),
{
    reveal_with_fuel(ObjectScan::run, 2);
    assert(ObjectScan::fresh().advance(s[at]) == between(1));
}

/// A scan from an opening brace on is complete exactly where an object ends.
proof fn lemma_scan_object(s: Seq<char>, at: int, to: int)
    requires
        0 <= at < s.len(),
        s[at] == '{',
    ensures
        (ObjectScan::fresh().run(s, at).0.complete() && ObjectScan::fresh().run(s, at).1 == to) <==> {
            &&& at <= to <= s.len()
            &&& object_text(s.subrange(at, to))
        },
{
    lemma_run_opened(s, at);
    if at <= to <= s.len() && object_text(s.subrange(at, to)) {
        assert(s.subrange(at, to).skip(1) =~= s.subrange(at + 1, to));
        lemma_closes_run(s, at + 1, to, 1);
    }
    if ObjectScan::fresh().run(s, at).0.complete() {
        lemma_run_closes(s, at + 1, 1);
        let end = ObjectScan::fresh().run(s, at).1;
        assert(s.subrange(at, end).skip(1) =~= s.subrange(at + 1, end));
    }
}

/// The texts whose scan is complete at their end are the objects.
pub proof fn law_object(text: Seq<char>)
    ensures
        is_object_text(text) <==> object_text(text),
{
    if text.len() > 0 && text[0] == '{' {
        lemma_scan_object(text, 0, text.len() as int);
        assert(text.subrange(0, text.len() as int) =~= text);
    }
}

/// Arguments are an object: what does not start with an opening brace is refused, the object is
/// taken up to the brace that closes it and no further, and as long as it has not come to its end
/// all input belongs to it.
pub proof fn law_arguments(s: Seq<char>, at: int)
    requires
        0 <= at <= s.len(),
    ensures
        at == s.len() ==> delta_step(s, at, ObjectScan::fresh()) is Incomplete,
        at < s.len() && s[at] != '{' ==> delta_step(s, at, ObjectScan::fresh()) is Failed,
        forall|to: int|
            at <= to <= s.len() && #[trigger] object_text(s.subrange(at, to)) ==> {
                &&& delta_step(s, at, ObjectScan::fresh()) == StepView::Done(
                    Event::Arguments { len: encode_utf8(s.subrange(at, to)).len() as int },
                    to,
                )
                &&& scan_after(s, at, ObjectScan::fresh()).complete()
            },
        at < s.len() && s[at] == '{' && (forall|to: int|
            at <= to <= s.len() ==> !#[trigger] object_text(s.subrange(at, to))) ==> {
            &&& delta_step(s, at, ObjectScan::fresh()) == StepView::Done(
                Event::Arguments { len: encode_utf8(s.subrange(at, s.len() as int)).len() as int },
                s.len() as int,
            )
            &&& !scan_after(s, at, ObjectScan::fresh()).complete()
        },
        forall|scan: ObjectScan|
            !((#[trigger] delta_step(s, at, scan)) is Done) ==> scan_after(s, at, scan) == scan,
        forall|scan: ObjectScan|
            (#[trigger] delta_step(s, at, scan)) is Failed ==> delta_step(s, at, scan)
                == StepView::<Event>::Failed(
                SyntaxErrorView { label: None, expected: Seq::empty() },
            ),
{
    reveal(byte_len);
    let fresh = ObjectScan::fresh();
    lemma_run_bounds(fresh, s, at);
    assert forall|to: int|
        at <= to <= s.len() && #[trigger] object_text(s.subrange(at, to)) implies {
        &&& delta_step(s, at, fresh) == StepView::Done(
            Event::Arguments { len: encode_utf8(s.subrange(at, to)).len() as int },
            to,
        )
        &&& scan_after(s, at, fresh).complete()
    } by {
        assert(s.subrange(at, to)[0] == s[at]);
        lemma_scan_object(s, at, to);
    }
    if at < s.len() && s[at] == '{' {
        lemma_scan_object(s, at, fresh.run(s, at).1);
    }
}

/// Arguments that arrive in parts go on where they stopped: behind the start of an object, what
/// comes is taken up to the brace that closes the object, and all of it as long as none does.
pub proof fn law_arguments_go_on(start: Seq<char>, s: Seq<char>)
    requires
        start.len() > 0,
        start[0] == '{',
        forall|to: int| 0 <= to <= start.len() ==> !#[trigger] object_text(start.subrange(0, to)),
    ensures
        ({
            let scan = scan_after(start, 0, ObjectScan::fresh());
            &&& s.len() == 0 ==> delta_step(s, 0, scan) is Incomplete
            &&& forall|to: int|
                0 <= to <= s.len() && #[trigger] object_text(start + s.subrange(0, to)) ==> {
                    &&& delta_step(s, 0, scan) == StepView::Done(
                        Event::Arguments { len: encode_utf8(s.subrange(0, to)).len() as int },
                        to,
                    )
                    &&& scan_after(s, 0, scan).complete()
                }
            &&& s.len() > 0 && (forall|to: int|
                0 <= to <= s.len() ==> !#[trigger] object_text(start + s.subrange(0, to))) ==> {
                &&& delta_step(s, 0, scan) == StepView::Done(
                    Event::Arguments { len: encode_utf8(s).len() as int },
                    s.len() as int,
                )
                &&& scan_after(s, 0, scan) == scan_after(start + s, 0, ObjectScan::fresh())
            }
        }),
{
    reveal(byte_len);
    let fresh = ObjectScan::fresh();
    let scan = scan_after(start, 0, fresh);
    let all = start + s;
    let from = start.len() as int;
    lemma_run_bounds(fresh, start, 0);
    lemma_scan_object(start, 0, fresh.run(start, 0).1);
    assert(!fresh.run(start, 0).0.complete());
    assert(fresh.run(start, 0) == (scan, from));
    lemma_run_extends(fresh, start, s, 0);
    lemma_run_shift(scan, all, from, 0);
    assert(all.skip(from) =~= s);
    lemma_run_opened(start, 0);
    lemma_run_started_on(start);
    let end = scan.run(s, 0).1;
    lemma_run_bounds(scan, s, 0);
    assert(fresh.run(all, 0) == (scan.run(s, 0).0, from + end));
    assert forall|to: int|
        0 <= to <= s.len() && #[trigger] object_text(start + s.subrange(0, to)) implies {
        &&& delta_step(s, 0, scan) == StepView::Done(
            Event::Arguments { len: encode_utf8(s.subrange(0, to)).len() as int },
            to,
        )
        &&& scan_after(s, 0, scan).complete()
    } by {
        assert(start + s.subrange(0, to) =~= all.subrange(0, from + to));
        lemma_scan_object(all, 0, from + to);
        if to == 0 {
            assert(start + s.subrange(0, to) =~= start.subrange(0, from));
        }
    }
    lemma_scan_object(all, 0, from + end);
    assert(start + s.subrange(0, end) =~= all.subrange(0, from + end));
    assert(s.subrange(0, s.len() as int) =~= s);
}

/// Arguments are taken from the rest of an input as from the input.
pub proof fn law_arguments_anywhere(s: Seq<char>, at: int, scan: ObjectScan)
    requires
        0 <= at <= s.len(),
    ensures
        delta_step(s, at, scan) == shifted(delta_step(s.skip(at), 0, scan), at),
        scan_after(s, at, scan) == scan_after(s.skip(at), 0, scan),
{
    let rest = s.skip(at);
    lemma_run_shift(scan, s, at, 0);
    lemma_run_bounds(scan, rest, 0);
    let end = scan.run(rest, 0).1;
    assert(rest.subrange(0, end) =~= s.subrange(at, at + end));
}

/// A scan that has moved has seen the opening brace.
proof fn lemma_run_started_on(s: Seq<char>)
    requires
        s.len() > 0,
    ensures
        ObjectScan::fresh().run(s, 0).0.started,
{
    lemma_run_opened(s, 0);
    lemma_run_stays_started(between(1), s, 1);
}

/// A scan that has started stays so.
proof fn lemma_run_stays_started(scan: ObjectScan, s: Seq<char>, at: int)
    requires
        0 <= at <= s.len(),
        scan.started,
    ensures
        scan.run(s, at).0.started,
    decreases s.len() - at,
{
    if !scan.complete() && at < s.len() {
        lemma_run_stays_started(scan.advance(s[at]), s, at + 1);
    }
}

} // verus!
