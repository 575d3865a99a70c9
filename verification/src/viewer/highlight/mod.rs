//! Colouring lines of JSON, XML and diffs for display.
//!
//! Positions here are char indices into the line; a window is the range of
//! chars that is wanted, and highlighting it yields exactly the text of that
//! range, cut into styled spans.
use vstd::prelude::*;

use crate::text::push_chars;

pub mod checkpoints;
pub mod json;
pub mod lexer;
pub mod lines;
pub mod xml;

verus! {

/// The looks a span of text can have.
#[derive(Debug, Clone, Copy, PartialEq, Eq, Structural)]
pub enum SpanStyle {
    /// The terminal's own colours (what plain text is shown with).
    Default,
    /// The text colour of notes outside any syntax colouring.
    Plain,
    /// The muted colour of the gutter and of separators.
    Gutter,
    Punctuation,
    Key,
    Number,
    Bool,
    Null,
    Str,
    Escape,
    Attr,
    /// An XML element name at a nesting depth.
    Depth(usize),
    /// A closing tag that matches no open one.
    Error,
    DiffHunk,
    DiffFile,
    DiffAdded,
    DiffRemoved,
}

/// A piece of a line with its style.
#[derive(Debug, Clone)]
pub struct StyledText {
    pub text: String,
    pub style: SpanStyle,
}

/// All the text of `spans`, in order.
pub open spec fn spans_text(spans: Seq<StyledText>) -> Seq<char>
    decreases spans.len(),
{
    if spans.len() == 0 {
        Seq::empty()
    } else {
        spans_text(spans.drop_last()) + spans.last().text@
    }
}

/// `x` clipped into the window `[window_start, window_end]`.
pub open spec fn clip(x: int, window_start: int, window_end: int) -> int {
    if x < window_start {
        window_start
    } else if x > window_end {
        window_end
    } else {
        x
    }
}

/// The part of `source[a..b]` that lies in the window.
pub open spec fn piece(source: Seq<char>, window_start: int, window_end: int, a: int, b: int) -> Seq<
    char,
> {
    source.subrange(clip(a, window_start, window_end), clip(b, window_start, window_end))
}

/// `window_start <= window_end <= source.len()`: a window of `source`.
pub open spec fn valid_window(source: Seq<char>, window_start: int, window_end: int) -> bool {
    0 <= window_start <= window_end <= source.len()
}

/// The parts of `[a, b)` and `[b, c)` in the window make the part of `[a, c)`.
pub proof fn lemma_piece_concat(
    source: Seq<char>,
    window_start: int,
    window_end: int,
    a: int,
    b: int,
    c: int,
)
    requires
        valid_window(source, window_start, window_end),
        a <= b <= c,
    ensures
        piece(source, window_start, window_end, a, b) + piece(
            source,
            window_start,
            window_end,
            b,
            c,
        ) == piece(source, window_start, window_end, a, c),
{
    assert(piece(source, window_start, window_end, a, b) + piece(
        source,
        window_start,
        window_end,
        b,
        c,
    ) =~= piece(source, window_start, window_end, a, c));
}

/// Nothing of a range that ends before the window lies in it.
pub proof fn lemma_piece_before(
    source: Seq<char>,
    window_start: int,
    window_end: int,
    a: int,
    b: int,
)
    requires
        valid_window(source, window_start, window_end),
        a <= b <= window_start,
    ensures
        piece(source, window_start, window_end, a, b) == Seq::<char>::empty(),
{
    assert(piece(source, window_start, window_end, a, b) =~= Seq::<char>::empty());
}

/// Adding a span adds its text.
pub proof fn lemma_spans_text_push(spans: Seq<StyledText>, span: StyledText)
    ensures
        spans_text(spans.push(span)) == spans_text(spans) + span.text@,
{
    assert(spans.push(span).drop_last() =~= spans);
}

/// The text of two runs of spans, one after the other.
pub proof fn lemma_spans_text_append(a: Seq<StyledText>, b: Seq<StyledText>)
    ensures
        spans_text(a + b) == spans_text(a) + spans_text(b),
    decreases b.len(),
{
    if b.len() == 0 {
        assert(a + b =~= a);
        assert(spans_text(b) =~= Seq::<char>::empty());
        assert(spans_text(a) + spans_text(b) =~= spans_text(a));
    } else {
        lemma_spans_text_append(a, b.drop_last());
        assert((a + b).drop_last() =~= a + b.drop_last());
        assert(spans_text(a) + spans_text(b) =~= spans_text(a) + spans_text(b.drop_last())
            + b.last().text@);
    }
}

/// The style of every char of `spans`, in order.
#[verifier::opaque]
pub open spec fn spans_styles(spans: Seq<StyledText>) -> Seq<SpanStyle>
    decreases spans.len(),
{
    if spans.len() == 0 {
        Seq::empty()
    } else {
        spans_styles(spans.drop_last()) + run(spans.last().text@.len() as int, spans.last().style)
    }
}

/// `n` chars in `style`.
pub open spec fn run(n: int, style: SpanStyle) -> Seq<SpanStyle> {
    Seq::new(n as nat, |_i: int| style)
}

/// Of `styles`, which colour the chars from `base` on, the part that colours
/// chars in the window.
#[verifier::opaque]
pub open spec fn in_window(styles: Seq<SpanStyle>, base: int, window_start: int, window_end: int) -> Seq<
    SpanStyle,
> {
    let lo = clip(base, window_start, window_end);
    let hi = clip(base + styles.len(), window_start, window_end);
    Seq::new((hi - lo) as nat, |i: int| styles[lo - base + i])
}

/// The window's part of two runs of styles, one after the other.
pub proof fn lemma_in_window_concat(
    a: Seq<SpanStyle>,
    b: Seq<SpanStyle>,
    base: int,
    window_start: int,
    window_end: int,
)
    requires
        window_start <= window_end,
    ensures
        in_window(a + b, base, window_start, window_end) == in_window(
            a,
            base,
            window_start,
            window_end,
        ) + in_window(b, base + a.len(), window_start, window_end),
{
    reveal(in_window);
    assert(in_window(a + b, base, window_start, window_end) =~= in_window(
        a,
        base,
        window_start,
        window_end,
    ) + in_window(b, base + a.len(), window_start, window_end));
}

/// The window's part of a run in one style is a run in that style.
pub proof fn lemma_in_window_run(n: int, style: SpanStyle, base: int, window_start: int, window_end: int)
    requires
        window_start <= window_end,
        n >= 0,
    ensures
        in_window(run(n, style), base, window_start, window_end) == run(
            clip(base + n, window_start, window_end) - clip(base, window_start, window_end),
            style,
        ),
{
    reveal(in_window);
    assert(in_window(run(n, style), base, window_start, window_end) =~= run(
        clip(base + n, window_start, window_end) - clip(base, window_start, window_end),
        style,
    ));
}

/// Nothing of what colours chars before the window lies in it.
pub proof fn lemma_in_window_before(styles: Seq<SpanStyle>, base: int, window_start: int, window_end: int)
    requires
        window_start <= window_end,
        base + styles.len() <= window_start,
    ensures
        in_window(styles, base, window_start, window_end) == Seq::<SpanStyle>::empty(),
{
    reveal(in_window);
    assert(in_window(styles, base, window_start, window_end) =~= Seq::<SpanStyle>::empty());
}

/// Nothing colours nothing in the window.
pub proof fn lemma_in_window_empty(base: int, window_start: int, window_end: int)
    requires
        window_start <= window_end,
    ensures
        in_window(Seq::<SpanStyle>::empty(), base, window_start, window_end) == Seq::<SpanStyle>::empty(),
{
    reveal(in_window);
    assert(in_window(Seq::<SpanStyle>::empty(), base, window_start, window_end) =~= Seq::<SpanStyle>::empty());
}

/// Colouring the window's part of `piece`, which colours the chars from
/// `at` on, right after the window's part of `done`, which colours those
/// from `start` to `at`, colours the window's part of both.
pub proof fn lemma_window_step(
    base: Seq<SpanStyle>,
    before: Seq<SpanStyle>,
    after: Seq<SpanStyle>,
    done: Seq<SpanStyle>,
    piece: Seq<SpanStyle>,
    start: int,
    at: int,
    window_start: int,
    window_end: int,
)
    requires
        window_start <= window_end,
        done.len() == at - start,
        before == base + in_window(done, start, window_start, window_end),
        after == before + in_window(piece, at, window_start, window_end),
    ensures
        after == base + in_window(done + piece, start, window_start, window_end),
{
    lemma_in_window_concat(done, piece, start, window_start, window_end);
    assert(after =~= base + in_window(done + piece, start, window_start, window_end));
}

/// Taking the colours `piece` of a token from `cursor` to `next`, which
/// come first in what is left to read, keeps a reading and its colours in
/// step.
pub proof fn lemma_scan_step(
    first: int,
    cursor: int,
    next: int,
    window_start: int,
    window_end: int,
    done: Seq<SpanStyle>,
    piece: Seq<SpanStyle>,
    rest_now: Seq<SpanStyle>,
    rest_next: Seq<SpanStyle>,
    total: Seq<SpanStyle>,
    base: Seq<SpanStyle>,
    before: Seq<SpanStyle>,
    after: Seq<SpanStyle>,
)
    requires
        window_start <= window_end,
        done.len() == cursor - first,
        piece.len() == next - cursor,
        done + rest_now == total,
        rest_now == piece + rest_next,
        before == base + in_window(done, first, window_start, window_end),
        after == before + in_window(piece, cursor, window_start, window_end),
    ensures
        (done + piece).len() == next - first,
        (done + piece) + rest_next == total,
        after == base + in_window(done + piece, first, window_start, window_end),
{
    lemma_window_step(base, before, after, done, piece, first, cursor, window_start, window_end);
    lemma_styles_assoc(done, piece, rest_next);
}

/// `(a + b) + c` is `a + (b + c)`.
pub proof fn lemma_styles_assoc(a: Seq<SpanStyle>, b: Seq<SpanStyle>, c: Seq<SpanStyle>)
    ensures
        a + b + c == a + (b + c),
{
    assert(a + b + c =~= a + (b + c));
}

/// No spans colour no chars.
pub proof fn lemma_spans_styles_empty()
    ensures
        spans_styles(Seq::<StyledText>::empty()) == Seq::<SpanStyle>::empty(),
{
    reveal_with_fuel(spans_styles, 1);
}

/// The styles of two runs of spans, one after the other.
pub proof fn lemma_spans_styles_append(a: Seq<StyledText>, b: Seq<StyledText>)
    ensures
        spans_styles(a + b) == spans_styles(a) + spans_styles(b),
    decreases b.len(),
{
    reveal_with_fuel(spans_styles, 1);
    if b.len() == 0 {
        assert(a + b =~= a);
        assert(spans_styles(a) + spans_styles(b) =~= spans_styles(a));
    } else {
        lemma_spans_styles_append(a, b.drop_last());
        assert((a + b).drop_last() =~= a + b.drop_last());
        assert(spans_styles(a) + spans_styles(b) =~= spans_styles(a) + spans_styles(
            b.drop_last(),
        ) + run(b.last().text@.len() as int, b.last().style));
    }
}

/// How spans are cut: none is empty, and no two neighbouring spans are both
/// in the terminal's own colours (such text is one span).
pub open spec fn spans_tidy(spans: Seq<StyledText>) -> bool {
    &&& forall|i: int| 0 <= i < spans.len() ==> (#[trigger] spans[i]).text@.len() > 0
    &&& forall|i: int|
        0 < i < spans.len() ==> !(spans[i - 1].style == SpanStyle::Default
            && (#[trigger] spans[i]).style == SpanStyle::Default)
}

/// Tidy spans, then tidy spans that do not begin in the terminal's colours
/// right after a span in them, are tidy.
pub proof fn lemma_spans_tidy_append(a: Seq<StyledText>, b: Seq<StyledText>)
    requires
        spans_tidy(a),
        spans_tidy(b),
        a.len() > 0 && b.len() > 0 ==> !(a.last().style == SpanStyle::Default && b[0].style
            == SpanStyle::Default),
    ensures
        spans_tidy(a + b),
{
    assert forall|i: int| 0 < i < (a + b).len() implies !((a + b)[i - 1].style == SpanStyle::Default
        && #[trigger] (a + b)[i].style == SpanStyle::Default) by {
        if i < a.len() {
        } else if i == a.len() {
            assert((a + b)[i - 1] == a.last());
            assert((a + b)[i] == b[0]);
        } else {
            assert((a + b)[i - 1] == b[i - 1 - a.len()]);
            assert((a + b)[i] == b[i - a.len()]);
        }
    }
    assert forall|i: int| 0 <= i < (a + b).len() implies (#[trigger] (a + b)[i]).text@.len() > 0 by {
        if i < a.len() {
        } else {
            assert((a + b)[i] == b[i - a.len()]);
        }
    }
}

/// Adds `text` with `style`, joined onto the last span when both are in the
/// terminal's own colours; empty text adds nothing.
pub fn push_text_span(spans: &mut Vec<StyledText>, text: String, style: SpanStyle)
    ensures
        spans_text(final(spans)@) == spans_text(old(spans)@) + text@,
        spans_styles(final(spans)@) == spans_styles(old(spans)@) + run(text@.len() as int, style),
        text@.len() == 0 ==> final(spans)@ == old(spans)@,
        text@.len() > 0 && !(style == SpanStyle::Default && old(spans)@.len() > 0 && old(
            spans,
        )@.last().style == SpanStyle::Default) ==> final(spans)@ == old(spans)@.push(
            StyledText { text, style },
        ),
        text@.len() > 0 && style == SpanStyle::Default && old(spans)@.len() > 0 && old(
            spans,
        )@.last().style == SpanStyle::Default ==> final(spans)@.len() == old(spans)@.len()
            && final(spans)@.last().style == SpanStyle::Default && final(spans)@.drop_last() == old(
            spans,
        )@.drop_last() && final(spans)@.last().text@ == old(spans)@.last().text@ + text@,
        spans_tidy(old(spans)@) ==> spans_tidy(final(spans)@),
{
    proof {
        reveal_with_fuel(spans_styles, 1);
    }
    if text.as_str().is_empty() {
        assert(spans_styles(spans@) =~= spans_styles(spans@) + run(text@.len() as int, style));
        return;
    }
    if style == SpanStyle::Default && spans.len() > 0 && spans[spans.len() - 1].style
        == SpanStyle::Default {
        let ghost before = spans@;
        let mut previous = spans.pop().unwrap();
        assert(spans@ == before.drop_last());
        let ghost previous_text = previous.text@;
        crate::text::push_str(&mut previous.text, text.as_str());
        spans.push(previous);
        proof {
            assert(spans@.drop_last() =~= before.drop_last());
            assert(spans_text(before) == spans_text(before.drop_last()) + previous_text);
            assert(spans_text(spans@) == spans_text(before.drop_last()) + (previous_text
                + text@));
            assert(spans_text(before.drop_last()) + (previous_text + text@) =~= spans_text(
                before.drop_last(),
            ) + previous_text + text@);
            assert(spans_styles(before) == spans_styles(before.drop_last()) + run(
                previous_text.len() as int,
                SpanStyle::Default,
            ));
            assert(run(previous_text.len() as int, SpanStyle::Default) + run(
                text@.len() as int,
                SpanStyle::Default,
            ) =~= run((previous_text + text@).len() as int, SpanStyle::Default));
            assert(spans_styles(spans@) =~= spans_styles(before) + run(
                text@.len() as int,
                style,
            ));
            if spans_tidy(before) {
                assert forall|i: int| 0 <= i < spans@.len() implies (#[trigger] spans@[i]).text@.len() > 0 by {
                    if i < spans@.len() - 1 {
                        assert(spans@[i] == spans@.drop_last()[i]);
                        assert(before.drop_last()[i] == before[i]);
                    }
                }
                assert forall|i: int|
                    0 < i < spans@.len() implies !(spans@[i - 1].style == SpanStyle::Default
                    && (#[trigger] spans@[i]).style == SpanStyle::Default) by {
                    assert(spans@[i - 1] == before[i - 1]);
                    assert(spans@[i].style == before[i].style) by {
                        if i < spans@.len() - 1 {
                            assert(spans@[i] == spans@.drop_last()[i]);
                            assert(before.drop_last()[i] == before[i]);
                        }
                    }
                }
            }
        }
        return;
    }
    let ghost before = spans@;
    spans.push(StyledText { text, style });
    proof {
        assert(spans@.drop_last() =~= before);
    }
}

/// The chars `source[start..end]` as a string.
pub fn string_of(source: &[char], start: usize, end: usize) -> (s: String)
    requires
        start <= end <= source@.len(),
    ensures
        s@ == source@.subrange(start as int, end as int),
{
    let mut s = String::new();
    push_chars(&mut s, vstd::slice::slice_subrange(source, start, end));
    s
}

/// Adds the part of `source[start..end]` that lies in the window, with
/// `style` (plain text in the terminal's own colours).
pub fn push_span_window(
    spans: &mut Vec<StyledText>,
    source: &[char],
    start: usize,
    end: usize,
    style: SpanStyle,
    window_start: usize,
    window_end: usize,
)
    requires
        valid_window(source@, window_start as int, window_end as int),
        start <= end,
    ensures
        spans_text(final(spans)@) == spans_text(old(spans)@) + piece(
            source@,
            window_start as int,
            window_end as int,
            start as int,
            end as int,
        ),
        spans_styles(final(spans)@) == spans_styles(old(spans)@) + in_window(
            run(end - start, style),
            start as int,
            window_start as int,
            window_end as int,
        ),
        spans_tidy(old(spans)@) ==> spans_tidy(final(spans)@),
        old(spans)@.len() <= final(spans)@.len() <= old(spans)@.len() + 1,
        final(spans)@.len() == old(spans)@.len() + 1 ==> final(spans)@.last().style == style,
{
    proof {
        lemma_in_window_run(end - start, style, start as int, window_start as int, window_end as int);
    }
    let lo = if start < window_start {
        window_start
    } else if start > window_end {
        window_end
    } else {
        start
    };
    let hi = if end < window_start {
        window_start
    } else if end > window_end {
        window_end
    } else {
        end
    };
    if lo < hi {
        let text = string_of(source, lo, hi);
        push_text_span(spans, text, style);
    } else {
        assert(source@.subrange(lo as int, hi as int) =~= Seq::<char>::empty());
        assert(spans_text(spans@) =~= spans_text(spans@) + Seq::<char>::empty());
        assert(spans_styles(spans@) =~= spans_styles(spans@) + run(0, style));
    }
}

} // verus!
