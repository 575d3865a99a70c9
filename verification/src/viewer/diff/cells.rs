//! The pieces a diff row is drawn from: line numbers, markers, and content
//! whose changed part stands out.
use vstd::prelude::*;

use crate::decimal::{decimal_chars, push_decimal};
use crate::text::{chars_of, push_chars, string_push};
use crate::text::{is_ws, lemma_encode_utf8_len};
use crate::tui::wrap::{
    continuation_indent, continuation_indent_spec, lemma_row_start, lemma_start_before_total,
    lemma_wrap_end_progress, leading_ws_width, all_narrow, lemma_narrow_row_fits, range_at, row_count, row_end, row_indent, row_start_pos, row_text_width, rows_after, sat_add,
    wrap_ranges_window, wrapped_row_count, WrapRange,
};
use crate::viewer::highlight::lines::{highlight_content_window, ViewMode};
use crate::viewer::highlight::{
    lemma_spans_text_append, lemma_spans_text_push, spans_text, SpanStyle, StyledText,
};

use super::model::{DiffChange, DiffRange};
use crate::tui::ansi::Color;
use crate::viewer::palette::{
    added_inline_color, added_line_color, diff_added_inline_bg, diff_added_line_bg,
    diff_removed_inline_bg, diff_removed_line_bg, removed_inline_color, removed_line_color,
};

verus! {

/// Which side of a change a cell shows.
#[derive(Debug, Clone, Copy, PartialEq, Eq, Structural)]
pub enum DiffSide {
    Removed,
    Added,
}

/// How a changed cell is drawn: the side it shows and what changed.
#[derive(Debug, Clone, Copy, PartialEq, Eq, Structural)]
pub struct DiffCellStyle {
    pub side: DiffSide,
    pub change: DiffChange,
}

impl DiffCellStyle {
    /// `-` for a removed line, `+` for an added one.
    pub fn marker(self) -> (c: char)
        ensures
            c == marker_spec(self.side),
    {
        match self.side {
            DiffSide::Removed => '-',
            DiffSide::Added => '+',
        }
    }

    /// The colour of the marker.
    pub fn marker_style(self) -> (style: SpanStyle)
        ensures
            style == marker_style_spec(self.side),
    {
        match self.side {
            DiffSide::Removed => SpanStyle::DiffRemoved,
            DiffSide::Added => SpanStyle::DiffAdded,
        }
    }

    /// The background of the line.
    pub fn line_bg(self) -> (c: Color)
        ensures
            c == match self.side {
                DiffSide::Removed => removed_line_color(self.change.intensity),
                DiffSide::Added => added_line_color(self.change.intensity),
            },
    {
        match self.side {
            DiffSide::Removed => diff_removed_line_bg(self.change.intensity),
            DiffSide::Added => diff_added_line_bg(self.change.intensity),
        }
    }

    /// The background of the changed part of the line (drawn in bold).
    pub fn inline_bg(self) -> (c: Color)
        ensures
            c == match self.side {
                DiffSide::Removed => removed_inline_color(self.change.intensity),
                DiffSide::Added => added_inline_color(self.change.intensity),
            },
    {
        match self.side {
            DiffSide::Removed => diff_removed_inline_bg(self.change.intensity),
            DiffSide::Added => diff_added_inline_bg(self.change.intensity),
        }
    }

    /// The changed chars of the side shown.
    pub fn range(self) -> (r: Option<DiffRange>)
        ensures
            r == range_spec(self),
    {
        match self.side {
            DiffSide::Removed => self.change.left_range,
            DiffSide::Added => self.change.right_range,
        }
    }
}

pub open spec fn marker_spec(side: DiffSide) -> char {
    match side {
        DiffSide::Removed => '-',
        DiffSide::Added => '+',
    }
}

pub open spec fn marker_style_spec(side: DiffSide) -> SpanStyle {
    match side {
        DiffSide::Removed => SpanStyle::DiffRemoved,
        DiffSide::Added => SpanStyle::DiffAdded,
    }
}

pub open spec fn range_spec(style: DiffCellStyle) -> Option<DiffRange> {
    match style.side {
        DiffSide::Removed => style.change.left_range,
        DiffSide::Added => style.change.right_range,
    }
}

/// What a span is drawn over: the terminal's own background, the background
/// of a changed line, or the stronger one (in bold) of the part that changed.
#[derive(Debug, Clone, Copy, PartialEq, Eq, Structural)]
pub enum Backdrop {
    Plain,
    Line(DiffCellStyle),
    Inline(DiffCellStyle),
}

/// A piece of a diff row: text, its colour, and what it is drawn over.
#[derive(Debug, Clone)]
pub struct DiffSpan {
    pub text: String,
    pub style: SpanStyle,
    pub backdrop: Backdrop,
}

impl DeepView for DiffSpan {
    type V = (Seq<char>, SpanStyle, Backdrop);

    open spec fn deep_view(&self) -> (Seq<char>, SpanStyle, Backdrop) {
        (self.text@, self.style, self.backdrop)
    }
}

/// The background a changed line's cells are drawn over, or none.
pub open spec fn line_backdrop(bg: Option<DiffCellStyle>) -> Backdrop {
    match bg {
        Some(style) => Backdrop::Line(style),
        None => Backdrop::Plain,
    }
}

/// All the text of a row of spans.
pub open spec fn diff_text(spans: Seq<(Seq<char>, SpanStyle, Backdrop)>) -> Seq<char>
    decreases spans.len(),
{
    if spans.len() == 0 {
        Seq::empty()
    } else {
        diff_text(spans.drop_last()) + spans.last().0
    }
}

/// What each char of a row of spans is drawn over.
pub open spec fn backdrops(spans: Seq<(Seq<char>, SpanStyle, Backdrop)>) -> Seq<Backdrop>
    decreases spans.len(),
{
    if spans.len() == 0 {
        Seq::empty()
    } else {
        backdrops(spans.drop_last()) + Seq::new(spans.last().0.len(), |k: int| spans.last().2)
    }
}

/// `n` spaces.
pub open spec fn spaces(n: int) -> Seq<char> {
    Seq::new(n as nat, |i: int| ' ')
}

pub proof fn lemma_views_push(s: Seq<(Seq<char>, SpanStyle, Backdrop)>, x: (Seq<char>, SpanStyle, Backdrop))
    ensures
        diff_text(s.push(x)) == diff_text(s) + x.0,
        backdrops(s.push(x)) == backdrops(s) + Seq::new(x.0.len(), |k: int| x.2),
        diff_text(s).len() == backdrops(s).len(),
    decreases s.len(),
{
    assert(s.push(x).drop_last() =~= s);
    if s.len() > 0 {
        lemma_views_push(s.drop_last(), s.last());
        assert(s.drop_last().push(s.last()) =~= s);
    }
}

/// Spans appended after others add their text and backdrops after the
/// others'.
pub proof fn lemma_views_append(s: Seq<(Seq<char>, SpanStyle, Backdrop)>, t: Seq<(Seq<char>, SpanStyle, Backdrop)>)
    ensures
        diff_text(s + t) == diff_text(s) + diff_text(t),
        backdrops(s + t) == backdrops(s) + backdrops(t),
    decreases t.len(),
{
    if t.len() == 0 {
        assert(s + t =~= s);
        assert(diff_text(s) + diff_text(t) =~= diff_text(s));
        assert(backdrops(s) + backdrops(t) =~= backdrops(s));
    } else {
        lemma_views_append(s, t.drop_last());
        assert((s + t).drop_last() =~= s + t.drop_last());
        assert((s + t).last() == t.last());
        assert(diff_text(s + t) =~= diff_text(s) + diff_text(t));
        assert(backdrops(s + t) =~= backdrops(s) + backdrops(t));
    }
}

/// Appends `n` spaces.
pub fn push_spaces(out: &mut String, n: usize)
    ensures
        final(out)@ == old(out)@ + spaces(n as int),
{
    let mut i: usize = 0;
    while i < n
        invariant
            i <= n,
            out@ == old(out)@ + spaces(i as int),
        decreases n - i,
    {
        string_push(out, ' ');
        i += 1;
        assert(out@ =~= old(out)@ + spaces(i as int));
    }
}

/// Appends `text` in `style`, over the line background of `bg` if any.
pub fn push_styled_text(spans: &mut Vec<DiffSpan>, text: &str, style: SpanStyle, bg: Option<DiffCellStyle>)
    ensures
        final(spans).deep_view() == old(spans).deep_view().push((text@, style, line_backdrop(bg))),
{
    let mut owned = String::new();
    crate::text::push_str(&mut owned, text);
    let span = DiffSpan { text: owned, style, backdrop: line_backdrop_of(bg) };
    spans.push(span);
    assert(spans.deep_view() =~= old(spans).deep_view().push((text@, style, line_backdrop(bg))));
}

fn line_backdrop_of(bg: Option<DiffCellStyle>) -> (b: Backdrop)
    ensures
        b == line_backdrop(bg),
{
    match bg {
        Some(style) => Backdrop::Line(style),
        None => Backdrop::Plain,
    }
}

/// Fills the rest of a row with `count` spaces over the background of `bg`.
pub fn fill_row(spans: &mut Vec<DiffSpan>, count: usize, bg: Option<DiffCellStyle>)
    ensures
        count == 0 ==> final(spans).deep_view() == old(spans).deep_view(),
        count > 0 ==> final(spans).deep_view() == old(spans).deep_view().push(
            (spaces(count as int), SpanStyle::Default, line_backdrop(bg)),
        ),
{
    if count == 0 {
        return;
    }
    let mut text = String::new();
    push_spaces(&mut text, count);
    assert(text@ =~= spaces(count as int));
    let span = DiffSpan { text, style: SpanStyle::Default, backdrop: line_backdrop_of(bg) };
    spans.push(span);
    assert(spans.deep_view() =~= old(spans).deep_view().push(
        (spaces(count as int), SpanStyle::Default, line_backdrop(bg)),
    ));
}

/// A line number right-aligned in `digits` columns, or blank when the row
/// has none.
pub open spec fn number_text(number: Option<usize>, digits: int) -> Seq<char> {
    match number {
        Some(n) => {
            let d = decimal_chars(n as nat);
            if d.len() < digits {
                spaces(digits - d.len()) + d
            } else {
                d
            }
        },
        None => spaces(digits),
    }
}

/// Appends a line number (or blanks) in the gutter's colour.
pub fn push_number(spans: &mut Vec<DiffSpan>, number: Option<usize>, digits: usize, bg: Option<DiffCellStyle>)
    ensures
        final(spans).deep_view() == old(spans).deep_view().push(
            (number_text(number, digits as int), SpanStyle::Gutter, line_backdrop(bg)),
        ),
{
    let mut text = String::new();
    match number {
        Some(n) => {
            let mut digits_text = String::new();
            push_decimal(&mut digits_text, n);
            let len = chars_of(digits_text.as_str()).len();
            if len < digits {
                push_spaces(&mut text, digits - len);
            }
            crate::text::push_str(&mut text, digits_text.as_str());
            assert(text@ =~= number_text(number, digits as int));
        },
        None => {
            push_spaces(&mut text, digits);
            assert(text@ =~= number_text(number, digits as int));
        },
    }
    let span = DiffSpan { text, style: SpanStyle::Gutter, backdrop: line_backdrop_of(bg) };
    spans.push(span);
    assert(spans.deep_view() =~= old(spans).deep_view().push(
        (number_text(number, digits as int), SpanStyle::Gutter, line_backdrop(bg)),
    ));
}

/// Chars `start..end` of `text`, as far as it reaches.
pub open spec fn char_slice(text: Seq<char>, start: int, end: int) -> Seq<char> {
    let lo = if start < text.len() {
        start
    } else {
        text.len() as int
    };
    let hi = if end < lo {
        lo
    } else if end < text.len() {
        end
    } else {
        text.len() as int
    };
    text.subrange(lo, hi)
}

/// Chars `start..end` of `text`.
pub fn slice_char_range(text: &str, start: usize, end: usize) -> (out: String)
    ensures
        out@ == char_slice(text@, start as int, end as int),
{
    let cs = chars_of(text);
    let n = cs.len();
    let lo = if start < n {
        start
    } else {
        n
    };
    let hi = if end < lo {
        lo
    } else if end < n {
        end
    } else {
        n
    };
    let mut out = String::new();
    push_chars(&mut out, vstd::slice::slice_subrange(cs.as_slice(), lo, hi));
    assert(out@ =~= char_slice(text@, start as int, end as int));
    out
}

/// What the char at position `pos` of a line is drawn over: the changed part
/// of a changed line stands out from the rest of it.
pub open spec fn backdrop_at(diff_style: Option<DiffCellStyle>, pos: int) -> Backdrop {
    match diff_style {
        None => Backdrop::Plain,
        Some(style) => match range_spec(style) {
            None => Backdrop::Line(style),
            Some(r) => if r.start <= pos < r.end {
                Backdrop::Inline(style)
            } else {
                Backdrop::Line(style)
            },
        },
    }
}

/// The change a cell shows, if any, has well-formed ranges.
pub open spec fn style_ok(diff_style: Option<DiffCellStyle>) -> bool {
    diff_style matches Some(style) ==> style.change.wf()
}

/// The spans appended to `before` to make `after` all have style `style`.
/// `after` begins with all of `before`: spans were only added after it.
pub open spec fn keeps(
    before: Seq<(Seq<char>, SpanStyle, Backdrop)>,
    after: Seq<(Seq<char>, SpanStyle, Backdrop)>,
) -> bool {
    before.len() <= after.len() && after.take(before.len() as int) == before
}

/// Keeping is transitive.
pub proof fn lemma_keeps_trans(
    a: Seq<(Seq<char>, SpanStyle, Backdrop)>,
    b: Seq<(Seq<char>, SpanStyle, Backdrop)>,
    c: Seq<(Seq<char>, SpanStyle, Backdrop)>,
)
    requires
        keeps(a, b),
        keeps(b, c),
    ensures
        keeps(a, c),
{
    assert(c.take(a.len() as int) =~= c.take(b.len() as int).take(a.len() as int));
}

/// Pushing a span keeps what was there.
pub proof fn lemma_keeps_push(
    a: Seq<(Seq<char>, SpanStyle, Backdrop)>,
    x: (Seq<char>, SpanStyle, Backdrop),
)
    ensures
        keeps(a, a.push(x)),
{
    assert(a.push(x).take(a.len() as int) =~= a);
}

pub open spec fn appended_in(
    before: Seq<(Seq<char>, SpanStyle, Backdrop)>,
    after: Seq<(Seq<char>, SpanStyle, Backdrop)>,
    style: SpanStyle,
) -> bool {
    &&& before.len() <= after.len()
    &&& after.take(before.len() as int) == before
    &&& forall|j: int| before.len() <= j < after.len() ==> (#[trigger] after[j]).1 == style
}

pub proof fn lemma_appended_push(
    before: Seq<(Seq<char>, SpanStyle, Backdrop)>,
    x: (Seq<char>, SpanStyle, Backdrop),
    style: SpanStyle,
)
    requires
        x.1 == style,
    ensures
        appended_in(before, before.push(x), style),
{
    assert(before.push(x).take(before.len() as int) =~= before);
}

pub proof fn lemma_appended_refl(s: Seq<(Seq<char>, SpanStyle, Backdrop)>, style: SpanStyle)
    ensures
        appended_in(s, s, style),
{
    assert(s.take(s.len() as int) =~= s);
}

pub proof fn lemma_appended_trans(
    a: Seq<(Seq<char>, SpanStyle, Backdrop)>,
    b: Seq<(Seq<char>, SpanStyle, Backdrop)>,
    c: Seq<(Seq<char>, SpanStyle, Backdrop)>,
    style: SpanStyle,
)
    requires
        appended_in(a, b, style),
        appended_in(b, c, style),
    ensures
        appended_in(a, c, style),
{
    assert(c.take(a.len() as int) =~= b.take(a.len() as int)) by {
        assert forall|j: int| 0 <= j < a.len() implies c[j] == b[j] by {
            assert(c.take(b.len() as int)[j] == c[j]);
        }
    }
    assert forall|j: int| a.len() <= j < c.len() implies (#[trigger] c[j]).1 == style by {
        if j < b.len() {
            assert(c.take(b.len() as int)[j] == c[j]);
            assert(b[j].1 == style);
        }
    }
}

/// Appends chars `start..end` of `text`, unless that is empty.
pub fn push_optional_segment(
    spans: &mut Vec<DiffSpan>,
    text: &str,
    start: usize,
    end: usize,
    style: SpanStyle,
    backdrop: Backdrop,
)
    ensures
        start >= end ==> final(spans).deep_view() == old(spans).deep_view(),
        start < end ==> final(spans).deep_view() == old(spans).deep_view().push(
            (char_slice(text@, start as int, end as int), style, backdrop),
        ),
{
    if start >= end {
        return;
    }
    let piece = slice_char_range(text, start, end);
    let span = DiffSpan { text: piece, style, backdrop };
    spans.push(span);
    assert(spans.deep_view() =~= old(spans).deep_view().push(
        (char_slice(text@, start as int, end as int), style, backdrop),
    ));
}

/// Appends `text`, which starts at char `start_char` of its line, in
/// `base_style`; over a changed line's background when `diff_style` is
/// given, the chars of its changed part over the stronger one.
pub fn push_diff_span_segments(
    spans: &mut Vec<DiffSpan>,
    text: &str,
    start_char: usize,
    base_style: SpanStyle,
    diff_style: Option<DiffCellStyle>,
)
    requires
        start_char + text@.len() <= usize::MAX,
        style_ok(diff_style),
    ensures
        diff_text(final(spans).deep_view()) == diff_text(old(spans).deep_view()) + text@,
        backdrops(final(spans).deep_view()) == backdrops(old(spans).deep_view()) + Seq::new(
            text@.len(),
            |k: int| backdrop_at(diff_style, start_char + k),
        ),
        appended_in(old(spans).deep_view(), final(spans).deep_view(), base_style),
{
    let ghost old_view = spans.deep_view();
    let ghost len = text@.len() as int;
    let style = match diff_style {
        None => {
            let mut owned = String::new();
            crate::text::push_str(&mut owned, text);
            spans.push(DiffSpan { text: owned, style: base_style, backdrop: Backdrop::Plain });
            proof {
                assert(spans.deep_view() =~= old_view.push((text@, base_style, Backdrop::Plain)));
                lemma_views_push(old_view, (text@, base_style, Backdrop::Plain));
            lemma_appended_push(old_view, (text@, base_style, Backdrop::Plain), base_style);
                lemma_appended_push(old_view, (text@, base_style, Backdrop::Plain), base_style);
                assert(Seq::new(len as nat, |k: int| Backdrop::Plain) =~= Seq::new(len as nat, |k: int| backdrop_at(diff_style, start_char + k)));
            }
            return;
        },
        Some(style) => style,
    };
    let range = match style.range() {
        None => {
            let mut owned = String::new();
            crate::text::push_str(&mut owned, text);
            spans.push(DiffSpan { text: owned, style: base_style, backdrop: Backdrop::Line(style) });
            proof {
                assert(spans.deep_view() =~= old_view.push((text@, base_style, Backdrop::Line(style))));
                lemma_views_push(old_view, (text@, base_style, Backdrop::Line(style)));
            lemma_appended_push(old_view, (text@, base_style, Backdrop::Line(style)), base_style);
                lemma_appended_push(old_view, (text@, base_style, Backdrop::Line(style)), base_style);
                assert(Seq::new(len as nat, |k: int| Backdrop::Line(style)) =~= Seq::new(len as nat, |k: int| backdrop_at(diff_style, start_char + k)));
            }
            return;
        },
        Some(r) => r,
    };
    let text_len = chars_of(text).len();
    let end_char = start_char + text_len;
    if range.end <= start_char || range.start >= end_char {
        let mut owned = String::new();
        crate::text::push_str(&mut owned, text);
        spans.push(DiffSpan { text: owned, style: base_style, backdrop: Backdrop::Line(style) });
        proof {
            assert(spans.deep_view() =~= old_view.push((text@, base_style, Backdrop::Line(style))));
            lemma_views_push(old_view, (text@, base_style, Backdrop::Line(style)));
            lemma_appended_push(old_view, (text@, base_style, Backdrop::Line(style)), base_style);
            assert(Seq::new(len as nat, |k: int| Backdrop::Line(style)) =~= Seq::new(len as nat, |k: int| backdrop_at(diff_style, start_char + k)));
        }
        return;
    }
    if range.start <= start_char && range.end >= end_char {
        let mut owned = String::new();
        crate::text::push_str(&mut owned, text);
        spans.push(DiffSpan { text: owned, style: base_style, backdrop: Backdrop::Inline(style) });
        proof {
            assert(spans.deep_view() =~= old_view.push((text@, base_style, Backdrop::Inline(style))));
            lemma_views_push(old_view, (text@, base_style, Backdrop::Inline(style)));
            lemma_appended_push(old_view, (text@, base_style, Backdrop::Inline(style)), base_style);
            assert(Seq::new(len as nat, |k: int| Backdrop::Inline(style)) =~= Seq::new(len as nat, |k: int| backdrop_at(diff_style, start_char + k)));
        }
        return;
    }
    let before_end = if range.start > start_char {
        if range.start - start_char < text_len {
            range.start - start_char
        } else {
            text_len
        }
    } else {
        0
    };
    let inline_end = if range.end > start_char {
        if range.end - start_char < text_len {
            range.end - start_char
        } else {
            text_len
        }
    } else {
        0
    };
    assert(before_end <= inline_end);
    let ghost t = text@;
    let ghost s0 = spans.deep_view();
    push_optional_segment(spans, text, 0, before_end, base_style, Backdrop::Line(style));
    let ghost s1 = spans.deep_view();
    proof {
        if 0 < before_end {
            lemma_views_push(s0, (char_slice(t, 0, before_end as int), base_style, Backdrop::Line(style)));
            lemma_appended_push(s0, (char_slice(t, 0, before_end as int), base_style, Backdrop::Line(style)), base_style);
        } else {
            lemma_appended_refl(s0, base_style);
        }
        assert(char_slice(t, 0, before_end as int) =~= t.subrange(0, before_end as int));
        assert(diff_text(s1) =~= diff_text(s0) + t.subrange(0, before_end as int));
        assert(backdrops(s1) =~= backdrops(s0) + Seq::new(before_end as nat, |k: int| Backdrop::Line(style)));
    }
    push_optional_segment(spans, text, before_end, inline_end, base_style, Backdrop::Inline(style));
    let ghost s2 = spans.deep_view();
    proof {
        if before_end < inline_end {
            lemma_views_push(
                s1,
                (char_slice(t, before_end as int, inline_end as int), base_style, Backdrop::Inline(style)),
            );
            lemma_appended_push(
                s1,
                (char_slice(t, before_end as int, inline_end as int), base_style, Backdrop::Inline(style)),
                base_style,
            );
        } else {
            lemma_appended_refl(s1, base_style);
        }
        lemma_appended_trans(s0, s1, s2, base_style);
        assert(char_slice(t, before_end as int, inline_end as int) =~= t.subrange(
            before_end as int,
            inline_end as int,
        ));
        assert(diff_text(s2) =~= diff_text(s1) + t.subrange(before_end as int, inline_end as int));
        assert(backdrops(s2) =~= backdrops(s1) + Seq::new(
            (inline_end - before_end) as nat,
            |k: int| Backdrop::Inline(style),
        ));
    }
    push_optional_segment(spans, text, inline_end, text_len, base_style, Backdrop::Line(style));
    let ghost s3 = spans.deep_view();
    proof {
        if inline_end < text_len {
            lemma_views_push(
                s2,
                (char_slice(t, inline_end as int, text_len as int), base_style, Backdrop::Line(style)),
            );
            lemma_appended_push(
                s2,
                (char_slice(t, inline_end as int, text_len as int), base_style, Backdrop::Line(style)),
                base_style,
            );
        } else {
            lemma_appended_refl(s2, base_style);
        }
        lemma_appended_trans(s0, s2, s3, base_style);
        assert(char_slice(t, inline_end as int, text_len as int) =~= t.subrange(inline_end as int, len));
        assert(diff_text(s3) =~= diff_text(s2) + t.subrange(inline_end as int, len));
        assert(backdrops(s3) =~= backdrops(s2) + Seq::new(
            (text_len - inline_end) as nat,
            |k: int| Backdrop::Line(style),
        ));
        assert(diff_text(s3) =~= diff_text(old_view) + t);
        let want = Seq::new(t.len(), |k: int| backdrop_at(diff_style, start_char + k));
        assert(backdrops(s3) =~= backdrops(old_view) + want) by {
            lemma_views_push(old_view, (Seq::<char>::empty(), base_style, Backdrop::Plain));
            assert forall|k: int| 0 <= k < want.len() implies (backdrops(s3).subrange(
                backdrops(old_view).len() as int,
                backdrops(s3).len() as int,
            ))[k] == want[k] by {
                assert(range_spec(style) == Some(range));
            }
        }
    }
}

/// `x` kept within `0..=len`.
pub open spec fn clamp_len(x: int, len: int) -> int {
    if x < len {
        x
    } else {
        len
    }
}

/// Chars `start .. end` of `content`, as far as it reaches.
pub open spec fn char_window(content: Seq<char>, start: int, end: int) -> (int, int) {
    let ws = clamp_len(start, content.len() as int);
    let we0 = clamp_len(end, content.len() as int);
    (ws, if we0 < ws {
        ws
    } else {
        we0
    })
}

/// Appends the content of a cell from char `x` on, `width` chars at most,
/// coloured as structured text, its changed part standing out; tells how
/// many chars it wrote.
pub fn push_structured_content(
    spans: &mut Vec<DiffSpan>,
    content: &str,
    x: usize,
    width: usize,
    diff_style: Option<DiffCellStyle>,
) -> (written: usize)
    requires
        content@.len() <= usize::MAX / 8,
        style_ok(diff_style),
    ensures
        ({
            let (ws, we) = if width == 0 {
                (0, 0)
            } else {
                char_window(content@, x as int, sat_add(x as int, width as int))
            };
            &&& written == we - ws
            &&& diff_text(final(spans).deep_view()) == diff_text(old(spans).deep_view())
                + content@.subrange(ws, we)
            &&& backdrops(final(spans).deep_view()) == backdrops(old(spans).deep_view()) + Seq::new(
                (we - ws) as nat,
                |k: int| backdrop_at(diff_style, ws + k),
            )
        }),
        keeps(old(spans).deep_view(), final(spans).deep_view()),
{
    proof {
        assert(old(spans).deep_view().take(old(spans).deep_view().len() as int) =~= old(spans).deep_view());
    }
    if width == 0 {
        proof {
            assert(content@.subrange(0, 0) =~= Seq::<char>::empty());
            assert(diff_text(spans.deep_view()) =~= diff_text(old(spans).deep_view()) + Seq::<char>::empty());
            assert(backdrops(spans.deep_view()) =~= backdrops(old(spans).deep_view()) + Seq::new(
                0,
                |k: int| backdrop_at(diff_style, k),
            ));
        }
        return 0;
    }
    let end = if x > usize::MAX - width {
        usize::MAX
    } else {
        x + width
    };
    push_structured_content_range(spans, content, x, end, diff_style)
}

/// Appends chars `start_char..end_char` of a cell's content, coloured as
/// structured text, its changed part standing out; tells how many chars it
/// wrote.
pub fn push_structured_content_range(
    spans: &mut Vec<DiffSpan>,
    content: &str,
    start_char: usize,
    end_char: usize,
    diff_style: Option<DiffCellStyle>,
) -> (written: usize)
    requires
        content@.len() <= usize::MAX / 8,
        style_ok(diff_style),
    ensures
        ({
            let (ws, we) = if start_char >= end_char {
                (0, 0)
            } else {
                char_window(content@, start_char as int, end_char as int)
            };
            &&& written == we - ws
            &&& diff_text(final(spans).deep_view()) == diff_text(old(spans).deep_view())
                + content@.subrange(ws, we)
            &&& backdrops(final(spans).deep_view()) == backdrops(old(spans).deep_view()) + Seq::new(
                (we - ws) as nat,
                |k: int| backdrop_at(diff_style, ws + k),
            )
        }),
        keeps(old(spans).deep_view(), final(spans).deep_view()),
{
    proof {
        assert(old(spans).deep_view().take(old(spans).deep_view().len() as int) =~= old(spans).deep_view());
    }
    if start_char >= end_char {
        proof {
            assert(content@.subrange(0, 0) =~= Seq::<char>::empty());
            assert(diff_text(spans.deep_view()) =~= diff_text(old(spans).deep_view()) + Seq::<char>::empty());
            assert(backdrops(spans.deep_view()) =~= backdrops(old(spans).deep_view()) + Seq::new(
                0,
                |k: int| backdrop_at(diff_style, k),
            ));
        }
        return 0;
    }
    let x = start_char;
    let highlighted = highlight_content_window(content, ViewMode::Plain, start_char, end_char);
    let ghost window = char_window(content@, start_char as int, end_char as int);
    let ghost shown = content@.subrange(window.0, window.1);
    assert(spans_text(highlighted@) == shown);
    let ghost old_view = spans.deep_view();
    let mut cursor = x;
    let mut written: usize = 0;
    let mut i: usize = 0;
    while i < highlighted.len()
        invariant
            i <= highlighted@.len(),
            spans_text(highlighted@) == shown,
            shown == content@.subrange(window.0, window.1),
            window == char_window(content@, x as int, end_char as int),
            content@.len() <= usize::MAX / 8,
            style_ok(diff_style),
            written == spans_text(highlighted@.take(i as int)).len(),
            cursor == x + written,
            (x as int) < content@.len() || written == 0,
            diff_text(spans.deep_view()) == diff_text(old_view) + spans_text(highlighted@.take(i as int)),
            keeps(old_view, spans.deep_view()),
            backdrops(spans.deep_view()) == backdrops(old_view) + Seq::new(
                written as nat,
                |k: int| backdrop_at(diff_style, x + k),
            ),
        decreases highlighted@.len() - i,
    {
        let span = &highlighted[i];
        let count = chars_of(span.text.as_str()).len();
        proof {
            lemma_spans_text_append(highlighted@.take(i as int), highlighted@.skip(i as int));
            assert(highlighted@.take(i as int) + highlighted@.skip(i as int) =~= highlighted@);
            assert(highlighted@.skip(i as int) =~= seq![highlighted@[i as int]] + highlighted@.skip(i + 1));
            lemma_spans_text_append(seq![highlighted@[i as int]], highlighted@.skip(i + 1));
            assert(seq![highlighted@[i as int]] =~= Seq::<StyledText>::empty().push(highlighted@[i as int]));
            lemma_spans_text_push(Seq::<StyledText>::empty(), highlighted@[i as int]);
            assert(highlighted@.take(i + 1) =~= highlighted@.take(i as int).push(highlighted@[i as int]));
            lemma_spans_text_push(highlighted@.take(i as int), highlighted@[i as int]);
            assert(spans_text(highlighted@).len() >= written + count);
            if count > 0 {
                assert((x as int) < content@.len());
                assert(window.0 == x);
                assert(x + written + count <= window.1);
            }
        }
        let ghost before = spans.deep_view();
        push_diff_span_segments(spans, span.text.as_str(), cursor, span.style, diff_style);
        proof {
            lemma_keeps_trans(old_view, before, spans.deep_view());
            let added = Seq::new(count as nat, |k: int| backdrop_at(diff_style, cursor + k));
            let total = Seq::new((written + count) as nat, |k: int| backdrop_at(diff_style, x + k));
            assert(Seq::new(written as nat, |k: int| backdrop_at(diff_style, x + k)) + added =~= total);
            assert(backdrops(old_view) + Seq::new(written as nat, |k: int| backdrop_at(diff_style, x + k))
                + added =~= backdrops(old_view) + total);
        }
        cursor = cursor + count;
        written = written + count;
        i += 1;
    }
    proof {
        assert(highlighted@.take(highlighted@.len() as int) =~= highlighted@);
        if written > 0 {
            assert(window.0 == x);
        }
        assert(Seq::new(written as nat, |k: int| backdrop_at(diff_style, x + k)) =~= Seq::new(
            written as nat,
            |k: int| backdrop_at(diff_style, window.0 + k),
        ));
    }
    written
}

/// The first `width` chars of `text` as one span, over no background.
pub fn styled_text_line(text: &str, width: usize, style: SpanStyle) -> (line: Vec<DiffSpan>)
    ensures
        line.deep_view() == seq![(char_slice(text@, 0, width as int), style, Backdrop::Plain)],
{
    let piece = slice_char_range(text, 0, width);
    let mut line: Vec<DiffSpan> = Vec::new();
    line.push(DiffSpan { text: piece, style, backdrop: Backdrop::Plain });
    assert(line.deep_view() =~= seq![(char_slice(text@, 0, width as int), style, Backdrop::Plain)]);
    line
}

/// The row of `cs` wrapped at `width` columns (with its continuation indent)
/// that a window starting at row `row` shows first: none past the last row;
/// an empty line shows one empty row.
#[verifier::opaque]
pub open spec fn first_row_from(cs: Seq<char>, width: int, row: int) -> Option<WrapRange> {
    let bs = vstd::utf8::encode_utf8(cs);
    let ci = continuation_indent_spec(cs, width);
    if bs.len() == 0 || width == 0 {
        Some(WrapRange { start_char: 0, end_char: 0, start_byte: 0, end_byte: 0, continuation_indent: 0 })
    } else if row < rows_after(cs, bs, width, ci, 0) {
        Some(range_at(cs, bs, width, ci, row as nat))
    } else {
        None
    }
}

/// How many rows a cell's content wraps to at `width` columns (at least one),
/// or one for an empty cell.
pub open spec fn content_rows_spec(content: Option<Seq<char>>, width: int) -> int {
    match content {
        None => 1,
        Some(cs) => {
            let w = if width < 1 {
                1
            } else {
                width
            };
            row_count(cs, vstd::utf8::encode_utf8(cs), w, continuation_indent_spec(cs, w)) as int
        },
    }
}

/// How many rows a cell's content wraps to.
pub fn wrapped_content_visual_count(content: Option<&str>, width: usize) -> (rows: usize)
    ensures
        rows == content_rows_spec(
            match content {
                Some(c) => Some(c@),
                None => None,
            },
            width as int,
        ),
{
    match content {
        None => 1,
        Some(content) => {
            let width = if width < 1 {
                1
            } else {
                width
            };
            let indent = continuation_indent(content, width);
            wrapped_row_count(content, width, indent)
        },
    }
}

/// What a wrapped row of a cell adds: its continuation indent, then its
/// chars, then (when filling) spaces up to the width `w`; with no row, only
/// the filling.
pub open spec fn slice_text_for(content: Seq<char>, w: int, row: Option<WrapRange>, fill: bool) -> Seq<char> {
    match row {
        None => if fill {
            spaces(w)
        } else {
            Seq::empty()
        },
        Some(r) => {
            let body = spaces(r.continuation_indent as int) + content.subrange(
                r.start_char as int,
                r.end_char as int,
            );
            if fill && body.len() < w {
                body + spaces(w - body.len())
            } else {
                body
            }
        },
    }
}

/// The width a cell's content wraps at: at least one column.
pub open spec fn cell_width(content_width: int) -> int {
    if content_width < 1 {
        1
    } else {
        content_width
    }
}

/// What wrapped row `row_offset` of a cell adds.
pub open spec fn wrapped_slice_text(content: Seq<char>, content_width: int, row_offset: int, fill: bool) -> Seq<
    char,
> {
    slice_text_for(
        content,
        cell_width(content_width),
        first_row_from(content, cell_width(content_width), row_offset),
        fill,
    )
}

/// The row of `content` wrapped at `width` columns that a window starting at
/// row `row` shows first.
fn first_wrapped_row(content: &str, width: usize, row: usize) -> (r: Option<WrapRange>)
    requires
        width >= 1,
        content@.len() <= usize::MAX / 8,
    ensures
        r == first_row_from(content@, width as int, row as int),
{
    let indent = continuation_indent(content, width);
    let window = wrap_ranges_window(content, width, indent, row, 1);
    proof {
        reveal(first_row_from);
        lemma_encode_utf8_len(content@);
        crate::text::lemma_byte_len_bound(content@);
        let cs = content@;
        let bs = vstd::utf8::encode_utf8(cs);
        let ci = continuation_indent_spec(cs, width as int);
        if bs.len() > 0 && row < rows_after(cs, bs, width as int, ci, 0) {
            lemma_start_before_total(cs, bs, width as int, ci, row as nat);
            lemma_row_start(cs, bs, width as int, ci, row as nat);
            assert(row < bs.len());
        }
    }
    if window.ranges.len() == 0 {
        None
    } else {
        Some(window.ranges[0])
    }
}

/// Appends wrapped row `row_offset` of a cell's content in `content_width`
/// columns (at least one): its continuation indent, its chars coloured as
/// structured text, and, when `fill`, spaces over `bg` to the width; tells
/// how many chars of indent and content it wrote.
#[verifier::rlimit(30)]
pub fn push_wrapped_content_slice(
    spans: &mut Vec<DiffSpan>,
    content: &str,
    content_width: usize,
    row_offset: usize,
    diff_style: Option<DiffCellStyle>,
    bg: Option<DiffCellStyle>,
    fill: bool,
) -> (written: usize)
    requires
        content@.len() <= usize::MAX / 8,
        style_ok(diff_style),
    ensures
        diff_text(final(spans).deep_view()) == diff_text(old(spans).deep_view()) + wrapped_slice_text(
            content@,
            content_width as int,
            row_offset as int,
            fill,
        ),
        keeps(old(spans).deep_view(), final(spans).deep_view()),
{
    let content_width = if content_width < 1 {
        1
    } else {
        content_width
    };
    let first = first_wrapped_row(content, content_width, row_offset);
    let ghost old_view = spans.deep_view();
    proof {
        assert(old_view.take(old_view.len() as int) =~= old_view);
    }
    let range = match first {
        Some(r) => r,
        None => {
            if fill {
                fill_row(spans, content_width, bg);
                proof {
                    lemma_views_push(old_view, (spaces(content_width as int), SpanStyle::Default, line_backdrop(bg)));
                    lemma_keeps_push(old_view, (spaces(content_width as int), SpanStyle::Default, line_backdrop(bg)));
                }
            } else {
                assert(diff_text(old_view) + Seq::<char>::empty() =~= diff_text(old_view));
            }
            return 0;
        },
    };
    if range.continuation_indent > 0 {
        let mut pad = String::new();
        push_spaces(&mut pad, range.continuation_indent);
        push_styled_text(spans, pad.as_str(), SpanStyle::Plain, bg);
        proof {
            lemma_views_push(old_view, (pad@, SpanStyle::Plain, line_backdrop(bg)));
            lemma_keeps_push(old_view, (pad@, SpanStyle::Plain, line_backdrop(bg)));
        }
    } else {
        assert(diff_text(old_view) + spaces(0) =~= diff_text(old_view));
    }
    let ghost mid = spans.deep_view();
    proof {
        lemma_range_in_line(content@, content_width as int, row_offset as int);
    }
    let body = push_structured_content_range(spans, content, range.start_char, range.end_char, diff_style);
    proof {
        if range.start_char >= range.end_char {
            assert(content@.subrange(range.start_char as int, range.end_char as int) =~= Seq::<char>::empty());
            assert(content@.subrange(0, 0) =~= Seq::<char>::empty());
        }
    }
    let written = range.continuation_indent + body;
    let ghost after = spans.deep_view();
    proof {
        lemma_keeps_trans(old_view, mid, after);
    }
    if fill {
        let rest = if content_width > written {
            content_width - written
        } else {
            0
        };
        fill_row(spans, rest, bg);
        proof {
            if rest > 0 {
                lemma_views_push(after, (spaces(rest as int), SpanStyle::Default, line_backdrop(bg)));
                lemma_keeps_push(after, (spaces(rest as int), SpanStyle::Default, line_backdrop(bg)));
                lemma_keeps_trans(old_view, after, spans.deep_view());
            }
        }
    }
    proof {
        let body_text = spaces(range.continuation_indent as int) + content@.subrange(
            range.start_char as int,
            range.end_char as int,
        );
        assert(diff_text(after) =~= diff_text(old_view) + body_text);
        assert(body_text.len() == written);
        assert(diff_text(spans.deep_view()) =~= diff_text(old_view) + wrapped_slice_text(
            content@,
            content_width as int,
            row_offset as int,
            fill,
        ));
    }
    written
}

pub proof fn lemma_leading_ws_nonneg(cs: Seq<char>, i: int)
    ensures
        leading_ws_width(cs, i) >= 0,
    decreases cs.len() - i,
{
    if 0 <= i < cs.len() && is_ws(cs[i]) {
        lemma_leading_ws_nonneg(cs, i + 1);
    }
}

/// The row a window shows first lies within its line.
pub proof fn lemma_range_in_line(cs: Seq<char>, width: int, row: int)
    requires
        row >= 0,
        cs.len() <= usize::MAX / 8,
    ensures
        first_row_from(cs, width, row) matches Some(r) ==> r.start_char <= r.end_char <= cs.len()
            && r.continuation_indent <= 24,
{
    reveal(first_row_from);
    let bs = vstd::utf8::encode_utf8(cs);
    let ci = continuation_indent_spec(cs, width);
    lemma_encode_utf8_len(cs);
    lemma_leading_ws_nonneg(cs, 0);
    if bs.len() > 0 && width != 0 && row < rows_after(cs, bs, width, ci, 0) {
        lemma_start_before_total(cs, bs, width, ci, row as nat);
        lemma_row_start(cs, bs, width, ci, row as nat);
        let (sb, sc) = row_start_pos(cs, bs, width, ci, row as nat);
        lemma_wrap_end_progress(cs, bs, sb, sc, row_text_width(row, width, ci));
        let (eb, ec) = row_end(cs, bs, width, ci, row as nat);
        assert(0 <= sc < ec <= cs.len());
        assert(0 <= ci <= 24);
        assert(0 <= row_indent(row, width, ci) <= 24);
        let r = range_at(cs, bs, width, ci, row as nat);
        assert(r.start_char == sc);
        assert(r.end_char == ec);
    }
}

/// The rows `row_start .. row_start + max_rows` of `cs` wrapped at `width`
/// columns with continuation indent `ci`, as far as there are rows; an empty
/// line has one empty row.
pub open spec fn window_rows(cs: Seq<char>, width: int, ci: int, row_start: int, max_rows: int) -> Seq<WrapRange> {
    let bs = vstd::utf8::encode_utf8(cs);
    let total = rows_after(cs, bs, width, ci, 0);
    let t = sat_add(row_start, max_rows);
    let hi = if t < total {
        t
    } else {
        total as int
    };
    if max_rows == 0 {
        Seq::empty()
    } else if bs.len() == 0 || width == 0 {
        seq![WrapRange { start_char: 0, end_char: 0, start_byte: 0, end_byte: 0, continuation_indent: 0 }]
    } else {
        Seq::new(
            (if hi > row_start {
                hi - row_start
            } else {
                0
            }) as nat,
            |j: int| range_at(cs, bs, width, ci, (row_start + j) as nat),
        )
    }
}

/// The rows `row_offset .. row_offset + height` of a note wrapped at `width`
/// columns (at least one), each as one span over no background.
pub fn render_message_window(text: &str, row_offset: usize, height: usize, width: usize, style: SpanStyle) -> (lines:
    Vec<Vec<DiffSpan>>)
    ensures
        ({
            let rows = window_rows(text@, cell_width(width as int), 0, row_offset as int, height as int);
            &&& lines@.len() == rows.len()
            &&& forall|j: int| 0 <= j < rows.len() ==> (#[trigger] lines@[j]).deep_view() == seq![
                (char_slice(text@, rows[j].start_char as int, rows[j].end_char as int), style, Backdrop::Plain),
            ]
        }),
{
    let width = if width < 1 {
        1
    } else {
        width
    };
    let window = wrap_ranges_window(text, width, 0, row_offset, height);
    let ghost rows = window_rows(text@, width as int, 0, row_offset as int, height as int);
    assert(window.ranges@ =~= rows);
    let mut lines: Vec<Vec<DiffSpan>> = Vec::new();
    let mut j: usize = 0;
    while j < window.ranges.len()
        invariant
            j <= window.ranges@.len(),
            window.ranges@ == rows,
            lines@.len() == j,
            forall|k: int| 0 <= k < j ==> (#[trigger] lines@[k]).deep_view() == seq![
                (char_slice(text@, rows[k].start_char as int, rows[k].end_char as int), style, Backdrop::Plain),
            ],
        decreases window.ranges@.len() - j,
    {
        let range = window.ranges[j];
        let piece = slice_char_range(text, range.start_char, range.end_char);
        let mut line: Vec<DiffSpan> = Vec::new();
        line.push(DiffSpan { text: piece, style, backdrop: Backdrop::Plain });
        assert(line.deep_view() =~= seq![
            (char_slice(text@, rows[j as int].start_char as int, rows[j as int].end_char as int), style, Backdrop::Plain),
        ]);
        lines.push(line);
        j += 1;
    }
    lines
}

/// One side of a side-by-side row: a numbered line, or a blank cell.
pub struct NumberedCell<'a> {
    pub number: Option<usize>,
    pub digits: usize,
    pub content: Option<&'a str>,
    pub diff_style: Option<DiffCellStyle>,
}

/// The marker of a cell: its side's when it shows a changed line, else blank.
pub open spec fn cell_marker(diff_style: Option<DiffCellStyle>, has_content: bool) -> char {
    match diff_style {
        Some(style) => if has_content {
            marker_spec(style.side)
        } else {
            ' '
        },
        None => ' ',
    }
}

/// The colour of a cell's marker.
pub open spec fn cell_marker_style(diff_style: Option<DiffCellStyle>, has_content: bool) -> SpanStyle {
    match diff_style {
        Some(style) => if has_content {
            marker_style_spec(style.side)
        } else {
            SpanStyle::Gutter
        },
        None => SpanStyle::Gutter,
    }
}

impl<'a> NumberedCell<'a> {
    /// The background of the cell's line.
    pub fn bg_style(&self) -> (bg: Option<DiffCellStyle>)
        ensures
            bg == self.diff_style,
    {
        self.diff_style
    }

    pub fn marker(&self) -> (c: char)
        ensures
            c == cell_marker(self.diff_style, self.content is Some),
    {
        match self.diff_style {
            Some(style) => if self.content.is_some() {
                style.marker()
            } else {
                ' '
            },
            None => ' ',
        }
    }

    pub fn marker_style(&self) -> (style: SpanStyle)
        ensures
            style == cell_marker_style(self.diff_style, self.content is Some),
    {
        match self.diff_style {
            Some(style) => if self.content.is_some() {
                style.marker_style()
            } else {
                SpanStyle::Gutter
            },
            None => SpanStyle::Gutter,
        }
    }
}

/// The gutter of a cell's first row: number, marker, and the spaces around.
pub open spec fn cell_gutter(number: Option<usize>, digits: int, marker: char) -> Seq<char> {
    number_text(number, digits) + seq![' '] + seq![marker] + seq![' ']
}

/// The gutter of a cell's continuation rows: blank.
pub open spec fn continuation_gutter(digits: int) -> Seq<char> {
    spaces(digits) + spaces(3)
}

/// The spans of a cell's gutter: its number (or blanks) and gaps in the
/// gutter style, its marker in its side's style, all over the cell's line
/// background.
pub open spec fn cell_gutter_spans(
    number: Option<usize>,
    digits: int,
    diff_style: Option<DiffCellStyle>,
    has_content: bool,
) -> Seq<(Seq<char>, SpanStyle, Backdrop)> {
    seq![
        (number_text(number, digits), SpanStyle::Gutter, line_backdrop(diff_style)),
        (seq![' '], SpanStyle::Gutter, line_backdrop(diff_style)),
        (seq![cell_marker(diff_style, has_content)], cell_marker_style(diff_style, has_content), line_backdrop(diff_style)),
        (seq![' '], SpanStyle::Gutter, line_backdrop(diff_style)),
    ]
}

/// What each char of an unwrapped cell is drawn over: its gutter and the
/// padding over its line background, its shown content over the line or,
/// where changed, the change background.
pub open spec fn cell_backdrops(
    number: Option<usize>,
    digits: int,
    diff_style: Option<DiffCellStyle>,
    content: Option<Seq<char>>,
    content_width: int,
    x: int,
) -> Seq<Backdrop> {
    let g = cell_gutter(number, digits, cell_marker(diff_style, content is Some)).len();
    let (ws, we) = match content {
        Some(c) => if content_width == 0 {
            (0, 0)
        } else {
            char_window(c, x, sat_add(x, content_width))
        },
        None => (0, 0),
    };
    Seq::new(g, |k: int| line_backdrop(diff_style)) + Seq::new(
        (we - ws) as nat,
        |k: int| backdrop_at(diff_style, ws + k),
    ) + Seq::new((content_width - (we - ws)) as nat, |k: int| line_backdrop(diff_style))
}

/// Adding a cell's gutter spans adds its line background under each char of
/// the gutter.
proof fn lemma_cell_gutter_backdrops(
    before: Seq<(Seq<char>, SpanStyle, Backdrop)>,
    number: Option<usize>,
    digits: int,
    diff_style: Option<DiffCellStyle>,
    has_content: bool,
)
    ensures
        backdrops(before + cell_gutter_spans(number, digits, diff_style, has_content)) == backdrops(before)
            + Seq::new(
            cell_gutter(number, digits, cell_marker(diff_style, has_content)).len(),
            |k: int| line_backdrop(diff_style),
        ),
{
    let g = cell_gutter_spans(number, digits, diff_style, has_content);
    let b1 = before.push(g[0]);
    let b2 = b1.push(g[1]);
    let b3 = b2.push(g[2]);
    let b4 = b3.push(g[3]);
    lemma_views_push(before, g[0]);
    lemma_views_push(b1, g[1]);
    lemma_views_push(b2, g[2]);
    lemma_views_push(b3, g[3]);
    assert(b4 =~= before + g);
    assert(backdrops(b4) =~= backdrops(before) + Seq::new(
        cell_gutter(number, digits, cell_marker(diff_style, has_content)).len(),
        |k: int| line_backdrop(diff_style),
    ));
}

/// Appends a cell's gutter and its marker.
fn push_cell_gutter(spans: &mut Vec<DiffSpan>, cell: &NumberedCell)
    ensures
        diff_text(final(spans).deep_view()) == diff_text(old(spans).deep_view()) + cell_gutter(
            cell.number,
            cell.digits as int,
            cell_marker(cell.diff_style, cell.content is Some),
        ),
        final(spans).deep_view() == old(spans).deep_view() + cell_gutter_spans(
            cell.number,
            cell.digits as int,
            cell.diff_style,
            cell.content is Some,
        ),
{
    let bg = cell.bg_style();
    let ghost s0 = spans.deep_view();
    push_number(spans, cell.number, cell.digits, bg);
    let ghost s1 = spans.deep_view();
    push_styled_text(spans, " ", SpanStyle::Gutter, bg);
    let ghost s2 = spans.deep_view();
    let mut marker = String::new();
    string_push(&mut marker, cell.marker());
    push_styled_text(spans, marker.as_str(), cell.marker_style(), bg);
    let ghost s3 = spans.deep_view();
    push_styled_text(spans, " ", SpanStyle::Gutter, bg);
    proof {
        reveal_strlit(" ");
        lemma_views_push(s0, (number_text(cell.number, cell.digits as int), SpanStyle::Gutter, line_backdrop(bg)));
        lemma_views_push(s1, (" "@, SpanStyle::Gutter, line_backdrop(bg)));
        lemma_views_push(s2, (marker@, cell_marker_style(cell.diff_style, cell.content is Some), line_backdrop(bg)));
        lemma_views_push(s3, (" "@, SpanStyle::Gutter, line_backdrop(bg)));
        assert(" "@ =~= seq![' ']);
        assert(marker@ =~= seq![cell_marker(cell.diff_style, cell.content is Some)]);
        assert(diff_text(spans.deep_view()) =~= diff_text(s0) + cell_gutter(
            cell.number,
            cell.digits as int,
            cell_marker(cell.diff_style, cell.content is Some),
        ));
        assert(spans.deep_view() =~= s0 + cell_gutter_spans(
            cell.number,
            cell.digits as int,
            cell.diff_style,
            cell.content is Some,
        ));
    }
}

/// The text of a cell on an unwrapped row: its gutter, then its content from
/// column `x` cut to `content_width`, then spaces to the width.
pub open spec fn numbered_cell_text(
    number: Option<usize>,
    digits: int,
    marker: char,
    content: Option<Seq<char>>,
    content_width: int,
    x: int,
) -> Seq<char> {
    let shown = match content {
        Some(c) => if content_width == 0 {
            Seq::empty()
        } else {
            let (ws, we) = char_window(c, x, sat_add(x, content_width));
            c.subrange(ws, we)
        },
        None => Seq::empty(),
    };
    cell_gutter(number, digits, marker) + shown + spaces(content_width - shown.len())
}

/// The spans of a cell's content, as a text, if it has one.
pub open spec fn content_view(content: Option<&str>) -> Option<Seq<char>> {
    match content {
        Some(c) => Some(c@),
        None => None,
    }
}

/// Appends a cell of an unwrapped side-by-side row: gutter, content from
/// column `x`, and spaces to `content_width`.
pub fn push_numbered_cell(spans: &mut Vec<DiffSpan>, cell: NumberedCell, content_width: usize, x: usize)
    requires
        cell.content matches Some(c) ==> c@.len() <= usize::MAX / 8,
        style_ok(cell.diff_style),
    ensures
        diff_text(final(spans).deep_view()) == diff_text(old(spans).deep_view()) + numbered_cell_text(
            cell.number,
            cell.digits as int,
            cell_marker(cell.diff_style, cell.content is Some),
            content_view(cell.content),
            content_width as int,
            x as int,
        ),
        keeps(
            old(spans).deep_view() + cell_gutter_spans(
                cell.number,
                cell.digits as int,
                cell.diff_style,
                cell.content is Some,
            ),
            final(spans).deep_view(),
        ),
        backdrops(final(spans).deep_view()) == backdrops(old(spans).deep_view()) + cell_backdrops(
            cell.number,
            cell.digits as int,
            cell.diff_style,
            content_view(cell.content),
            content_width as int,
            x as int,
        ),
{
    let bg = cell.bg_style();
    let ghost s0 = spans.deep_view();
    push_cell_gutter(spans, &cell);
    let ghost s1 = spans.deep_view();
    proof {
        lemma_cell_gutter_backdrops(s0, cell.number, cell.digits as int, cell.diff_style, cell.content is Some);
        assert(s1.take(s1.len() as int) =~= s1);
    }
    let written = match cell.content {
        Some(content) => push_structured_content(spans, content, x, content_width, cell.diff_style),
        None => 0,
    };
    let ghost s2 = spans.deep_view();
    let rest = if content_width > written {
        content_width - written
    } else {
        0
    };
    fill_row(spans, rest, bg);
    proof {
        if rest > 0 {
            lemma_views_push(s2, (spaces(rest as int), SpanStyle::Default, line_backdrop(bg)));
        }
        let shown = match content_view(cell.content) {
            Some(c) => if content_width == 0 {
                Seq::empty()
            } else {
                let (ws, we) = char_window(c, x as int, sat_add(x as int, content_width as int));
                c.subrange(ws, we)
            },
            None => Seq::empty(),
        };
        if cell.content is None {
            assert(diff_text(s2) =~= diff_text(s1) + shown);
        }
        assert(shown.len() == written);
        assert(written <= content_width);
        if rest > 0 {
            lemma_keeps_push(s2, (spaces(rest as int), SpanStyle::Default, line_backdrop(bg)));
            lemma_keeps_trans(s1, s2, spans.deep_view());
        } else {
            assert(backdrops(s2) =~= backdrops(s2) + Seq::new(0, |k: int| line_backdrop(bg)));
        }
        if cell.content is None {
            assert(s2 == s1);
            assert(backdrops(s2) =~= backdrops(s1) + Seq::new(0, |k: int| backdrop_at(bg, k)));
        }
        let (ws, we) = match content_view(cell.content) {
            Some(c) => if content_width == 0 {
                (0, 0)
            } else {
                char_window(c, x as int, sat_add(x as int, content_width as int))
            },
            None => (0, 0),
        };
        assert(we - ws == written);
        assert(backdrops(spans.deep_view()) =~= backdrops(old(spans).deep_view()) + cell_backdrops(
            cell.number,
            cell.digits as int,
            cell.diff_style,
            content_view(cell.content),
            content_width as int,
            x as int,
        ));
        assert(diff_text(spans.deep_view()) =~= diff_text(old(spans).deep_view()) + numbered_cell_text(
            cell.number,
            cell.digits as int,
            cell_marker(cell.diff_style, cell.content is Some),
            content_view(cell.content),
            content_width as int,
            x as int,
        ));
    }
}

/// The text of row `row_offset` of a wrapped cell: the gutter on the first
/// row, blanks after it, then the content's row filled to the width.
pub open spec fn numbered_cell_window_text(
    number: Option<usize>,
    digits: int,
    marker: char,
    content: Option<Seq<char>>,
    content_width: int,
    row_offset: int,
) -> Seq<char> {
    let gutter = if row_offset == 0 {
        cell_gutter(number, digits, marker)
    } else {
        continuation_gutter(digits)
    };
    gutter + match content {
        Some(c) => wrapped_slice_text(c, content_width, row_offset, true),
        None => spaces(content_width),
    }
}

/// Appends row `row_offset` of a wrapped side-by-side cell.
pub fn push_numbered_cell_window(
    spans: &mut Vec<DiffSpan>,
    cell: NumberedCell,
    content_width: usize,
    row_offset: usize,
)
    requires
        cell.content matches Some(c) ==> c@.len() <= usize::MAX / 8,
        style_ok(cell.diff_style),
    ensures
        diff_text(final(spans).deep_view()) == diff_text(old(spans).deep_view()) + numbered_cell_window_text(
            cell.number,
            cell.digits as int,
            cell_marker(cell.diff_style, cell.content is Some),
            content_view(cell.content),
            content_width as int,
            row_offset as int,
        ),
{
    let bg = cell.bg_style();
    let ghost s0 = spans.deep_view();
    if row_offset == 0 {
        push_cell_gutter(spans, &cell);
    } else {
        let mut blank = String::new();
        push_spaces(&mut blank, cell.digits);
        push_styled_text(spans, blank.as_str(), SpanStyle::Gutter, bg);
        let ghost s1 = spans.deep_view();
        let mut three = String::new();
        push_spaces(&mut three, 3);
        push_styled_text(spans, three.as_str(), SpanStyle::Gutter, bg);
        proof {
            lemma_views_push(s0, (blank@, SpanStyle::Gutter, line_backdrop(bg)));
            lemma_views_push(s1, (three@, SpanStyle::Gutter, line_backdrop(bg)));
            assert(blank@ =~= spaces(cell.digits as int));
            assert(three@ =~= spaces(3));
        }
    }
    let ghost s2 = spans.deep_view();
    match cell.content {
        None => {
            fill_row(spans, content_width, bg);
            proof {
                if content_width > 0 {
                    lemma_views_push(s2, (spaces(content_width as int), SpanStyle::Default, line_backdrop(bg)));
                } else {
                    assert(spaces(0) =~= Seq::<char>::empty());
                    assert(diff_text(s2) + spaces(0) =~= diff_text(s2));
                }
            }
        },
        Some(content) => {
            push_wrapped_content_slice(spans, content, content_width, row_offset, cell.diff_style, bg, true);
        },
    }
    proof {
        assert(diff_text(spans.deep_view()) =~= diff_text(old(spans).deep_view()) + numbered_cell_window_text(
            cell.number,
            cell.digits as int,
            cell_marker(cell.diff_style, cell.content is Some),
            content_view(cell.content),
            content_width as int,
            row_offset as int,
        ));
    }
}

/// The row a window shows of a line whose chars each take one column fits
/// the width, indent included.
pub proof fn lemma_narrow_first_row_fits(cs: Seq<char>, width: int, row: int)
    requires
        row >= 0,
        width >= 1,
        cs.len() <= usize::MAX / 8,
        all_narrow(cs),
    ensures
        first_row_from(cs, width, row) matches Some(r) ==> r.continuation_indent + (r.end_char - r.start_char) <= width,
{
    reveal(first_row_from);
    lemma_range_in_line(cs, width, row);
    let bs = vstd::utf8::encode_utf8(cs);
    let ci = continuation_indent_spec(cs, width);
    lemma_encode_utf8_len(cs);
    lemma_leading_ws_nonneg(cs, 0);
    if bs.len() > 0 && row < rows_after(cs, bs, width, ci, 0) {
        lemma_start_before_total(cs, bs, width, ci, row as nat);
        lemma_row_start(cs, bs, width, ci, row as nat);
        let (sb, sc) = row_start_pos(cs, bs, width, ci, row as nat);
        lemma_wrap_end_progress(cs, bs, sb, sc, row_text_width(row, width, ci));
        lemma_narrow_row_fits(cs, bs, sb, sc, row_text_width(row, width, ci));
        assert(0 <= row_indent(row, width, ci) <= width - 1);
    }
}

/// A filled wrapped row of a cell whose chars each take one column is
/// exactly as wide as the cell.
pub proof fn lemma_narrow_slice_fills_cell(content: Seq<char>, content_width: int, row: int)
    requires
        row >= 0,
        content.len() <= usize::MAX / 8,
        all_narrow(content),
    ensures
        wrapped_slice_text(content, content_width, row, true).len() == cell_width(content_width),
{
    let w = cell_width(content_width);
    lemma_narrow_first_row_fits(content, w, row);
    lemma_range_in_line(content, w, row);
}

} // verus!
