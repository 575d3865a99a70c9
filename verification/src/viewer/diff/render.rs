//! Drawing the rows of a diff, in one column or side by side, cut to the
//! width or wrapped.
use vstd::prelude::*;

use crate::decimal::decimal_chars;
use crate::tui::wrap::{all_narrow, continuation_indent_spec, row_count, sat_add, wrapped_row_count};
use crate::viewer::highlight::SpanStyle;

use super::cells::{
    backdrop_at, backdrops, cell_width, char_slice, char_window, content_rows_spec, diff_text, fill_row,
    keeps, lemma_keeps_trans, cell_gutter_spans, cell_backdrops, lemma_views_append, lemma_views_push, line_backdrop, number_text, push_number,
    push_spaces, push_structured_content, push_styled_text, push_wrapped_content_slice,
    render_message_window, spaces, style_ok, cell_marker, content_view, numbered_cell_text,
    push_numbered_cell, push_numbered_cell_window, numbered_cell_window_text, NumberedCell,
    lemma_narrow_slice_fills_cell, styled_text_line, window_rows,
    wrapped_content_visual_count, wrapped_slice_text, Backdrop, DiffCellStyle, DiffSide, DiffSpan,
};
use super::cells;
use super::model::{DiffChange, NumberedDiffLine, SideDiffRow, UnifiedDiffRow};
use super::{DiffLayout, DiffModel};

verus! {

/// A unified row can be drawn: its text fits the highlighter's limit and its
/// change ranges run forwards.
pub open spec fn unified_row_ok(row: UnifiedDiffRow) -> bool {
    match row {
        UnifiedDiffRow::Message { text } => text@.len() <= usize::MAX / 8,
        UnifiedDiffRow::Context { content, .. } => content@.len() <= usize::MAX / 8,
        UnifiedDiffRow::Delete { content, change, .. } => content@.len() <= usize::MAX / 8 && change.wf(),
        UnifiedDiffRow::Insert { content, change, .. } => content@.len() <= usize::MAX / 8 && change.wf(),
    }
}

impl DiffModel {
    /// The model can be drawn: its line numbers take at most 20 digits and
    /// every unified row can be drawn.
    pub open spec fn drawable(&self) -> bool {
        &&& self.left_digits <= 20
        &&& self.right_digits <= 20
        &&& forall|i: int| 0 <= i < self.unified_rows@.len() ==> unified_row_ok(#[trigger] self.unified_rows@[i])
    }
}

/// The gutter of a unified row: both line numbers (or blanks), the marker,
/// and the spaces between.
pub open spec fn unified_prefix(left: Option<usize>, right: Option<usize>, left_digits: int, right_digits: int, marker: char) -> Seq<char> {
    number_text(left, left_digits) + seq![' '] + number_text(right, right_digits) + seq![' '] + seq![marker] + seq![' ']
}

/// The spans of a unified row's gutter: both line numbers (or blanks) and
/// the gaps in the gutter style, the marker in `marker_style`, all over the
/// row's background.
pub open spec fn unified_prefix_spans(
    left: Option<usize>,
    right: Option<usize>,
    left_digits: int,
    right_digits: int,
    marker: char,
    marker_style: SpanStyle,
    bg: Option<DiffCellStyle>,
) -> Seq<(Seq<char>, SpanStyle, Backdrop)> {
    seq![
        (number_text(left, left_digits), SpanStyle::Gutter, line_backdrop(bg)),
        (seq![' '], SpanStyle::Gutter, line_backdrop(bg)),
        (number_text(right, right_digits), SpanStyle::Gutter, line_backdrop(bg)),
        (seq![' '], SpanStyle::Gutter, line_backdrop(bg)),
        (seq![marker], marker_style, line_backdrop(bg)),
        (seq![' '], SpanStyle::Gutter, line_backdrop(bg)),
    ]
}

/// The spans of the blank gutter of a unified row's continuation rows.
pub open spec fn unified_continuation_spans(
    left_digits: int,
    right_digits: int,
    bg: Option<DiffCellStyle>,
) -> Seq<(Seq<char>, SpanStyle, Backdrop)> {
    seq![
        (spaces(left_digits), SpanStyle::Gutter, line_backdrop(bg)),
        (seq![' '], SpanStyle::Gutter, line_backdrop(bg)),
        (spaces(right_digits), SpanStyle::Gutter, line_backdrop(bg)),
        (spaces(3), SpanStyle::Gutter, line_backdrop(bg)),
    ]
}

/// The blank gutter of a unified row's continuation rows.
pub open spec fn unified_continuation_prefix(left_digits: int, right_digits: int) -> Seq<char> {
    spaces(left_digits) + seq![' '] + spaces(right_digits) + spaces(3)
}

/// What `a - b` saturates to in `usize`.
pub open spec fn sat_sub(a: int, b: int) -> int {
    if a > b {
        a - b
    } else {
        0
    }
}

/// The text of an unwrapped unified row with content: the gutter, the
/// content from column `x` cut to the columns left, and, on a changed line,
/// spaces to the full width.
pub open spec fn unified_content_text(
    left: Option<usize>,
    right: Option<usize>,
    marker: char,
    content: Seq<char>,
    left_digits: int,
    right_digits: int,
    width: int,
    x: int,
    changed: bool,
) -> Seq<char> {
    let prefix_width = left_digits + right_digits + 4;
    let content_width = sat_sub(width, prefix_width);
    let shown = if content_width == 0 {
        Seq::empty()
    } else {
        let (ws, we) = char_window(content, x, sat_add(x, content_width));
        content.subrange(ws, we)
    };
    unified_prefix(left, right, left_digits, right_digits, marker) + shown + if changed {
        spaces(sat_sub(width, prefix_width + shown.len()))
    } else {
        Seq::empty()
    }
}

/// The chars of a unified row's content that an unwrapped row shows.
pub open spec fn content_shown(content: Seq<char>, left_digits: int, right_digits: int, width: int, x: int) -> (int, int) {
    let content_width = sat_sub(width, left_digits + right_digits + 4);
    if content_width == 0 {
        (0, 0)
    } else {
        char_window(content, x, sat_add(x, content_width))
    }
}

/// The gutter, marker and cell style of a unified row with content.
pub open spec fn unified_parts(row: UnifiedDiffRow) -> (Option<usize>, Option<usize>, char, SpanStyle, Option<DiffCellStyle>) {
    match row {
        UnifiedDiffRow::Message { .. } => (None, None, ' ', SpanStyle::Gutter, None),
        UnifiedDiffRow::Context { left, right, .. } => (Some(left), Some(right), ' ', SpanStyle::Gutter, None),
        UnifiedDiffRow::Delete { left, change, .. } => (
            Some(left),
            None,
            '-',
            SpanStyle::DiffRemoved,
            Some(DiffCellStyle { side: DiffSide::Removed, change }),
        ),
        UnifiedDiffRow::Insert { right, change, .. } => (
            None,
            Some(right),
            '+',
            SpanStyle::DiffAdded,
            Some(DiffCellStyle { side: DiffSide::Added, change }),
        ),
    }
}

/// The content of a unified row with content (a note's text otherwise).
pub open spec fn unified_content(row: UnifiedDiffRow) -> Seq<char> {
    match row {
        UnifiedDiffRow::Message { text } => text@,
        UnifiedDiffRow::Context { content, .. } => content@,
        UnifiedDiffRow::Delete { content, .. } => content@,
        UnifiedDiffRow::Insert { content, .. } => content@,
    }
}

/// The text of an unwrapped unified row: a note cut to the width, or the
/// gutter and content.
pub open spec fn unified_row_text(row: UnifiedDiffRow, left_digits: int, right_digits: int, width: int, x: int) -> Seq<char> {
    match row {
        UnifiedDiffRow::Message { text } => char_slice(text@, 0, width),
        _ => {
            let (left, right, marker, _, diff_style) = unified_parts(row);
            unified_content_text(
                left,
                right,
                marker,
                unified_content(row),
                left_digits,
                right_digits,
                width,
                x,
                diff_style is Some,
            )
        },
    }
}

/// Appends the gutter of a unified row.
fn push_unified_prefix(
    spans: &mut Vec<DiffSpan>,
    left: Option<usize>,
    right: Option<usize>,
    marker: char,
    marker_style: SpanStyle,
    model: &DiffModel,
    bg: Option<DiffCellStyle>,
)
    ensures
        diff_text(final(spans).deep_view()) == diff_text(old(spans).deep_view()) + unified_prefix(
            left,
            right,
            model.left_digits as int,
            model.right_digits as int,
            marker,
        ),
        backdrops(final(spans).deep_view()) == backdrops(old(spans).deep_view()) + Seq::new(
            unified_prefix(left, right, model.left_digits as int, model.right_digits as int, marker).len(),
            |k: int| line_backdrop(bg),
        ),
        final(spans).deep_view() == old(spans).deep_view() + unified_prefix_spans(
            left,
            right,
            model.left_digits as int,
            model.right_digits as int,
            marker,
            marker_style,
            bg,
        ),
{
    let ghost s0 = spans.deep_view();
    push_number(spans, left, model.left_digits(), bg);
    let ghost s1 = spans.deep_view();
    push_styled_text(spans, " ", SpanStyle::Gutter, bg);
    let ghost s2 = spans.deep_view();
    push_number(spans, right, model.right_digits(), bg);
    let ghost s3 = spans.deep_view();
    push_styled_text(spans, " ", SpanStyle::Gutter, bg);
    let ghost s4 = spans.deep_view();
    let mut mark = String::new();
    crate::text::string_push(&mut mark, marker);
    push_styled_text(spans, mark.as_str(), marker_style, bg);
    let ghost s5 = spans.deep_view();
    push_styled_text(spans, " ", SpanStyle::Gutter, bg);
    proof {
        reveal_strlit(" ");
        assert(" "@ =~= seq![' ']);
        assert(mark@ =~= seq![marker]);
        lemma_views_push(s0, (number_text(left, model.left_digits as int), SpanStyle::Gutter, line_backdrop(bg)));
        lemma_views_push(s1, (" "@, SpanStyle::Gutter, line_backdrop(bg)));
        lemma_views_push(s2, (number_text(right, model.right_digits as int), SpanStyle::Gutter, line_backdrop(bg)));
        lemma_views_push(s3, (" "@, SpanStyle::Gutter, line_backdrop(bg)));
        lemma_views_push(s4, (mark@, marker_style, line_backdrop(bg)));
        lemma_views_push(s5, (" "@, SpanStyle::Gutter, line_backdrop(bg)));
        assert(diff_text(spans.deep_view()) =~= diff_text(s0) + unified_prefix(
            left,
            right,
            model.left_digits as int,
            model.right_digits as int,
            marker,
        ));
        assert(backdrops(spans.deep_view()) =~= backdrops(s0) + Seq::new(
            unified_prefix(left, right, model.left_digits as int, model.right_digits as int, marker).len(),
            |k: int| line_backdrop(bg),
        ));
        assert(spans.deep_view() =~= s0 + unified_prefix_spans(
            left,
            right,
            model.left_digits as int,
            model.right_digits as int,
            marker,
            marker_style,
            bg,
        ));
    }
}

/// Appends the blank gutter of a unified row's continuation rows.
fn push_unified_continuation_prefix(spans: &mut Vec<DiffSpan>, model: &DiffModel, bg: Option<DiffCellStyle>)
    ensures
        diff_text(final(spans).deep_view()) == diff_text(old(spans).deep_view()) + unified_continuation_prefix(
            model.left_digits as int,
            model.right_digits as int,
        ),
        final(spans).deep_view() == old(spans).deep_view() + unified_continuation_spans(
            model.left_digits as int,
            model.right_digits as int,
            bg,
        ),
{
    let ghost s0 = spans.deep_view();
    let mut left = String::new();
    push_spaces(&mut left, model.left_digits());
    push_styled_text(spans, left.as_str(), SpanStyle::Gutter, bg);
    let ghost s1 = spans.deep_view();
    push_styled_text(spans, " ", SpanStyle::Gutter, bg);
    let ghost s2 = spans.deep_view();
    let mut right = String::new();
    push_spaces(&mut right, model.right_digits());
    push_styled_text(spans, right.as_str(), SpanStyle::Gutter, bg);
    let ghost s3 = spans.deep_view();
    let mut three = String::new();
    push_spaces(&mut three, 3);
    push_styled_text(spans, three.as_str(), SpanStyle::Gutter, bg);
    proof {
        reveal_strlit(" ");
        assert(" "@ =~= seq![' ']);
        assert(left@ =~= spaces(model.left_digits as int));
        assert(right@ =~= spaces(model.right_digits as int));
        assert(three@ =~= spaces(3));
        lemma_views_push(s0, (left@, SpanStyle::Gutter, line_backdrop(bg)));
        lemma_views_push(s1, (" "@, SpanStyle::Gutter, line_backdrop(bg)));
        lemma_views_push(s2, (right@, SpanStyle::Gutter, line_backdrop(bg)));
        lemma_views_push(s3, (three@, SpanStyle::Gutter, line_backdrop(bg)));
        assert(diff_text(spans.deep_view()) =~= diff_text(s0) + unified_continuation_prefix(
            model.left_digits as int,
            model.right_digits as int,
        ));
        assert(spans.deep_view() =~= s0 + unified_continuation_spans(
            model.left_digits as int,
            model.right_digits as int,
            bg,
        ));
    }
}

/// Draws an unwrapped unified row with content: gutter, content from column
/// `x` in the columns left, and on a changed line spaces to the width over
/// its background.
pub fn render_unified_content(
    left: Option<usize>,
    right: Option<usize>,
    marker: char,
    marker_style: SpanStyle,
    content: &str,
    model: &DiffModel,
    width: usize,
    x: usize,
    diff_style: Option<DiffCellStyle>,
) -> (line: Vec<DiffSpan>)
    requires
        model.left_digits <= 20,
        model.right_digits <= 20,
        content@.len() <= usize::MAX / 8,
        style_ok(diff_style),
    ensures
        diff_text(line.deep_view()) == unified_content_text(
            left,
            right,
            marker,
            content@,
            model.left_digits as int,
            model.right_digits as int,
            width as int,
            x as int,
            diff_style is Some,
        ),
        ({
            let prefix = unified_prefix(left, right, model.left_digits as int, model.right_digits as int, marker);
            let text = diff_text(line.deep_view());
            let (ws, we) = content_shown(content@, model.left_digits as int, model.right_digits as int, width as int, x as int);
            backdrops(line.deep_view()) == Seq::new(prefix.len(), |k: int| line_backdrop(diff_style)) + Seq::new(
                (we - ws) as nat,
                |k: int| backdrop_at(diff_style, ws + k),
            ) + Seq::new((text.len() - prefix.len() - (we - ws)) as nat, |k: int| line_backdrop(diff_style))
        }),
        line.deep_view().len() >= 6,
        line.deep_view().take(6) == unified_prefix_spans(
            left,
            right,
            model.left_digits as int,
            model.right_digits as int,
            marker,
            marker_style,
            diff_style,
        ),
{
    let mut spans: Vec<DiffSpan> = Vec::new();
    let bg = diff_style;
    push_unified_prefix(&mut spans, left, right, marker, marker_style, model, bg);
    let ghost pre = spans.deep_view();
    proof {
        assert(pre =~= unified_prefix_spans(
            left,
            right,
            model.left_digits as int,
            model.right_digits as int,
            marker,
            marker_style,
            diff_style,
        ));
    }
    let prefix_width = model.left_digits() + model.right_digits() + 4;
    let content_width = if width > prefix_width {
        width - prefix_width
    } else {
        0
    };
    let written = push_structured_content(&mut spans, content, x, content_width, diff_style);
    let used = prefix_width + written;
    let ghost mid = spans.deep_view();
    if bg.is_some() {
        let rest = if width > used {
            width - used
        } else {
            0
        };
        fill_row(&mut spans, rest, bg);
        proof {
            if rest > 0 {
                cells::lemma_keeps_push(mid, (spaces(rest as int), SpanStyle::Default, line_backdrop(bg)));
                lemma_keeps_trans(pre, mid, spans.deep_view());
            }
            if rest > 0 {
                lemma_views_push(mid, (spaces(rest as int), SpanStyle::Default, line_backdrop(bg)));
            } else {
                assert(diff_text(mid) + spaces(0) =~= diff_text(mid));
                assert(backdrops(mid) + Seq::new(0, |k: int| line_backdrop(bg)) =~= backdrops(mid));
            }
        }
    } else {
        assert(diff_text(mid) + Seq::<char>::empty() =~= diff_text(mid));
        assert(backdrops(mid) + Seq::new(0, |k: int| line_backdrop(bg)) =~= backdrops(mid));
    }
    proof {
        assert(diff_text(Seq::<(Seq<char>, SpanStyle, Backdrop)>::empty()) =~= Seq::<char>::empty());
        assert(Seq::<char>::empty() + unified_prefix(
            left,
            right,
            model.left_digits as int,
            model.right_digits as int,
            marker,
        ) =~= unified_prefix(left, right, model.left_digits as int, model.right_digits as int, marker));
        if content_width == 0 {
            assert(content@.subrange(0, 0) =~= Seq::<char>::empty());
        }
        assert(backdrops(Seq::<(Seq<char>, SpanStyle, Backdrop)>::empty()) =~= Seq::<Backdrop>::empty());
        lemma_views_push(spans.deep_view(), (Seq::<char>::empty(), SpanStyle::Default, Backdrop::Plain));
        let prefix = unified_prefix(left, right, model.left_digits as int, model.right_digits as int, marker);
        let (ws, we) = content_shown(content@, model.left_digits as int, model.right_digits as int, width as int, x as int);
        let text = diff_text(spans.deep_view());
        let b = backdrops(spans.deep_view());
        assert(b =~= Seq::new(prefix.len(), |k: int| line_backdrop(diff_style)) + Seq::new(
            (we - ws) as nat,
            |k: int| backdrop_at(diff_style, ws + k),
        ) + Seq::new((text.len() - prefix.len() - (we - ws)) as nat, |k: int| line_backdrop(diff_style)));
    }
    spans
}

/// How an unwrapped unified row looks beyond its text: a note is one plain
/// span; a row with content starts with its gutter spans (numbers, marker
/// in the row's marker style) and every char is drawn over the row's
/// background, its changed part over the change background.
pub open spec fn unified_row_looks(
    row: UnifiedDiffRow,
    line: Seq<(Seq<char>, SpanStyle, Backdrop)>,
    left_digits: int,
    right_digits: int,
    width: int,
    x: int,
) -> bool {
    match row {
        UnifiedDiffRow::Message { text } => line == seq![
            (char_slice(text@, 0, width), SpanStyle::Plain, Backdrop::Plain),
        ],
        _ => {
            let (left, right, marker, marker_style, diff_style) = unified_parts(row);
            let prefix = unified_prefix(left, right, left_digits, right_digits, marker);
            let text = diff_text(line);
            let (ws, we) = content_shown(unified_content(row), left_digits, right_digits, width, x);
            &&& keeps(unified_prefix_spans(left, right, left_digits, right_digits, marker, marker_style, diff_style), line)
            &&& backdrops(line) == Seq::new(prefix.len(), |k: int| line_backdrop(diff_style)) + Seq::new(
                (we - ws) as nat,
                |k: int| backdrop_at(diff_style, ws + k),
            ) + Seq::new((text.len() - prefix.len() - (we - ws)) as nat, |k: int| line_backdrop(diff_style))
        },
    }
}

/// Draws an unwrapped unified row.
pub fn render_unified_row(row: &UnifiedDiffRow, model: &DiffModel, width: usize, x: usize) -> (line: Vec<DiffSpan>)
    requires
        model.left_digits <= 20,
        model.right_digits <= 20,
        unified_row_ok(*row),
    ensures
        diff_text(line.deep_view()) == unified_row_text(
            *row,
            model.left_digits as int,
            model.right_digits as int,
            width as int,
            x as int,
        ),
        unified_row_looks(*row, line.deep_view(), model.left_digits as int, model.right_digits as int, width as int, x as int),
{
    match row {
        UnifiedDiffRow::Message { text } => {
            let line = styled_text_line(text.as_str(), width, SpanStyle::Plain);
            proof {
                lemma_views_push(Seq::empty(), (char_slice(text@, 0, width as int), SpanStyle::Plain, Backdrop::Plain));
                assert(seq![(char_slice(text@, 0, width as int), SpanStyle::Plain, Backdrop::Plain)] =~= Seq::<(
                    Seq<char>,
                    SpanStyle,
                    Backdrop,
                )>::empty().push((char_slice(text@, 0, width as int), SpanStyle::Plain, Backdrop::Plain)));
                assert(Seq::<char>::empty() + char_slice(text@, 0, width as int) =~= char_slice(
                    text@,
                    0,
                    width as int,
                ));
            }
            line
        },
        UnifiedDiffRow::Context { left, right, content } => render_unified_content(
            Some(*left),
            Some(*right),
            ' ',
            SpanStyle::Gutter,
            content.as_str(),
            model,
            width,
            x,
            None,
        ),
        UnifiedDiffRow::Delete { left, content, change } => render_unified_content(
            Some(*left),
            None,
            '-',
            SpanStyle::DiffRemoved,
            content.as_str(),
            model,
            width,
            x,
            Some(DiffCellStyle { side: DiffSide::Removed, change: *change }),
        ),
        UnifiedDiffRow::Insert { right, content, change } => render_unified_content(
            None,
            Some(*right),
            '+',
            SpanStyle::DiffAdded,
            content.as_str(),
            model,
            width,
            x,
            Some(DiffCellStyle { side: DiffSide::Added, change: *change }),
        ),
    }
}

/// The width of a unified row's content: what the gutter leaves, and at
/// least one column.
pub open spec fn unified_content_width(left_digits: int, right_digits: int, width: int) -> int {
    cell_width(sat_sub(width, left_digits + right_digits + 4))
}

/// The text of screen row `visual_row` of a wrapped unified row with
/// content: the gutter on its first row, blanks after, then the content's
/// row, filled to the width on a changed line.
pub open spec fn unified_window_row_text(
    left: Option<usize>,
    right: Option<usize>,
    marker: char,
    content: Seq<char>,
    left_digits: int,
    right_digits: int,
    width: int,
    visual_row: int,
    changed: bool,
) -> Seq<char> {
    (if visual_row == 0 {
        unified_prefix(left, right, left_digits, right_digits, marker)
    } else {
        unified_continuation_prefix(left_digits, right_digits)
    }) + wrapped_slice_text(content, unified_content_width(left_digits, right_digits, width), visual_row, changed)
}

/// The screen rows `row_offset .. row_offset + height` of a wrapped unified
/// row with content, as far as it has rows.
pub fn render_unified_content_window(
    left: Option<usize>,
    right: Option<usize>,
    marker: char,
    marker_style: SpanStyle,
    content: &str,
    model: &DiffModel,
    row_offset: usize,
    height: usize,
    width: usize,
    diff_style: Option<DiffCellStyle>,
) -> (lines: Vec<Vec<DiffSpan>>)
    requires
        model.left_digits <= 20,
        model.right_digits <= 20,
        content@.len() <= usize::MAX / 8,
        style_ok(diff_style),
    ensures
        ({
            let cw = unified_content_width(model.left_digits as int, model.right_digits as int, width as int);
            let count = content_rows_spec(Some(content@), cw);
            let end = if sat_add(row_offset as int, height as int) < count {
                sat_add(row_offset as int, height as int)
            } else {
                count
            };
            &&& lines@.len() == sat_sub(end, row_offset as int)
            &&& forall|j: int| 0 <= j < lines@.len() ==> diff_text((#[trigger] lines@[j]).deep_view())
                == unified_window_row_text(
                left,
                right,
                marker,
                content@,
                model.left_digits as int,
                model.right_digits as int,
                width as int,
                row_offset + j,
                diff_style is Some,
            )
            &&& forall|j: int| 0 <= j < lines@.len() ==> {
                let gutter = if row_offset + j == 0 {
                    unified_prefix_spans(
                        left,
                        right,
                        model.left_digits as int,
                        model.right_digits as int,
                        marker,
                        marker_style,
                        diff_style,
                    )
                } else {
                    unified_continuation_spans(model.left_digits as int, model.right_digits as int, diff_style)
                };
                keeps(gutter, (#[trigger] lines@[j]).deep_view())
            }
        }),
{
    let prefix_width = model.left_digits() + model.right_digits() + 4;
    let content_width = if width > prefix_width && width - prefix_width > 1 {
        width - prefix_width
    } else {
        1
    };
    let bg = diff_style;
    let visual_count = wrapped_content_visual_count(Some(content), content_width);
    assert(visual_count == content_rows_spec(Some(content@), content_width as int));
    let reach = if row_offset > usize::MAX - height {
        usize::MAX
    } else {
        row_offset + height
    };
    let end = if reach < visual_count {
        reach
    } else {
        visual_count
    };
    let mut lines: Vec<Vec<DiffSpan>> = Vec::new();
    let mut visual_row = row_offset;
    while visual_row < end
        invariant
            row_offset <= visual_row,
            visual_row <= end || visual_row == row_offset,
            lines@.len() == visual_row - row_offset,
            model.left_digits <= 20,
            model.right_digits <= 20,
            content@.len() <= usize::MAX / 8,
            style_ok(diff_style),
            bg == diff_style,
            content_width == unified_content_width(model.left_digits as int, model.right_digits as int, width as int),
            forall|j: int| 0 <= j < lines@.len() ==> diff_text((#[trigger] lines@[j]).deep_view())
                == unified_window_row_text(
                left,
                right,
                marker,
                content@,
                model.left_digits as int,
                model.right_digits as int,
                width as int,
                row_offset + j,
                diff_style is Some,
            ),
            forall|j: int| 0 <= j < lines@.len() ==> {
                let gutter = if row_offset + j == 0 {
                    unified_prefix_spans(
                        left,
                        right,
                        model.left_digits as int,
                        model.right_digits as int,
                        marker,
                        marker_style,
                        diff_style,
                    )
                } else {
                    unified_continuation_spans(model.left_digits as int, model.right_digits as int, diff_style)
                };
                keeps(gutter, (#[trigger] lines@[j]).deep_view())
            },
        decreases end - visual_row,
    {
        let mut spans: Vec<DiffSpan> = Vec::new();
        if visual_row == 0 {
            push_unified_prefix(&mut spans, left, right, marker, marker_style, model, bg);
        } else {
            push_unified_continuation_prefix(&mut spans, model, bg);
        }
        let ghost mid = spans.deep_view();
        proof {
            assert(mid =~= if visual_row == 0 {
                unified_prefix_spans(
                    left,
                    right,
                    model.left_digits as int,
                    model.right_digits as int,
                    marker,
                    marker_style,
                    diff_style,
                )
            } else {
                unified_continuation_spans(model.left_digits as int, model.right_digits as int, diff_style)
            });
        }
        push_wrapped_content_slice(&mut spans, content, content_width, visual_row, diff_style, bg, bg.is_some());
        proof {
            assert(diff_text(Seq::<(Seq<char>, SpanStyle, Backdrop)>::empty()) =~= Seq::<char>::empty());
            let pre = if visual_row == 0 {
                unified_prefix(left, right, model.left_digits as int, model.right_digits as int, marker)
            } else {
                unified_continuation_prefix(model.left_digits as int, model.right_digits as int)
            };
            assert(Seq::<char>::empty() + pre =~= pre);
        }
        lines.push(spans);
        visual_row += 1;
    }
    assert(end as int == (if sat_add(row_offset as int, height as int) < visual_count {
        sat_add(row_offset as int, height as int)
    } else {
        visual_count as int
    }));
    assert(lines@.len() == sat_sub(end as int, row_offset as int));
    lines
}

/// The screen rows `row_offset .. row_offset + height` of a unified row:
/// wrapped when `wrap`, else its one row when `row_offset` is 0.
pub fn render_unified_row_window(
    row: &UnifiedDiffRow,
    model: &DiffModel,
    row_offset: usize,
    height: usize,
    width: usize,
    x: usize,
    wrap: bool,
) -> (lines: Vec<Vec<DiffSpan>>)
    requires
        model.left_digits <= 20,
        model.right_digits <= 20,
        unified_row_ok(*row),
    ensures
        !wrap ==> lines@.len() == (if row_offset == 0 {
            1int
        } else {
            0
        }) && (row_offset == 0 ==> diff_text(lines@[0].deep_view()) == unified_row_text(
            *row,
            model.left_digits as int,
            model.right_digits as int,
            width as int,
            x as int,
        )),
        !wrap && row_offset == 0 ==> unified_row_looks(
            *row,
            lines@[0].deep_view(),
            model.left_digits as int,
            model.right_digits as int,
            width as int,
            x as int,
        ),
        wrap && row is Message ==> {
            let rows = window_rows(unified_content(*row), cell_width(width as int), 0, row_offset as int, height as int);
            &&& lines@.len() == rows.len()
            &&& forall|j: int| 0 <= j < rows.len() ==> diff_text((#[trigger] lines@[j]).deep_view())
                == char_slice(unified_content(*row), rows[j].start_char as int, rows[j].end_char as int)
            &&& forall|j: int| 0 <= j < rows.len() ==> (#[trigger] lines@[j]).deep_view() == seq![
                (char_slice(unified_content(*row), rows[j].start_char as int, rows[j].end_char as int), SpanStyle::Plain, Backdrop::Plain),
            ]
        },
        wrap && !(row is Message) ==> forall|j: int| 0 <= j < lines@.len() ==> {
            let (left, right, marker, marker_style, diff_style) = unified_parts(*row);
            let gutter = if row_offset + j == 0 {
                unified_prefix_spans(
                    left,
                    right,
                    model.left_digits as int,
                    model.right_digits as int,
                    marker,
                    marker_style,
                    diff_style,
                )
            } else {
                unified_continuation_spans(model.left_digits as int, model.right_digits as int, diff_style)
            };
            keeps(gutter, (#[trigger] lines@[j]).deep_view())
        },
        wrap && !(row is Message) ==> {
            let (left, right, marker, _, diff_style) = unified_parts(*row);
            let cw = unified_content_width(model.left_digits as int, model.right_digits as int, width as int);
            let count = content_rows_spec(Some(unified_content(*row)), cw);
            let end = if sat_add(row_offset as int, height as int) < count {
                sat_add(row_offset as int, height as int)
            } else {
                count
            };
            &&& lines@.len() == sat_sub(end, row_offset as int)
            &&& forall|j: int| 0 <= j < lines@.len() ==> diff_text((#[trigger] lines@[j]).deep_view())
                == unified_window_row_text(
                left,
                right,
                marker,
                unified_content(*row),
                model.left_digits as int,
                model.right_digits as int,
                width as int,
                row_offset + j,
                diff_style is Some,
            )
        },
{
    if !wrap {
        let mut lines: Vec<Vec<DiffSpan>> = Vec::new();
        if row_offset == 0 {
            lines.push(render_unified_row(row, model, width, x));
        }
        return lines;
    }
    match row {
        UnifiedDiffRow::Message { text } => {
            let lines = render_message_window(text.as_str(), row_offset, height, width, SpanStyle::Plain);
            proof {
                let rows = window_rows(text@, cell_width(width as int), 0, row_offset as int, height as int);
                assert forall|j: int| 0 <= j < rows.len() implies diff_text((#[trigger] lines@[j]).deep_view())
                    == char_slice(text@, rows[j].start_char as int, rows[j].end_char as int) by {
                    let piece = (char_slice(text@, rows[j].start_char as int, rows[j].end_char as int), SpanStyle::Plain, Backdrop::Plain);
                    lemma_views_push(Seq::empty(), piece);
                    assert(seq![piece] =~= Seq::<(Seq<char>, SpanStyle, Backdrop)>::empty().push(piece));
                    assert(Seq::<char>::empty() + piece.0 =~= piece.0);
                }
            }
            lines
        },
        UnifiedDiffRow::Context { left, right, content } => render_unified_content_window(
            Some(*left),
            Some(*right),
            ' ',
            SpanStyle::Gutter,
            content.as_str(),
            model,
            row_offset,
            height,
            width,
            None,
        ),
        UnifiedDiffRow::Delete { left, content, change } => render_unified_content_window(
            Some(*left),
            None,
            '-',
            SpanStyle::DiffRemoved,
            content.as_str(),
            model,
            row_offset,
            height,
            width,
            Some(DiffCellStyle { side: DiffSide::Removed, change: *change }),
        ),
        UnifiedDiffRow::Insert { right, content, change } => render_unified_content_window(
            None,
            Some(*right),
            '+',
            SpanStyle::DiffAdded,
            content.as_str(),
            model,
            row_offset,
            height,
            width,
            Some(DiffCellStyle { side: DiffSide::Added, change: *change }),
        ),
    }
}

/// How many screen rows a unified row takes when wrapped at `width`.
pub open spec fn unified_rows_spec(row: UnifiedDiffRow, left_digits: int, right_digits: int, width: int) -> int {
    match row {
        UnifiedDiffRow::Message { text } => {
            let w = cell_width(width);
            row_count(text@, vstd::utf8::encode_utf8(text@), w, 0) as int
        },
        _ => content_rows_spec(Some(unified_content(row)), unified_content_width(left_digits, right_digits, width)),
    }
}

/// How many screen rows a unified row takes when wrapped at `width`.
pub fn unified_row_visual_count(row: &UnifiedDiffRow, model: &DiffModel, width: usize) -> (rows: usize)
    requires
        model.left_digits <= 20,
        model.right_digits <= 20,
    ensures
        rows == unified_rows_spec(*row, model.left_digits as int, model.right_digits as int, width as int),
{
    match row {
        UnifiedDiffRow::Message { text } => {
            let w = if width < 1 {
                1
            } else {
                width
            };
            wrapped_row_count(text.as_str(), w, 0)
        },
        UnifiedDiffRow::Context { content, .. } | UnifiedDiffRow::Delete { content, .. }
        | UnifiedDiffRow::Insert { content, .. } => {
            let prefix_width = model.left_digits() + model.right_digits() + 4;
            let content_width = if width > prefix_width && width - prefix_width > 1 {
                width - prefix_width
            } else {
                1
            };
            wrapped_content_visual_count(Some(content.as_str()), content_width)
        },
    }
}

/// A numbered line as its number and text.
pub open spec fn numbered_view(line: Option<NumberedDiffLine>) -> Option<(usize, Seq<char>)> {
    match line {
        Some(l) => Some((l.number, l.content@)),
        None => None,
    }
}

/// The number of a numbered line, if there is one.
pub open spec fn view_number(line: Option<(usize, Seq<char>)>) -> Option<usize> {
    match line {
        Some(l) => Some(l.0),
        None => None,
    }
}

/// The text of a numbered line, if there is one.
pub open spec fn view_content(line: Option<(usize, Seq<char>)>) -> Option<Seq<char>> {
    match line {
        Some(l) => Some(l.1),
        None => None,
    }
}

/// The text of the note that unified row `i` holds, if it is one.
pub open spec fn side_message_spec(rows: Seq<UnifiedDiffRow>, i: int) -> Option<Seq<char>> {
    if 0 <= i < rows.len() && rows[i] is Message {
        Some(unified_content(rows[i]))
    } else {
        None
    }
}

/// The text of the note that unified row `unified` holds, if it is one.
pub fn side_message_text(model: &DiffModel, unified: usize) -> (text: Option<&str>)
    ensures
        match text {
            Some(t) => side_message_spec(model.unified_rows@, unified as int) == Some(t@),
            None => side_message_spec(model.unified_rows@, unified as int) is None,
        },
{
    let rows = model.unified_rows();
    if unified < rows.len() {
        match &rows[unified] {
            UnifiedDiffRow::Message { text } => Some(text.as_str()),
            _ => None,
        }
    } else {
        None
    }
}

/// Both sides of the shared line that unified row `i` holds, if it is one.
pub open spec fn context_lines_spec(rows: Seq<UnifiedDiffRow>, i: int) -> (Option<(usize, Seq<char>)>, Option<
    (usize, Seq<char>),
>) {
    if 0 <= i < rows.len() {
        match rows[i] {
            UnifiedDiffRow::Context { left, right, content } => (Some((left, content@)), Some((right, content@))),
            _ => (None, None),
        }
    } else {
        (None, None)
    }
}

/// Both sides of the shared line that unified row `unified` holds.
pub fn side_context_lines(model: &DiffModel, unified: usize) -> (lines: (Option<NumberedDiffLine>, Option<
    NumberedDiffLine,
>))
    ensures
        (numbered_view(lines.0), numbered_view(lines.1)) == context_lines_spec(model.unified_rows@, unified as int),
{
    let rows = model.unified_rows();
    if unified < rows.len() {
        match &rows[unified] {
            UnifiedDiffRow::Context { left, right, content } => (
                Some(NumberedDiffLine { number: *left, content: content.clone() }),
                Some(NumberedDiffLine { number: *right, content: content.clone() }),
            ),
            _ => (None, None),
        }
    } else {
        (None, None)
    }
}

/// The removed or added line that unified row `i` holds, if it is one.
pub open spec fn changed_line_spec(rows: Seq<UnifiedDiffRow>, i: int) -> Option<(usize, Seq<char>)> {
    if 0 <= i < rows.len() {
        match rows[i] {
            UnifiedDiffRow::Delete { left, content, .. } => Some((left, content@)),
            UnifiedDiffRow::Insert { right, content, .. } => Some((right, content@)),
            _ => None,
        }
    } else {
        None
    }
}

/// The removed or added line that unified row `unified` holds.
pub fn changed_side_line(model: &DiffModel, unified: usize) -> (line: Option<NumberedDiffLine>)
    ensures
        numbered_view(line) == changed_line_spec(model.unified_rows@, unified as int),
{
    let rows = model.unified_rows();
    if unified < rows.len() {
        match &rows[unified] {
            UnifiedDiffRow::Delete { left, content, .. } => Some(NumberedDiffLine { number: *left, content: content.clone() }),
            UnifiedDiffRow::Insert { right, content, .. } => Some(NumberedDiffLine { number: *right, content: content.clone() }),
            _ => None,
        }
    } else {
        None
    }
}

/// How the removed or added line of unified row `i` is drawn.
pub open spec fn changed_style_spec(rows: Seq<UnifiedDiffRow>, i: int) -> Option<DiffCellStyle> {
    if 0 <= i < rows.len() {
        match rows[i] {
            UnifiedDiffRow::Delete { change, .. } => Some(DiffCellStyle { side: DiffSide::Removed, change }),
            UnifiedDiffRow::Insert { change, .. } => Some(DiffCellStyle { side: DiffSide::Added, change }),
            _ => None,
        }
    } else {
        None
    }
}

/// How the removed or added line of unified row `unified` is drawn.
pub fn changed_side_style(model: &DiffModel, unified: usize) -> (style: Option<DiffCellStyle>)
    ensures
        style == changed_style_spec(model.unified_rows@, unified as int),
{
    let rows = model.unified_rows();
    if unified < rows.len() {
        match &rows[unified] {
            UnifiedDiffRow::Delete { change, .. } => Some(DiffCellStyle { side: DiffSide::Removed, change: *change }),
            UnifiedDiffRow::Insert { change, .. } => Some(DiffCellStyle { side: DiffSide::Added, change: *change }),
            _ => None,
        }
    } else {
        None
    }
}

/// The content widths of the two cells of a side-by-side row: what the two
/// gutters and the separator leave, split in two, the right getting the odd
/// column.
pub open spec fn side_widths(left_digits: int, right_digits: int, width: int) -> (int, int) {
    let content_width = sat_sub(width, left_digits + right_digits + 9);
    (content_width / 2, content_width - content_width / 2)
}

/// The content widths of the two cells of a side-by-side row.
pub fn side_content_widths(model: &DiffModel, width: usize) -> (widths: (usize, usize))
    requires
        model.left_digits <= 20,
        model.right_digits <= 20,
    ensures
        (widths.0 as int, widths.1 as int) == side_widths(model.left_digits as int, model.right_digits as int, width as int),
{
    let fixed_width = model.left_digits() + model.right_digits() + 9;
    let content_width = if width > fixed_width {
        width - fixed_width
    } else {
        0
    };
    let left_width = content_width / 2;
    (left_width, content_width - left_width)
}

/// A cell for an optional numbered line.
pub fn numbered_cell<'a>(line: Option<&'a NumberedDiffLine>, digits: usize, diff_style: Option<DiffCellStyle>) -> (cell:
    NumberedCell<'a>)
    ensures
        cell.number == view_number(numbered_view(match line {
            Some(l) => Some(*l),
            None => None,
        })),
        content_view(cell.content) == view_content(numbered_view(match line {
            Some(l) => Some(*l),
            None => None,
        })),
        cell.digits == digits,
        cell.diff_style == diff_style,
{
    match line {
        Some(l) => NumberedCell { number: Some(l.number), digits, content: Some(l.content.as_str()), diff_style },
        None => NumberedCell { number: None, digits, content: None, diff_style },
    }
}

/// The separator between the two cells of a side-by-side row.
pub open spec fn side_separator() -> Seq<char> {
    seq![' ', '│', ' ']
}

fn push_separator(spans: &mut Vec<DiffSpan>)
    ensures
        diff_text(final(spans).deep_view()) == diff_text(old(spans).deep_view()) + side_separator(),
        final(spans).deep_view() == old(spans).deep_view().push(
            (side_separator(), SpanStyle::Gutter, Backdrop::Plain),
        ),
{
    let mut sep = String::new();
    crate::text::string_push(&mut sep, ' ');
    crate::text::string_push(&mut sep, '│');
    crate::text::string_push(&mut sep, ' ');
    let ghost before = spans.deep_view();
    spans.push(DiffSpan { text: sep, style: SpanStyle::Gutter, backdrop: Backdrop::Plain });
    proof {
        assert(spans.deep_view() =~= before.push((sep@, SpanStyle::Gutter, Backdrop::Plain)));
        lemma_views_push(before, (sep@, SpanStyle::Gutter, Backdrop::Plain));
        assert(sep@ =~= side_separator());
    }
}

/// The text of an unwrapped side-by-side row with two cells.
pub open spec fn side_content_text(
    left: Option<(usize, Seq<char>)>,
    right: Option<(usize, Seq<char>)>,
    left_diff: Option<DiffCellStyle>,
    right_diff: Option<DiffCellStyle>,
    left_digits: int,
    right_digits: int,
    width: int,
    x: int,
) -> Seq<char> {
    let (lw, rw) = side_widths(left_digits, right_digits, width);
    numbered_cell_text(
        view_number(left),
        left_digits,
        cell_marker(left_diff, left is Some),
        view_content(left),
        lw,
        x,
    ) + side_separator() + numbered_cell_text(
        view_number(right),
        right_digits,
        cell_marker(right_diff, right is Some),
        view_content(right),
        rw,
        x,
    )
}

/// A numbered line can be drawn: its text fits the highlighter's limit.
pub open spec fn line_ok(line: Option<NumberedDiffLine>) -> bool {
    line matches Some(l) ==> l.content@.len() <= usize::MAX / 8
}

/// Draws an unwrapped side-by-side row: the old line's cell, the separator,
/// the new line's cell.
pub fn render_side_content(
    left: Option<NumberedDiffLine>,
    right: Option<NumberedDiffLine>,
    model: &DiffModel,
    width: usize,
    x: usize,
    left_diff: Option<DiffCellStyle>,
    right_diff: Option<DiffCellStyle>,
) -> (line: Vec<DiffSpan>)
    requires
        model.left_digits <= 20,
        model.right_digits <= 20,
        line_ok(left),
        line_ok(right),
        style_ok(left_diff),
        style_ok(right_diff),
    ensures
        diff_text(line.deep_view()) == side_content_text(
            numbered_view(left),
            numbered_view(right),
            left_diff,
            right_diff,
            model.left_digits as int,
            model.right_digits as int,
            width as int,
            x as int,
        ),
        side_content_looks(
            numbered_view(left),
            numbered_view(right),
            left_diff,
            right_diff,
            model.left_digits as int,
            model.right_digits as int,
            width as int,
            x as int,
            line.deep_view(),
        ),
{
    let (left_width, right_width) = side_content_widths(model, width);
    let mut spans: Vec<DiffSpan> = Vec::new();
    let left_cell = numbered_cell(left.as_ref(), model.left_digits(), left_diff);
    push_numbered_cell(&mut spans, left_cell, left_width, x);
    let ghost s1 = spans.deep_view();
    push_separator(&mut spans);
    let ghost s2 = spans.deep_view();
    let right_cell = numbered_cell(right.as_ref(), model.right_digits(), right_diff);
    push_numbered_cell(&mut spans, right_cell, right_width, x);
    proof {
        let g = cell_gutter_spans(left_cell.number, left_cell.digits as int, left_diff, left_cell.content is Some);
        assert(Seq::<(Seq<char>, SpanStyle, Backdrop)>::empty() + g =~= g);
        assert(backdrops(Seq::<(Seq<char>, SpanStyle, Backdrop)>::empty()) =~= Seq::<Backdrop>::empty());
        cells::lemma_keeps_push(s1, (side_separator(), SpanStyle::Gutter, Backdrop::Plain));
        lemma_views_push(s1, (side_separator(), SpanStyle::Gutter, Backdrop::Plain));
        lemma_keeps_trans(g, s1, s2);
        assert(keeps(s2, spans.deep_view())) by {
            let g2 = cell_gutter_spans(right_cell.number, right_cell.digits as int, right_diff, right_cell.content is Some);
            assert((s2 + g2).take(s2.len() as int) =~= s2);
            lemma_keeps_trans(s2, s2 + g2, spans.deep_view());
        }
        lemma_keeps_trans(g, s2, spans.deep_view());
        let left_view = numbered_view(left);
        let right_view = numbered_view(right);
        assert(backdrops(spans.deep_view()) =~= cell_backdrops(
            view_number(left_view),
            model.left_digits as int,
            left_diff,
            view_content(left_view),
            left_width as int,
            x as int,
        ) + Seq::new(3, |k: int| Backdrop::Plain) + cell_backdrops(
            view_number(right_view),
            model.right_digits as int,
            right_diff,
            view_content(right_view),
            right_width as int,
            x as int,
        ));
        assert(diff_text(Seq::<(Seq<char>, SpanStyle, Backdrop)>::empty()) =~= Seq::<char>::empty());
        assert(diff_text(spans.deep_view()) =~= side_content_text(
            numbered_view(left),
            numbered_view(right),
            left_diff,
            right_diff,
            model.left_digits as int,
            model.right_digits as int,
            width as int,
            x as int,
        ));
    }
    spans
}

/// How an unwrapped side-by-side row with content looks beyond its text:
/// it starts with the left cell's gutter spans (number, marker in its side's
/// style, over the cell's line background), and each char is drawn over its
/// cell's backgrounds, the changed part of a cell over the change background
/// and the separator over none.
pub open spec fn side_content_looks(
    left: Option<(usize, Seq<char>)>,
    right: Option<(usize, Seq<char>)>,
    left_diff: Option<DiffCellStyle>,
    right_diff: Option<DiffCellStyle>,
    left_digits: int,
    right_digits: int,
    width: int,
    x: int,
    line: Seq<(Seq<char>, SpanStyle, Backdrop)>,
) -> bool {
    let (left_width, right_width) = side_widths(left_digits, right_digits, width);
    &&& keeps(cell_gutter_spans(view_number(left), left_digits, left_diff, view_content(left) is Some), line)
    &&& backdrops(line) == cell_backdrops(
        view_number(left),
        left_digits,
        left_diff,
        view_content(left),
        left_width,
        x,
    ) + Seq::new(3, |k: int| Backdrop::Plain) + cell_backdrops(
        view_number(right),
        right_digits,
        right_diff,
        view_content(right),
        right_width,
        x,
    )
}

/// How many rows a side's cell wraps to at `width` columns.
pub open spec fn side_cell_rows(line: Option<(usize, Seq<char>)>, width: int) -> int {
    content_rows_spec(view_content(line), width)
}

/// How many rows a side's cell wraps to.
pub fn side_cell_visual_count(line: Option<&NumberedDiffLine>, width: usize) -> (rows: usize)
    ensures
        rows == side_cell_rows(
            numbered_view(match line {
                Some(l) => Some(*l),
                None => None,
            }),
            width as int,
        ),
{
    match line {
        Some(l) => wrapped_content_visual_count(Some(l.content.as_str()), width),
        None => wrapped_content_visual_count(None, width),
    }
}

/// How many rows a wrapped side-by-side row with two cells takes: those of
/// its longer cell.
pub open spec fn side_pair_rows(
    left: Option<(usize, Seq<char>)>,
    right: Option<(usize, Seq<char>)>,
    left_digits: int,
    right_digits: int,
    width: int,
) -> int {
    let (lw, rw) = side_widths(left_digits, right_digits, width);
    let a = side_cell_rows(left, lw);
    let b = side_cell_rows(right, rw);
    if a > b {
        a
    } else {
        b
    }
}

/// The text of screen row `visual_row` of a wrapped side-by-side row with two
/// cells.
pub open spec fn side_window_row_text(
    left: Option<(usize, Seq<char>)>,
    right: Option<(usize, Seq<char>)>,
    left_diff: Option<DiffCellStyle>,
    right_diff: Option<DiffCellStyle>,
    left_digits: int,
    right_digits: int,
    width: int,
    visual_row: int,
) -> Seq<char> {
    let (lw, rw) = side_widths(left_digits, right_digits, width);
    numbered_cell_window_text(
        view_number(left),
        left_digits,
        cell_marker(left_diff, left is Some),
        view_content(left),
        lw,
        visual_row,
    ) + side_separator() + numbered_cell_window_text(
        view_number(right),
        right_digits,
        cell_marker(right_diff, right is Some),
        view_content(right),
        rw,
        visual_row,
    )
}

/// The screen rows `row_offset .. row_offset + height` of a wrapped
/// side-by-side row with two cells, as far as its longer cell reaches.
pub fn render_side_content_window(
    left: Option<NumberedDiffLine>,
    right: Option<NumberedDiffLine>,
    model: &DiffModel,
    row_offset: usize,
    height: usize,
    width: usize,
    left_diff: Option<DiffCellStyle>,
    right_diff: Option<DiffCellStyle>,
) -> (lines: Vec<Vec<DiffSpan>>)
    requires
        model.left_digits <= 20,
        model.right_digits <= 20,
        line_ok(left),
        line_ok(right),
        style_ok(left_diff),
        style_ok(right_diff),
    ensures
        ({
            let count = side_pair_rows(
                numbered_view(left),
                numbered_view(right),
                model.left_digits as int,
                model.right_digits as int,
                width as int,
            );
            let end = if sat_add(row_offset as int, height as int) < count {
                sat_add(row_offset as int, height as int)
            } else {
                count
            };
            &&& lines@.len() == sat_sub(end, row_offset as int)
            &&& forall|j: int| 0 <= j < lines@.len() ==> diff_text((#[trigger] lines@[j]).deep_view())
                == side_window_row_text(
                numbered_view(left),
                numbered_view(right),
                left_diff,
                right_diff,
                model.left_digits as int,
                model.right_digits as int,
                width as int,
                row_offset + j,
            )
        }),
{
    let (left_width, right_width) = side_content_widths(model, width);
    let a = side_cell_visual_count(left.as_ref(), left_width);
    let b = side_cell_visual_count(right.as_ref(), right_width);
    let visual_count = if a > b {
        a
    } else {
        b
    };
    let reach = if row_offset > usize::MAX - height {
        usize::MAX
    } else {
        row_offset + height
    };
    let end = if reach < visual_count {
        reach
    } else {
        visual_count
    };
    let mut lines: Vec<Vec<DiffSpan>> = Vec::new();
    let mut visual_row = row_offset;
    while visual_row < end
        invariant
            row_offset <= visual_row,
            visual_row <= end || visual_row == row_offset,
            lines@.len() == visual_row - row_offset,
            model.left_digits <= 20,
            model.right_digits <= 20,
            line_ok(left),
            line_ok(right),
            style_ok(left_diff),
            style_ok(right_diff),
            (left_width as int, right_width as int) == side_widths(
                model.left_digits as int,
                model.right_digits as int,
                width as int,
            ),
            forall|j: int| 0 <= j < lines@.len() ==> diff_text((#[trigger] lines@[j]).deep_view())
                == side_window_row_text(
                numbered_view(left),
                numbered_view(right),
                left_diff,
                right_diff,
                model.left_digits as int,
                model.right_digits as int,
                width as int,
                row_offset + j,
            ),
        decreases end - visual_row,
    {
        let mut spans: Vec<DiffSpan> = Vec::new();
        push_numbered_cell_window(
            &mut spans,
            numbered_cell(left.as_ref(), model.left_digits(), left_diff),
            left_width,
            visual_row,
        );
        push_separator(&mut spans);
        push_numbered_cell_window(
            &mut spans,
            numbered_cell(right.as_ref(), model.right_digits(), right_diff),
            right_width,
            visual_row,
        );
        proof {
            assert(diff_text(Seq::<(Seq<char>, SpanStyle, Backdrop)>::empty()) =~= Seq::<char>::empty());
            assert(diff_text(spans.deep_view()) =~= side_window_row_text(
                numbered_view(left),
                numbered_view(right),
                left_diff,
                right_diff,
                model.left_digits as int,
                model.right_digits as int,
                width as int,
                visual_row as int,
            ));
        }
        lines.push(spans);
        visual_row += 1;
    }
    assert(lines@.len() == sat_sub(end as int, row_offset as int));
    lines
}

/// The two cells of a side-by-side row that is no note: both sides of a
/// shared line, or the removed and the added line (either may be missing),
/// with how each is drawn.
pub open spec fn side_cells(rows: Seq<UnifiedDiffRow>, row: SideDiffRow) -> (
    Option<(usize, Seq<char>)>,
    Option<(usize, Seq<char>)>,
    Option<DiffCellStyle>,
    Option<DiffCellStyle>,
) {
    match row {
        SideDiffRow::Context { unified } => {
            let (l, r) = context_lines_spec(rows, unified as int);
            (l, r, None, None)
        },
        SideDiffRow::Change { left, right } => (
            match left {
                Some(i) => changed_line_spec(rows, i as int),
                None => None,
            },
            match right {
                Some(i) => changed_line_spec(rows, i as int),
                None => None,
            },
            match left {
                Some(i) => changed_style_spec(rows, i as int),
                None => None,
            },
            match right {
                Some(i) => changed_style_spec(rows, i as int),
                None => None,
            },
        ),
        SideDiffRow::Message { .. } => (None, None, None, None),
    }
}

/// The text of a note row: the note that its unified row holds (empty if it
/// holds none).
pub open spec fn side_note(rows: Seq<UnifiedDiffRow>, unified: int) -> Seq<char> {
    match side_message_spec(rows, unified) {
        Some(t) => t,
        None => Seq::empty(),
    }
}

/// How an unwrapped side-by-side row looks beyond its text: a note is one
/// plain span; a row with cells looks as `side_content_looks` says.
pub open spec fn side_row_looks(
    rows: Seq<UnifiedDiffRow>,
    row: SideDiffRow,
    left_digits: int,
    right_digits: int,
    width: int,
    x: int,
    line: Seq<(Seq<char>, SpanStyle, Backdrop)>,
) -> bool {
    match row {
        SideDiffRow::Message { unified } => line == seq![
            (char_slice(side_note(rows, unified as int), 0, width), SpanStyle::Plain, Backdrop::Plain),
        ],
        _ => {
            let (l, r, ld, rd) = side_cells(rows, row);
            side_content_looks(l, r, ld, rd, left_digits, right_digits, width, x, line)
        },
    }
}

/// The text of an unwrapped side-by-side row.
pub open spec fn side_row_text(rows: Seq<UnifiedDiffRow>, row: SideDiffRow, left_digits: int, right_digits: int, width: int, x: int) -> Seq<char> {
    match row {
        SideDiffRow::Message { unified } => char_slice(side_note(rows, unified as int), 0, width),
        _ => {
            let (l, r, ls, rs) = side_cells(rows, row);
            side_content_text(l, r, ls, rs, left_digits, right_digits, width, x)
        },
    }
}

proof fn lemma_drawable_lines(model: &DiffModel, i: int)
    requires
        model.drawable(),
    ensures
        changed_line_spec(model.unified_rows@, i) matches Some(l) ==> l.1.len() <= usize::MAX / 8,
        context_lines_spec(model.unified_rows@, i).0 matches Some(l) ==> l.1.len() <= usize::MAX / 8,
        context_lines_spec(model.unified_rows@, i).1 matches Some(l) ==> l.1.len() <= usize::MAX / 8,
        style_ok(changed_style_spec(model.unified_rows@, i)),
        side_message_spec(model.unified_rows@, i) matches Some(t) ==> t.len() <= usize::MAX / 8,
{
    if 0 <= i < model.unified_rows@.len() {
        assert(unified_row_ok(model.unified_rows@[i]));
    }
}

/// Draws an unwrapped side-by-side row.
pub fn render_side_row(row: &SideDiffRow, model: &DiffModel, width: usize, x: usize) -> (line: Vec<DiffSpan>)
    requires
        model.drawable(),
    ensures
        diff_text(line.deep_view()) == side_row_text(
            model.unified_rows@,
            *row,
            model.left_digits as int,
            model.right_digits as int,
            width as int,
            x as int,
        ),
        side_row_looks(
            model.unified_rows@,
            *row,
            model.left_digits as int,
            model.right_digits as int,
            width as int,
            x as int,
            line.deep_view(),
        ),
{
    match row {
        SideDiffRow::Message { unified } => {
            let text = match side_message_text(model, *unified) {
                Some(t) => t,
                None => "",
            };
            let line = styled_text_line(text, width, SpanStyle::Plain);
            proof {
                reveal_strlit("");
                assert(text@ == side_note(model.unified_rows@, *unified as int));
                let piece = (char_slice(text@, 0, width as int), SpanStyle::Plain, Backdrop::Plain);
                lemma_views_push(Seq::empty(), piece);
                assert(seq![piece] =~= Seq::<(Seq<char>, SpanStyle, Backdrop)>::empty().push(piece));
                assert(Seq::<char>::empty() + piece.0 =~= piece.0);
            }
            line
        },
        SideDiffRow::Context { unified } => {
            let (left, right) = side_context_lines(model, *unified);
            proof {
                lemma_drawable_lines(model, *unified as int);
            }
            render_side_content(left, right, model, width, x, None, None)
        },
        SideDiffRow::Change { left, right } => {
            let (left_line, left_style) = match left {
                Some(i) => {
                    proof {
                        lemma_drawable_lines(model, *i as int);
                    }
                    (changed_side_line(model, *i), changed_side_style(model, *i))
                },
                None => (None, None),
            };
            let (right_line, right_style) = match right {
                Some(i) => {
                    proof {
                        lemma_drawable_lines(model, *i as int);
                    }
                    (changed_side_line(model, *i), changed_side_style(model, *i))
                },
                None => (None, None),
            };
            render_side_content(left_line, right_line, model, width, x, left_style, right_style)
        },
    }
}

/// How many screen rows a side-by-side row takes when wrapped at `width`.
pub open spec fn side_rows_spec(rows: Seq<UnifiedDiffRow>, row: SideDiffRow, left_digits: int, right_digits: int, width: int) -> int {
    match row {
        SideDiffRow::Message { unified } => match side_message_spec(rows, unified as int) {
            Some(t) => row_count(t, vstd::utf8::encode_utf8(t), cell_width(width), 0) as int,
            None => 1,
        },
        _ => {
            let (l, r, _, _) = side_cells(rows, row);
            side_pair_rows(l, r, left_digits, right_digits, width)
        },
    }
}

/// How many screen rows a side-by-side row takes when wrapped at `width`.
pub fn side_row_visual_count(row: &SideDiffRow, model: &DiffModel, width: usize) -> (rows: usize)
    requires
        model.left_digits <= 20,
        model.right_digits <= 20,
    ensures
        rows == side_rows_spec(model.unified_rows@, *row, model.left_digits as int, model.right_digits as int, width as int),
{
    match row {
        SideDiffRow::Message { unified } => match side_message_text(model, *unified) {
            Some(text) => {
                let w = if width < 1 {
                    1
                } else {
                    width
                };
                wrapped_row_count(text, w, 0)
            },
            None => 1,
        },
        SideDiffRow::Context { unified } => {
            let (left, right) = side_context_lines(model, *unified);
            let (left_width, right_width) = side_content_widths(model, width);
            let a = side_cell_visual_count(left.as_ref(), left_width);
            let b = side_cell_visual_count(right.as_ref(), right_width);
            if a > b {
                a
            } else {
                b
            }
        },
        SideDiffRow::Change { left, right } => {
            let (left_width, right_width) = side_content_widths(model, width);
            let left_line = match left {
                Some(i) => changed_side_line(model, *i),
                None => None,
            };
            let right_line = match right {
                Some(i) => changed_side_line(model, *i),
                None => None,
            };
            let a = side_cell_visual_count(left_line.as_ref(), left_width);
            let b = side_cell_visual_count(right_line.as_ref(), right_width);
            if a > b {
                a
            } else {
                b
            }
        },
    }
}

/// The screen rows `row_offset .. row_offset + height` of a side-by-side
/// row: wrapped when `wrap`, else its one row when `row_offset` is 0.
pub fn render_side_row_window(
    row: &SideDiffRow,
    model: &DiffModel,
    row_offset: usize,
    height: usize,
    width: usize,
    x: usize,
    wrap: bool,
) -> (lines: Vec<Vec<DiffSpan>>)
    requires
        model.drawable(),
    ensures
        !wrap ==> lines@.len() == (if row_offset == 0 {
            1int
        } else {
            0
        }) && (row_offset == 0 ==> diff_text(lines@[0].deep_view()) == side_row_text(
            model.unified_rows@,
            *row,
            model.left_digits as int,
            model.right_digits as int,
            width as int,
            x as int,
        )),
        !wrap && row_offset == 0 ==> side_row_looks(
            model.unified_rows@,
            *row,
            model.left_digits as int,
            model.right_digits as int,
            width as int,
            x as int,
            lines@[0].deep_view(),
        ),
        wrap && row is Message ==> {
            let note = side_note(model.unified_rows@, row->Message_unified as int);
            let rows = window_rows(note, cell_width(width as int), 0, row_offset as int, height as int);
            &&& lines@.len() == rows.len()
            &&& forall|j: int| 0 <= j < rows.len() ==> diff_text((#[trigger] lines@[j]).deep_view())
                == char_slice(note, rows[j].start_char as int, rows[j].end_char as int)
        },
        wrap && !(row is Message) ==> {
            let (l, r, ls, rs) = side_cells(model.unified_rows@, *row);
            let count = side_pair_rows(l, r, model.left_digits as int, model.right_digits as int, width as int);
            let end = if sat_add(row_offset as int, height as int) < count {
                sat_add(row_offset as int, height as int)
            } else {
                count
            };
            &&& lines@.len() == sat_sub(end, row_offset as int)
            &&& forall|j: int| 0 <= j < lines@.len() ==> diff_text((#[trigger] lines@[j]).deep_view())
                == side_window_row_text(
                l,
                r,
                ls,
                rs,
                model.left_digits as int,
                model.right_digits as int,
                width as int,
                row_offset + j,
            )
        },
{
    if !wrap {
        let mut lines: Vec<Vec<DiffSpan>> = Vec::new();
        if row_offset == 0 {
            lines.push(render_side_row(row, model, width, x));
        }
        return lines;
    }
    match row {
        SideDiffRow::Message { unified } => {
            let text = match side_message_text(model, *unified) {
                Some(t) => t,
                None => "",
            };
            proof {
                reveal_strlit("");
                assert(text@ == side_note(model.unified_rows@, *unified as int));
            }
            let lines = render_message_window(text, row_offset, height, width, SpanStyle::Plain);
            proof {
                let rows = window_rows(text@, cell_width(width as int), 0, row_offset as int, height as int);
                assert forall|j: int| 0 <= j < rows.len() implies diff_text((#[trigger] lines@[j]).deep_view())
                    == char_slice(text@, rows[j].start_char as int, rows[j].end_char as int) by {
                    let piece = (char_slice(text@, rows[j].start_char as int, rows[j].end_char as int), SpanStyle::Plain, Backdrop::Plain);
                    lemma_views_push(Seq::empty(), piece);
                    assert(seq![piece] =~= Seq::<(Seq<char>, SpanStyle, Backdrop)>::empty().push(piece));
                    assert(Seq::<char>::empty() + piece.0 =~= piece.0);
                }
            }
            lines
        },
        SideDiffRow::Context { unified } => {
            let (left, right) = side_context_lines(model, *unified);
            proof {
                lemma_drawable_lines(model, *unified as int);
            }
            render_side_content_window(left, right, model, row_offset, height, width, None, None)
        },
        SideDiffRow::Change { left, right } => {
            let (left_line, left_style) = match left {
                Some(i) => {
                    proof {
                        lemma_drawable_lines(model, *i as int);
                    }
                    (changed_side_line(model, *i), changed_side_style(model, *i))
                },
                None => (None, None),
            };
            let (right_line, right_style) = match right {
                Some(i) => {
                    proof {
                        lemma_drawable_lines(model, *i as int);
                    }
                    (changed_side_line(model, *i), changed_side_style(model, *i))
                },
                None => (None, None),
            };
            render_side_content_window(left_line, right_line, model, row_offset, height, width, left_style, right_style)
        },
    }
}

/// The rows `top .. top + height` of a layout, as far as there are rows.
pub open spec fn shown_rows(count: int, top: int, height: int) -> int {
    if height == 0 || top >= count {
        0
    } else if count - top < height {
        count - top
    } else {
        height
    }
}

/// The text of unwrapped row `i` of a layout.
pub open spec fn layout_row_text(model: &DiffModel, layout: DiffLayout, i: int, width: int, x: int) -> Seq<char> {
    match layout {
        DiffLayout::Unified => unified_row_text(
            model.unified_rows@[i],
            model.left_digits as int,
            model.right_digits as int,
            width,
            x,
        ),
        DiffLayout::SideBySide => side_row_text(
            model.unified_rows@,
            model.side_rows@[i],
            model.left_digits as int,
            model.right_digits as int,
            width,
            x,
        ),
    }
}

/// How many rows a layout has.
pub open spec fn layout_count(model: &DiffModel, layout: DiffLayout) -> int {
    match layout {
        DiffLayout::Unified => model.unified_rows@.len() as int,
        DiffLayout::SideBySide => model.side_rows@.len() as int,
    }
}

/// Draws the unwrapped rows `top .. top + height` of `layout`, each cut to
/// `width` columns and shifted left by `x`.
pub fn render_rows(model: &DiffModel, layout: DiffLayout, top: usize, height: usize, width: usize, x: usize) -> (lines:
    Vec<Vec<DiffSpan>>)
    requires
        model.drawable(),
    ensures
        lines@.len() == shown_rows(layout_count(model, layout), top as int, height as int),
        forall|j: int| 0 <= j < lines@.len() ==> diff_text((#[trigger] lines@[j]).deep_view()) == layout_row_text(
            model,
            layout,
            top + j,
            width as int,
            x as int,
        ),
{
    let mut lines: Vec<Vec<DiffSpan>> = Vec::new();
    if height == 0 {
        return lines;
    }
    let count = match layout {
        DiffLayout::Unified => model.unified_rows().len(),
        DiffLayout::SideBySide => model.side_rows().len(),
    };
    if top >= count {
        return lines;
    }
    let end = if count - top < height {
        count
    } else {
        top + height
    };
    let mut i = top;
    while i < end
        invariant
            top <= i <= end <= count,
            count == layout_count(model, layout),
            model.drawable(),
            lines@.len() == i - top,
            forall|j: int| 0 <= j < lines@.len() ==> diff_text((#[trigger] lines@[j]).deep_view()) == layout_row_text(
                model,
                layout,
                top + j,
                width as int,
                x as int,
            ),
        decreases end - i,
    {
        let line = match layout {
            DiffLayout::Unified => {
                proof {
                    assert(unified_row_ok(model.unified_rows@[i as int]));
                }
                render_unified_row(&model.unified_rows()[i], model, width, x)
            },
            DiffLayout::SideBySide => render_side_row(&model.side_rows()[i], model, width, x),
        };
        lines.push(line);
        i += 1;
    }
    lines
}

/// The texts of a list of drawn rows.
pub open spec fn texts_of(lines: Seq<Vec<DiffSpan>>) -> Seq<Seq<char>> {
    Seq::new(lines.len(), |j: int| diff_text(lines[j].deep_view()))
}

/// The texts of the screen rows `offset .. offset + height` of unified row
/// `r` (its one row when not wrapping and `offset` is 0).
pub open spec fn unified_window_texts(
    r: UnifiedDiffRow,
    left_digits: int,
    right_digits: int,
    offset: int,
    height: int,
    width: int,
    x: int,
    wrap: bool,
) -> Seq<Seq<char>> {
    if !wrap {
        if offset == 0 {
            seq![unified_row_text(r, left_digits, right_digits, width, x)]
        } else {
            Seq::empty()
        }
    } else if r is Message {
        let rows = window_rows(unified_content(r), cell_width(width), 0, offset, height);
        Seq::new(
            rows.len(),
            |j: int| char_slice(unified_content(r), rows[j].start_char as int, rows[j].end_char as int),
        )
    } else {
        let (left, right, marker, _, diff_style) = unified_parts(r);
        let cw = unified_content_width(left_digits, right_digits, width);
        let count = content_rows_spec(Some(unified_content(r)), cw);
        let end = if sat_add(offset, height) < count {
            sat_add(offset, height)
        } else {
            count
        };
        Seq::new(
            sat_sub(end, offset) as nat,
            |j: int|
                unified_window_row_text(
                    left,
                    right,
                    marker,
                    unified_content(r),
                    left_digits,
                    right_digits,
                    width,
                    offset + j,
                    diff_style is Some,
                ),
        )
    }
}

/// The texts of the screen rows `offset .. offset + height` of side-by-side
/// row `r` (its one row when not wrapping and `offset` is 0).
pub open spec fn side_window_texts(
    rows: Seq<UnifiedDiffRow>,
    r: SideDiffRow,
    left_digits: int,
    right_digits: int,
    offset: int,
    height: int,
    width: int,
    x: int,
    wrap: bool,
) -> Seq<Seq<char>> {
    if !wrap {
        if offset == 0 {
            seq![side_row_text(rows, r, left_digits, right_digits, width, x)]
        } else {
            Seq::empty()
        }
    } else if r is Message {
        let note = side_note(rows, r->Message_unified as int);
        let ws = window_rows(note, cell_width(width), 0, offset, height);
        Seq::new(ws.len(), |j: int| char_slice(note, ws[j].start_char as int, ws[j].end_char as int))
    } else {
        let (l, rr, ls, rs) = side_cells(rows, r);
        let count = side_pair_rows(l, rr, left_digits, right_digits, width);
        let end = if sat_add(offset, height) < count {
            sat_add(offset, height)
        } else {
            count
        };
        Seq::new(
            sat_sub(end, offset) as nat,
            |j: int| side_window_row_text(l, rr, ls, rs, left_digits, right_digits, width, offset + j),
        )
    }
}

/// The texts of the screen rows of layout row `i` from row `offset` on, at
/// most `height` of them.
pub open spec fn row_window_texts(
    model: &DiffModel,
    layout: DiffLayout,
    i: int,
    offset: int,
    height: int,
    width: int,
    x: int,
    wrap: bool,
) -> Seq<Seq<char>> {
    match layout {
        DiffLayout::Unified => unified_window_texts(
            model.unified_rows@[i],
            model.left_digits as int,
            model.right_digits as int,
            offset,
            height,
            width,
            x,
            wrap,
        ),
        DiffLayout::SideBySide => side_window_texts(
            model.unified_rows@,
            model.side_rows@[i],
            model.left_digits as int,
            model.right_digits as int,
            offset,
            height,
            width,
            x,
            wrap,
        ),
    }
}

/// The texts of the screen rows a view `height` rows high shows, from row
/// `offset` of layout row `row` on: each layout row's rows in turn, the
/// later ones from their first row, until the view is full or the rows run
/// out.
pub open spec fn stacked_rows(
    model: &DiffModel,
    layout: DiffLayout,
    row: int,
    offset: int,
    height: int,
    width: int,
    x: int,
    wrap: bool,
) -> Seq<Seq<char>>
    decreases layout_count(model, layout) - row,
{
    if height <= 0 || row < 0 || row >= layout_count(model, layout) {
        Seq::empty()
    } else {
        let shown = row_window_texts(model, layout, row, offset, height, width, x, wrap);
        shown + stacked_rows(model, layout, row + 1, 0, height - shown.len(), width, x, wrap)
    }
}

/// The last layout row of which the view shows a screen row (`last` when it
/// shows none from `row` on).
pub open spec fn stacked_bottom(
    model: &DiffModel,
    layout: DiffLayout,
    row: int,
    offset: int,
    height: int,
    width: int,
    x: int,
    wrap: bool,
    last: int,
) -> int
    decreases layout_count(model, layout) - row,
{
    if height <= 0 || row < 0 || row >= layout_count(model, layout) {
        last
    } else {
        let shown = row_window_texts(model, layout, row, offset, height, width, x, wrap);
        stacked_bottom(
            model,
            layout,
            row + 1,
            0,
            height - shown.len(),
            width,
            x,
            wrap,
            if shown.len() > 0 {
                row
            } else {
                last
            },
        )
    }
}

/// The screen rows drawn for a view, and the last diff row they reach.
pub struct RenderedDiffRows {
    pub rows: Vec<Vec<DiffSpan>>,
    pub bottom_row: usize,
}

/// Draws the screen rows of a view `height` rows high whose top is row
/// `top_row_offset` of layout row `top`, and tells the last layout row it
/// reaches.
#[verifier::rlimit(60)]
pub fn render_rows_with_status(
    model: &DiffModel,
    layout: DiffLayout,
    top: usize,
    top_row_offset: usize,
    height: usize,
    width: usize,
    x: usize,
    wrap: bool,
) -> (rendered: RenderedDiffRows)
    requires
        model.drawable(),
    ensures
        texts_of(rendered.rows@) == stacked_rows(
            model,
            layout,
            top as int,
            top_row_offset as int,
            height as int,
            width as int,
            x as int,
            wrap,
        ),
        rendered.bottom_row == stacked_bottom(
            model,
            layout,
            top as int,
            top_row_offset as int,
            height as int,
            width as int,
            x as int,
            wrap,
            top as int,
        ),
{
    let count = match layout {
        DiffLayout::Unified => model.unified_rows().len(),
        DiffLayout::SideBySide => model.side_rows().len(),
    };
    let mut rows: Vec<Vec<DiffSpan>> = Vec::new();
    let mut bottom_row = top;
    let mut row = top;
    let mut offset = top_row_offset;
    let ghost want = stacked_rows(model, layout, top as int, top_row_offset as int, height as int, width as int, x as int, wrap);
    let ghost want_bottom = stacked_bottom(
        model,
        layout,
        top as int,
        top_row_offset as int,
        height as int,
        width as int,
        x as int,
        wrap,
        top as int,
    );
    while rows.len() < height && row < count
        invariant
            count == layout_count(model, layout),
            model.drawable(),
            rows@.len() <= height,
            row >= top,
            row > top ==> offset == 0,
            texts_of(rows@) + stacked_rows(
                model,
                layout,
                row as int,
                offset as int,
                height - rows@.len(),
                width as int,
                x as int,
                wrap,
            ) == want,
            stacked_bottom(
                model,
                layout,
                row as int,
                offset as int,
                height - rows@.len(),
                width as int,
                x as int,
                wrap,
                bottom_row as int,
            ) == want_bottom,
        decreases count - row,
    {
        let remaining = height - rows.len();
        let mut lines = match layout {
            DiffLayout::Unified => {
                proof {
                    assert(unified_row_ok(model.unified_rows@[row as int]));
                }
                render_unified_row_window(&model.unified_rows()[row], model, offset, remaining, width, x, wrap)
            },
            DiffLayout::SideBySide => render_side_row_window(
                &model.side_rows()[row],
                model,
                offset,
                remaining,
                width,
                x,
                wrap,
            ),
        };
        let ghost shown = row_window_texts(
            model,
            layout,
            row as int,
            offset as int,
            remaining as int,
            width as int,
            x as int,
            wrap,
        );
        proof {
            assert(texts_of(lines@) =~= shown);
        }
        if lines.len() > 0 {
            bottom_row = row;
        }
        let ghost before = rows@;
        rows.append(&mut lines);
        proof {
            assert(texts_of(rows@) =~= texts_of(before) + shown);
            assert(shown.len() <= remaining);
            let rest = stacked_rows(model, layout, row + 1, 0, remaining - shown.len(), width as int, x as int, wrap);
            assert(texts_of(before) + (shown + rest) =~= texts_of(rows@) + rest);
        }
        row += 1;
        offset = 0;
    }
    proof {
        assert(stacked_rows(model, layout, row as int, offset as int, height - rows@.len(), width as int, x as int, wrap)
            =~= Seq::<Seq<char>>::empty());
        assert(texts_of(rows@) + Seq::<Seq<char>>::empty() =~= texts_of(rows@));
    }
    RenderedDiffRows { rows, bottom_row }
}

/// How many screen rows layout row `i` takes: one when not wrapping.
pub open spec fn row_rows_spec(model: &DiffModel, layout: DiffLayout, i: int, width: int, wrap: bool) -> int {
    if !wrap || i < 0 || i >= layout_count(model, layout) {
        1
    } else {
        match layout {
            DiffLayout::Unified => unified_rows_spec(
                model.unified_rows@[i],
                model.left_digits as int,
                model.right_digits as int,
                width,
            ),
            DiffLayout::SideBySide => side_rows_spec(
                model.unified_rows@,
                model.side_rows@[i],
                model.left_digits as int,
                model.right_digits as int,
                width,
            ),
        }
    }
}

/// How many screen rows layout row `row` takes (one for a row past the
/// end).
pub fn diff_row_visual_count(model: &DiffModel, layout: DiffLayout, row: usize, width: usize, wrap: bool) -> (rows:
    usize)
    requires
        model.left_digits <= 20,
        model.right_digits <= 20,
    ensures
        rows == row_rows_spec(model, layout, row as int, width as int, wrap),
{
    if !wrap {
        return 1;
    }
    match layout {
        DiffLayout::Unified => if row < model.unified_rows().len() {
            unified_row_visual_count(&model.unified_rows()[row], model, width)
        } else {
            1
        },
        DiffLayout::SideBySide => if row < model.side_rows().len() {
            side_row_visual_count(&model.side_rows()[row], model, width)
        } else {
            1
        },
    }
}

/// How many screen rows each row of a layout takes.
pub fn row_visual_counts(model: &DiffModel, layout: DiffLayout, width: usize, wrap: bool) -> (counts: Vec<usize>)
    requires
        model.left_digits <= 20,
        model.right_digits <= 20,
    ensures
        counts@.len() == layout_count(model, layout),
        forall|i: int| 0 <= i < counts@.len() ==> counts@[i] == row_rows_spec(model, layout, i, width as int, wrap),
{
    let count = match layout {
        DiffLayout::Unified => model.unified_rows().len(),
        DiffLayout::SideBySide => model.side_rows().len(),
    };
    let mut counts: Vec<usize> = Vec::new();
    let mut i: usize = 0;
    while i < count
        invariant
            i <= count,
            count == layout_count(model, layout),
            model.left_digits <= 20,
            model.right_digits <= 20,
            counts@.len() == i,
            forall|k: int| 0 <= k < i ==> counts@[k] == row_rows_spec(model, layout, k, width as int, wrap),
        decreases count - i,
    {
        counts.push(diff_row_visual_count(model, layout, i, width, wrap));
        i += 1;
    }
    counts
}

/// A line number fits the columns given to it.
pub open spec fn number_fits(number: Option<usize>, digits: int) -> bool {
    number matches Some(n) ==> decimal_chars(n as nat).len() <= digits
}

/// A numbered line whose every char takes one column.
pub open spec fn narrow_line(line: Option<(usize, Seq<char>)>) -> bool {
    line matches Some(l) ==> all_narrow(l.1) && l.1.len() <= usize::MAX / 8
}

proof fn lemma_cell_row_width(
    number: Option<usize>,
    digits: int,
    marker: char,
    content: Option<Seq<char>>,
    content_width: int,
    visual_row: int,
)
    requires
        number_fits(number, digits),
        digits >= 0,
        content_width >= 1,
        visual_row >= 0,
        content matches Some(c) ==> all_narrow(c) && c.len() <= usize::MAX / 8,
    ensures
        numbered_cell_window_text(number, digits, marker, content, content_width, visual_row).len() == digits + 3
            + content_width,
{
    if let Some(c) = content {
        lemma_narrow_slice_fills_cell(c, content_width, visual_row);
    }
}

/// When the line numbers fit their columns and every char of both cells
/// takes one column, every wrapped screen row of a side-by-side row is
/// exactly as wide as the view, provided the view leaves each cell at least
/// one column.
pub proof fn law_wrapped_side_rows_fill_the_width(
    left: Option<(usize, Seq<char>)>,
    right: Option<(usize, Seq<char>)>,
    left_diff: Option<DiffCellStyle>,
    right_diff: Option<DiffCellStyle>,
    left_digits: int,
    right_digits: int,
    width: int,
    visual_row: int,
)
    requires
        number_fits(view_number(left), left_digits),
        number_fits(view_number(right), right_digits),
        narrow_line(left),
        narrow_line(right),
        left_digits >= 0,
        right_digits >= 0,
        width >= left_digits + right_digits + 11,
        visual_row >= 0,
    ensures
        side_window_row_text(left, right, left_diff, right_diff, left_digits, right_digits, width, visual_row).len()
            == width,
{
    let (lw, rw) = side_widths(left_digits, right_digits, width);
    lemma_cell_row_width(
        view_number(left),
        left_digits,
        cell_marker(left_diff, left is Some),
        view_content(left),
        lw,
        visual_row,
    );
    lemma_cell_row_width(
        view_number(right),
        right_digits,
        cell_marker(right_diff, right is Some),
        view_content(right),
        rw,
        visual_row,
    );
}

/// An unwrapped changed row of the unified layout is drawn over its
/// background across the whole width: its text is exactly as wide as the
/// view when the line numbers fit their columns and the view is wider than
/// the gutter.
pub proof fn law_changed_unified_rows_fill_the_width(
    left: Option<usize>,
    right: Option<usize>,
    marker: char,
    content: Seq<char>,
    left_digits: int,
    right_digits: int,
    width: int,
    x: int,
)
    requires
        number_fits(left, left_digits),
        number_fits(right, right_digits),
        left_digits >= 0,
        right_digits >= 0,
        width >= left_digits + right_digits + 4,
        x >= 0,
    ensures
        unified_content_text(left, right, marker, content, left_digits, right_digits, width, x, true).len() == width,
{
}

} // verus!
