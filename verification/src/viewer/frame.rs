//! What a frame of the text viewer shows around the lines: the sticky
//! breadcrumb, the height left for the body, and the texts of the title.
use vstd::prelude::*;
use vstd::string::StrSliceExecFns;

use crate::decimal::{decimal_chars, push_decimal};
use crate::text::push_str;
use crate::viewer::breadcrumb::{
    breadcrumb_path, breadcrumb_room, breadcrumb_spec, indented_views, rows_views, JsonBreadcrumbCache,
};
use crate::viewer::diff::cells::{push_spaces, spaces};
use crate::viewer::highlight::{SpanStyle, StyledText};
use crate::viewer::input::points::SyntaxKind;
use crate::viewer::input::state::ViewState;
use crate::viewer::position::{
    rendered_row_count, rendered_rows_spec, resolve_search_target_position,
    resolve_structure_target_position, RenderContext,
};
use crate::viewer::viewport::{body_rows_spec, joined, last_line_shown, match_columns, query_view, rows_texts, viewport_rows};
use crate::viewer::gutter::{gutter_digits_spec, GutterLayout};
use crate::viewer::highlight::lines::ViewMode;
use crate::viewer::diff::{progress_percent, progress_spec};
use crate::transform::types::FormatKind;

verus! {

/// The views of the rows kept above the body when the top line is `top`:
/// the key breadcrumb for structured text when there is room, nothing else.
pub open spec fn sticky_spec(
    mode: SyntaxKind,
    lines: Seq<String>,
    top: int,
    width: int,
    gutter_width: int,
    base_visible_height: int,
) -> Seq<Seq<(Seq<char>, SpanStyle)>> {
    if mode != SyntaxKind::Structured {
        Seq::empty()
    } else {
        match breadcrumb_room(width, gutter_width, base_visible_height) {
            None => Seq::empty(),
            Some((content_width, max_rows)) => {
                let path = breadcrumb_path(lines, top);
                if path.len() == 0 {
                    Seq::empty()
                } else {
                    indented_views(breadcrumb_spec(path, content_width, max_rows), gutter_width)
                }
            },
        }
    }
}

/// The rows kept above the body: the key breadcrumb for structured text,
/// nothing for other text.
pub fn sticky_lines(
    mode: SyntaxKind,
    breadcrumb: &mut JsonBreadcrumbCache,
    lines: &[String],
    top: usize,
    width: usize,
    gutter_width: usize,
    base_visible_height: usize,
) -> (rows: Vec<Vec<StyledText>>)
    requires
        old(breadcrumb).wf_for(lines@),
    ensures
        final(breadcrumb).wf_for(lines@),
        rows_views(rows@) == sticky_spec(
            mode,
            lines@,
            top as int,
            width as int,
            gutter_width as int,
            base_visible_height as int,
        ),
        mode != SyntaxKind::Structured ==> rows@.len() == 0,
        mode == SyntaxKind::Structured ==> rows_views(rows@) == match breadcrumb_room(
            width as int,
            gutter_width as int,
            base_visible_height as int,
        ) {
            None => Seq::empty(),
            Some((content_width, max_rows)) => {
                let path = breadcrumb_path(lines@, top as int);
                if path.len() == 0 {
                    Seq::empty()
                } else {
                    indented_views(breadcrumb_spec(path, content_width, max_rows), gutter_width as int)
                }
            },
        },
{
    if mode == SyntaxKind::Structured {
        breadcrumb.render(lines, top, width, gutter_width, base_visible_height)
    } else {
        let rows: Vec<Vec<StyledText>> = Vec::new();
        assert(rows_views(rows@) =~= Seq::<Seq<(Seq<char>, SpanStyle)>>::empty());
        rows
    }
}

/// The rows left for the body under `sticky_rows` sticky rows: at least one.
pub fn visible_height_for_sticky(base_visible_height: usize, sticky_rows: usize) -> (rows: usize)
    ensures
        rows == if base_visible_height > sticky_rows + 1 {
            base_visible_height - sticky_rows
        } else {
            1
        },
{
    let left = if base_visible_height > sticky_rows {
        base_visible_height - sticky_rows
    } else {
        0
    };
    if left < 1 {
        1
    } else {
        left
    }
}

/// The query whose matches are marked: the last one searched for, if any.
pub fn active_search_query(state: &ViewState) -> (query: Option<&str>)
    ensures
        match query {
            Some(q) => q@ == state.search_query@ && q@.len() > 0,
            None => state.search_query@.len() == 0,
        },
{
    if state.search_query.as_str().is_empty() {
        None
    } else {
        Some(state.search_query.as_str())
    }
}

/// The line count shown in the title: exact, or followed by `+` while the
/// file is still being read.
pub open spec fn line_count_spec(count: usize, exact: bool) -> Seq<char> {
    if exact {
        decimal_chars(count as nat)
    } else {
        decimal_chars(count as nat).push('+')
    }
}

/// The line count shown in the title.
pub fn line_count_text(count: usize, exact: bool) -> (text: String)
    ensures
        text@ == line_count_spec(count, exact),
{
    let mut text = String::new();
    push_decimal(&mut text, count);
    if !exact {
        crate::text::string_push(&mut text, '+');
    }
    assert(text@ =~= line_count_spec(count, exact));
    text
}

/// How far the top line can scroll before its last row would rise above
/// the bottom of a view `visible_height` rows high: its rows beyond the
/// view's height, none when not wrapping.
pub open spec fn tail_offset_spec(lines: Seq<String>, visible_height: int, context: RenderContext) -> int {
    if visible_height == 0 || !context.wrap || lines.len() == 0 {
        0
    } else {
        let rows = rendered_rows_spec(lines[0]@, context);
        if rows > visible_height {
            rows - visible_height
        } else {
            0
        }
    }
}

/// How many rows the top line (the first of `lines`) can scroll by and still
/// fill a view `visible_height` rows high.
pub fn exact_top_line_tail_offset(lines: &[String], visible_height: usize, context: RenderContext) -> (offset: usize)
    ensures
        offset == tail_offset_spec(lines@, visible_height as int, context),
{
    if visible_height == 0 || !context.wrap {
        return 0;
    }
    if lines.len() == 0 {
        return 0;
    }
    let rows = rendered_row_count(lines[0].as_str(), context);
    if rows > visible_height {
        rows - visible_height
    } else {
        0
    }
}

/// The last row of the top line (the first of `lines`) that can stand at the
/// top: all but its last row's index, none when not wrapping.
pub open spec fn scroll_limit_spec(lines: Seq<String>, context: RenderContext) -> int {
    if !context.wrap || lines.len() == 0 {
        0
    } else {
        let rows = rendered_rows_spec(lines[0]@, context);
        if rows > 1 {
            rows - 1
        } else {
            0
        }
    }
}

/// How far the top line can be scrolled within itself.
pub fn exact_top_line_scroll_limit(lines: &[String], context: RenderContext) -> (limit: usize)
    ensures
        limit == scroll_limit_spec(lines@, context),
{
    if !context.wrap {
        return 0;
    }
    if lines.len() == 0 {
        return 0;
    }
    let rows = rendered_row_count(lines[0].as_str(), context);
    if rows > 1 {
        rows - 1
    } else {
        0
    }
}


/// How far into the top line the view has scrolled, when wrapping and not
/// at its first row: `+N rows`.
pub open spec fn wrap_position_spec(state: ViewState) -> Option<Seq<char>> {
    if !state.wrap || state.top_row_offset == 0 {
        None
    } else {
        Some("+"@ + decimal_chars(state.top_row_offset as nat) + " rows"@)
    }
}

/// How far into the top line the view has scrolled.
pub fn wrap_position_text(state: &ViewState) -> (text: Option<String>)
    ensures
        text is None <==> wrap_position_spec(*state) is None,
        text matches Some(t) ==> wrap_position_spec(*state) == Some(t@),
{
    if !state.wrap || state.top_row_offset == 0 {
        return None;
    }
    let mut text = String::new();
    push_str(&mut text, "+");
    push_decimal(&mut text, state.top_row_offset);
    push_str(&mut text, " rows");
    assert(text@ =~= "+"@ + decimal_chars(state.top_row_offset as nat) + " rows"@);
    Some(text)
}

/// The display mode in the title: `wrap`, with the position in the top
/// line when scrolled into it, or `nowrap x:N` with the column.
pub open spec fn display_mode_spec(state: ViewState) -> Seq<char> {
    if state.wrap {
        match wrap_position_spec(state) {
            Some(position) => "wrap "@ + position,
            None => "wrap"@,
        }
    } else {
        "nowrap x:"@ + decimal_chars(state.x as nat)
    }
}

/// The display mode in the title.
pub fn display_mode_text(state: &ViewState) -> (text: String)
    ensures
        text@ == display_mode_spec(*state),
{
    let mut text = String::new();
    if state.wrap {
        match wrap_position_text(state) {
            Some(position) => {
                push_str(&mut text, "wrap ");
                push_str(&mut text, position.as_str());
            },
            None => push_str(&mut text, "wrap"),
        }
    } else {
        push_str(&mut text, "nowrap x:");
        push_decimal(&mut text, state.x);
    }
    assert(text@ =~= display_mode_spec(*state));
    text
}

/// The footer when nothing is being typed and no message is shown: the
/// position in the top line, then the keys.
pub open spec fn idle_footer_spec(state: ViewState) -> Seq<char> {
    " "@ + match wrap_position_spec(state) {
        Some(position) => position + " | "@,
        None => Seq::empty(),
    } + "q/Esc quit | "@ + (if state.wrap {
        "w unwrap"@
    } else {
        "w wrap"@
    }) + " | / search n/N | wheel/j/k | 123 Enter | Space/f,b "@
}

/// The footer when nothing is being typed and no message is shown.
pub fn idle_footer_text(state: &ViewState) -> (text: String)
    ensures
        text@ == idle_footer_spec(*state),
{
    let mut text = String::new();
    push_str(&mut text, " ");
    if let Some(position) = wrap_position_text(state) {
        push_str(&mut text, position.as_str());
        push_str(&mut text, " | ");
    }
    push_str(&mut text, "q/Esc quit | ");
    if state.wrap {
        push_str(&mut text, "w unwrap");
    } else {
        push_str(&mut text, "w wrap");
    }
    push_str(&mut text, " | / search n/N | wheel/j/k | 123 Enter | Space/f,b ");
    assert(text@ =~= idle_footer_spec(*state));
    text
}

/// The footer: the search being typed, the line number being typed (with
/// the line count), the last search message, or the keys.
pub open spec fn footer_spec(state: ViewState, line_count: usize, exact: bool) -> Seq<char> {
    if state.search_active {
        " search: "@ + state.search_buffer@ + " | Enter find | Backspace edit | Esc cancel "@
    } else if state.jump_buffer@.len() > 0 {
        " go to line: "@ + state.jump_buffer@ + " / "@ + line_count_spec(line_count, exact)
            + " | Enter jump | Backspace edit | Esc cancel "@
    } else {
        match state.search_message {
            Some(message) => " "@ + message@ + " | / search | n/N | Esc clear "@,
            None => idle_footer_spec(state),
        }
    }
}

/// The footer of a text view over `line_count` lines (`exact` when they
/// have all been read).
pub fn footer_text(state: &ViewState, line_count: usize, exact: bool) -> (text: String)
    ensures
        text@ == footer_spec(*state, line_count, exact),
{
    if state.search_active {
        let mut text = String::new();
        push_str(&mut text, " search: ");
        push_str(&mut text, state.search_buffer.as_str());
        push_str(&mut text, " | Enter find | Backspace edit | Esc cancel ");
        assert(text@ =~= footer_spec(*state, line_count, exact));
        text
    } else if !state.jump_buffer.as_str().is_empty() {
        let mut text = String::new();
        push_str(&mut text, " go to line: ");
        push_str(&mut text, state.jump_buffer.as_str());
        push_str(&mut text, " / ");
        let count = line_count_text(line_count, exact);
        push_str(&mut text, count.as_str());
        push_str(&mut text, " | Enter jump | Backspace edit | Esc cancel ");
        assert(text@ =~= footer_spec(*state, line_count, exact));
        text
    } else {
        match &state.search_message {
            Some(message) => {
                let mut text = String::new();
                push_str(&mut text, " ");
                push_str(&mut text, message.as_str());
                push_str(&mut text, " | / search | n/N | Esc clear ");
                assert(text@ =~= footer_spec(*state, line_count, exact));
                text
            },
            None => idle_footer_text(state),
        }
    }
}

/// `digits` right-aligned in three columns.
pub open spec fn right_aligned3(digits: Seq<char>) -> Seq<char> {
    if digits.len() < 3 {
        spaces(3 - digits.len()) + digits
    } else {
        digits
    }
}

/// The title: the label, the line count, the lines shown, how far through
/// the file the view is, and the display mode.
pub open spec fn title_spec(
    label: Seq<char>,
    line_count: usize,
    exact: bool,
    current: usize,
    bottom: usize,
    progress: usize,
    state: ViewState,
) -> Seq<char> {
    " "@ + label + " | "@ + line_count_spec(line_count, exact) + " lines | "@ + decimal_chars(
        current as nat,
    ) + "-"@ + decimal_chars(bottom as nat) + " | "@ + right_aligned3(decimal_chars(progress as nat))
        + "% | "@ + display_mode_spec(state) + " "@
}

/// The title of a text view labelled `label` over `line_count` lines,
/// showing lines `current` to `bottom`, `progress` percent through.
pub fn title_text(
    label: &str,
    line_count: usize,
    exact: bool,
    current: usize,
    bottom: usize,
    progress: usize,
    state: &ViewState,
) -> (text: String)
    ensures
        text@ == title_spec(label@, line_count, exact, current, bottom, progress, *state),
{
    let mut text = String::new();
    push_str(&mut text, " ");
    push_str(&mut text, label);
    push_str(&mut text, " | ");
    let count = line_count_text(line_count, exact);
    push_str(&mut text, count.as_str());
    push_str(&mut text, " lines | ");
    push_decimal(&mut text, current);
    push_str(&mut text, "-");
    push_decimal(&mut text, bottom);
    push_str(&mut text, " | ");
    let mut digits = String::new();
    push_decimal(&mut digits, progress);
    assert(digits@ =~= decimal_chars(progress as nat));
    let width = digits.as_str().unicode_len();
    if width < 3 {
        push_spaces(&mut text, 3 - width);
    }
    push_str(&mut text, digits.as_str());
    push_str(&mut text, "% | ");
    let mode = display_mode_text(state);
    push_str(&mut text, mode.as_str());
    push_str(&mut text, " ");
    assert(text@ =~= title_spec(label@, line_count, exact, current, bottom, progress, *state));
    text
}


/// What one frame of a text view shows: the title, the rows kept above the
/// body, the body, the footer; the body's height, its gutter and how its
/// lines are laid out.
pub struct FrameRows {
    pub title: String,
    pub sticky: Vec<Vec<StyledText>>,
    pub body: Vec<Vec<StyledText>>,
    pub matches: Vec<Vec<usize>>,
    pub footer: String,
    pub visible_height: usize,
    pub gutter: GutterLayout,
    pub context: RenderContext,
}

/// The rows left for the body of a terminal `height` rows high under
/// `sticky_rows` sticky rows (the title, the footer and a border take three).
pub open spec fn body_height_spec(height: int, sticky_rows: int) -> int {
    let base = if height > 3 {
        height - 3
    } else {
        0
    };
    if base > sticky_rows + 1 {
        base - sticky_rows
    } else {
        1
    }
}

/// The line a view's title counts from: the top line, 1-based (as far as
/// `usize` reaches), or 0 for no lines.
pub open spec fn current_line_spec(line_count: int, top: int) -> int {
    if line_count == 0 {
        0
    } else if top + 1 > usize::MAX {
        usize::MAX as int
    } else {
        top + 1
    }
}

/// Brings pending search and structure targets into view and lays out the
/// frame of a text view in a terminal `width` by `height` cells: the sticky
/// rows and body for the top line the view ends at, and the title and footer
/// for its state.
#[verifier::rlimit(50)]
pub fn prepare_frame(
    width: u16,
    height: u16,
    lines: &[String],
    label: &str,
    kind: FormatKind,
    syntax: SyntaxKind,
    mode: ViewMode,
    state: &mut ViewState,
    breadcrumb: &mut JsonBreadcrumbCache,
) -> (frame: FrameRows)
    requires
        old(breadcrumb).wf_for(lines@),
        forall|i: int| 0 <= i < lines@.len() ==> (#[trigger] lines@[i])@.len() <= usize::MAX / 8,
        lines@.len() < usize::MAX,
    ensures
        final(breadcrumb).wf_for(lines@),
        !final(state).wrap_bounds_stale,
        frame.gutter.line_digits == gutter_digits_spec(lines@.len() as usize, true, false),
        frame.context.wrap == final(state).wrap,
        frame.visible_height == body_height_spec(height as int, frame.sticky@.len() as int),
        rows_views(frame.sticky@) == sticky_spec(
            syntax,
            lines@,
            final(state).top as int,
            if width > 2 {
                width - 2
            } else {
                0
            },
            crate::viewer::gutter::line_number_width_spec(frame.gutter.line_digits as int)
                + crate::viewer::gutter::chat_role_width_spec(frame.gutter.chat_mode),
            if height > 3 {
                height - 3
            } else {
                0
            },
        ),
        ({
            let parts = body_rows_spec(
                lines@,
                final(state).top as int,
                final(state).top_row_offset as int,
                frame.visible_height as int,
                frame.gutter.line_digits as int,
                frame.context,
                final(state).x as int,
            );
            &&& rows_texts(frame.body@) == joined(parts)
            &&& frame.matches@.len() == parts.len()
            &&& forall|k: int| 0 <= k < parts.len() ==> match_columns(
                (#[trigger] frame.matches@[k])@,
                parts[k].0.len() as int,
                parts[k].1,
                final(state).search_query@,
            )
        }),
        ({
            let count = lines@.len() as int;
            let current = current_line_spec(count, final(state).top as int);
            let last = last_line_shown(
                lines@,
                final(state).top as int,
                final(state).top_row_offset as int,
                frame.visible_height as int,
                frame.context,
                final(state).top as int,
            );
            let shown = if last > current {
                last
            } else {
                current
            };
            let bottom = if shown < count {
                shown
            } else {
                count
            };
            frame.title@ == title_spec(
                label@,
                lines@.len() as usize,
                true,
                current as usize,
                bottom as usize,
                progress_spec(bottom, count) as usize,
                *final(state),
            )
        }),
        frame.footer@ == footer_spec(*final(state), lines@.len() as usize, true),
{
    let visible_width: usize = if width > 2 {
        (width - 2) as usize
    } else {
        0
    };
    let base_visible_height: usize = if height > 3 {
        (height - 3) as usize
    } else {
        0
    };
    let gutter = GutterLayout::for_view(lines.len(), true, false, kind, visible_width);
    let gutter_width = gutter.width();
    let content_width = if visible_width > gutter_width && visible_width - gutter_width > 1 {
        visible_width - gutter_width
    } else {
        1
    };
    let mut sticky = sticky_lines(syntax, breadcrumb, lines, state.top, visible_width, gutter_width, base_visible_height);
    let mut visible_height = visible_height_for_sticky(base_visible_height, sticky.len());
    let mut pass: usize = 0;
    while pass < 3
        invariant
            breadcrumb.wf_for(lines@),
            rows_views(sticky@) == sticky_spec(
                syntax,
                lines@,
                state.top as int,
                visible_width as int,
                gutter_width as int,
                base_visible_height as int,
            ),
            visible_height == body_height_spec(height as int, sticky@.len() as int),
            base_visible_height == (if height > 3 {
                height - 3
            } else {
                0
            }),
        decreases 3 - pass,
    {
        let context = RenderContext { wrap: state.wrap, width: content_width };
        let window: &[String] = if state.top < lines.len() {
            vstd::slice::slice_subrange(lines, state.top, lines.len())
        } else {
            vstd::slice::slice_subrange(lines, lines.len(), lines.len())
        };
        let moved_to_match = resolve_search_target_position(state, window, visible_height, context);
        let moved_to_block = resolve_structure_target_position(state, window, visible_height, context);
        if !moved_to_match && !moved_to_block {
            break;
        }
        sticky = sticky_lines(syntax, breadcrumb, lines, state.top, visible_width, gutter_width, base_visible_height);
        visible_height = visible_height_for_sticky(base_visible_height, sticky.len());
        pass += 1;
    }
    state.wrap_bounds_stale = false;
    let context = RenderContext { wrap: state.wrap, width: content_width };
    let query = active_search_query(state);
    let viewport = viewport_rows(lines, state, mode, gutter, context, query, visible_height);
    proof {
        assert(query_view(query) == state.search_query@) by {
            if query is None {
                assert(state.search_query@ =~= Seq::<char>::empty());
            }
        }
    }
    let count = lines.len();
    let current = if count == 0 {
        0
    } else if state.top == usize::MAX {
        usize::MAX
    } else {
        state.top + 1
    };
    let shown = if viewport.last_line > current {
        viewport.last_line
    } else {
        current
    };
    let bottom = if shown < count {
        shown
    } else {
        count
    };
    let title = title_text(label, count, true, current, bottom, progress_percent(bottom, count), state);
    let footer = footer_text(state, count, true);
    FrameRows {
        title,
        sticky,
        body: viewport.rows,
        matches: viewport.matches,
        footer,
        visible_height,
        gutter,
        context,
    }
}

} // verus!
