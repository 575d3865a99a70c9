//! Bringing search and structure targets into view.
use vstd::prelude::*;

use crate::text::{byte_offset, lemma_encode_utf8_len, LineText};
use crate::tui::wrap::{
    consistent, continuation_indent, continuation_indent_spec, lemma_wrap_end_progress,
    row_count, row_end, row_start_pos, row_text_width, sat_add, wrapped_row_count,
};

use super::input::scroll::{at_line, position, same_but_position, ViewPosition};
use super::input::state::{same_search, same_structure, SearchTarget, ViewState};

verus! {

/// How lines are laid out: wrapped or not, and the width of a row.
#[derive(Debug, Clone, Copy, PartialEq, Eq, Structural)]
pub struct RenderContext {
    pub wrap: bool,
    pub width: usize,
}

/// Rows of context kept above a search match brought into view.
pub open spec fn search_context_spec(visible_height: int) -> int {
    if visible_height < 4 {
        0
    } else {
        let third = visible_height / 3;
        let clamped = if third < 2 {
            2
        } else if third > 8 {
            8
        } else {
            third
        };
        if clamped < visible_height - 1 {
            clamped
        } else {
            visible_height - 1
        }
    }
}

/// How many rows of context to keep above a match.
pub fn search_context_rows(visible_height: usize) -> (rows: usize)
    ensures
        rows == search_context_spec(visible_height as int),
{
    if visible_height < 4 {
        return 0;
    }
    let third = visible_height / 3;
    let clamped = if third < 2 {
        2
    } else if third > 8 {
        8
    } else {
        third
    };
    if clamped < visible_height - 1 {
        clamped
    } else {
        visible_height - 1
    }
}

/// Screen row `row` (counted from the top line's first row) shows in a view
/// that starts at row `top_row_offset` and is `visible_height` high.
pub open spec fn row_visible_spec(row: int, top_row_offset: int, visible_height: int) -> bool {
    visible_height > 0 && row >= top_row_offset && row - top_row_offset < visible_height
}

/// Whether a screen row shows in the view.
pub fn visual_row_is_visible(row: usize, top_row_offset: usize, visible_height: usize) -> (r: bool)
    ensures
        r == row_visible_spec(row as int, top_row_offset as int, visible_height as int),
{
    visible_height > 0 && row >= top_row_offset && row - top_row_offset < visible_height
}

/// Line `target_line` at the top, `context_rows` rows above its row
/// `target_row`; and whether the top line changed.
pub open spec fn visual_line_spec(p: ViewPosition, wrap: bool, target_line: usize, target_row: int, context_rows: int) -> (
    bool,
    ViewPosition,
) {
    (
        target_line != p.top,
        ViewPosition {
            top: target_line,
            row: (if target_row >= context_rows {
                target_row - context_rows
            } else {
                0
            }) as usize,
            max_row: 0,
            stale: wrap,
        },
    )
}

/// The line some rows of context above `target_line` at the top, at its first
/// row, unless the view already stands there; and whether it moved.
pub open spec fn logical_line_spec(p: ViewPosition, wrap: bool, target_line: usize, visible_height: int) -> (
    bool,
    ViewPosition,
) {
    let context = search_context_spec(visible_height);
    let next_top = if target_line >= context {
        target_line - context
    } else {
        0
    };
    if p.top == next_top && p.row == 0 {
        (false, p)
    } else {
        (true, at_line(next_top as usize, wrap))
    }
}

/// Puts line `target_line` at the top, `context_rows` rows above its row
/// `target_row`; tells whether the top line changed.
pub fn position_target_visual_line(
    state: &mut ViewState,
    target_line: usize,
    target_row: usize,
    context_rows: usize,
) -> (changed: bool)
    ensures
        same_but_position(old(state), final(state)),
        (changed, position(final(state))) == visual_line_spec(
            position(old(state)),
            old(state).wrap,
            target_line,
            target_row as int,
            context_rows as int,
        ),
{
    let old_top = state.top;
    state.top = target_line;
    state.top_row_offset = if target_row >= context_rows {
        target_row - context_rows
    } else {
        0
    };
    state.top_max_row_offset = 0;
    state.wrap_bounds_stale = state.wrap;
    state.top != old_top
}

/// Puts the line some rows of context above `target_line` at the top, at its
/// first row; tells whether that moved the view.
pub fn position_target_logical_line(state: &mut ViewState, target_line: usize, visible_height: usize) -> (changed:
    bool)
    ensures
        same_but_position(old(state), final(state)),
        (changed, position(final(state))) == logical_line_spec(
            position(old(state)),
            old(state).wrap,
            target_line,
            visible_height as int,
        ),
{
    let context = search_context_rows(visible_height);
    let next_top = if target_line >= context {
        target_line - context
    } else {
        0
    };
    if state.top == next_top && state.top_row_offset == 0 {
        return false;
    }
    state.top = next_top;
    state.top_row_offset = 0;
    state.top_max_row_offset = 0;
    state.wrap_bounds_stale = state.wrap;
    true
}

/// Puts a block's first line at the top; tells whether the view moved.
pub fn position_structure_target_line(state: &mut ViewState, target_line: usize) -> (changed: bool)
    ensures
        same_but_position(old(state), final(state)),
        position(final(state)) == at_line(target_line, old(state).wrap),
        changed == (target_line != old(state).top || old(state).top_row_offset != 0),
{
    let old_top = state.top;
    let old_offset = state.top_row_offset;
    state.top = target_line;
    state.top_row_offset = 0;
    state.top_max_row_offset = 0;
    state.wrap_bounds_stale = state.wrap;
    state.top != old_top || old_offset != 0
}

/// Brings the block jumped to into view, and forgets it; tells whether the
/// view moved.
pub fn resolve_structure_target_position(
    state: &mut ViewState,
    _lines: &[String],
    _visible_height: usize,
    _context: RenderContext,
) -> (changed: bool)
    ensures
        old(state).structure_target is None ==> !changed && position(final(state)) == position(
            old(state),
        ) && same_but_position(old(state), final(state)),
        old(state).structure_target matches Some(t) ==> {
            &&& final(state).structure_target is None
            &&& final(state).structure_task == old(state).structure_task
            &&& final(state).structure_cursor == old(state).structure_cursor
            &&& same_search(old(state), final(state))
            &&& final(state).x == old(state).x
            &&& final(state).wrap == old(state).wrap
            &&& final(state).jump_buffer@ == old(state).jump_buffer@
            &&& position(final(state)) == at_line(t.line, old(state).wrap)
            &&& changed == (t.line != old(state).top || old(state).top_row_offset != 0)
        },
{
    let target = match state.structure_target {
        None => return false,
        Some(t) => t,
    };
    state.structure_target = None;
    position_structure_target_line(state, target.line)
}

/// The row of `line` (wrapped at `width` with its continuation indent) that
/// holds byte `target`: the first row that ends past it or ends the line.
pub open spec fn row_holds(cs: Seq<char>, bs: Seq<u8>, width: int, ci: int, target: int, k: nat) -> bool {
    target < row_end(cs, bs, width, ci, k).0 || row_end(cs, bs, width, ci, k).0 >= bs.len()
        || row_start_pos(cs, bs, width, ci, k).0 >= bs.len()
}

/// `index`, or `len` where it lies past it.
pub open spec fn clamp_to(index: int, len: int) -> int {
    if index < len {
        index
    } else {
        len
    }
}

/// Row `k` is the first of the line's rows that holds byte `target`.
pub open spec fn first_holding_row(cs: Seq<char>, bs: Seq<u8>, width: int, ci: int, target: int, k: nat) -> bool {
    &&& row_holds(cs, bs, width, ci, target, k)
    &&& forall|j: nat| j < k ==> !#[trigger] row_holds(cs, bs, width, ci, target, j)
}

/// The screen row of a line that holds byte `byte_index`: 0 when not
/// wrapping, else the first row that ends past the byte or ends the line.
pub open spec fn visual_row_spec(cs: Seq<char>, byte_index: int, context: RenderContext) -> nat {
    if !context.wrap || cs.len() == 0 || context.width == 0 {
        0
    } else {
        let bs = vstd::utf8::encode_utf8(cs);
        let ci = continuation_indent_spec(cs, context.width as int);
        choose|k: nat| first_holding_row(cs, bs, context.width as int, ci, clamp_to(byte_index, bs.len() as int), k)
    }
}

/// At most one row is the first to hold a byte.
pub proof fn lemma_first_holding_unique(cs: Seq<char>, bs: Seq<u8>, width: int, ci: int, target: int, a: nat, b: nat)
    requires
        first_holding_row(cs, bs, width, ci, target, a),
        first_holding_row(cs, bs, width, ci, target, b),
    ensures
        a == b,
{
    if a < b {
        assert(!row_holds(cs, bs, width, ci, target, a));
    } else if b < a {
        assert(!row_holds(cs, bs, width, ci, target, b));
    }
}

/// Which screen row of `line` holds byte `byte_index`: 0 when not wrapping,
/// else the first row that ends past the byte or ends the line.
pub fn visual_row_for_byte(line: &str, byte_index: usize, context: RenderContext) -> (row: usize)
    ensures
        row == visual_row_spec(line@, byte_index as int, context),
        !context.wrap || line@.len() == 0 || context.width == 0 ==> row == 0,
        context.wrap && line@.len() > 0 && context.width > 0 ==> ({
            let text = line@;
            let bs = vstd::utf8::encode_utf8(text);
            let ci = continuation_indent_spec(text, context.width as int);
            let target = clamp_to(byte_index as int, bs.len() as int);
            &&& row_holds(text, bs, context.width as int, ci, target, row as nat)
            &&& forall|j: nat| j < row ==> !#[trigger] row_holds(
                text,
                bs,
                context.width as int,
                ci,
                target,
                j,
            )
        }),
{
    if !context.wrap || line.as_bytes().len() == 0 || context.width == 0 {
        proof {
            lemma_encode_utf8_len(line@);
            if line@.len() > 0 {
                crate::text::lemma_byte_offset_strict(line@, 0, line@.len() as int);
                crate::text::lemma_byte_offset_full(line@);
            }
        }
        return 0;
    }
    let text = LineText::new(line);
    let len = text.bytes.len();
    let target = if byte_index < len {
        byte_index
    } else {
        len
    };
    let width = context.width;
    let ci = continuation_indent(line, width);
    let ghost cs = text.chars@;
    let ghost bs = text.bytes@;
    let mut start_byte: usize = 0;
    let mut start_char: usize = 0;
    let mut row: usize = 0;
    proof {
        lemma_encode_utf8_len(cs);
        assert(byte_offset(cs, 0) == 0) by {
            assert(cs.take(0) =~= Seq::<char>::empty());
        }
    }
    while start_byte < len
        invariant
            text.wf(),
            context.wrap,
            cs.len() > 0,
            bs == vstd::utf8::encode_utf8(cs),
            target as int == clamp_to(byte_index as int, len as int),
            cs == text.chars@,
            bs == text.bytes@,
            cs == line@,
            len == bs.len(),
            width == context.width,
            width > 0,
            ci == continuation_indent_spec(cs, width as int),
            target <= len,
            consistent(cs, start_byte as int, start_char as int),
            (start_byte as int, start_char as int) == row_start_pos(cs, bs, width as int, ci as int, row as nat),
            row <= start_byte,
            forall|j: nat| j < row ==> !#[trigger] row_holds(cs, bs, width as int, ci as int, target as int, j),
        decreases len - start_byte,
    {
        let indent = if row > 0 {
            if ci < width - 1 {
                ci
            } else {
                width - 1
            }
        } else {
            0
        };
        let row_width = if width - indent < 1 {
            1
        } else {
            width - indent
        };
        assert(row_width == row_text_width(row as int, width as int, ci as int));
        let (end_byte, end_char) = text.next_wrap_end(start_byte, start_char, row_width);
        proof {
            lemma_wrap_end_progress(cs, bs, start_byte as int, start_char as int, row_width as int);
        }
        if target < end_byte || end_byte >= len {
            assert(row_end(cs, bs, width as int, ci as int, row as nat) == (end_byte as int, end_char as int));
            proof {
                let t = clamp_to(byte_index as int, bs.len() as int);
                assert(first_holding_row(cs, bs, width as int, ci as int, t, row as nat));
                let k = choose|k: nat| first_holding_row(cs, bs, width as int, ci as int, t, k);
                lemma_first_holding_unique(cs, bs, width as int, ci as int, t, k, row as nat);
            }
            return row;
        }
        start_byte = end_byte;
        start_char = end_char;
        row = row + 1;
    }
    proof {
        let t = clamp_to(byte_index as int, bs.len() as int);
        assert(first_holding_row(cs, bs, width as int, ci as int, t, row as nat));
        let k = choose|k: nat| first_holding_row(cs, bs, width as int, ci as int, t, k);
        lemma_first_holding_unique(cs, bs, width as int, ci as int, t, k, row as nat);
    }
    row
}

/// How many screen rows a line takes: one when not wrapping, else the rows it
/// wraps to.
pub open spec fn rendered_rows_spec(cs: Seq<char>, context: RenderContext) -> int {
    if context.wrap {
        row_count(
            cs,
            vstd::utf8::encode_utf8(cs),
            context.width as int,
            continuation_indent_spec(cs, context.width as int),
        ) as int
    } else {
        1
    }
}

/// How many screen rows `line` takes.
pub fn rendered_row_count(line: &str, context: RenderContext) -> (n: usize)
    ensures
        n == rendered_rows_spec(line@, context),
{
    if !context.wrap {
        return 1;
    }
    let ci = continuation_indent(line, context.width);
    wrapped_row_count(line, context.width, ci)
}

/// The screen rows the first `n` lines take, added up to at most
/// `usize::MAX`.
pub open spec fn rows_before(lines: Seq<String>, n: int, context: RenderContext) -> int
    decreases n,
{
    if n <= 0 {
        0
    } else {
        sat_add(rows_before(lines, n - 1, context), rendered_rows_spec(lines[n - 1]@, context))
    }
}

/// Where a target shows among the rows of a window of lines: its row counted
/// from the window's first row, and its row within its own line.
#[derive(Debug, Clone, Copy, PartialEq, Eq, Structural)]
pub struct TargetVisualPosition {
    pub row: usize,
    pub row_in_line: usize,
}

/// Where `target` shows in the window of `lines` that starts at line
/// `first_line`; none when its line is not in the window.
pub open spec fn target_position_spec(
    lines: Seq<String>,
    first_line: int,
    target: SearchTarget,
    context: RenderContext,
) -> Option<TargetVisualPosition> {
    if target.line < first_line || target.line - first_line >= lines.len() {
        None
    } else {
        let index = target.line - first_line;
        let in_line = visual_row_spec(lines[index]@, target.byte_index as int, context);
        Some(
            TargetVisualPosition {
                row: sat_add(rows_before(lines, index, context), in_line as int) as usize,
                row_in_line: in_line as usize,
            },
        )
    }
}

fn saturating_add_usize(a: usize, b: usize) -> (r: usize)
    ensures
        r == sat_add(a as int, b as int),
{
    if a > usize::MAX - b {
        usize::MAX
    } else {
        a + b
    }
}

/// Where `target` shows in the window of `lines` that starts at line
/// `first_line`.
pub fn target_visual_position_in_window(
    lines: &[String],
    first_line: usize,
    target: SearchTarget,
    context: RenderContext,
) -> (found: Option<TargetVisualPosition>)
    ensures
        found == target_position_spec(lines@, first_line as int, target, context),
{
    if target.line < first_line {
        return None;
    }
    let target_index = target.line - first_line;
    if target_index >= lines.len() {
        return None;
    }
    let mut row: usize = 0;
    let mut index: usize = 0;
    while index < target_index
        invariant
            index <= target_index < lines@.len(),
            row == rows_before(lines@, index as int, context),
        decreases target_index - index,
    {
        let n = rendered_row_count(lines[index].as_str(), context);
        row = saturating_add_usize(row, n);
        index = index + 1;
    }
    let row_in_line = visual_row_for_byte(lines[target_index].as_str(), target.byte_index, context);
    Some(TargetVisualPosition { row: saturating_add_usize(row, row_in_line), row_in_line })
}

/// What bringing a search target into view did: whether the view moved, and
/// whether the target is now in view (else it is tried again on the next
/// frame).
#[derive(Debug, Clone, Copy, PartialEq, Eq, Structural)]
pub struct TargetResolution {
    pub changed: bool,
    pub resolved: bool,
}

/// The position after bringing `target` into view from position `p`, given
/// where the target shows in the window that starts at `p.top` (`found`):
/// left alone when it shows; scrolled within the top line when it is the top
/// line; else its line put at the top with context above, or, when the
/// target lies near its line's start, the view moved by lines first.
pub open spec fn resolution_spec(
    p: ViewPosition,
    wrap: bool,
    target: SearchTarget,
    found: Option<TargetVisualPosition>,
    visible_height: int,
) -> (ViewPosition, TargetResolution) {
    let context = search_context_spec(visible_height);
    match found {
        Some(t) => {
            if row_visible_spec(t.row as int, p.row as int, visible_height) {
                (p, TargetResolution { changed: false, resolved: true })
            } else if target.line == p.top {
                (
                    ViewPosition {
                        row: (if t.row_in_line >= context {
                            t.row_in_line - context
                        } else {
                            0
                        }) as usize,
                        max_row: 0,
                        ..p
                    },
                    TargetResolution { changed: false, resolved: true },
                )
            } else if t.row_in_line > context {
                let (c, q) = visual_line_spec(p, wrap, target.line, t.row_in_line as int, context);
                (q, TargetResolution { changed: c, resolved: true })
            } else {
                let (c, q) = logical_line_spec(p, wrap, target.line, visible_height);
                if c {
                    (q, TargetResolution { changed: true, resolved: false })
                } else {
                    let (c2, q2) = visual_line_spec(p, wrap, target.line, t.row_in_line as int, context);
                    (q2, TargetResolution { changed: c2, resolved: true })
                }
            }
        },
        None => {
            let (c, q) = logical_line_spec(p, wrap, target.line, visible_height);
            (q, TargetResolution { changed: c, resolved: false })
        },
    }
}

/// Moves the view towards `target`, given the lines from the top line on.
pub fn resolve_target_position(
    state: &mut ViewState,
    lines: &[String],
    visible_height: usize,
    context: RenderContext,
    target: SearchTarget,
) -> (r: TargetResolution)
    ensures
        same_but_position(old(state), final(state)),
        (position(final(state)), r) == resolution_spec(
            position(old(state)),
            old(state).wrap,
            target,
            target_position_spec(lines@, old(state).top as int, target, context),
            visible_height as int,
        ),
{
    let context_rows = search_context_rows(visible_height);
    match target_visual_position_in_window(lines, state.top, target, context) {
        Some(found) => {
            if visual_row_is_visible(found.row, state.top_row_offset, visible_height) {
                TargetResolution { changed: false, resolved: true }
            } else if target.line == state.top {
                state.top_row_offset = if found.row_in_line >= context_rows {
                    found.row_in_line - context_rows
                } else {
                    0
                };
                state.top_max_row_offset = 0;
                TargetResolution { changed: false, resolved: true }
            } else if found.row_in_line > context_rows {
                let changed = position_target_visual_line(state, target.line, found.row_in_line, context_rows);
                TargetResolution { changed, resolved: true }
            } else if position_target_logical_line(state, target.line, visible_height) {
                TargetResolution { changed: true, resolved: false }
            } else {
                let changed = position_target_visual_line(state, target.line, found.row_in_line, context_rows);
                TargetResolution { changed, resolved: true }
            }
        },
        None => {
            let changed = position_target_logical_line(state, target.line, visible_height);
            TargetResolution { changed, resolved: false }
        },
    }
}

/// Brings the search match waiting to be shown into view, given the lines
/// from the top line on; forgets it once it is in view. Tells whether the
/// view moved.
pub fn resolve_search_target_position(
    state: &mut ViewState,
    lines: &[String],
    visible_height: usize,
    context: RenderContext,
) -> (changed: bool)
    ensures
        old(state).search_target is None ==> !changed && position(final(state)) == position(
            old(state),
        ) && same_but_position(old(state), final(state)),
        old(state).search_target matches Some(t) ==> ({
            let (q, r) = resolution_spec(
                position(old(state)),
                old(state).wrap,
                t,
                target_position_spec(lines@, old(state).top as int, t, context),
                visible_height as int,
            );
            &&& position(final(state)) == q
            &&& changed == r.changed
            &&& final(state).search_target == (if r.resolved {
                None
            } else {
                old(state).search_target
            })
            &&& same_structure(old(state), final(state))
            &&& final(state).x == old(state).x
            &&& final(state).wrap == old(state).wrap
            &&& final(state).jump_buffer@ == old(state).jump_buffer@
            &&& final(state).search_active == old(state).search_active
            &&& final(state).search_buffer@ == old(state).search_buffer@
            &&& final(state).search_query@ == old(state).search_query@
            &&& final(state).search_message == old(state).search_message
            &&& final(state).search_task == old(state).search_task
            &&& final(state).search_cursor == old(state).search_cursor
        }),
{
    let target = match state.search_target {
        None => return false,
        Some(t) => t,
    };
    let resolution = resolve_target_position(state, lines, visible_height, context, target);
    if resolution.resolved {
        state.search_target = None;
    }
    resolution.changed
}

} // verus!
