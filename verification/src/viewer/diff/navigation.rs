//! Moving through a diff whose rows may wrap onto several screen rows.
//!
//! The screen rows that each diff row takes (at the current layout, width and
//! wrapping) are handed in as `counts`, one entry per diff row.
use vstd::prelude::*;

use crate::text::push_str;

use super::{
    block_starts, change_block_starts, context_rows_spec, diff_context_rows, jump_target,
    jump_target_spec, DiffJump, DiffLayout, DiffModel,
};

verus! {

/// Where a diff view stands: the top row and the screen row of it shown
/// first, the horizontal offset, wrapping, the layout, a message, and the
/// change last jumped to.
pub struct DiffViewState {
    pub top: usize,
    pub top_row_offset: usize,
    pub x: usize,
    pub wrap: bool,
    pub layout: DiffLayout,
    pub message: Option<String>,
    pub change_cursor: Option<usize>,
}

impl DiffViewState {
    /// A wrapping view at the first row of `layout`.
    pub fn new(layout: DiffLayout) -> (s: Self)
        ensures
            s.top == 0,
            s.top_row_offset == 0,
            s.x == 0,
            s.wrap,
            s.layout == layout,
            s.message is None,
            s.change_cursor is None,
    {
        DiffViewState {
            top: 0,
            top_row_offset: 0,
            x: 0,
            wrap: true,
            layout,
            message: None,
            change_cursor: None,
        }
    }
}

/// The position of `s`: its top row and the screen row within it.
pub open spec fn pos(s: &DiffViewState) -> (usize, usize) {
    (s.top, s.top_row_offset)
}

/// Only the position differs between `a` and `b`.
pub open spec fn same_but_pos(a: &DiffViewState, b: &DiffViewState) -> bool {
    &&& a.x == b.x
    &&& a.wrap == b.wrap
    &&& a.layout == b.layout
    &&& a.message == b.message
    &&& a.change_cursor == b.change_cursor
}

/// `n - 1`, but not below zero.
pub open spec fn less_one(n: usize) -> usize {
    if n > 0 {
        (n - 1) as usize
    } else {
        0
    }
}

/// One screen row down: the next screen row of the top row, else the first
/// of the next row.
pub open spec fn down_visual(p: (usize, usize), counts: Seq<usize>) -> (bool, (usize, usize)) {
    if counts.len() == 0 || p.0 >= counts.len() {
        (false, p)
    } else if p.1 + 1 < counts[p.0 as int] {
        (true, (p.0, (p.1 + 1) as usize))
    } else if p.0 + 1 < counts.len() {
        (true, ((p.0 + 1) as usize, 0))
    } else {
        (false, p)
    }
}

/// One screen row up: the previous screen row of the top row, else the last
/// of the row before.
pub open spec fn up_visual(p: (usize, usize), counts: Seq<usize>) -> (bool, (usize, usize)) {
    if p.1 > 0 {
        (true, (p.0, (p.1 - 1) as usize))
    } else if p.0 > 0 {
        (true, ((p.0 - 1) as usize, less_one(counts[p.0 - 1])))
    } else {
        (false, p)
    }
}

/// Up to `n` screen rows down (or up), stopping where a step does not move.
pub open spec fn walk(p: (usize, usize), counts: Seq<usize>, n: nat, down: bool) -> (usize, usize)
    decreases n,
{
    if n == 0 {
        p
    } else {
        let (moved, q) = if down {
            down_visual(p, counts)
        } else {
            up_visual(p, counts)
        };
        if !moved {
            p
        } else {
            walk(q, counts, (n - 1) as nat, down)
        }
    }
}

/// `p` kept on an existing row and screen row.
pub open spec fn clamp_pos(p: (usize, usize), counts: Seq<usize>) -> (usize, usize) {
    if counts.len() == 0 {
        (0, 0)
    } else {
        let top = if p.0 < counts.len() - 1 {
            p.0
        } else {
            (counts.len() - 1) as usize
        };
        let last = less_one(counts[top as int]);
        (top, if p.1 < last {
            p.1
        } else {
            last
        })
    }
}

/// The top position that shows `needed` screen rows ending at the end of
/// the rows before `end`.
pub open spec fn tail_from(counts: Seq<usize>, end: int, needed: int) -> (usize, usize)
    decreases end,
{
    if end <= 0 {
        (0, 0)
    } else {
        let row = end - 1;
        if counts[row] >= needed {
            (row as usize, (counts[row] - needed) as usize)
        } else {
            tail_from(counts, row, needed - counts[row])
        }
    }
}

/// The top position whose view ends at the last screen row.
pub open spec fn tail_spec(counts: Seq<usize>, visible_height: usize) -> (usize, usize) {
    if counts.len() == 0 {
        (0, 0)
    } else {
        tail_from(
            counts,
            counts.len() as int,
            if visible_height < 1 {
                1
            } else {
                visible_height as int
            },
        )
    }
}

/// `left` lies below `right`.
pub open spec fn after_spec(left: (usize, usize), right: (usize, usize)) -> bool {
    left.0 > right.0 || (left.0 == right.0 && left.1 > right.1)
}

/// Whether position `left` lies below position `right`.
pub fn visual_position_after(left: (usize, usize), right: (usize, usize)) -> (r: bool)
    ensures
        r == after_spec(left, right),
{
    left.0 > right.0 || (left.0 == right.0 && left.1 > right.1)
}

/// The top position from which the view shows the last screen rows.
pub fn tail_position(counts: &[usize], visible_height: usize) -> (p: (usize, usize))
    ensures
        p == tail_spec(counts@, visible_height),
{
    let row_count = counts.len();
    if row_count == 0 {
        return (0, 0);
    }
    let mut needed: usize = if visible_height < 1 {
        1
    } else {
        visible_height
    };
    let mut end: usize = row_count;
    while end > 0
        invariant
            end <= row_count,
            row_count == counts@.len(),
            row_count > 0,
            needed >= 1,
            tail_spec(counts@, visible_height) == tail_from(counts@, end as int, needed as int),
        decreases end,
    {
        let rows = counts[end - 1];
        if rows >= needed {
            return (end - 1, rows - needed);
        }
        needed = needed - rows;
        end = end - 1;
    }
    (0, 0)
}

/// One screen row down; tells whether the view moved.
pub fn scroll_down_visual_row(state: &mut DiffViewState, counts: &[usize]) -> (moved: bool)
    ensures
        same_but_pos(old(state), final(state)),
        (moved, pos(final(state))) == down_visual(pos(old(state)), counts@),
{
    let line_count = counts.len();
    if line_count == 0 || state.top >= line_count {
        return false;
    }
    let visual_count = counts[state.top];
    if state.top_row_offset < usize::MAX && state.top_row_offset + 1 < visual_count {
        state.top_row_offset = state.top_row_offset + 1;
        return true;
    }
    if state.top + 1 < line_count {
        state.top = state.top + 1;
        state.top_row_offset = 0;
        return true;
    }
    false
}

/// One screen row up; tells whether the view moved.
pub fn scroll_up_visual_row(state: &mut DiffViewState, counts: &[usize]) -> (moved: bool)
    requires
        old(state).top <= counts@.len(),
    ensures
        same_but_pos(old(state), final(state)),
        (moved, pos(final(state))) == up_visual(pos(old(state)), counts@),
{
    if state.top_row_offset > 0 {
        state.top_row_offset = state.top_row_offset - 1;
        return true;
    }
    if state.top > 0 {
        state.top = state.top - 1;
        let count = counts[state.top];
        state.top_row_offset = if count > 0 {
            count - 1
        } else {
            0
        };
        return true;
    }
    false
}

/// Puts row `top` at the top (within the rows) at screen row `row_offset`;
/// tells whether the position changed.
pub fn set_top(state: &mut DiffViewState, top: usize, row_offset: usize, line_count: usize) -> (moved:
    bool)
    ensures
        same_but_pos(old(state), final(state)),
        pos(final(state)) == if line_count == 0 {
            (0usize, 0usize)
        } else {
            (if top < line_count - 1 {
                top
            } else {
                (line_count - 1) as usize
            }, row_offset)
        },
        moved == (pos(final(state)) != pos(old(state))),
{
    let old_pos = (state.top, state.top_row_offset);
    if line_count == 0 {
        state.top = 0;
        state.top_row_offset = 0;
    } else {
        state.top = if top < line_count - 1 {
            top
        } else {
            line_count - 1
        };
        state.top_row_offset = row_offset;
    }
    !(old_pos.0 == state.top && old_pos.1 == state.top_row_offset)
}

/// Puts the view where it shows the last screen rows.
pub fn set_tail_top(state: &mut DiffViewState, counts: &[usize], visible_height: usize) -> (moved:
    bool)
    ensures
        same_but_pos(old(state), final(state)),
        pos(final(state)) == tail_spec(counts@, visible_height),
        moved == (pos(final(state)) != pos(old(state))),
{
    let old_pos = (state.top, state.top_row_offset);
    let (top, row_offset) = tail_position(counts, visible_height);
    state.top = top;
    state.top_row_offset = row_offset;
    !(old_pos.0 == state.top && old_pos.1 == state.top_row_offset)
}

/// Keeps the position on an existing row and screen row.
pub fn clamp_top(state: &mut DiffViewState, counts: &[usize])
    ensures
        same_but_pos(old(state), final(state)),
        pos(final(state)) == clamp_pos(pos(old(state)), counts@),
{
    let row_count = counts.len();
    if row_count == 0 {
        state.top = 0;
        state.top_row_offset = 0;
        return;
    }
    if state.top > row_count - 1 {
        state.top = row_count - 1;
    }
    let count = counts[state.top];
    let last = if count > 0 {
        count - 1
    } else {
        0
    };
    if state.top_row_offset > last {
        state.top_row_offset = last;
    }
}

/// Where `scroll_by` leaves the view: `delta` screen rows moved, kept on an
/// existing screen row, and going down no further than the position that
/// shows the last screen rows.
pub open spec fn scrolled_spec(
    p: (usize, usize),
    counts: Seq<usize>,
    visible_height: usize,
    delta: int,
) -> (usize, usize) {
    if delta == 0 {
        p
    } else {
        let steps = if delta > 0 {
            delta
        } else {
            -delta
        };
        let walked = clamp_pos(walk(p, counts, steps as nat, delta > 0), counts);
        if delta > 0 && walked != p && after_spec(walked, tail_spec(counts, visible_height)) {
            tail_spec(counts, visible_height)
        } else {
            walked
        }
    }
}

/// Scrolls by `delta` screen rows; tells whether the view moved.
pub fn scroll_by(state: &mut DiffViewState, counts: &[usize], visible_height: usize, delta: isize) -> (moved:
    bool)
    requires
        old(state).top <= counts@.len(),
    ensures
        same_but_pos(old(state), final(state)),
        pos(final(state)) == scrolled_spec(pos(old(state)), counts@, visible_height, delta as int),
        moved == (pos(final(state)) != pos(old(state))),
{
    if delta == 0 {
        return false;
    }
    let old_pos = (state.top, state.top_row_offset);
    let steps: usize = if delta == isize::MIN {
        (isize::MAX as usize) + 1
    } else if delta < 0 {
        (-delta) as usize
    } else {
        delta as usize
    };
    let down = delta > 0;
    let mut i: usize = 0;
    let ghost start = pos(state);
    loop
        invariant_except_break
            walk(start, counts@, steps as nat, down) == walk(
                pos(state),
                counts@,
                (steps - i) as nat,
                down,
            ),
        invariant
            i <= steps,
            same_but_pos(old(state), state),
            start == pos(old(state)),
            state.top <= counts@.len(),
        ensures
            walk(start, counts@, steps as nat, down) == pos(state),
            same_but_pos(old(state), state),
        decreases steps - i,
    {
        if i == steps {
            break;
        }
        let ghost before = pos(state);
        let moved = if down {
            scroll_down_visual_row(state, counts)
        } else {
            scroll_up_visual_row(state, counts)
        };
        if !moved {
            break;
        }
        i += 1;
    }
    clamp_top(state, counts);
    if down && !(old_pos.0 == state.top && old_pos.1 == state.top_row_offset) {
        let tail = tail_position(counts, visible_height);
        if visual_position_after((state.top, state.top_row_offset), tail) {
            state.top = tail.0;
            state.top_row_offset = tail.1;
        }
    }
    !(old_pos.0 == state.top && old_pos.1 == state.top_row_offset)
}

/// Jumps to the next or previous block of changes, from the change last
/// jumped to or else the top row, wrapping around; with no changes it says
/// there are none. The change is shown at its first screen row, with a few
/// rows of context above it.
pub fn jump_change(model: &DiffModel, state: &mut DiffViewState, direction: DiffJump, page: usize) -> (moved:
    bool)
    ensures
        final(state).x == old(state).x,
        final(state).wrap == old(state).wrap,
        final(state).layout == old(state).layout,
        model.rows_of(old(state).layout).changed_rows@.len() == 0 ==> {
            &&& moved
            &&& pos(final(state)) == pos(old(state))
            &&& final(state).change_cursor == old(state).change_cursor
            &&& final(state).message matches Some(m) && m@ == "no differences"@
        },
        model.rows_of(old(state).layout).changed_rows@.len() > 0 ==> ({
            let targets = block_starts(model.rows_of(old(state).layout).changed_rows@);
            let anchor = match old(state).change_cursor {
                Some(c) => c as int,
                None => old(state).top as int,
            };
            let target = jump_target_spec(targets, anchor, direction);
            let wanted = if target >= context_rows_spec(page as int) {
                target - context_rows_spec(page as int)
            } else {
                0
            };
            let line_count = model.rows_of(old(state).layout).row_count;
            &&& final(state).change_cursor == Some(target)
            &&& final(state).message == old(state).message
            &&& final(state).top_row_offset == 0
            &&& final(state).top == if line_count == 0 {
                0
            } else if wanted < line_count - 1 {
                wanted
            } else {
                line_count - 1
            }
            &&& moved == (final(state).top != old(state).top)
        }),
{
    let changes = model.changed_rows(state.layout);
    if changes.len() == 0 {
        let mut m = String::new();
        push_str(&mut m, "no differences");
        state.message = Some(m);
        return true;
    }
    let targets = change_block_starts(changes);
    proof {
        super::paging::lemma_block_starts_nonempty(changes@);
    }
    let anchor = match state.change_cursor {
        Some(c) => c,
        None => state.top,
    };
    let target = jump_target(targets.as_slice(), anchor, direction);
    state.change_cursor = Some(target);
    state.top_row_offset = 0;
    let context = diff_context_rows(page);
    let wanted = if target >= context {
        target - context
    } else {
        0
    };
    let row_count = model.row_count(state.layout);
    set_top(state, wanted, 0, row_count)
}

} // verus!
