//! Moving the viewport by lines and rows.
use vstd::prelude::*;

use super::state::{same_search, same_structure, ViewState};

verus! {

/// The row offset that means "the last rows of the top line".
pub const TAIL_ROW_OFFSET: usize = usize::MAX;

/// Where the view stands: the top line, the row of it shown first, the last
/// row of it known, and whether the rows must be measured anew.
#[derive(Debug, Clone, Copy, PartialEq, Eq, Structural)]
pub struct ViewPosition {
    pub top: usize,
    pub row: usize,
    pub max_row: usize,
    pub stale: bool,
}

/// The position of `s`.
pub open spec fn position(s: &ViewState) -> ViewPosition {
    ViewPosition {
        top: s.top,
        row: s.top_row_offset,
        max_row: s.top_max_row_offset,
        stale: s.wrap_bounds_stale,
    }
}

/// Everything but the vertical position is the same in `a` and `b`.
pub open spec fn same_but_position(a: &ViewState, b: &ViewState) -> bool {
    &&& a.x == b.x
    &&& a.wrap == b.wrap
    &&& a.jump_buffer@ == b.jump_buffer@
    &&& same_search(a, b)
    &&& same_structure(a, b)
}

/// Line `top` at its first row, with its rows to be measured anew when
/// wrapping.
pub open spec fn at_line(top: usize, wrap: bool) -> ViewPosition {
    ViewPosition { top, row: 0, max_row: 0, stale: wrap }
}

/// One row down: the next row of a wrapped top line, else the next line, kept
/// on the last line.
pub open spec fn down_step(p: ViewPosition, wrap: bool, line_count: usize) -> (bool, ViewPosition) {
    if line_count == 0 {
        (false, p)
    } else if wrap && p.row < p.max_row {
        (true, ViewPosition { row: (p.row + 1) as usize, ..p })
    } else {
        let next = if p.top == usize::MAX {
            p.top
        } else {
            (p.top + 1) as usize
        };
        let t = if next < line_count - 1 {
            next
        } else {
            (line_count - 1) as usize
        };
        if t != p.top {
            (true, at_line(t, wrap))
        } else {
            (false, p)
        }
    }
}

/// One row up: the previous row of a wrapped top line, else the last rows of
/// the previous line.
pub open spec fn up_step(p: ViewPosition, wrap: bool, line_count: usize) -> (bool, ViewPosition) {
    if line_count == 0 {
        (false, p)
    } else if wrap && p.row > 0 {
        (true, ViewPosition { row: (p.row - 1) as usize, ..p })
    } else if p.top > 0 {
        (
            true,
            ViewPosition {
                top: (p.top - 1) as usize,
                row: if wrap {
                    TAIL_ROW_OFFSET
                } else {
                    0
                },
                max_row: 0,
                stale: wrap,
            },
        )
    } else {
        (false, p)
    }
}

/// Up to `rows` steps down, stopping where a step does not move or leaves the
/// rows to be measured anew.
pub open spec fn down_rows(p: ViewPosition, wrap: bool, line_count: usize, rows: nat) -> (
    bool,
    ViewPosition,
)
    decreases rows,
{
    if rows == 0 {
        (false, p)
    } else {
        let (moved, q) = down_step(p, wrap, line_count);
        if !moved {
            (false, p)
        } else if q.stale {
            (true, q)
        } else {
            (true, down_rows(q, wrap, line_count, (rows - 1) as nat).1)
        }
    }
}

/// Up to `rows` steps up, stopping where a step does not move or leaves the
/// rows to be measured anew.
pub open spec fn up_rows(p: ViewPosition, wrap: bool, line_count: usize, rows: nat) -> (
    bool,
    ViewPosition,
)
    decreases rows,
{
    if rows == 0 {
        (false, p)
    } else {
        let (moved, q) = up_step(p, wrap, line_count);
        if !moved {
            (false, p)
        } else if q.stale {
            (true, q)
        } else {
            (true, up_rows(q, wrap, line_count, (rows - 1) as nat).1)
        }
    }
}

/// `top` moved by `delta` lines, kept within `0 .. line_count - 1` when
/// moving down.
pub open spec fn logical_target(top: int, line_count: int, delta: int) -> int {
    if delta >= 0 {
        let t = if top + delta > usize::MAX {
            usize::MAX as int
        } else {
            top + delta
        };
        let last = if line_count >= 1 {
            line_count - 1
        } else {
            0
        };
        if t < last {
            t
        } else {
            last
        }
    } else {
        if top + delta < 0 {
            0
        } else {
            top + delta
        }
    }
}

/// The top line moved by `delta` lines, at its first row; no move if the
/// line stays.
pub open spec fn logical_step(p: ViewPosition, wrap: bool, line_count: usize, delta: int) -> (
    bool,
    ViewPosition,
) {
    let t = logical_target(p.top as int, line_count as int, delta);
    if t != p.top {
        (true, at_line(t as usize, wrap))
    } else {
        (false, p)
    }
}

/// A page down: through the rows of a wrapped top line, else `page` lines.
pub open spec fn page_down_step(p: ViewPosition, wrap: bool, line_count: usize, page: usize) -> (
    bool,
    ViewPosition,
) {
    if line_count == 0 {
        (false, p)
    } else if wrap && p.row < p.max_row {
        (
            true,
            ViewPosition {
                row: if p.row + page < p.max_row {
                    (p.row + page) as usize
                } else {
                    p.max_row
                },
                ..p
            },
        )
    } else {
        logical_step(p, wrap, line_count, (page as isize) as int)
    }
}

/// A page up: through the rows of a wrapped top line, else `page` lines.
pub open spec fn page_up_step(p: ViewPosition, wrap: bool, line_count: usize, page: usize) -> (
    bool,
    ViewPosition,
) {
    if line_count == 0 {
        (false, p)
    } else if wrap && p.row > 0 {
        (
            true,
            ViewPosition {
                row: if p.row >= page {
                    (p.row - page) as usize
                } else {
                    0
                },
                ..p
            },
        )
    } else {
        logical_step(p, wrap, line_count, -((page as isize) as int))
    }
}

/// Line `value` at the top, at its first row; no move if already there.
pub open spec fn top_step(p: ViewPosition, wrap: bool, value: usize) -> (bool, ViewPosition) {
    if p.top == value && p.row == 0 {
        (false, p)
    } else {
        (true, at_line(value, wrap))
    }
}

/// The last line at the top, at its last rows when wrapping.
pub open spec fn end_step(p: ViewPosition, wrap: bool, line_count: usize) -> (bool, ViewPosition) {
    let value = if line_count >= 1 {
        (line_count - 1) as usize
    } else {
        0
    };
    let target_row = if line_count > 0 && wrap {
        TAIL_ROW_OFFSET
    } else {
        0
    };
    if p.top == value && p.row == target_row {
        (false, p)
    } else {
        (true, ViewPosition { top: value, row: target_row, max_row: 0, stale: wrap })
    }
}

/// `b` is `a` with the position that `step` gives, `moved` telling whether it
/// moved.
pub open spec fn stepped(a: &ViewState, b: &ViewState, step: (bool, ViewPosition), moved: bool) -> bool {
    &&& same_but_position(a, b)
    &&& moved == step.0
    &&& position(b) == step.1
}

/// Starts the top line at its first row again; the row bounds must be
/// measured anew when wrapping.
pub fn reset_top_row_offset(state: &mut ViewState)
    ensures
        same_but_position(old(state), final(state)),
        position(final(state)) == at_line(old(state).top, old(state).wrap),
{
    state.top_row_offset = 0;
    state.top_max_row_offset = 0;
    state.wrap_bounds_stale = state.wrap;
}

/// One row down: the next row of a wrapped top line, else the next line.
pub fn scroll_down(state: &mut ViewState, line_count: usize) -> (moved: bool)
    ensures
        stepped(
            old(state),
            final(state),
            down_step(position(old(state)), old(state).wrap, line_count),
            moved,
        ),
{
    if line_count == 0 {
        return false;
    }
    if state.wrap && state.top_row_offset < state.top_max_row_offset {
        state.top_row_offset = state.top_row_offset + 1;
        return true;
    }
    let old_top = state.top;
    let next = if state.top == usize::MAX {
        usize::MAX
    } else {
        state.top + 1
    };
    state.top = if next < line_count - 1 {
        next
    } else {
        line_count - 1
    };
    if state.top != old_top {
        reset_top_row_offset(state);
        return true;
    }
    false
}

/// One row up: the previous row of a wrapped top line, else the last row of
/// the previous line.
pub fn scroll_up(state: &mut ViewState, line_count: usize) -> (moved: bool)
    ensures
        stepped(
            old(state),
            final(state),
            up_step(position(old(state)), old(state).wrap, line_count),
            moved,
        ),
{
    if line_count == 0 {
        return false;
    }
    if state.wrap && state.top_row_offset > 0 {
        state.top_row_offset = state.top_row_offset - 1;
        return true;
    }
    if state.top > 0 {
        state.top = state.top - 1;
        state.top_row_offset = if state.wrap {
            TAIL_ROW_OFFSET
        } else {
            0
        };
        state.top_max_row_offset = 0;
        state.wrap_bounds_stale = state.wrap;
        return true;
    }
    false
}

/// Up to `rows` rows down, stopping early at the end or once the row
/// bounds must be measured anew.
pub fn scroll_down_by(state: &mut ViewState, line_count: usize, rows: usize) -> (moved: bool)
    ensures
        stepped(
            old(state),
            final(state),
            down_rows(position(old(state)), old(state).wrap, line_count, rows as nat),
            moved,
        ),
{
    let mut dirty = false;
    let mut i: usize = 0;
    let ghost start = position(state);
    let ghost wrap = state.wrap;
    loop
        invariant_except_break
            dirty == (i > 0),
            down_rows(start, wrap, line_count, rows as nat) == (if i == 0 {
                down_rows(position(state), wrap, line_count, rows as nat)
            } else {
                (true, down_rows(position(state), wrap, line_count, (rows - i) as nat).1)
            }),
        invariant
            i <= rows,
            wrap == old(state).wrap,
            start == position(old(state)),
            same_but_position(old(state), state),
        ensures
            stepped(old(state), state, down_rows(start, wrap, line_count, rows as nat), dirty),
        decreases rows - i,
    {
        if i == rows {
            break;
        }
        let ghost before = position(state);
        proof {
            lemma_down_rows_unfold(before, wrap, line_count, (rows - i) as nat);
        }
        if !scroll_down(state, line_count) {
            break;
        }
        dirty = true;
        if state.wrap_bounds_stale {
            break;
        }
        i += 1;
    }
    dirty
}

/// Up to `rows` rows up, stopping early at the start or once the row bounds
/// must be measured anew.
pub fn scroll_up_by(state: &mut ViewState, line_count: usize, rows: usize) -> (moved: bool)
    ensures
        stepped(
            old(state),
            final(state),
            up_rows(position(old(state)), old(state).wrap, line_count, rows as nat),
            moved,
        ),
{
    let mut dirty = false;
    let mut i: usize = 0;
    let ghost start = position(state);
    let ghost wrap = state.wrap;
    loop
        invariant_except_break
            dirty == (i > 0),
            up_rows(start, wrap, line_count, rows as nat) == (if i == 0 {
                up_rows(position(state), wrap, line_count, rows as nat)
            } else {
                (true, up_rows(position(state), wrap, line_count, (rows - i) as nat).1)
            }),
        invariant
            i <= rows,
            wrap == old(state).wrap,
            start == position(old(state)),
            same_but_position(old(state), state),
        ensures
            stepped(old(state), state, up_rows(start, wrap, line_count, rows as nat), dirty),
        decreases rows - i,
    {
        if i == rows {
            break;
        }
        let ghost before = position(state);
        proof {
            lemma_up_rows_unfold(before, wrap, line_count, (rows - i) as nat);
        }
        if !scroll_up(state, line_count) {
            break;
        }
        dirty = true;
        if state.wrap_bounds_stale {
            break;
        }
        i += 1;
    }
    dirty
}

/// Moves the top line by `delta` lines.
pub fn scroll_logical_by(state: &mut ViewState, line_count: usize, delta: isize) -> (moved: bool)
    ensures
        stepped(
            old(state),
            final(state),
            logical_step(position(old(state)), old(state).wrap, line_count, delta as int),
            moved,
        ),
{
    let old_top = state.top;
    let last = if line_count >= 1 {
        line_count - 1
    } else {
        0
    };
    if delta >= 0 {
        let d = delta as usize;
        let t = if state.top > usize::MAX - d {
            usize::MAX
        } else {
            state.top + d
        };
        state.top = if t < last {
            t
        } else {
            last
        };
    } else {
        let d: usize = if delta == isize::MIN {
            (isize::MAX as usize) + 1
        } else {
            (-delta) as usize
        };
        state.top = if state.top < d {
            0
        } else {
            state.top - d
        };
    }
    if state.top != old_top {
        reset_top_row_offset(state);
        return true;
    }
    false
}

/// A page down: through the rows of a wrapped top line, else `page` lines.
pub fn page_down(state: &mut ViewState, line_count: usize, page: usize) -> (moved: bool)
    ensures
        stepped(
            old(state),
            final(state),
            page_down_step(position(old(state)), old(state).wrap, line_count, page),
            moved,
        ),
{
    if line_count == 0 {
        return false;
    }
    if state.wrap && state.top_row_offset < state.top_max_row_offset {
        let next = if state.top_row_offset > usize::MAX - page {
            usize::MAX
        } else {
            state.top_row_offset + page
        };
        state.top_row_offset = if next < state.top_max_row_offset {
            next
        } else {
            state.top_max_row_offset
        };
        return true;
    }
    scroll_logical_by(state, line_count, page as isize)
}

/// A page up: through the rows of a wrapped top line, else `page` lines.
pub fn page_up(state: &mut ViewState, line_count: usize, page: usize) -> (moved: bool)
    requires
        page as isize != isize::MIN,
    ensures
        stepped(
            old(state),
            final(state),
            page_up_step(position(old(state)), old(state).wrap, line_count, page),
            moved,
        ),
{
    if line_count == 0 {
        return false;
    }
    if state.wrap && state.top_row_offset > 0 {
        state.top_row_offset = if state.top_row_offset >= page {
            state.top_row_offset - page
        } else {
            0
        };
        return true;
    }
    scroll_logical_by(state, line_count, -(page as isize))
}

/// Puts line `value` at the top, at its first row.
pub fn set_top(state: &mut ViewState, value: usize) -> (moved: bool)
    ensures
        stepped(old(state), final(state), top_step(position(old(state)), old(state).wrap, value), moved),
{
    if state.top == value && state.top_row_offset == 0 {
        return false;
    }
    state.top = value;
    reset_top_row_offset(state);
    true
}

/// Jumps to the end: the last line, at its last rows when wrapping.
pub fn set_file_end(state: &mut ViewState, line_count: usize) -> (moved: bool)
    ensures
        stepped(
            old(state),
            final(state),
            end_step(position(old(state)), old(state).wrap, line_count),
            moved,
        ),
{
    let value = if line_count >= 1 {
        line_count - 1
    } else {
        0
    };
    let target_offset = if line_count > 0 && state.wrap {
        TAIL_ROW_OFFSET
    } else {
        0
    };
    if state.top == value && state.top_row_offset == target_offset {
        return false;
    }
    state.top = value;
    state.top_row_offset = target_offset;
    state.top_max_row_offset = 0;
    state.wrap_bounds_stale = state.wrap;
    true
}

/// `x` moved by `delta` columns, saturating at both ends.
pub open spec fn shifted(x: int, delta: int) -> int {
    if x + delta < 0 {
        0
    } else if x + delta > usize::MAX {
        usize::MAX as int
    } else {
        x + delta
    }
}

/// Scrolls sideways by `delta` columns.
pub fn scroll_x_by(x: &mut usize, delta: isize) -> (moved: bool)
    ensures
        *final(x) == shifted(*old(x) as int, delta as int),
        moved == (*final(x) != *old(x)),
{
    let old_x = *x;
    if delta >= 0 {
        let d = delta as usize;
        *x = if *x > usize::MAX - d {
            usize::MAX
        } else {
            *x + d
        };
    } else {
        let d: usize = if delta == isize::MIN {
            (isize::MAX as usize) + 1
        } else {
            (-delta) as usize
        };
        *x = if *x < d {
            0
        } else {
            *x - d
        };
    }
    *x != old_x
}

/// `down_rows` over `n` steps is the first step followed by `n - 1` more.
pub proof fn lemma_down_rows_unfold(p: ViewPosition, wrap: bool, line_count: usize, n: nat)
    requires
        n > 0,
    ensures
        down_rows(p, wrap, line_count, n) == ({
            let (moved, q) = down_step(p, wrap, line_count);
            if !moved {
                (false, p)
            } else if q.stale {
                (true, q)
            } else {
                (true, down_rows(q, wrap, line_count, (n - 1) as nat).1)
            }
        }),
{
}

/// `up_rows` over `n` steps is the first step followed by `n - 1` more.
pub proof fn lemma_up_rows_unfold(p: ViewPosition, wrap: bool, line_count: usize, n: nat)
    requires
        n > 0,
    ensures
        up_rows(p, wrap, line_count, n) == ({
            let (moved, q) = up_step(p, wrap, line_count);
            if !moved {
                (false, p)
            } else if q.stale {
                (true, q)
            } else {
                (true, up_rows(q, wrap, line_count, (n - 1) as nat).1)
            }
        }),
{
}

} // verus!
