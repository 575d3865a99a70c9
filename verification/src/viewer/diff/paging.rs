//! Moving through a diff a whole row at a time, the top kept so that the
//! last page stays full.
use vstd::prelude::*;

use crate::text::push_str;
use crate::viewer::input::events::{Event, MouseEventKind};
use crate::viewer::input::keys::{KeyCode, KeyModifiers};
use crate::viewer::input::scroll::{scroll_x_by, shifted};

use super::{
    block_starts, change_block_starts, context_rows_spec, diff_context_rows, jump_target,
    jump_target_spec, DiffJump, DiffLayout, DiffModel,
};

verus! {

/// Where a diff view stands: its top row, its horizontal offset, its layout,
/// a message, and the change it last jumped to.
pub struct DiffViewState {
    pub top: usize,
    pub x: usize,
    pub layout: DiffLayout,
    pub message: Option<String>,
    pub change_cursor: Option<usize>,
}

impl DiffViewState {
    /// A view at the first row of `layout`.
    pub fn new(layout: DiffLayout) -> (s: Self)
        ensures
            s.top == 0,
            s.x == 0,
            s.layout == layout,
            s.message is None,
            s.change_cursor is None,
    {
        DiffViewState { top: 0, x: 0, layout, message: None, change_cursor: None }
    }
}

/// The highest top row that still fills `visible_height` rows.
pub open spec fn max_top_spec(row_count: int, visible_height: int) -> int {
    let height = if visible_height < 1 {
        1
    } else {
        visible_height
    };
    if row_count > height {
        row_count - height
    } else {
        0
    }
}

/// The highest top row that still fills the view.
pub fn max_top_for_view(row_count: usize, visible_height: usize) -> (top: usize)
    ensures
        top == max_top_spec(row_count as int, visible_height as int),
{
    let height = if visible_height < 1 {
        1
    } else {
        visible_height
    };
    if row_count > height {
        row_count - height
    } else {
        0
    }
}

/// Puts row `top` at the top, no further than the last full page; tells
/// whether the top moved.
pub fn set_top(state: &mut DiffViewState, top: usize, line_count: usize, visible_height: usize) -> (moved:
    bool)
    ensures
        final(state).top == (if top < max_top_spec(line_count as int, visible_height as int) {
            top as int
        } else {
            max_top_spec(line_count as int, visible_height as int)
        }),
        moved == (final(state).top != old(state).top),
        final(state).x == old(state).x,
        final(state).layout == old(state).layout,
        final(state).message == old(state).message,
        final(state).change_cursor == old(state).change_cursor,
{
    let old_top = state.top;
    let max_top = max_top_for_view(line_count, visible_height);
    state.top = if top < max_top {
        top
    } else {
        max_top
    };
    state.top != old_top
}

/// The top row after scrolling `delta` rows: down no further than the last
/// full page, up no further than the first row.
pub open spec fn scroll_target_spec(top: int, line_count: int, visible_height: int, delta: int) -> int {
    let max_top = max_top_spec(line_count, visible_height);
    if delta >= 0 {
        let moved = if top + delta > usize::MAX {
            usize::MAX as int
        } else {
            top + delta
        };
        if moved < max_top {
            moved
        } else {
            max_top
        }
    } else if top + delta < 0 {
        0
    } else {
        top + delta
    }
}

/// Scrolls by `delta` rows; tells whether the top moved.
pub fn scroll_by(state: &mut DiffViewState, line_count: usize, visible_height: usize, delta: isize) -> (moved:
    bool)
    ensures
        final(state).top == ({
            let t = scroll_target_spec(
                old(state).top as int,
                line_count as int,
                visible_height as int,
                delta as int,
            );
            let max_top = max_top_spec(line_count as int, visible_height as int);
            if t < max_top {
                t
            } else {
                max_top
            }
        }),
        moved == (final(state).top != old(state).top),
        final(state).x == old(state).x,
        final(state).layout == old(state).layout,
        final(state).message == old(state).message,
        final(state).change_cursor == old(state).change_cursor,
{
    let max_top = max_top_for_view(line_count, visible_height);
    let target = if delta >= 0 {
        let d = delta as usize;
        let moved = if state.top > usize::MAX - d {
            usize::MAX
        } else {
            state.top + d
        };
        if moved < max_top {
            moved
        } else {
            max_top
        }
    } else {
        let d: usize = if delta == isize::MIN {
            (isize::MAX as usize) + 1
        } else {
            (-delta) as usize
        };
        if state.top < d {
            0
        } else {
            state.top - d
        }
    };
    set_top(state, target, line_count, visible_height)
}

/// Keeps the top row within the last full page of the current layout.
pub fn clamp_top(state: &mut DiffViewState, model: &DiffModel, visible_height: usize)
    ensures
        final(state).top == ({
            let max_top = max_top_spec(
                model.rows_of(old(state).layout).row_count as int,
                visible_height as int,
            );
            if old(state).top < max_top {
                old(state).top as int
            } else {
                max_top
            }
        }),
        final(state).x == old(state).x,
        final(state).layout == old(state).layout,
        final(state).message == old(state).message,
        final(state).change_cursor == old(state).change_cursor,
{
    let max_top = max_top_for_view(model.row_count(state.layout), visible_height);
    if state.top > max_top {
        state.top = max_top;
    }
}

/// Jumps to the next or previous block of changes, from the change last
/// jumped to or else the top row, wrapping around; with no changes it says
/// there are none. Keeps a few rows of context above the change.
pub fn jump_change(
    model: &DiffModel,
    state: &mut DiffViewState,
    direction: DiffJump,
    page: usize,
    visible_height: usize,
) -> (moved: bool)
    ensures
        final(state).x == old(state).x,
        final(state).layout == old(state).layout,
        model.rows_of(old(state).layout).changed_rows@.len() == 0 ==> {
            &&& moved
            &&& final(state).top == old(state).top
            &&& final(state).change_cursor == old(state).change_cursor
            &&& final(state).message matches Some(m) && m@ == "no differences"@
        },
        model.rows_of(old(state).layout).changed_rows@.len() > 0 ==> ({
            let targets = block_starts(model.rows_of(old(state).layout).changed_rows@);
            let anchor = match old(state).change_cursor {
                Some(c) => c as int,
                None => old(state).top as int,
            };
            let target = jump_target_spec(targets, anchor, direction);
            let wanted = if target >= context_rows_spec(page as int) {
                target - context_rows_spec(page as int)
            } else {
                0
            };
            let max_top = max_top_spec(
                model.rows_of(old(state).layout).row_count as int,
                visible_height as int,
            );
            &&& final(state).change_cursor == Some(target)
            &&& final(state).message == old(state).message
            &&& final(state).top == if wanted < max_top {
                wanted
            } else {
                max_top
            }
            &&& moved == (final(state).top != old(state).top)
        }),
{
    let changes = model.changed_rows(state.layout);
    if changes.len() == 0 {
        let mut m = String::new();
        push_str(&mut m, "no differences");
        state.message = Some(m);
        return true;
    }
    let targets = change_block_starts(changes);
    proof {
        lemma_block_starts_nonempty(changes@);
    }
    let anchor = match state.change_cursor {
        Some(c) => c,
        None => state.top,
    };
    let target = jump_target(targets.as_slice(), anchor, direction);
    state.change_cursor = Some(target);
    let context = diff_context_rows(page);
    let wanted = if target >= context {
        target - context
    } else {
        0
    };
    let row_count = model.row_count(state.layout);
    set_top(state, wanted, row_count, visible_height)
}

/// Some change starts a block whenever there are changes.
pub proof fn lemma_block_starts_nonempty(changes: Seq<usize>)
    requires
        changes.len() > 0,
    ensures
        block_starts(changes).len() > 0,
    decreases changes.len(),
{
    if changes.len() > 1 {
        lemma_block_starts_nonempty(changes.drop_last());
    }
}

} // verus!

verus! {

/// What handling diff events asks of the loop: redraw, quit.
#[derive(Debug, Clone, Copy, PartialEq, Eq, Structural)]
pub struct DiffEventAction {
    pub dirty: bool,
    pub quit: bool,
}

impl DiffEventAction {
    /// Neither redraw nor quit.
    pub fn none() -> (a: Self)
        ensures
            !a.dirty && !a.quit,
    {
        DiffEventAction { dirty: false, quit: false }
    }

    /// Combines two actions: redraw or quit if either asks for it.
    pub fn merge(&mut self, next: Self)
        ensures
            final(self).dirty == (old(self).dirty || next.dirty),
            final(self).quit == (old(self).quit || next.quit),
    {
        self.dirty = self.dirty || next.dirty;
        self.quit = self.quit || next.quit;
    }
}

/// A key held with no modifier, or with Shift alone.
pub open spec fn diff_plain_spec(m: KeyModifiers) -> bool {
    !m.control && !m.alt && !m.others
}

/// Whether the modifiers leave a key plain: none, or Shift alone.
pub fn plain_key(modifiers: KeyModifiers) -> (r: bool)
    ensures
        r == diff_plain_spec(modifiers),
{
    !modifiers.control && !modifiers.alt && !modifiers.others
}

/// Nothing in the view changed.
pub open spec fn diff_unchanged(a: &DiffViewState, b: &DiffViewState) -> bool {
    &&& a.top == b.top
    &&& a.x == b.x
    &&& a.layout == b.layout
    &&& a.message == b.message
    &&& a.change_cursor == b.change_cursor
}

/// The view scrolled by `delta` rows with the jump cursor dropped.
pub open spec fn diff_scrolled(
    a: &DiffViewState,
    b: &DiffViewState,
    line_count: int,
    visible_height: int,
    delta: int,
    moved: bool,
) -> bool {
    let t = scroll_target_spec(a.top as int, line_count, visible_height, delta);
    let max_top = max_top_spec(line_count, visible_height);
    &&& b.top == (if t < max_top {
        t
    } else {
        max_top
    })
    &&& moved == (b.top != a.top)
    &&& b.x == a.x
    &&& b.layout == a.layout
    &&& b.message == a.message
    &&& b.change_cursor is None
}

/// The view put at row `top` (no further than the last full page) with the
/// jump cursor dropped.
pub open spec fn diff_topped(
    a: &DiffViewState,
    b: &DiffViewState,
    top: int,
    line_count: int,
    visible_height: int,
    moved: bool,
) -> bool {
    let max_top = max_top_spec(line_count, visible_height);
    &&& b.top == (if top < max_top {
        top
    } else {
        max_top
    })
    &&& moved == (b.top != a.top)
    &&& b.x == a.x
    &&& b.layout == a.layout
    &&& b.message == a.message
    &&& b.change_cursor is None
}

/// Only the horizontal offset moved, by `delta` columns (saturating).
pub open spec fn diff_x_shifted(a: &DiffViewState, b: &DiffViewState, delta: int, moved: bool) -> bool {
    &&& b.x == shifted(a.x as int, delta)
    &&& moved == (b.x != a.x)
    &&& a.top == b.top
    &&& a.layout == b.layout
    &&& a.message == b.message
    &&& a.change_cursor == b.change_cursor
}

/// What a jump between changes does (the contract of `jump_change`).
pub open spec fn diff_jumped(
    model: &DiffModel,
    a: &DiffViewState,
    b: &DiffViewState,
    direction: DiffJump,
    page: usize,
    visible_height: usize,
    moved: bool,
) -> bool {
    &&& b.x == a.x
    &&& b.layout == a.layout
    &&& model.rows_of(a.layout).changed_rows@.len() == 0 ==> {
        &&& moved
        &&& b.top == a.top
        &&& b.change_cursor == a.change_cursor
        &&& b.message matches Some(m) && m@ == "no differences"@
    }
    &&& model.rows_of(a.layout).changed_rows@.len() > 0 ==> ({
        let targets = block_starts(model.rows_of(a.layout).changed_rows@);
        let anchor = match a.change_cursor {
            Some(c) => c as int,
            None => a.top as int,
        };
        let target = jump_target_spec(targets, anchor, direction);
        let wanted = if target >= context_rows_spec(page as int) {
            target - context_rows_spec(page as int)
        } else {
            0
        };
        let max_top = max_top_spec(model.rows_of(a.layout).row_count as int, visible_height as int);
        &&& b.change_cursor == Some(target)
        &&& b.message == a.message
        &&& b.top == if wanted < max_top {
            wanted
        } else {
            max_top
        }
        &&& moved == (b.top != a.top)
    })
}

/// What a key does in the diff view: Control-C, `q` and Esc quit; `s`
/// switches the layout; `]` and `[` jump between changes; the arrows, `j`,
/// `k`, the page keys, Space, `f`, `b`, Home, `g`, End and `G` scroll; `h`,
/// `l` and the side arrows move sideways.
pub open spec fn diff_key_handled(
    model: &DiffModel,
    a: &DiffViewState,
    b: &DiffViewState,
    code: KeyCode,
    modifiers: KeyModifiers,
    page: usize,
    visible_height: usize,
    action: DiffEventAction,
) -> bool {
    let plain = diff_plain_spec(modifiers);
    let line_count = model.rows_of(a.layout).row_count as int;
    if code == KeyCode::Char('c') && modifiers.control {
        action.quit && !action.dirty && diff_unchanged(a, b)
    } else if code == KeyCode::Char('q') || code == KeyCode::Esc {
        action.quit && !action.dirty && diff_unchanged(a, b)
    } else if code == KeyCode::Char('s') && plain {
        let layout = if a.layout == DiffLayout::Unified {
            DiffLayout::SideBySide
        } else {
            DiffLayout::Unified
        };
        let max_top = max_top_spec(model.rows_of(layout).row_count as int, visible_height as int);
        &&& action.dirty && !action.quit
        &&& b.layout == layout
        &&& b.change_cursor is None
        &&& b.top == (if a.top < max_top {
            a.top as int
        } else {
            max_top
        })
        &&& b.x == a.x
        &&& b.message == a.message
    } else if code == KeyCode::Char(']') && plain {
        !action.quit && diff_jumped(model, a, b, DiffJump::Next, page, visible_height, action.dirty)
    } else if code == KeyCode::Char('[') && plain {
        !action.quit && diff_jumped(model, a, b, DiffJump::Previous, page, visible_height, action.dirty)
    } else if (code == KeyCode::Down || code == KeyCode::Char('j')) && plain {
        !action.quit && diff_scrolled(a, b, line_count, visible_height as int, 1, action.dirty)
    } else if (code == KeyCode::Up || code == KeyCode::Char('k')) && plain {
        !action.quit && diff_scrolled(a, b, line_count, visible_height as int, -1, action.dirty)
    } else if (code == KeyCode::PageDown || code == KeyCode::Char(' ') || code == KeyCode::Char('f'))
        && plain {
        !action.quit && diff_scrolled(
            a,
            b,
            line_count,
            visible_height as int,
            (page as isize) as int,
            action.dirty,
        )
    } else if (code == KeyCode::PageUp || code == KeyCode::Char('b')) && plain {
        !action.quit && diff_scrolled(
            a,
            b,
            line_count,
            visible_height as int,
            -((page as isize) as int),
            action.dirty,
        )
    } else if (code == KeyCode::Home || code == KeyCode::Char('g')) && plain {
        !action.quit && diff_topped(a, b, 0, line_count, visible_height as int, action.dirty)
    } else if (code == KeyCode::End || code == KeyCode::Char('G')) && plain {
        !action.quit && diff_topped(
            a,
            b,
            max_top_spec(line_count, visible_height as int),
            line_count,
            visible_height as int,
            action.dirty,
        )
    } else if (code == KeyCode::Right || code == KeyCode::Char('l')) && plain {
        !action.quit && diff_x_shifted(a, b, 4, action.dirty)
    } else if (code == KeyCode::Left || code == KeyCode::Char('h')) && plain {
        !action.quit && diff_x_shifted(a, b, -4, action.dirty)
    } else {
        !action.quit && !action.dirty && diff_unchanged(a, b)
    }
}

/// Handles one key press in the diff view.
pub fn handle_key_event(
    code: KeyCode,
    modifiers: KeyModifiers,
    model: &DiffModel,
    state: &mut DiffViewState,
    page: usize,
    visible_height: usize,
) -> (action: DiffEventAction)
    requires
        page as isize != isize::MIN,
    ensures
        diff_key_handled(model, old(state), final(state), code, modifiers, page, visible_height, action),
{
    if code == KeyCode::Char('c') && modifiers.control {
        return DiffEventAction { dirty: false, quit: true };
    }
    let line_count = model.row_count(state.layout);
    let plain = plain_key(modifiers);
    if code == KeyCode::Char('q') || code == KeyCode::Esc {
        return DiffEventAction { dirty: false, quit: true };
    }
    let dirty = if code == KeyCode::Char('s') && plain {
        state.layout = state.layout.toggle();
        state.change_cursor = None;
        clamp_top(state, model, visible_height);
        true
    } else if code == KeyCode::Char(']') && plain {
        jump_change(model, state, DiffJump::Next, page, visible_height)
    } else if code == KeyCode::Char('[') && plain {
        jump_change(model, state, DiffJump::Previous, page, visible_height)
    } else if (code == KeyCode::Down || code == KeyCode::Char('j')) && plain {
        state.change_cursor = None;
        scroll_by(state, line_count, visible_height, 1)
    } else if (code == KeyCode::Up || code == KeyCode::Char('k')) && plain {
        state.change_cursor = None;
        scroll_by(state, line_count, visible_height, -1)
    } else if (code == KeyCode::PageDown || code == KeyCode::Char(' ') || code == KeyCode::Char('f'))
        && plain {
        state.change_cursor = None;
        scroll_by(state, line_count, visible_height, page as isize)
    } else if (code == KeyCode::PageUp || code == KeyCode::Char('b')) && plain {
        state.change_cursor = None;
        scroll_by(state, line_count, visible_height, -(page as isize))
    } else if (code == KeyCode::Home || code == KeyCode::Char('g')) && plain {
        state.change_cursor = None;
        set_top(state, 0, line_count, visible_height)
    } else if (code == KeyCode::End || code == KeyCode::Char('G')) && plain {
        state.change_cursor = None;
        let end = max_top_for_view(line_count, visible_height);
        set_top(state, end, line_count, visible_height)
    } else if (code == KeyCode::Right || code == KeyCode::Char('l')) && plain {
        scroll_x_by(&mut state.x, 4)
    } else if (code == KeyCode::Left || code == KeyCode::Char('h')) && plain {
        scroll_x_by(&mut state.x, -4)
    } else {
        false
    };
    DiffEventAction { dirty, quit: false }
}

/// What a mouse event does in the diff view: the wheel scrolls rows, or
/// columns with Shift; sideways scrolling moves columns.
pub open spec fn diff_mouse_handled(
    model: &DiffModel,
    a: &DiffViewState,
    b: &DiffViewState,
    kind: MouseEventKind,
    modifiers: KeyModifiers,
    visible_height: usize,
    action: DiffEventAction,
) -> bool {
    let line_count = model.rows_of(a.layout).row_count as int;
    &&& !action.quit
    &&& if kind == MouseEventKind::ScrollDown && modifiers.shift {
        diff_x_shifted(a, b, 4, action.dirty)
    } else if kind == MouseEventKind::ScrollUp && modifiers.shift {
        diff_x_shifted(a, b, -4, action.dirty)
    } else if kind == MouseEventKind::ScrollDown {
        diff_scrolled(a, b, line_count, visible_height as int, 1, action.dirty)
    } else if kind == MouseEventKind::ScrollUp {
        diff_scrolled(a, b, line_count, visible_height as int, -1, action.dirty)
    } else if kind == MouseEventKind::ScrollRight {
        diff_x_shifted(a, b, 4, action.dirty)
    } else if kind == MouseEventKind::ScrollLeft {
        diff_x_shifted(a, b, -4, action.dirty)
    } else {
        !action.dirty && diff_unchanged(a, b)
    }
}

/// Handles one mouse event in the diff view.
pub fn handle_mouse_event(
    kind: MouseEventKind,
    modifiers: KeyModifiers,
    model: &DiffModel,
    state: &mut DiffViewState,
    visible_height: usize,
) -> (action: DiffEventAction)
    ensures
        diff_mouse_handled(model, old(state), final(state), kind, modifiers, visible_height, action),
{
    let line_count = model.row_count(state.layout);
    let dirty = if kind == MouseEventKind::ScrollDown && modifiers.shift {
        scroll_x_by(&mut state.x, 4)
    } else if kind == MouseEventKind::ScrollUp && modifiers.shift {
        scroll_x_by(&mut state.x, -4)
    } else if kind == MouseEventKind::ScrollDown {
        state.change_cursor = None;
        scroll_by(state, line_count, visible_height, 1)
    } else if kind == MouseEventKind::ScrollUp {
        state.change_cursor = None;
        scroll_by(state, line_count, visible_height, -1)
    } else if kind == MouseEventKind::ScrollRight {
        scroll_x_by(&mut state.x, 4)
    } else if kind == MouseEventKind::ScrollLeft {
        scroll_x_by(&mut state.x, -4)
    } else {
        false
    };
    DiffEventAction { dirty, quit: false }
}

/// Handles one terminal event in the diff view: key releases are ignored and
/// a resize asks for a redraw.
pub fn handle_event(
    event: Event,
    model: &DiffModel,
    state: &mut DiffViewState,
    page: usize,
    visible_height: usize,
) -> (action: DiffEventAction)
    requires
        page as isize != isize::MIN,
    ensures
        match event {
            Event::Key { code, modifiers, release } => if release {
                !action.dirty && !action.quit && diff_unchanged(old(state), final(state))
            } else {
                diff_key_handled(
                    model,
                    old(state),
                    final(state),
                    code,
                    modifiers,
                    page,
                    visible_height,
                    action,
                )
            },
            Event::Mouse { kind, modifiers } => diff_mouse_handled(
                model,
                old(state),
                final(state),
                kind,
                modifiers,
                visible_height,
                action,
            ),
            Event::Resize => action.dirty && !action.quit && diff_unchanged(old(state), final(state)),
            Event::Other => !action.dirty && !action.quit && diff_unchanged(old(state), final(state)),
        },
{
    match event {
        Event::Key { code, modifiers, release } => {
            if release {
                DiffEventAction::none()
            } else {
                handle_key_event(code, modifiers, model, state, page, visible_height)
            }
        },
        Event::Mouse { kind, modifiers } => handle_mouse_event(
            kind,
            modifiers,
            model,
            state,
            visible_height,
        ),
        Event::Resize => DiffEventAction { dirty: true, quit: false },
        Event::Other => DiffEventAction::none(),
    }
}

} // verus!
