//! Scrolling the terminal instead of redrawing it: when the view moved by a
//! few rows, the terminal shifts the body and only the rows that scrolled in
//! are drawn.
use vstd::prelude::*;

use crate::tui::ansi::{digits, push_u16, Cell, Color, Modifier};

verus! {

/// The most rows the terminal is asked to scroll the text viewer by.
pub const TERMINAL_SCROLL_HINT_MAX_ROWS: usize = 12;

/// The most rows the terminal is asked to scroll the diff viewer by.
pub const DIFF_SCROLL_HINT_MAX_ROWS: usize = 12;

/// Which way the body's content moves on screen.
#[derive(Debug, Clone, Copy, PartialEq, Eq, Structural)]
pub enum ScrollDirection {
    Up,
    Down,
}

/// Scroll the body by `amount` rows in `direction` before drawing.
#[derive(Debug, Clone, Copy, PartialEq, Eq, Structural)]
pub struct ScrollHint {
    pub amount: u16,
    pub direction: ScrollDirection,
}

impl ScrollHint {
    /// Content moves up: the view went down.
    pub fn up(amount: u16) -> (hint: Self)
        ensures
            hint == (ScrollHint { amount, direction: ScrollDirection::Up }),
    {
        ScrollHint { amount, direction: ScrollDirection::Up }
    }

    /// Content moves down: the view went up.
    pub fn down(amount: u16) -> (hint: Self)
        ensures
            hint == (ScrollHint { amount, direction: ScrollDirection::Down }),
    {
        ScrollHint { amount, direction: ScrollDirection::Down }
    }
}

/// Where a frame's view stood: its top line and the row of it at the top.
#[derive(Debug, Clone, Copy, PartialEq, Eq, Structural)]
pub struct ScrollPosition {
    pub top: usize,
    pub row_offset: usize,
}

/// The scroll between two frames on the same top line: by the rows the top
/// moved within it, when that is 1 to 12 rows.
pub open spec fn row_scroll_spec(previous: Option<ScrollPosition>, position: ScrollPosition) -> Option<ScrollHint> {
    match previous {
        None => None,
        Some(p) => {
            let delta = if position.row_offset > p.row_offset {
                position.row_offset - p.row_offset
            } else {
                p.row_offset - position.row_offset
            };
            if p.top != position.top || delta == 0 || delta > 12 {
                None
            } else if position.row_offset > p.row_offset {
                Some(ScrollHint { amount: delta as u16, direction: ScrollDirection::Up })
            } else {
                Some(ScrollHint { amount: delta as u16, direction: ScrollDirection::Down })
            }
        },
    }
}

/// How the terminal can scroll from the frame drawn at `previous` to one at
/// `position`, when both stand on the same top line.
pub fn scroll_hint(previous: Option<ScrollPosition>, position: ScrollPosition) -> (hint: Option<ScrollHint>)
    ensures
        hint == row_scroll_spec(previous, position),
{
    let previous = match previous {
        Some(p) => p,
        None => return None,
    };
    if previous.top != position.top {
        return None;
    }
    let delta = if position.row_offset > previous.row_offset {
        position.row_offset - previous.row_offset
    } else {
        previous.row_offset - position.row_offset
    };
    if delta == 0 || delta > 12 {
        return None;
    }
    let amount = delta as u16;
    if position.row_offset > previous.row_offset {
        Some(ScrollHint::up(amount))
    } else {
        Some(ScrollHint::down(amount))
    }
}

/// The scroll between two frames that both start at a row's top: by the
/// rows the top moved, when that is 1 to `DIFF_SCROLL_HINT_MAX_ROWS`.
pub open spec fn line_scroll_spec(previous: Option<ScrollPosition>, position: ScrollPosition) -> Option<ScrollHint> {
    match previous {
        None => None,
        Some(p) => {
            let delta = if position.top > p.top {
                position.top - p.top
            } else {
                p.top - position.top
            };
            if p.row_offset != 0 || position.row_offset != 0 || delta == 0 || delta > DIFF_SCROLL_HINT_MAX_ROWS {
                None
            } else if position.top > p.top {
                Some(ScrollHint { amount: delta as u16, direction: ScrollDirection::Up })
            } else {
                Some(ScrollHint { amount: delta as u16, direction: ScrollDirection::Down })
            }
        },
    }
}

/// How the terminal can scroll between two frames of the diff viewer: within
/// a row, else by whole one-row diff rows.
pub fn diff_scroll_hint(previous: Option<ScrollPosition>, position: ScrollPosition) -> (hint: Option<ScrollHint>)
    ensures
        hint == match row_scroll_spec(previous, position) {
            Some(h) => Some(h),
            None => line_scroll_spec(previous, position),
        },
{
    if let Some(hint) = scroll_hint(previous, position) {
        return Some(hint);
    }
    let previous = match previous {
        Some(p) => p,
        None => return None,
    };
    if previous.row_offset != 0 || position.row_offset != 0 {
        return None;
    }
    let delta = if position.top > previous.top {
        position.top - previous.top
    } else {
        previous.top - position.top
    };
    if delta == 0 || delta > DIFF_SCROLL_HINT_MAX_ROWS {
        return None;
    }
    let amount = delta as u16;
    if position.top > previous.top {
        Some(ScrollHint::up(amount))
    } else {
        Some(ScrollHint::down(amount))
    }
}

/// The rows a line takes, when they are known and 1 to 12 of them.
pub open spec fn known_rows_spec(total_rows: Option<usize>) -> Option<u16> {
    match total_rows {
        Some(rows) => if rows == 0 || rows > TERMINAL_SCROLL_HINT_MAX_ROWS {
            None
        } else {
            Some(rows as u16)
        },
        None => None,
    }
}

/// The rows a line takes (`total_rows`, when the renderer knows them), fit
/// for a scroll hint.
pub fn known_line_rows(total_rows: Option<usize>) -> (rows: Option<u16>)
    ensures
        rows == known_rows_spec(total_rows),
{
    let rows = match total_rows {
        Some(r) => r,
        None => return None,
    };
    if rows == 0 || rows > TERMINAL_SCROLL_HINT_MAX_ROWS {
        return None;
    }
    Some(rows as u16)
}

/// The line after `top`, staying at the last `usize`.
pub open spec fn succ_sat(top: usize) -> usize {
    if top == usize::MAX {
        top
    } else {
        (top + 1) as usize
    }
}

fn next_line(top: usize) -> (next: usize)
    ensures
        next == succ_sat(top),
{
    if top == usize::MAX {
        top
    } else {
        top + 1
    }
}

/// The scroll between two frames of the text viewer that both start at a
/// line's first row and are one line apart: by the rows of the line that
/// left or entered at the top, when known.
pub open spec fn logical_scroll_spec(
    previous: Option<ScrollPosition>,
    position: ScrollPosition,
    previous_top_rows: Option<usize>,
    position_top_rows: Option<usize>,
) -> Option<ScrollHint> {
    match previous {
        None => None,
        Some(p) => if p.row_offset != 0 || position.row_offset != 0 {
            None
        } else if position.top == succ_sat(p.top) {
            match known_rows_spec(previous_top_rows) {
                Some(n) => Some(ScrollHint { amount: n, direction: ScrollDirection::Up }),
                None => None,
            }
        } else if p.top == succ_sat(position.top) {
            match known_rows_spec(position_top_rows) {
                Some(n) => Some(ScrollHint { amount: n, direction: ScrollDirection::Down }),
                None => None,
            }
        } else {
            None
        },
    }
}

/// How the terminal can scroll between two frames of the text viewer that
/// moved by one whole line; `previous_top_rows` and `position_top_rows` are
/// the rows of the two top lines, where known.
pub fn logical_scroll_hint(
    previous: Option<ScrollPosition>,
    position: ScrollPosition,
    previous_top_rows: Option<usize>,
    position_top_rows: Option<usize>,
) -> (hint: Option<ScrollHint>)
    ensures
        hint == logical_scroll_spec(previous, position, previous_top_rows, position_top_rows),
{
    let previous = match previous {
        Some(p) => p,
        None => return None,
    };
    if previous.row_offset != 0 || position.row_offset != 0 {
        return None;
    }
    if position.top == next_line(previous.top) {
        return match known_line_rows(previous_top_rows) {
            Some(n) => Some(ScrollHint::up(n)),
            None => None,
        };
    }
    if previous.top == next_line(position.top) {
        return match known_line_rows(position_top_rows) {
            Some(n) => Some(ScrollHint::down(n)),
            None => None,
        };
    }
    None
}

/// A rectangle of terminal cells.
#[derive(Debug, Clone, Copy, PartialEq, Eq, Structural)]
pub struct Rect {
    pub x: u16,
    pub y: u16,
    pub width: u16,
    pub height: u16,
}

/// What the screen shows in one frame: its area, and per cell (row by row)
/// what it holds and whether drawing leaves it alone.
pub struct Grid {
    pub area: Rect,
    pub cells: Vec<Cell>,
    pub skipped: Vec<bool>,
}

impl Grid {
    /// Every cell of the area is there.
    pub open spec fn wf(&self) -> bool {
        &&& self.cells@.len() == self.area.width * self.area.height
        &&& self.skipped@.len() == self.cells@.len()
    }

    /// Where cell (`x`, `y`) of the screen is kept.
    pub open spec fn index_spec(&self, x: int, y: int) -> int {
        (y - self.area.y) * self.area.width + (x - self.area.x)
    }

    /// Whether (`x`, `y`) lies in the area.
    pub open spec fn holds(&self, x: int, y: int) -> bool {
        self.area.x <= x < self.area.x + self.area.width && self.area.y <= y < self.area.y + self.area.height
    }

    /// The cell at (`x`, `y`).
    pub open spec fn cell_at(&self, x: int, y: int) -> Cell {
        self.cells@[self.index_spec(x, y)]
    }

    /// Whether drawing leaves the cell at (`x`, `y`) alone.
    pub open spec fn skipped_at(&self, x: int, y: int) -> bool {
        self.skipped@[self.index_spec(x, y)]
    }

    fn index_of(&self, x: u16, y: u16) -> (i: usize)
        requires
            self.wf(),
            self.holds(x as int, y as int),
        ensures
            i == self.index_spec(x as int, y as int),
            i < self.cells@.len(),
    {
        let row = (y - self.area.y) as usize;
        let column = (x - self.area.x) as usize;
        let width = self.area.width as usize;
        proof {
            assert(row * width + column < self.area.width * self.area.height) by (nonlinear_arith)
                requires
                    row < self.area.height,
                    column < width,
                    width == self.area.width,
            ;
            assert(row * width <= 65535 * 65535) by (nonlinear_arith)
                requires
                    row <= 65535,
                    width <= 65535,
            ;
        }
        row * width + column
    }
}

/// Two cells look alike: same text, colours and attributes.
pub open spec fn same_cell(a: Cell, b: Cell) -> bool {
    a.symbol@ == b.symbol@ && a.fg == b.fg && a.bg == b.bg && a.modifier == b.modifier
}

fn cells_alike(a: &Cell, b: &Cell) -> (r: bool)
    ensures
        r == same_cell(*a, *b),
{
    if a.fg != b.fg || a.bg != b.bg || a.modifier != b.modifier {
        return false;
    }
    let x = crate::text::chars_of(a.symbol.as_str());
    let y = crate::text::chars_of(b.symbol.as_str());
    if x.len() != y.len() {
        return false;
    }
    let mut i: usize = 0;
    while i < x.len()
        invariant
            i <= x@.len() == y@.len(),
            x@ == a.symbol@,
            y@ == b.symbol@,
            forall|k: int| 0 <= k < i ==> x@[k] == y@[k],
        decreases x@.len() - i,
    {
        if x[i] != y[i] {
            return false;
        }
        i += 1;
    }
    assert(x@ =~= y@);
    true
}

/// A blank cell on the terminal's own background: scrolling in, it needs no
/// drawing.
pub open spec fn visually_empty(cell: Cell) -> bool {
    cell.symbol@ == seq![' '] && cell.bg == Color::Reset && cell.modifier == Modifier::empty_spec()
}

/// Whether a cell is a blank on the terminal's own background.
pub fn is_visually_empty_cell(cell: &Cell) -> (r: bool)
    ensures
        r == visually_empty(*cell),
{
    let cs = crate::text::chars_of(cell.symbol.as_str());
    let blank = cs.len() == 1 && cs[0] == ' ';
    proof {
        if cs@.len() == 1 {
            assert(blank ==> cs@ =~= seq![' ']);
        }
    }
    blank && cell.bg == Color::Reset && cell.modifier == Modifier::empty()
}

/// `a + b` in `u16`, stopping at its largest value.
pub open spec fn sat_add16(a: int, b: int) -> int {
    if a + b > 65535 {
        65535
    } else {
        a + b
    }
}

fn add16(a: u16, b: u16) -> (r: u16)
    ensures
        r == sat_add16(a as int, b as int),
{
    if a > 65535 - b {
        65535
    } else {
        a + b
    }
}

/// The part of the screen that scrolls, and how.
#[derive(Debug, Clone, Copy, PartialEq, Eq, Structural)]
pub struct BodyScroll {
    pub area: Rect,
    pub amount: u16,
    pub direction: ScrollDirection,
}

/// The bytes that make the terminal scroll rows `top..=bottom` (one-based)
/// by `amount`: set the scroll region, scroll, reset the region; nothing when
/// there is nothing to scroll.
pub open spec fn emit_spec(scroll: BodyScroll) -> Seq<u8> {
    if scroll.amount == 0 || scroll.area.height == 0 {
        Seq::empty()
    } else {
        let top = sat_add16(scroll.area.y as int, 1);
        let bottom = sat_add16(scroll.area.y as int, scroll.area.height as int);
        let command: u8 = match scroll.direction {
            ScrollDirection::Up => 83,
            ScrollDirection::Down => 84,
        };
        seq![27u8, 91u8] + digits(top as nat) + seq![59u8] + digits(bottom as nat) + seq![114u8, 27u8, 91u8]
            + digits(scroll.amount as nat) + seq![command, 27u8, 91u8, 114u8]
    }
}

/// The first and the past-the-end screen rows that scroll into view.
pub open spec fn entering_spec(scroll: BodyScroll) -> (int, int) {
    match scroll.direction {
        ScrollDirection::Up => (
            sat_add16(scroll.area.y as int, scroll.area.height - scroll.amount),
            sat_add16(scroll.area.y as int, scroll.area.height as int),
        ),
        ScrollDirection::Down => (scroll.area.y as int, sat_add16(scroll.area.y as int, scroll.amount as int)),
    }
}

/// The changed cells of row `y` among the `k` columns from `x0`, left to
/// right.
pub open spec fn changed_in_row(previous: &Grid, current: &Grid, y: int, x0: int, k: int) -> Seq<(u16, u16)>
    decreases k,
{
    if k <= 0 {
        Seq::empty()
    } else {
        let rest = changed_in_row(previous, current, y, x0, k - 1);
        let x = x0 + k - 1;
        if !current.skipped_at(x, y) && !(same_cell(current.cell_at(x, y), previous.cell_at(x, y))
            && !previous.skipped_at(x, y)) {
            rest.push((x as u16, y as u16))
        } else {
            rest
        }
    }
}

/// The cells of the first `n` screen rows outside the scrolling area that
/// changed, row by row.
pub open spec fn static_updates(previous: &Grid, current: &Grid, scroll: BodyScroll, n: int) -> Seq<(u16, u16)>
    decreases n,
{
    if n <= 0 {
        Seq::empty()
    } else {
        let rest = static_updates(previous, current, scroll, n - 1);
        let y = n - 1;
        if scroll.area.y <= y < sat_add16(scroll.area.y as int, scroll.area.height as int) {
            rest
        } else {
            rest + changed_in_row(previous, current, y, scroll.area.x as int, scroll.area.width as int)
        }
    }
}

/// The cells of row `y` among the `k` columns from `x0` that need drawing
/// once scrolled in: all but blanks.
pub open spec fn drawn_in_row(current: &Grid, y: int, x0: int, k: int) -> Seq<(u16, u16)>
    decreases k,
{
    if k <= 0 {
        Seq::empty()
    } else {
        let rest = drawn_in_row(current, y, x0, k - 1);
        let x = x0 + k - 1;
        if !current.skipped_at(x, y) && !visually_empty(current.cell_at(x, y)) {
            rest.push((x as u16, y as u16))
        } else {
            rest
        }
    }
}

/// The cells to draw in the `n` rows from `y0` that scrolled in.
pub open spec fn entering_updates(current: &Grid, scroll: BodyScroll, y0: int, n: int) -> Seq<(u16, u16)>
    decreases n,
{
    if n <= 0 {
        Seq::empty()
    } else {
        entering_updates(current, scroll, y0, n - 1) + drawn_in_row(
            current,
            y0 + n - 1,
            scroll.area.x as int,
            scroll.area.width as int,
        )
    }
}

impl BodyScroll {
    /// The scroll lies on the screen `current` shows: its columns and the rows
    /// that scroll in are inside it, it starts at the top, and it moves by
    /// less than its height.
    pub open spec fn fits(self, current: &Grid) -> bool {
        let (lo, hi) = entering_spec(self);
        &&& current.area.y == 0
        &&& current.area.x <= self.area.x
        &&& self.area.x + self.area.width <= current.area.x + current.area.width
        &&& self.area.x + self.area.width <= 65535
        &&& self.amount < self.area.height
        &&& 0 <= lo <= hi <= current.area.height
    }

    /// Appends the bytes that make the terminal scroll.
    pub fn emit(self, output: &mut Vec<u8>)
        ensures
            final(output)@ == old(output)@ + emit_spec(self),
    {
        if self.amount == 0 || self.area.height == 0 {
            assert(old(output)@ + emit_spec(self) =~= old(output)@);
            return;
        }
        let top = add16(self.area.y, 1);
        let bottom = add16(self.area.y, self.area.height);
        let command: u8 = match self.direction {
            ScrollDirection::Up => 83,
            ScrollDirection::Down => 84,
        };
        output.push(27);
        output.push(91);
        push_u16(output, top);
        output.push(59);
        push_u16(output, bottom);
        output.push(114);
        output.push(27);
        output.push(91);
        push_u16(output, self.amount);
        output.push(command);
        output.push(27);
        output.push(91);
        output.push(114);
        assert(output@ =~= old(output)@ + emit_spec(self));
    }

    /// The screen rows that scroll into view.
    pub fn entering_rows(self) -> (rows: (u16, u16))
        requires
            self.amount <= self.area.height,
        ensures
            (rows.0 as int, rows.1 as int) == entering_spec(self),
    {
        match self.direction {
            ScrollDirection::Up => (
                add16(self.area.y, self.area.height - self.amount),
                add16(self.area.y, self.area.height),
            ),
            ScrollDirection::Down => (self.area.y, add16(self.area.y, self.amount)),
        }
    }

    /// Appends the cells of row `y` that need drawing once scrolled in.
    pub fn push_entering_row(self, current: &Grid, y: u16, updates: &mut Vec<(u16, u16)>)
        requires
            current.wf(),
            self.fits(current),
            y < current.area.height,
        ensures
            final(updates)@ == old(updates)@ + drawn_in_row(current, y as int, self.area.x as int, self.area.width as int),
    {
        let mut k: u16 = 0;
        while k < self.area.width
            invariant
                current.wf(),
                self.fits(current),
                y < current.area.height,
                k <= self.area.width,
                updates@ == old(updates)@ + drawn_in_row(current, y as int, self.area.x as int, k as int),
            decreases self.area.width - k,
        {
            let x = self.area.x + k;
            let i = current.index_of(x, y);
            if !current.skipped[i] && !is_visually_empty_cell(&current.cells[i]) {
                updates.push((x, y));
            }
            k += 1;
            assert(updates@ =~= old(updates)@ + drawn_in_row(current, y as int, self.area.x as int, k as int));
        }
    }

    /// Appends the changed cells of the rows outside the scrolling area.
    pub fn push_static_row_updates(self, previous: &Grid, current: &Grid, updates: &mut Vec<(u16, u16)>)
        requires
            previous.wf(),
            current.wf(),
            previous.area == current.area,
            self.fits(current),
        ensures
            final(updates)@ == old(updates)@ + static_updates(previous, current, self, current.area.height as int),
    {
        let mut y: u16 = 0;
        let scroll_end = add16(self.area.y, self.area.height);
        while y < current.area.height
            invariant
                previous.wf(),
                current.wf(),
                previous.area == current.area,
                self.fits(current),
                y <= current.area.height,
                scroll_end == sat_add16(self.area.y as int, self.area.height as int),
                updates@ == old(updates)@ + static_updates(previous, current, self, y as int),
            decreases current.area.height - y,
        {
            if y >= self.area.y && y < scroll_end {
                y += 1;
                continue;
            }
            let ghost before = updates@;
            let mut k: u16 = 0;
            while k < self.area.width
                invariant
                    previous.wf(),
                    current.wf(),
                    previous.area == current.area,
                    self.fits(current),
                    y < current.area.height,
                    k <= self.area.width,
                    updates@ == before + changed_in_row(previous, current, y as int, self.area.x as int, k as int),
                decreases self.area.width - k,
            {
                let x = self.area.x + k;
                let i = current.index_of(x, y);
                let j = previous.index_of(x, y);
                if !current.skipped[i] && !(cells_alike(&current.cells[i], &previous.cells[j]) && !previous.skipped[j]) {
                    updates.push((x, y));
                }
                k += 1;
                assert(updates@ =~= before + changed_in_row(previous, current, y as int, self.area.x as int, k as int));
            }
            y += 1;
            assert(updates@ =~= old(updates)@ + static_updates(previous, current, self, y as int));
        }
    }

    /// The cells to draw after the terminal scrolled: the changed cells
    /// outside the scrolling area, then the cells that scrolled in.
    pub fn updates(self, previous: &Grid, current: &Grid) -> (updates: Vec<(u16, u16)>)
        requires
            previous.wf(),
            current.wf(),
            previous.area == current.area,
            self.fits(current),
        ensures
            updates@ == static_updates(previous, current, self, current.area.height as int) + entering_updates(
                current,
                self,
                entering_spec(self).0,
                entering_spec(self).1 - entering_spec(self).0,
            ),
    {
        let mut updates: Vec<(u16, u16)> = Vec::new();
        self.push_static_row_updates(previous, current, &mut updates);
        let ghost after_static = updates@;
        let (lo, hi) = self.entering_rows();
        let mut y = lo;
        while y < hi
            invariant
                current.wf(),
                self.fits(current),
                (lo as int, hi as int) == entering_spec(self),
                lo <= y <= hi,
                updates@ == after_static + entering_updates(current, self, lo as int, y - lo),
            decreases hi - y,
        {
            self.push_entering_row(current, y, &mut updates);
            y += 1;
            assert(updates@ =~= after_static + entering_updates(current, self, lo as int, y - lo));
        }
        updates
    }
}

/// The body area ratatui's layout gives a screen area split into a body of
/// at least one row above a one-row footer, as (x, y, width, height).
pub uninterp spec fn footer_layout_body(x: u16, y: u16, width: u16, height: u16) -> (u16, u16, u16, u16);

/// Calls `ratatui::layout::Layout::areas` on a vertical layout of
/// `Constraint::Min(1)` above `Constraint::Length(1)`. The contract claims
/// only that the body area it returns depends on the screen area alone (the
/// solver is deterministic and its cache keeps results); what the area is,
/// the constraint solver decides, and nothing here states it. ratatui panics
/// only when its solver rejects a constraint, which these two fresh
/// constraints never cause.
#[verifier::external_body]
fn split_body_and_footer(area: Rect) -> (body: Rect)
    ensures
        (body.x, body.y, body.width, body.height) == footer_layout_body(area.x, area.y, area.width, area.height),
{
    let [body, _footer] = ratatui::layout::Layout::vertical([
        ratatui::layout::Constraint::Min(1),
        ratatui::layout::Constraint::Length(1),
    ]).areas(ratatui::layout::Rect { x: area.x, y: area.y, width: area.width, height: area.height });
    Rect { x: body.x, y: body.y, width: body.width, height: body.height }
}

/// `a - b` in `u16`, stopping at zero.
pub open spec fn sat_sub16(a: int, b: int) -> int {
    if a > b {
        a - b
    } else {
        0
    }
}

fn sub16(a: u16, b: u16) -> (r: u16)
    ensures
        r == sat_sub16(a as int, b as int),
{
    if a > b {
        a - b
    } else {
        0
    }
}

/// The rows that scroll: the body without the title row and the sticky rows
/// below it, and without the body's last row, from column 0.
pub open spec fn body_area_spec(area: Rect, sticky_rows: usize) -> Rect {
    let (_, y, width, height) = footer_layout_body(area.x, area.y, area.width, area.height);
    Rect {
        x: 0,
        y: sat_add16(sat_add16(y as int, 1), (sticky_rows as u16) as int) as u16,
        width,
        height: sat_sub16(sat_sub16(height as int, 2), (sticky_rows as u16) as int) as u16,
    }
}

/// The part of the screen that scrolls when the view moves.
pub fn scrollable_body_area(area: Rect, sticky_rows: usize) -> (body: Rect)
    ensures
        body == body_area_spec(area, sticky_rows),
{
    let laid = split_body_and_footer(area);
    let sticky = sticky_rows as u16;
    Rect {
        x: 0,
        y: add16(add16(laid.y, 1), sticky),
        width: laid.width,
        height: sub16(sub16(laid.height, 2), sticky),
    }
}

/// How to draw a frame by scrolling: the bytes that scroll the terminal, and
/// the cells to draw after them.
pub struct ScrollPlan {
    pub bytes: Vec<u8>,
    pub updates: Vec<(u16, u16)>,
}

/// The scroll a hint asks for on the screen of `current`.
pub open spec fn hinted_scroll(current: &Grid, hint: ScrollHint, sticky_rows: usize) -> BodyScroll {
    BodyScroll { area: body_area_spec(current.area, sticky_rows), amount: hint.amount, direction: hint.direction }
}

/// How to draw `current` over `previous` by scrolling the terminal: when a
/// hint is given and the scrolling area is higher than the amount (and lies
/// on the screen), the scroll and the cells it leaves to draw; else none,
/// and the whole difference is drawn.
pub fn scroll_plan(previous: &Grid, current: &Grid, scroll_hint: Option<ScrollHint>, sticky_rows: usize) -> (plan:
    Option<ScrollPlan>)
    requires
        previous.wf(),
        current.wf(),
        previous.area == current.area,
    ensures
        match scroll_hint {
            None => plan is None,
            Some(hint) => {
                let scroll = hinted_scroll(current, hint, sticky_rows);
                if scroll.area.height > scroll.amount && scroll.fits(current) {
                    plan matches Some(p) && p.bytes@ == emit_spec(scroll) && p.updates@ == static_updates(
                        previous,
                        current,
                        scroll,
                        current.area.height as int,
                    ) + entering_updates(
                        current,
                        scroll,
                        entering_spec(scroll).0,
                        entering_spec(scroll).1 - entering_spec(scroll).0,
                    )
                } else {
                    plan is None
                }
            },
        },
{
    let hint = match scroll_hint {
        Some(h) => h,
        None => return None,
    };
    let scroll = BodyScroll {
        area: scrollable_body_area(current.area, sticky_rows),
        amount: hint.amount,
        direction: hint.direction,
    };
    if scroll.area.height <= scroll.amount {
        return None;
    }
    let (lo, hi) = scroll.entering_rows();
    let scroll_right = scroll.area.x as u32 + scroll.area.width as u32;
    let screen_right = current.area.x as u32 + current.area.width as u32;
    let fits = current.area.y == 0 && current.area.x <= scroll.area.x && scroll_right <= screen_right
        && scroll_right <= 65535 && lo <= hi && hi <= current.area.height;
    if !fits {
        return None;
    }
    let updates = scroll.updates(previous, current);
    let mut bytes: Vec<u8> = Vec::new();
    scroll.emit(&mut bytes);
    assert(bytes@ =~= emit_spec(scroll));
    Some(ScrollPlan { bytes, updates })
}

} // verus!
