//! Moving through the rows of a diff.
use vstd::prelude::*;

pub mod cells;
pub mod model;
pub mod navigation;
pub mod paging;
pub mod render;

use self::model::{
    changed_side, changed_unified, number_digits, widest, SideDiffRow, UnifiedDiffRow,
};

verus! {

/// Terminals at least this wide open a diff side by side.
pub const SIDE_BY_SIDE_MIN_WIDTH: usize = 110;

/// How a diff is laid out: one column of rows, or old and new side by side.
#[derive(Debug, Clone, Copy, PartialEq, Eq, Structural)]
pub enum DiffLayout {
    Unified,
    SideBySide,
}

impl DiffLayout {
    /// The other layout.
    pub fn toggle(self) -> (other: Self)
        ensures
            other != self,
    {
        match self {
            DiffLayout::Unified => DiffLayout::SideBySide,
            DiffLayout::SideBySide => DiffLayout::Unified,
        }
    }
}

/// The rows of a diff in one layout: how many there are, and which of them
/// show a change, in increasing order.
#[derive(Debug, Clone)]
pub struct DiffRows {
    pub row_count: usize,
    pub changed_rows: Vec<usize>,
}

/// A diff as the viewer shows it: its rows in both layouts, which of them
/// show a change, and how many digits each file's line numbers take.
#[derive(Debug, Clone)]
pub struct DiffModel {
    pub unified: DiffRows,
    pub side_by_side: DiffRows,
    pub unified_rows: Vec<UnifiedDiffRow>,
    pub side_rows: Vec<SideDiffRow>,
    pub left_digits: usize,
    pub right_digits: usize,
}

impl DiffModel {
    /// The model of a diff with these rows: the counts and changed rows of
    /// both layouts, and each file's widest line number, drawn from them.
    pub fn from_rows(unified_rows: Vec<UnifiedDiffRow>, side_rows: Vec<SideDiffRow>) -> (model: Self)
        ensures
            model.unified_rows@ == unified_rows@,
            model.side_rows@ == side_rows@,
            model.unified.row_count == unified_rows@.len(),
            model.side_by_side.row_count == side_rows@.len(),
            model.unified.changed_rows@ == changed_unified(unified_rows@, unified_rows@.len() as int),
            model.side_by_side.changed_rows@ == changed_side(side_rows@, side_rows@.len() as int),
            model.left_digits == widest(unified_rows@, unified_rows@.len() as int, true),
            model.right_digits == widest(unified_rows@, unified_rows@.len() as int, false),
            model.left_digits <= 20,
            model.right_digits <= 20,
            (forall|i: int| 0 <= i < unified_rows@.len() ==> self::render::unified_row_ok(#[trigger] unified_rows@[i]))
                ==> model.drawable(),
    {
        let mut unified_changes: Vec<usize> = Vec::new();
        let mut left_digits: usize = 1;
        let mut right_digits: usize = 1;
        let mut i: usize = 0;
        while i < unified_rows.len()
            invariant
                i <= unified_rows@.len(),
                unified_changes@ == changed_unified(unified_rows@, i as int),
                left_digits == widest(unified_rows@, i as int, true),
                right_digits == widest(unified_rows@, i as int, false),
                left_digits <= 20,
                right_digits <= 20,
            decreases unified_rows@.len() - i,
        {
            let (left, right, changed) = match &unified_rows[i] {
                UnifiedDiffRow::Message { .. } => (None, None, false),
                UnifiedDiffRow::Context { left, right, .. } => (Some(*left), Some(*right), false),
                UnifiedDiffRow::Delete { left, .. } => (Some(*left), None, true),
                UnifiedDiffRow::Insert { right, .. } => (None, Some(*right), true),
            };
            if changed {
                unified_changes.push(i);
            }
            if let Some(n) = left {
                let d = number_digits(n);
                if d > left_digits {
                    left_digits = d;
                }
            }
            if let Some(n) = right {
                let d = number_digits(n);
                if d > right_digits {
                    right_digits = d;
                }
            }
            i += 1;
        }
        let mut side_changes: Vec<usize> = Vec::new();
        let mut j: usize = 0;
        while j < side_rows.len()
            invariant
                j <= side_rows@.len(),
                side_changes@ == changed_side(side_rows@, j as int),
            decreases side_rows@.len() - j,
        {
            if let SideDiffRow::Change { .. } = side_rows[j] {
                side_changes.push(j);
            }
            j += 1;
        }
        let unified = DiffRows { row_count: unified_rows.len(), changed_rows: unified_changes };
        let side_by_side = DiffRows { row_count: side_rows.len(), changed_rows: side_changes };
        DiffModel { unified, side_by_side, unified_rows, side_rows, left_digits, right_digits }
    }

    /// The rows of the unified layout.
    pub fn unified_rows(&self) -> (rows: &[UnifiedDiffRow])
        ensures
            rows@ == self.unified_rows@,
    {
        self.unified_rows.as_slice()
    }

    /// The rows of the side-by-side layout.
    pub fn side_rows(&self) -> (rows: &[SideDiffRow])
        ensures
            rows@ == self.side_rows@,
    {
        self.side_rows.as_slice()
    }

    /// How many digits the old file's line numbers take.
    pub fn left_digits(&self) -> (digits: usize)
        ensures
            digits == self.left_digits,
    {
        self.left_digits
    }

    /// How many digits the new file's line numbers take.
    pub fn right_digits(&self) -> (digits: usize)
        ensures
            digits == self.right_digits,
    {
        self.right_digits
    }

    /// The rows of `layout`.
    pub open spec fn rows_of(&self, layout: DiffLayout) -> DiffRows {
        match layout {
            DiffLayout::Unified => self.unified,
            DiffLayout::SideBySide => self.side_by_side,
        }
    }

    /// How many rows `layout` shows.
    pub fn row_count(&self, layout: DiffLayout) -> (n: usize)
        ensures
            n == self.rows_of(layout).row_count,
    {
        match layout {
            DiffLayout::Unified => self.unified.row_count,
            DiffLayout::SideBySide => self.side_by_side.row_count,
        }
    }

    /// The rows of `layout` that show a change.
    pub fn changed_rows(&self, layout: DiffLayout) -> (rows: &[usize])
        ensures
            rows@ == self.rows_of(layout).changed_rows@,
    {
        match layout {
            DiffLayout::Unified => self.unified.changed_rows.as_slice(),
            DiffLayout::SideBySide => self.side_by_side.changed_rows.as_slice(),
        }
    }
}

/// The layout a diff opens with in a terminal `width` columns wide.
pub fn initial_layout(width: u16) -> (layout: DiffLayout)
    ensures
        layout == if width >= SIDE_BY_SIDE_MIN_WIDTH {
            DiffLayout::SideBySide
        } else {
            DiffLayout::Unified
        },
{
    if (width as usize) >= SIDE_BY_SIDE_MIN_WIDTH {
        DiffLayout::SideBySide
    } else {
        DiffLayout::Unified
    }
}

/// Rows left for the diff in a terminal `terminal_height` rows high: all but
/// three, and at least one.
pub fn diff_visible_height(terminal_height: u16) -> (rows: usize)
    ensures
        rows == if terminal_height > 4 {
            terminal_height - 3
        } else {
            1
        },
{
    let rows = if terminal_height >= 3 {
        (terminal_height - 3) as usize
    } else {
        0
    };
    if rows < 1 {
        1
    } else {
        rows
    }
}

/// How far through the rows the bottom of the view is, in percent; 100 with
/// no rows.
pub open spec fn progress_spec(bottom: int, row_count: int) -> int {
    let scaled = if bottom * 100 > usize::MAX {
        usize::MAX as int
    } else {
        bottom * 100
    };
    if row_count == 0 {
        100
    } else {
        scaled / row_count
    }
}

/// The bottom row as a percentage of the row count.
pub fn progress_percent(bottom: usize, row_count: usize) -> (percent: usize)
    ensures
        percent == progress_spec(bottom as int, row_count as int),
{
    let scaled = if bottom > usize::MAX / 100 {
        usize::MAX
    } else {
        bottom * 100
    };
    if row_count == 0 {
        100
    } else {
        scaled / row_count
    }
}

/// Whether row `i` of `changes` starts a block: it is the first change, or
/// it does not follow right after the change before it.
pub open spec fn starts_block(changes: Seq<usize>, i: int) -> bool {
    i == 0 || changes[i] > (if changes[i - 1] == usize::MAX {
        usize::MAX as int
    } else {
        changes[i - 1] + 1
    })
}

/// The first row of each run of adjacent changed rows, in order.
pub open spec fn block_starts(changes: Seq<usize>) -> Seq<usize>
    decreases changes.len(),
{
    if changes.len() == 0 {
        Seq::empty()
    } else {
        let before = block_starts(changes.drop_last());
        if starts_block(changes, changes.len() - 1) {
            before.push(changes.last())
        } else {
            before
        }
    }
}

/// The rows at which a jump between changes stops: the start of each block
/// of adjacent changed rows.
pub fn change_block_starts(changes: &[usize]) -> (starts: Vec<usize>)
    ensures
        starts@ == block_starts(changes@),
{
    let mut starts: Vec<usize> = Vec::new();
    let mut i: usize = 0;
    while i < changes.len()
        invariant
            i <= changes@.len(),
            starts@ == block_starts(changes@.take(i as int)),
        decreases changes@.len() - i,
    {
        let start = if i == 0 {
            true
        } else {
            let previous = changes[i - 1];
            let next_after = if previous == usize::MAX {
                usize::MAX
            } else {
                previous + 1
            };
            changes[i] > next_after
        };
        proof {
            let taken = changes@.take(i + 1);
            assert(taken.drop_last() =~= changes@.take(i as int));
            assert(starts_block(taken, i as int) == starts_block(changes@, i as int));
        }
        if start {
            starts.push(changes[i]);
        }
        i += 1;
    }
    assert(changes@.take(changes@.len() as int) =~= changes@);
    starts
}

/// Rows of context kept above a change that a jump brings into view.
pub open spec fn context_rows_spec(page: int) -> int {
    if page < 4 {
        0
    } else {
        let third = page / 3;
        let clamped = if third < 2 {
            2
        } else if third > 8 {
            8
        } else {
            third
        };
        if clamped < page - 1 {
            clamped
        } else {
            page - 1
        }
    }
}

/// How many rows of context to keep above a change.
pub fn diff_context_rows(page: usize) -> (rows: usize)
    ensures
        rows == context_rows_spec(page as int),
{
    if page < 4 {
        return 0;
    }
    let third = page / 3;
    let clamped = if third < 2 {
        2
    } else if third > 8 {
        8
    } else {
        third
    };
    if clamped < page - 1 {
        clamped
    } else {
        page - 1
    }
}

/// The first of `targets` past `anchor`.
pub open spec fn first_after(targets: Seq<usize>, anchor: int) -> Option<usize>
    decreases targets.len(),
{
    if targets.len() == 0 {
        None
    } else if targets[0] > anchor {
        Some(targets[0])
    } else {
        first_after(targets.drop_first(), anchor)
    }
}

/// The last of `targets` before `anchor`.
pub open spec fn last_before(targets: Seq<usize>, anchor: int) -> Option<usize>
    decreases targets.len(),
{
    if targets.len() == 0 {
        None
    } else if targets.last() < anchor {
        Some(targets.last())
    } else {
        last_before(targets.drop_last(), anchor)
    }
}

/// Which way a jump between changes goes.
#[derive(Debug, Clone, Copy, PartialEq, Eq, Structural)]
pub enum DiffJump {
    Next,
    Previous,
}

/// The block start a jump lands on: the next one past `anchor`, else the
/// first; or the previous one before it, else the last.
pub open spec fn jump_target_spec(targets: Seq<usize>, anchor: int, direction: DiffJump) -> usize {
    match direction {
        DiffJump::Next => match first_after(targets, anchor) {
            Some(t) => t,
            None => targets[0],
        },
        DiffJump::Previous => match last_before(targets, anchor) {
            Some(t) => t,
            None => if targets.len() > 0 {
                targets.last()
            } else {
                0
            },
        },
    }
}

/// The block start a jump from `anchor` lands on.
pub fn jump_target(targets: &[usize], anchor: usize, direction: DiffJump) -> (target: usize)
    requires
        targets@.len() > 0,
    ensures
        target == jump_target_spec(targets@, anchor as int, direction),
{
    let n = targets.len();
    match direction {
        DiffJump::Next => {
            let mut i: usize = 0;
            assert(targets@.skip(0) =~= targets@);
            while i < n
                invariant
                    i <= n,
                    n == targets@.len(),
                    direction == DiffJump::Next,
                    first_after(targets@, anchor as int) == first_after(
                        targets@.skip(i as int),
                        anchor as int,
                    ),
                decreases n - i,
            {
                let ghost rest = targets@.skip(i as int);
                assert(rest.len() > 0);
                assert(rest[0] == targets@[i as int]);
                if targets[i] > anchor {
                    assert(first_after(rest, anchor as int) == Some(rest[0]));
                    return targets[i];
                }
                assert(rest.drop_first() =~= targets@.skip(i + 1));
                i += 1;
            }
            assert(targets@.skip(n as int).len() == 0);
            targets[0]
        },
        DiffJump::Previous => {
            let mut i: usize = n;
            assert(targets@.take(n as int) =~= targets@);
            while i > 0
                invariant
                    i <= n,
                    n == targets@.len(),
                    direction == DiffJump::Previous,
                    last_before(targets@, anchor as int) == last_before(
                        targets@.take(i as int),
                        anchor as int,
                    ),
                decreases i,
            {
                let ghost head = targets@.take(i as int);
                assert(head.len() > 0);
                assert(head.last() == targets@[i - 1]);
                if targets[i - 1] < anchor {
                    assert(last_before(head, anchor as int) == Some(head.last()));
                    return targets[i - 1];
                }
                assert(head.drop_last() =~= targets@.take(i - 1));
                i -= 1;
            }
            assert(targets@.take(0).len() == 0);
            assert(targets@.take(n as int) =~= targets@);
            targets[n - 1]
        },
    }
}

} // verus!
