//! The rows of a diff: lines of both files, numbered, with what changed.
use vstd::prelude::*;

use crate::decimal::decimal_chars;

verus! {

/// Chars `start..end` of a changed line: the part that differs from the line
/// it replaces.
#[derive(Debug, Clone, Copy, PartialEq, Eq, Structural)]
pub struct DiffRange {
    pub start: usize,
    pub end: usize,
}

impl DiffRange {
    /// A range runs forwards.
    pub open spec fn wf(self) -> bool {
        self.start <= self.end
    }
}

/// How strongly a changed line is marked.
#[derive(Debug, Clone, Copy, PartialEq, Eq, Structural)]
pub enum DiffIntensity {
    Low,
    Medium,
    High,
}

/// What changed between a removed line and the line that replaced it.
#[derive(Debug, Clone, Copy, PartialEq, Eq, Structural)]
pub struct DiffChange {
    pub left_range: Option<DiffRange>,
    pub right_range: Option<DiffRange>,
    pub intensity: DiffIntensity,
}

impl DiffChange {
    /// Both ranges run forwards.
    pub open spec fn wf(self) -> bool {
        &&& (self.left_range matches Some(r) ==> r.wf())
        &&& (self.right_range matches Some(r) ==> r.wf())
    }
}

/// A row of the unified layout: a note, a line both files share, a line only
/// the old file has, or a line only the new file has.
#[derive(Debug, Clone)]
pub enum UnifiedDiffRow {
    Message { text: String },
    Context { left: usize, right: usize, content: String },
    Delete { left: usize, content: String, change: DiffChange },
    Insert { right: usize, content: String, change: DiffChange },
}

/// A row of the side-by-side layout, by the unified rows it shows: a note, a
/// shared line, or a removed line beside the line that replaced it.
#[derive(Debug, Clone, Copy, PartialEq, Eq, Structural)]
pub enum SideDiffRow {
    Message { unified: usize },
    Context { unified: usize },
    Change { left: Option<usize>, right: Option<usize> },
}

/// A line of one file with its number.
#[derive(Debug, Clone)]
pub struct NumberedDiffLine {
    pub number: usize,
    pub content: String,
}

/// The old file's line number on a unified row, if it has one.
pub open spec fn left_number(row: UnifiedDiffRow) -> Option<usize> {
    match row {
        UnifiedDiffRow::Context { left, .. } => Some(left),
        UnifiedDiffRow::Delete { left, .. } => Some(left),
        _ => None,
    }
}

/// The new file's line number on a unified row, if it has one.
pub open spec fn right_number(row: UnifiedDiffRow) -> Option<usize> {
    match row {
        UnifiedDiffRow::Context { right, .. } => Some(right),
        UnifiedDiffRow::Insert { right, .. } => Some(right),
        _ => None,
    }
}

/// Whether a unified row shows a change.
pub open spec fn is_unified_change(row: UnifiedDiffRow) -> bool {
    row is Delete || row is Insert
}

/// Whether a side-by-side row shows a change.
pub open spec fn is_side_change(row: SideDiffRow) -> bool {
    row is Change
}

/// The line number of the old (`left`) or new file on a unified row.
pub open spec fn side_number(row: UnifiedDiffRow, left: bool) -> Option<usize> {
    if left {
        left_number(row)
    } else {
        right_number(row)
    }
}

/// The digits the widest line number of one file takes among the first `n`
/// rows, and at least one.
pub open spec fn widest(rows: Seq<UnifiedDiffRow>, n: int, left: bool) -> nat
    decreases n,
{
    if n <= 0 {
        1
    } else {
        let rest = widest(rows, n - 1, left);
        match side_number(rows[n - 1], left) {
            Some(number) => if decimal_chars(number as nat).len() > rest {
                decimal_chars(number as nat).len()
            } else {
                rest
            },
            None => rest,
        }
    }
}

/// The indices, in order, of the unified rows among the first `n` that show a
/// change.
pub open spec fn changed_unified(rows: Seq<UnifiedDiffRow>, n: int) -> Seq<usize>
    decreases n,
{
    if n <= 0 {
        Seq::empty()
    } else if is_unified_change(rows[n - 1]) {
        changed_unified(rows, n - 1).push((n - 1) as usize)
    } else {
        changed_unified(rows, n - 1)
    }
}

/// The indices, in order, of the side-by-side rows among the first `n` that
/// show a change.
pub open spec fn changed_side(rows: Seq<SideDiffRow>, n: int) -> Seq<usize>
    decreases n,
{
    if n <= 0 {
        Seq::empty()
    } else if is_side_change(rows[n - 1]) {
        changed_side(rows, n - 1).push((n - 1) as usize)
    } else {
        changed_side(rows, n - 1)
    }
}

/// How many digits `n` takes.
pub fn number_digits(n: usize) -> (digits: usize)
    ensures
        digits == decimal_chars(n as nat).len(),
        1 <= digits <= 20,
    decreases n,
{
    if n < 10 {
        1
    } else {
        let rest = number_digits(n / 10);
        proof {
            assert(decimal_chars(n as nat) == decimal_chars((n / 10) as nat).push(
                ((48 + n % 10) as u8) as char,
            ));
            assert(n / 10 <= usize::MAX / 10);
            if rest >= 20 {
                lemma_digits_bound((n / 10) as nat);
            }
        }
        rest + 1
    }
}

/// A number below `10^k` takes at most `k` digits; every `usize` fewer
/// than 20.
pub proof fn lemma_digits_bound(n: nat)
    requires
        n <= usize::MAX / 10,
    ensures
        decimal_chars(n).len() <= 19,
{
    assert(pow10(19) == 10000000000000000000nat) by {
        reveal_with_fuel(pow10, 20);
    }
    assert(usize::MAX / 10 < 10000000000000000000nat);
    lemma_digits_below(n, 19);
}

proof fn lemma_digits_below(n: nat, k: nat)
    requires
        n < pow10(k),
        k >= 1,
    ensures
        decimal_chars(n).len() <= k,
    decreases k,
{
    if n >= 10 {
        assert(pow10(k) == 10 * pow10((k - 1) as nat));
        if k == 1 {
            assert(pow10(0) == 1);
        }
        assert(n / 10 < pow10((k - 1) as nat));
        lemma_digits_below(n / 10, (k - 1) as nat);
    }
}

/// `10^k`.
pub open spec fn pow10(k: nat) -> nat
    decreases k,
{
    if k == 0 {
        1
    } else {
        10 * pow10((k - 1) as nat)
    }
}

/// Every line number of the first `n` rows fits the digits `widest` gives
/// its file.
pub proof fn law_line_numbers_fit_their_columns(rows: Seq<UnifiedDiffRow>, n: int, i: int, left: bool)
    requires
        0 <= i < n <= rows.len(),
    ensures
        side_number(rows[i], left) matches Some(number) ==> decimal_chars(number as nat).len() <= widest(
            rows,
            n,
            left,
        ),
        widest(rows, n, left) >= 1,
    decreases n,
{
    if i < n - 1 {
        law_line_numbers_fit_their_columns(rows, n - 1, i, left);
    } else if n > 1 {
        lemma_widest_positive(rows, n - 1, left);
    }
}

proof fn lemma_widest_positive(rows: Seq<UnifiedDiffRow>, n: int, left: bool)
    ensures
        widest(rows, n, left) >= 1,
    decreases n,
{
    if n > 0 {
        lemma_widest_positive(rows, n - 1, left);
    }
}

} // verus!
