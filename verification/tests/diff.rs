use fmtview::viewer::diff::cells::{Backdrop, DiffSide, DiffSpan};
use fmtview::viewer::diff::model::{
    DiffChange, DiffIntensity, DiffRange, SideDiffRow, UnifiedDiffRow,
};
use fmtview::viewer::diff::navigation;
use fmtview::viewer::diff::paging;
use fmtview::viewer::diff::render::{render_rows, render_rows_with_status, row_visual_counts};
use fmtview::viewer::diff::{
    change_block_starts, diff_context_rows, diff_visible_height, initial_layout,
    progress_percent, DiffJump, DiffLayout, DiffModel,
};

fn context(left: usize, right: usize, content: &str) -> UnifiedDiffRow {
    UnifiedDiffRow::Context { left, right, content: content.to_owned() }
}

fn delete(left: usize, content: &str, change: DiffChange) -> UnifiedDiffRow {
    UnifiedDiffRow::Delete { left, content: content.to_owned(), change }
}

fn insert(right: usize, content: &str, change: DiffChange) -> UnifiedDiffRow {
    UnifiedDiffRow::Insert { right, content: content.to_owned(), change }
}

fn whole_line_change() -> DiffChange {
    DiffChange { left_range: None, right_range: None, intensity: DiffIntensity::High }
}

fn pair(left: usize, right: usize) -> SideDiffRow {
    SideDiffRow::Change { left: Some(left), right: Some(right) }
}

// The patch:
// @@ -1,4 +1,4 @@
//  a
// -old
// +new
//  b
//  c
// @@ -20,3 +20,3 @@
//  x
// -old2
// +new2
//  y
fn two_hunk_model() -> DiffModel {
    DiffModel::from_rows(
        vec![
            context(1, 1, "a"),
            delete(2, "old", whole_line_change()),
            insert(2, "new", whole_line_change()),
            context(3, 3, "b"),
            context(4, 4, "c"),
            context(20, 20, "x"),
            delete(21, "old2", whole_line_change()),
            insert(21, "new2", whole_line_change()),
            context(22, 22, "y"),
        ],
        vec![
            SideDiffRow::Context { unified: 0 },
            pair(1, 2),
            SideDiffRow::Context { unified: 3 },
            SideDiffRow::Context { unified: 4 },
            SideDiffRow::Context { unified: 5 },
            pair(6, 7),
            SideDiffRow::Context { unified: 8 },
        ],
    )
}

// The patch:
// @@ -1,4 +1,4 @@
//  {
// -  "a": 1,
// +  "a": 2,
//    "b": true
//  }
// where only the value changed, at char 7 of the line.
fn sample_model() -> DiffModel {
    let change = DiffChange {
        left_range: Some(DiffRange { start: 7, end: 8 }),
        right_range: Some(DiffRange { start: 7, end: 8 }),
        intensity: DiffIntensity::Low,
    };
    DiffModel::from_rows(
        vec![
            context(1, 1, "{"),
            delete(2, "  \"a\": 1,", change),
            insert(2, "  \"a\": 2,", change),
            context(3, 3, "  \"b\": true"),
            context(4, 4, "}"),
        ],
        vec![
            SideDiffRow::Context { unified: 0 },
            pair(1, 2),
            SideDiffRow::Context { unified: 3 },
            SideDiffRow::Context { unified: 4 },
        ],
    )
}

// The patch:
// @@ -1,3 +1,5 @@
//  a
// -old
// +new1
// +new2
// +new3
//  z
fn longer_right_side_model() -> DiffModel {
    DiffModel::from_rows(
        vec![
            context(1, 1, "a"),
            delete(2, "old", whole_line_change()),
            insert(2, "new1", whole_line_change()),
            insert(3, "new2", whole_line_change()),
            insert(4, "new3", whole_line_change()),
            context(3, 5, "z"),
        ],
        vec![
            SideDiffRow::Context { unified: 0 },
            pair(1, 2),
            SideDiffRow::Change { left: None, right: Some(3) },
            SideDiffRow::Change { left: None, right: Some(4) },
            SideDiffRow::Context { unified: 5 },
        ],
    )
}

// A patch that replaces line `number` of both files with another.
fn one_line_model(number: usize, old: &str, new: &str) -> DiffModel {
    DiffModel::from_rows(
        vec![delete(number, old, whole_line_change()), insert(number, new, whole_line_change())],
        vec![pair(0, 1)],
    )
}

fn line_text(line: &[DiffSpan]) -> String {
    line.iter().map(|span| span.text.as_str()).collect()
}

fn line_width(line: &[DiffSpan]) -> usize {
    line.iter().map(|span| span.text.chars().count()).sum()
}

#[test]
fn diff_view_change_jump_skips_adjacent_rows_in_same_block() {
    let model = two_hunk_model();
    let targets = change_block_starts(model.changed_rows(DiffLayout::Unified));
    let mut state = paging::DiffViewState::new(DiffLayout::Unified);

    assert_eq!(targets, vec![1, 6]);
    paging::jump_change(&model, &mut state, DiffJump::Next, 9, 4);
    assert_eq!(state.change_cursor, Some(1));

    assert!(paging::jump_change(&model, &mut state, DiffJump::Next, 9, 4));
    assert_eq!(state.change_cursor, Some(6));
    assert_eq!(state.top, 3);
}

#[test]
fn diff_view_diff_scroll_clamps_to_last_full_page() {
    let model = sample_model();
    let mut state = paging::DiffViewState::new(DiffLayout::Unified);

    assert!(paging::scroll_by(
        &mut state,
        model.row_count(DiffLayout::Unified),
        3,
        99,
    ));

    assert_eq!(state.top, model.row_count(DiffLayout::Unified) - 3);
}

#[test]
fn tests_change_jump_skips_adjacent_rows_in_same_block() {
    let model = two_hunk_model();
    let targets = change_block_starts(model.changed_rows(DiffLayout::Unified));
    let mut state = navigation::DiffViewState::new(DiffLayout::Unified);

    assert_eq!(targets, vec![1, 6]);
    navigation::jump_change(&model, &mut state, DiffJump::Next, 9);
    assert_eq!(state.change_cursor, Some(1));

    assert!(navigation::jump_change(&model, &mut state, DiffJump::Next, 9));
    assert_eq!(state.change_cursor, Some(6));
    assert_eq!(state.top, 3);
}

#[test]
fn tests_diff_scroll_clamps_to_last_full_page() {
    let model = sample_model();
    let mut state = navigation::DiffViewState::new(DiffLayout::Unified);
    // At 80 columns every row of the sample takes one screen row.
    let counts = vec![1; model.row_count(DiffLayout::Unified)];

    assert!(navigation::scroll_by(&mut state, &counts, 3, 99));

    assert_eq!(state.top, model.row_count(DiffLayout::Unified) - 3);
}

#[test]
fn side_by_side_scroll_stops_at_the_last_page() {
    let mut state = navigation::DiffViewState::new(DiffLayout::SideBySide);
    let counts = vec![1; 5];
    assert!(navigation::scroll_by(&mut state, &counts, 3, 99));
    assert_eq!(state.top, 2);
}

#[test]
fn wrapped_rows_scroll_one_screen_row_at_a_time() {
    let mut state = navigation::DiffViewState::new(DiffLayout::Unified);
    let counts = vec![3];
    assert!(!navigation::scroll_by(&mut state, &counts, 3, 1));
    assert_eq!((state.top, state.top_row_offset), (0, 0));
    let counts = vec![3, 1, 1, 1];
    assert!(navigation::scroll_by(&mut state, &counts, 3, 1));
    assert_eq!((state.top, state.top_row_offset), (0, 1));
    assert!(navigation::scroll_by(&mut state, &counts, 3, -1));
    assert_eq!((state.top, state.top_row_offset), (0, 0));
    assert!(!navigation::scroll_by(&mut state, &counts, 3, -1));
}

#[test]
fn jumping_back_wraps_to_the_last_block() {
    let model = two_hunk_model();
    let mut state = paging::DiffViewState::new(DiffLayout::Unified);
    paging::jump_change(&model, &mut state, DiffJump::Previous, 9, 4);
    assert_eq!(state.change_cursor, Some(6));
    paging::jump_change(&model, &mut state, DiffJump::Previous, 9, 4);
    assert_eq!(state.change_cursor, Some(1));
}

#[test]
fn a_diff_without_changes_says_so() {
    let model = DiffModel::from_rows(
        vec![context(1, 1, "a"), context(2, 2, "b"), context(3, 3, "c")],
        vec![
            SideDiffRow::Context { unified: 0 },
            SideDiffRow::Context { unified: 1 },
            SideDiffRow::Context { unified: 2 },
        ],
    );
    let mut state = paging::DiffViewState::new(DiffLayout::Unified);
    assert!(paging::jump_change(&model, &mut state, DiffJump::Next, 9, 4));
    assert_eq!(state.message.as_deref(), Some("no differences"));
}

#[test]
fn context_rows_follow_the_page() {
    assert_eq!(diff_context_rows(3), 0);
    assert_eq!(diff_context_rows(4), 2);
    assert_eq!(diff_context_rows(9), 3);
    assert_eq!(diff_context_rows(60), 8);
}

#[test]
fn layout_and_height_follow_the_terminal() {
    assert_eq!(initial_layout(110), DiffLayout::SideBySide);
    assert_eq!(initial_layout(109), DiffLayout::Unified);
    assert_eq!(diff_visible_height(24), 21);
    assert_eq!(diff_visible_height(2), 1);
    assert_eq!(progress_percent(5, 10), 50);
    assert_eq!(progress_percent(5, 0), 100);
}

#[test]
fn block_starts_skip_adjacent_changes() {
    assert_eq!(change_block_starts(&[0, 1, 2, 5, 7, 8]), vec![0, 5, 7]);
    assert_eq!(change_block_starts(&[]), Vec::<usize>::new());
}

fn renders_unified_rows_with_numbers(model: &DiffModel) {
    let lines = render_rows(model, DiffLayout::Unified, 0, 3, 80, 0);
    let text: Vec<String> = lines.iter().map(|line| line_text(line).trim_end().to_owned()).collect();
    assert_eq!(text[0], "1 1   {");
    assert_eq!(text[1], "2   -   \"a\": 1,");
    assert_eq!(text[2], "  2 +   \"a\": 2,");
}

#[test]
fn diff_view_renders_unified_diff_rows_with_line_numbers() {
    renders_unified_rows_with_numbers(&sample_model());
}

#[test]
fn tests_renders_unified_diff_rows_with_line_numbers() {
    renders_unified_rows_with_numbers(&sample_model());
}

fn renders_change_pairs(model: &DiffModel) {
    let lines = render_rows(model, DiffLayout::SideBySide, 1, 1, 80, 0);
    let text = line_text(&lines[0]);
    assert!(text.contains("-   \"a\": 1,"));
    assert!(text.contains("+   \"a\": 2,"));
}

#[test]
fn diff_view_renders_side_by_side_change_pairs() {
    renders_change_pairs(&sample_model());
}

#[test]
fn tests_renders_side_by_side_change_pairs() {
    renders_change_pairs(&sample_model());
}

fn hides_control_rows(model: &DiffModel) {
    let lines = render_rows(model, DiffLayout::Unified, 0, 10, 80, 0);
    let text: String = lines.iter().map(|line| line_text(line)).collect();
    assert!(!text.contains("@@"));
    assert!(!text.contains("---"));
    assert!(!text.contains("+++"));
}

#[test]
fn diff_view_interactive_diff_hides_patch_control_rows() {
    hides_control_rows(&sample_model());
}

#[test]
fn tests_interactive_diff_hides_patch_control_rows() {
    hides_control_rows(&sample_model());
}

fn uses_line_and_inline_backgrounds(model: &DiffModel) {
    let lines = render_rows(model, DiffLayout::Unified, 1, 1, 80, 0);
    let removed = &lines[0];
    assert!(removed.iter().any(|span| matches!(
        span.backdrop,
        Backdrop::Line(style) if style.side == DiffSide::Removed && style.change.intensity == DiffIntensity::Low
    )));
    assert!(removed.iter().any(|span| span.text.contains('1')
        && matches!(
            span.backdrop,
            Backdrop::Inline(style) if style.side == DiffSide::Removed && style.change.intensity == DiffIntensity::Low
        )));
}

#[test]
fn diff_view_changed_rows_use_line_and_inline_backgrounds() {
    uses_line_and_inline_backgrounds(&sample_model());
}

#[test]
fn tests_changed_rows_use_line_and_inline_backgrounds() {
    uses_line_and_inline_backgrounds(&sample_model());
}

#[test]
fn diff_view_side_by_side_scroll_uses_longer_display_side() {
    let model = longer_right_side_model();
    let mut state = paging::DiffViewState::new(DiffLayout::SideBySide);
    let row_count = model.row_count(DiffLayout::SideBySide);

    assert!(paging::scroll_by(&mut state, row_count, 3, 99));
    assert_eq!(state.top, 2);

    let text: String = render_rows(&model, DiffLayout::SideBySide, state.top, 3, 80, 0)
        .iter()
        .map(|line| line_text(line))
        .collect();
    assert!(text.contains("new3"));
}

#[test]
fn tests_side_by_side_scroll_uses_longer_display_side() {
    let model = longer_right_side_model();
    let mut state = navigation::DiffViewState::new(DiffLayout::SideBySide);
    let counts = row_visual_counts(&model, DiffLayout::SideBySide, 80, state.wrap);

    assert!(navigation::scroll_by(&mut state, &counts, 3, 99));
    assert_eq!(state.top, 2);

    let text: String = render_rows(&model, DiffLayout::SideBySide, state.top, 3, 80, 0)
        .iter()
        .map(|line| line_text(line))
        .collect();
    assert!(text.contains("new3"));
}

#[test]
fn unified_diff_wraps_and_scrolls_inside_long_rows() {
    let model = one_line_model(1, "abcdefghijklmnopqrstuvwxyz", "abcxyzdefghijklmnopqrstuvwxyz");
    let mut state = navigation::DiffViewState::new(DiffLayout::Unified);
    state.top = 0;

    let lines: Vec<String> = render_rows_with_status(&model, DiffLayout::Unified, 0, 0, 3, 18, 0, true)
        .rows
        .iter()
        .map(|line| line_text(line))
        .collect();

    assert_eq!(lines.len(), 3);
    assert!(lines[0].contains("- abcdefghij"));
    assert!(lines[1].contains("mnopqrst"));
    assert!(!lines[1].contains("1  "));

    let counts = row_visual_counts(&model, DiffLayout::Unified, 18, state.wrap);
    assert!(navigation::scroll_by(&mut state, &counts, 3, 1));
    assert_eq!(state.top, 0);
    assert_eq!(state.top_row_offset, 1);
}

#[test]
fn side_by_side_wrap_uses_longer_cell() {
    let model = one_line_model(1, "short", "abcdefghijklmnopqrstuvwxyz0123456789");

    let lines = render_rows_with_status(&model, DiffLayout::SideBySide, 0, 0, 4, 32, 0, true).rows;
    let text: Vec<String> = lines.iter().map(|line| line_text(line)).collect();

    assert!(text.len() > 1);
    assert!(text.iter().any(|line| line.contains("short")));
    assert!(text.iter().any(|line| line.contains("lmnopqrst")));
    assert!(text.iter().any(|line| line.contains("uvwxyz")));
}

#[test]
fn side_by_side_wrapped_rows_fit_content_width() {
    let model = one_line_model(
        1000,
        "abcdefghijklmnopqrstuvwxyzabcdefghijklmnopqrstuvwxyz",
        "01234567890123456789012345678901234567890123456789",
    );

    for width in [24, 32, 80, 118] {
        let rows = render_rows_with_status(&model, DiffLayout::SideBySide, 0, 0, 16, width, 0, true).rows;

        assert!(!rows.is_empty());
        assert!(
            rows.iter().all(|line| line_width(line) <= width),
            "wrapped side-by-side rows exceeded width {width}: {:?}",
            rows.iter().map(|line| line_text(line)).collect::<Vec<_>>()
        );
    }
}

#[test]
fn line_numbers_take_the_widest_number_digits() {
    let model = one_line_model(1000, "a", "b");
    assert_eq!((model.left_digits(), model.right_digits()), (4, 4));
    assert_eq!(model.changed_rows(DiffLayout::Unified), &[0, 1]);
    assert_eq!(model.changed_rows(DiffLayout::SideBySide), &[0]);
}

#[test]
fn wrapped_status_reports_the_last_row_reached() {
    let model = sample_model();
    let rendered = render_rows_with_status(&model, DiffLayout::Unified, 1, 0, 3, 80, 0, true);
    assert_eq!(rendered.rows.len(), 3);
    assert_eq!(rendered.bottom_row, 3);
}
