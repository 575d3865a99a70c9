use fmtview::transform::types::FormatKind;
use fmtview::viewer::breadcrumb::JsonBreadcrumbCache;
use fmtview::viewer::frame::prepare_frame;
use fmtview::viewer::highlight::lines::ViewMode;
use fmtview::viewer::highlight::StyledText;
use fmtview::viewer::input::points::SyntaxKind;
use fmtview::viewer::frame::{
    display_mode_text, footer_text, idle_footer_text, title_text, wrap_position_text,
};
use fmtview::viewer::input::state::ViewState;

#[test]
fn wrap_position_shows_rows_into_the_top_line() {
    let mut state = ViewState::new();
    assert_eq!(wrap_position_text(&state), None);
    state.top_row_offset = 12;
    assert_eq!(wrap_position_text(&state).as_deref(), Some("+12 rows"));
    state.wrap = false;
    assert_eq!(wrap_position_text(&state), None);
}

#[test]
fn display_mode_names_wrap_and_column() {
    let mut state = ViewState::new();
    assert_eq!(display_mode_text(&state), "wrap");
    state.top_row_offset = 3;
    assert_eq!(display_mode_text(&state), "wrap +3 rows");
    state.wrap = false;
    state.x = 40;
    assert_eq!(display_mode_text(&state), "nowrap x:40");
}

#[test]
fn idle_footer_lists_keys_and_position() {
    let mut state = ViewState::new();
    assert_eq!(
        idle_footer_text(&state),
        " q/Esc quit | w unwrap | / search n/N | wheel/j/k | 123 Enter | Space/f,b "
    );
    state.top_row_offset = 2;
    assert_eq!(
        idle_footer_text(&state),
        " +2 rows | q/Esc quit | w unwrap | / search n/N | wheel/j/k | 123 Enter | Space/f,b "
    );
    state.wrap = false;
    assert_eq!(
        idle_footer_text(&state),
        " q/Esc quit | w wrap | / search n/N | wheel/j/k | 123 Enter | Space/f,b "
    );
}

#[test]
fn footer_shows_what_is_being_typed_first() {
    let mut state = ViewState::new();
    state.search_message = Some("no match".to_owned());
    assert_eq!(footer_text(&state, 10, true), " no match | / search | n/N | Esc clear ");
    state.jump_buffer = "42".to_owned();
    assert_eq!(
        footer_text(&state, 120, false),
        " go to line: 42 / 120+ | Enter jump | Backspace edit | Esc cancel "
    );
    state.search_active = true;
    state.search_buffer = "key".to_owned();
    assert_eq!(
        footer_text(&state, 120, false),
        " search: key | Enter find | Backspace edit | Esc cancel "
    );
}

#[test]
fn title_right_aligns_progress() {
    let state = ViewState::new();
    assert_eq!(
        title_text("data.json", 250, true, 1, 20, 8, &state),
        " data.json | 250 lines | 1-20 |   8% | wrap "
    );
    assert_eq!(
        title_text("data.json", 250, false, 231, 250, 100, &state),
        " data.json | 250+ lines | 231-250 | 100% | wrap "
    );
}

fn row_text(row: &[StyledText]) -> String {
    row.iter().map(|span| span.text.as_str()).collect()
}

#[test]
fn frame_title_counts_the_last_source_line_shown() {
    let lines: Vec<String> = vec!["a".repeat(30), "b".to_owned(), "c".to_owned()];
    let mut state = ViewState::new();
    let mut breadcrumb = JsonBreadcrumbCache::new();
    let frame = prepare_frame(
        30,
        8,
        &lines,
        "t.txt",
        FormatKind::Plain,
        SyntaxKind::Plain,
        ViewMode::Plain,
        &mut state,
        &mut breadcrumb,
    );
    assert_eq!(frame.visible_height, 5);
    assert_eq!(frame.body.len(), 4);
    assert!(frame.title.contains("| 1-3 |"), "{}", frame.title);
    assert!(row_text(&frame.body[2]).ends_with('b'));
    assert!(row_text(&frame.body[3]).ends_with('c'));
    let wrapped: usize = frame.body[..2]
        .iter()
        .map(|row| row_text(row).chars().filter(|c| *c == 'a').count())
        .sum();
    assert_eq!(wrapped, 30);
}

#[test]
fn frame_marks_where_search_matches_start() {
    let lines: Vec<String> = vec!["xabyab".to_owned(), "zz".to_owned()];
    let mut state = ViewState::new();
    state.search_query = "ab".to_owned();
    let mut breadcrumb = JsonBreadcrumbCache::new();
    let frame = prepare_frame(
        40,
        8,
        &lines,
        "t.txt",
        FormatKind::Plain,
        SyntaxKind::Plain,
        ViewMode::Plain,
        &mut state,
        &mut breadcrumb,
    );
    assert_eq!(frame.matches.len(), frame.body.len());
    let text = row_text(&frame.body[0]);
    let lead = text.chars().count() - 6;
    assert_eq!(frame.matches[0], vec![lead + 1, lead + 4]);
    assert!(frame.matches[1].is_empty());
}
