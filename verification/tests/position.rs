use fmtview::viewer::breadcrumb::JsonBreadcrumbCache;
use fmtview::viewer::frame::{
    active_search_query, exact_top_line_scroll_limit, exact_top_line_tail_offset, line_count_text,
    sticky_lines, visible_height_for_sticky,
};
use fmtview::viewer::highlight::StyledText;
use fmtview::viewer::input::points::SyntaxKind;
use fmtview::viewer::input::state::{SearchTarget, ViewState};
use fmtview::viewer::position::{
    rendered_row_count, resolve_search_target_position, search_context_rows,
    target_visual_position_in_window, visual_row_for_byte, RenderContext, TargetVisualPosition,
};

fn wrapped(width: usize) -> RenderContext {
    RenderContext { wrap: true, width }
}

fn lines(texts: &[&str]) -> Vec<String> {
    texts.iter().map(|text| text.to_string()).collect()
}

fn text_of(row: &[StyledText]) -> String {
    row.iter().map(|span| span.text.as_str()).collect()
}

#[test]
fn context_above_a_match_grows_with_the_view() {
    assert_eq!(search_context_rows(3), 0);
    assert_eq!(search_context_rows(4), 2);
    assert_eq!(search_context_rows(12), 4);
    assert_eq!(search_context_rows(60), 8);
}

#[test]
fn a_byte_lies_on_the_row_that_holds_it() {
    let line = "abcdefghij";
    assert_eq!(visual_row_for_byte(line, 0, wrapped(4)), 0);
    assert_eq!(visual_row_for_byte(line, 3, wrapped(4)), 0);
    assert_eq!(visual_row_for_byte(line, 4, wrapped(4)), 1);
    assert_eq!(visual_row_for_byte(line, 9, wrapped(4)), 2);
    assert_eq!(visual_row_for_byte(line, 99, wrapped(4)), 2);
    assert_eq!(visual_row_for_byte(line, 9, RenderContext { wrap: false, width: 4 }), 0);
    assert_eq!(rendered_row_count(line, wrapped(4)), 3);
    assert_eq!(rendered_row_count(line, RenderContext { wrap: false, width: 4 }), 1);
}

#[test]
fn a_target_is_found_by_the_rows_above_it() {
    let window = lines(&["abcdefghij", "xy", "klmnop"]);
    let target = SearchTarget { line: 12, byte_index: 5 };
    assert_eq!(
        target_visual_position_in_window(&window, 10, target, wrapped(4)),
        Some(TargetVisualPosition { row: 5, row_in_line: 1 })
    );
    assert_eq!(target_visual_position_in_window(&window, 13, target, wrapped(4)), None);
    assert_eq!(target_visual_position_in_window(&window, 9, target, wrapped(4)), None);
}

#[test]
fn a_match_in_view_is_left_where_it_is() {
    let mut state = ViewState::new();
    state.top = 10;
    state.search_target = Some(SearchTarget { line: 11, byte_index: 0 });
    let window = lines(&["a", "b", "c"]);
    assert!(!resolve_search_target_position(&mut state, &window, 10, wrapped(40)));
    assert_eq!(state.top, 10);
    assert!(state.search_target.is_none());
}

#[test]
fn a_match_below_the_view_is_brought_up_with_context() {
    let mut state = ViewState::new();
    state.top = 0;
    state.search_target = Some(SearchTarget { line: 50, byte_index: 0 });
    let window = lines(&["a", "b", "c"]);
    assert!(resolve_search_target_position(&mut state, &window, 12, wrapped(40)));
    assert_eq!(state.top, 46);
    assert_eq!(state.top_row_offset, 0);
    assert!(state.search_target.is_some());
}

#[test]
fn the_breadcrumb_stays_above_structured_text_only() {
    let text = lines(&["{", "  \"a\": {", "    \"b\": 1", "  }", "}"]);
    let mut cache = JsonBreadcrumbCache::new();
    let rows = sticky_lines(SyntaxKind::Structured, &mut cache, &text, 2, 80, 4, 20);
    assert_eq!(rows.len(), 1);
    assert_eq!(text_of(&rows[0]), "    a › b");
    let mut cache = JsonBreadcrumbCache::new();
    assert!(sticky_lines(SyntaxKind::Plain, &mut cache, &text, 2, 80, 4, 20).is_empty());
    assert_eq!(visible_height_for_sticky(20, 2), 18);
    assert_eq!(visible_height_for_sticky(2, 5), 1);
}

#[test]
fn the_title_counts_lines_and_marks_a_partial_count() {
    assert_eq!(line_count_text(1234, true), "1234");
    assert_eq!(line_count_text(7, false), "7+");
    let mut state = ViewState::new();
    assert_eq!(active_search_query(&state), None);
    state.search_query = "needle".to_owned();
    assert_eq!(active_search_query(&state), Some("needle"));
}

#[test]
fn the_top_line_scrolls_within_its_rows() {
    let window = lines(&["abcdefghij", "x"]);
    assert_eq!(exact_top_line_scroll_limit(&window, wrapped(4)), 2);
    assert_eq!(exact_top_line_tail_offset(&window, 2, wrapped(4)), 1);
    assert_eq!(exact_top_line_tail_offset(&window, 5, wrapped(4)), 0);
    assert_eq!(exact_top_line_scroll_limit(&window, RenderContext { wrap: false, width: 4 }), 0);
}
