use fmtview::viewer::input::events::{handle_event, handle_key_event, Event, MouseEventKind};
use fmtview::viewer::input::jump::{
    handle_jump_input_key, push_jump_digit, target_top_for_line,
};
use fmtview::viewer::input::keys::{KeyCode, KeyModifiers};
use fmtview::viewer::input::points::{first_non_ws_byte, is_structure_point, SyntaxKind};
use fmtview::viewer::input::scroll::{
    page_down, page_up, scroll_down, scroll_down_by, scroll_up, set_file_end, set_top,
    TAIL_ROW_OFFSET,
};
use fmtview::viewer::input::search::{
    process_search_step, repeat_search_start, start_repeat_search, start_search,
};
use fmtview::viewer::input::state::{
    SearchDirection, StructureDirection, ViewState,
};
use fmtview::viewer::input::structure::{
    process_structure_step, start_structure_navigation,
};

fn none() -> KeyModifiers {
    KeyModifiers::none()
}

fn control() -> KeyModifiers {
    KeyModifiers { shift: false, control: true, alt: false, others: false }
}

fn key(state: &mut ViewState, code: KeyCode, line_count: usize) -> (bool, bool) {
    let action = handle_key_event(code, none(), state, line_count, true, 10);
    (action.dirty, action.quit)
}

#[test]
fn control_c_and_q_quit() {
    let mut state = ViewState::new();
    let action = handle_key_event(KeyCode::Char('c'), control(), &mut state, 10, true, 10);
    assert!(action.quit);
    assert_eq!(key(&mut state, KeyCode::Char('q'), 10), (false, true));
}

#[test]
fn arrows_move_one_line_and_stop_at_the_ends() {
    let mut state = ViewState::new();
    state.wrap = false;
    assert_eq!(key(&mut state, KeyCode::Down, 3), (true, false));
    assert_eq!(state.top, 1);
    key(&mut state, KeyCode::Char('j'), 3);
    assert_eq!(state.top, 2);
    assert_eq!(key(&mut state, KeyCode::Down, 3), (false, false));
    assert_eq!(key(&mut state, KeyCode::Up, 3), (true, false));
    assert_eq!(state.top, 1);
}

#[test]
fn scrolling_down_then_up_returns_to_the_same_line() {
    let mut state = ViewState::new();
    state.wrap = false;
    state.top = 4;
    assert!(scroll_down(&mut state, 10));
    assert!(scroll_up(&mut state, 10));
    assert_eq!(state.top, 4);
}

#[test]
fn up_from_a_line_lands_on_its_last_rows_when_wrapping() {
    let mut state = ViewState::new();
    state.top = 3;
    assert!(scroll_up(&mut state, 10));
    assert_eq!(state.top, 2);
    assert_eq!(state.top_row_offset, TAIL_ROW_OFFSET);
    assert!(state.wrap_bounds_stale);
}

#[test]
fn wheel_moves_rows_inside_a_wrapped_line() {
    let mut state = ViewState::new();
    state.top_max_row_offset = 3;
    assert!(scroll_down_by(&mut state, 10, 2));
    assert_eq!((state.top, state.top_row_offset), (0, 2));
    let action = handle_event(
        Event::Mouse { kind: MouseEventKind::ScrollDown, modifiers: none() },
        &mut state,
        10,
        true,
        10,
    );
    assert!(action.dirty);
    assert_eq!(state.top_row_offset, 3);
}

#[test]
fn pages_move_by_the_page_and_clamp() {
    let mut state = ViewState::new();
    state.wrap = false;
    assert!(page_down(&mut state, 25, 10));
    assert_eq!(state.top, 10);
    assert!(page_down(&mut state, 25, 100));
    assert_eq!(state.top, 24);
    assert!(page_up(&mut state, 25, 10));
    assert_eq!(state.top, 14);
    assert!(page_up(&mut state, 25, 100));
    assert_eq!(state.top, 0);
}

#[test]
fn home_and_end_keys() {
    let mut state = ViewState::new();
    assert!(set_file_end(&mut state, 50));
    assert_eq!(state.top, 49);
    assert_eq!(state.top_row_offset, TAIL_ROW_OFFSET);
    assert!(set_top(&mut state, 0));
    assert_eq!((state.top, state.top_row_offset), (0, 0));
    assert!(!set_top(&mut state, 0));
}

#[test]
fn w_toggles_wrapping() {
    let mut state = ViewState::new();
    assert_eq!(key(&mut state, KeyCode::Char('w'), 10), (true, false));
    assert!(!state.wrap);
    assert_eq!(key(&mut state, KeyCode::Right, 10), (true, false));
    assert_eq!(state.x, 4);
    assert_eq!(key(&mut state, KeyCode::Left, 10), (true, false));
    assert_eq!(state.x, 0);
}

#[test]
fn typing_a_line_number_and_enter_jumps_there() {
    let mut state = ViewState::new();
    key(&mut state, KeyCode::Char('4'), 100);
    key(&mut state, KeyCode::Char('2'), 100);
    assert_eq!(state.jump_buffer, "42");
    assert_eq!(key(&mut state, KeyCode::Enter, 100), (true, false));
    assert_eq!(state.top, 41);
    assert!(state.jump_buffer.is_empty());
}

#[test]
fn a_line_number_past_the_end_lands_on_the_last_line() {
    let mut state = ViewState::new();
    for ch in "999999999999999999999".chars() {
        push_jump_digit(&mut state, ch);
    }
    assert_eq!(state.jump_buffer.len(), 20);
    handle_jump_input_key(KeyCode::Enter, none(), &mut state, 7, true);
    assert_eq!(state.top, 6);
    assert_eq!(target_top_for_line(0, 7, true), 0);
    assert_eq!(target_top_for_line(5, 0, true), 0);
    assert_eq!(target_top_for_line(500, 7, false), 6);
}

#[test]
fn backspace_and_esc_edit_the_line_number() {
    let mut state = ViewState::new();
    key(&mut state, KeyCode::Char('1'), 100);
    key(&mut state, KeyCode::Char('2'), 100);
    key(&mut state, KeyCode::Backspace, 100);
    assert_eq!(state.jump_buffer, "1");
    key(&mut state, KeyCode::Esc, 100);
    assert!(state.jump_buffer.is_empty());
    assert_eq!(state.top, 0);
}

#[test]
fn slash_opens_the_prompt_and_enter_searches() {
    let mut state = ViewState::new();
    assert_eq!(key(&mut state, KeyCode::Char('/'), 10), (true, false));
    assert!(state.search_active);
    for ch in "ab".chars() {
        key(&mut state, KeyCode::Char(ch), 10);
    }
    key(&mut state, KeyCode::Backspace, 10);
    key(&mut state, KeyCode::Char('b'), 10);
    assert_eq!(state.search_buffer, "ab");
    assert_eq!(key(&mut state, KeyCode::Enter, 10), (true, false));
    assert!(!state.search_active);
    assert_eq!(state.search_query, "ab");
    assert_eq!(state.search_message.as_deref(), Some("searching: ab"));
    let task = state.search_task.clone().unwrap();
    assert_eq!(task.next_line, 0);
    assert_eq!(task.remaining, 10);
}

#[test]
fn a_search_finds_the_next_matching_line() {
    let lines: Vec<String> = vec!["alpha".into(), "beta".into(), "gamma".into(), "beta again".into()];
    let mut state = ViewState::new();
    assert!(start_search(&mut state, "beta".to_owned(), SearchDirection::Forward, 2, lines.len()));
    assert!(process_search_step(&lines, true, &mut state));
    assert_eq!(state.top, 3);
    assert_eq!(state.search_message.as_deref(), Some("match: beta"));
    assert!(state.search_task.is_none());
}

#[test]
fn a_forward_search_wraps_to_the_first_line() {
    let lines: Vec<String> = vec!["needle".into(), "x".into(), "y".into()];
    let mut state = ViewState::new();
    state.top = 1;
    start_search(&mut state, "needle".to_owned(), SearchDirection::Forward, 1, lines.len());
    assert!(process_search_step(&lines, true, &mut state));
    assert_eq!(state.top, 0);
}

#[test]
fn a_backward_search_wraps_to_the_last_line() {
    let lines: Vec<String> = vec!["x".into(), "y".into(), "needle".into()];
    let mut state = ViewState::new();
    start_search(&mut state, "needle".to_owned(), SearchDirection::Backward, 0, lines.len());
    assert!(process_search_step(&lines, true, &mut state));
    assert_eq!(state.top, 2);
}

#[test]
fn a_search_without_a_match_says_not_found() {
    let lines: Vec<String> = vec!["x".into(), "y".into()];
    let mut state = ViewState::new();
    start_search(&mut state, "zzz".to_owned(), SearchDirection::Forward, 0, lines.len());
    assert!(process_search_step(&lines, true, &mut state));
    assert_eq!(state.search_message.as_deref(), Some("not found: zzz"));
    assert_eq!(state.top, 0);
}

#[test]
fn repeating_without_a_query_says_so() {
    let mut state = ViewState::new();
    assert!(start_repeat_search(&mut state, 10, SearchDirection::Forward));
    assert_eq!(state.search_message.as_deref(), Some("no search query"));
    assert_eq!(repeat_search_start(9, 10, SearchDirection::Forward), 0);
    assert_eq!(repeat_search_start(0, 10, SearchDirection::Backward), 9);
    assert_eq!(repeat_search_start(5, 0, SearchDirection::Backward), 0);
}

#[test]
fn esc_cancels_a_running_search_then_clears_the_message() {
    let mut state = ViewState::new();
    start_search(&mut state, "q".to_owned(), SearchDirection::Forward, 0, 10);
    assert_eq!(key(&mut state, KeyCode::Esc, 10), (true, false));
    assert_eq!(state.search_message.as_deref(), Some("search canceled"));
    assert_eq!(key(&mut state, KeyCode::Esc, 10), (true, false));
    assert!(state.search_message.is_none());
    assert_eq!(key(&mut state, KeyCode::Esc, 10), (false, true));
}

#[test]
fn key_releases_and_prompts_block_other_events() {
    let mut state = ViewState::new();
    let release = Event::Key { code: KeyCode::Char('q'), modifiers: none(), release: true };
    assert!(!handle_event(release, &mut state, 10, true, 10).quit);
    assert!(handle_event(Event::Resize, &mut state, 10, true, 10).dirty);
    state.search_active = true;
    let wheel = Event::Mouse { kind: MouseEventKind::ScrollDown, modifiers: none() };
    assert!(!handle_event(wheel, &mut state, 10, true, 10).dirty);
}

#[test]
fn structure_points_by_syntax() {
    assert!(is_structure_point(SyntaxKind::Structured, "  \"a\": {", None));
    assert!(is_structure_point(SyntaxKind::Structured, "[", None));
    assert!(!is_structure_point(SyntaxKind::Structured, "  \"a\": 1,", None));
    assert!(is_structure_point(SyntaxKind::Structured, "<item id=\"1\">", None));
    assert!(!is_structure_point(SyntaxKind::Structured, "</item>", None));
    assert!(is_structure_point(SyntaxKind::Markdown, "## Title", None));
    assert!(!is_structure_point(SyntaxKind::Markdown, "#######", None));
    assert!(is_structure_point(SyntaxKind::Toml, "[server]", None));
    assert!(!is_structure_point(SyntaxKind::Toml, "[]", None));
    assert!(is_structure_point(SyntaxKind::Jinja, "{% if x %}", None));
    assert!(!is_structure_point(SyntaxKind::Jinja, "{% raw %}", None));
    assert!(is_structure_point(SyntaxKind::Plain, "text", Some("")));
    assert!(!is_structure_point(SyntaxKind::Plain, "text", Some("more")));
    assert_eq!(first_non_ws_byte("  \u{e9}x"), 2);
    assert_eq!(first_non_ws_byte("   "), 0);
}

#[test]
fn structure_navigation_finds_the_next_block() {
    let lines: Vec<String> = vec!["{".into(), "  \"a\": 1,".into(), "  \"b\": {".into(), "  }".into(), "}".into()];
    let mut state = ViewState::new();
    assert!(start_structure_navigation(&mut state, lines.len(), true, StructureDirection::Forward));
    assert!(process_structure_step(&lines, true, &mut state, SyntaxKind::Structured));
    let target = state.structure_target.unwrap();
    assert_eq!((target.line, target.byte_index), (2, 2));
    assert_eq!(state.structure_cursor, Some(2));
}

#[test]
fn structure_navigation_reports_no_block() {
    let lines: Vec<String> = vec!["a".into()];
    let mut state = ViewState::new();
    assert!(start_structure_navigation(&mut state, lines.len(), true, StructureDirection::Backward));
    assert_eq!(state.search_message.as_deref(), Some("no previous block"));
    assert!(start_structure_navigation(&mut state, lines.len(), true, StructureDirection::Forward));
    assert_eq!(state.search_message.as_deref(), Some("no next block"));
}
