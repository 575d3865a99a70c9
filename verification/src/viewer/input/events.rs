//! What keys, the mouse and resizes do to the view.
use vstd::prelude::*;

use super::jump::{
    accepts_jump_digit_spec, digit_pushed, handle_jump_input_key, jump_key_handled,
    push_jump_digit,
};
use super::keys::{accepts_jump_digit, plain_key, KeyCode, KeyModifiers};
use super::scroll::{
    at_line, down_rows, down_step, end_step, page_down, page_down_step, page_up, page_up_step,
    position, reset_top_row_offset, same_but_position, scroll_down, scroll_down_by, scroll_up,
    scroll_up_by, scroll_x_by, set_file_end, set_top, shifted, stepped, top_step, up_rows,
    up_step,
};
use super::search::{
    cancel_search_task, clear_search_message, handle_search_input_key, message_cleared,
    prompt_opened, repeat_search_started, search_canceled, search_key_handled,
    start_repeat_search, start_search_prompt,
};
use super::state::{
    same_position, same_search, same_structure, EventAction, SearchDirection, ViewState,
};

verus! {

/// Rows moved per wheel step.
pub const MOUSE_SCROLL_LINES: usize = 1;

/// Columns moved per sideways step.
pub const MOUSE_HORIZONTAL_COLUMNS: usize = 4;

/// At most this many events are handled before the view is drawn again.
pub const EVENT_DRAIN_LIMIT: usize = 512;

/// The mouse events the viewer tells apart.
#[derive(Debug, Clone, Copy, PartialEq, Eq, Structural)]
pub enum MouseEventKind {
    ScrollDown,
    ScrollUp,
    ScrollLeft,
    ScrollRight,
    Other,
}

/// A terminal event, as the viewer sees it.
#[derive(Debug, Clone, Copy, PartialEq, Eq, Structural)]
pub enum Event {
    Key { code: KeyCode, modifiers: KeyModifiers, release: bool },
    Mouse { kind: MouseEventKind, modifiers: KeyModifiers },
    Resize,
    Other,
}

/// Nothing in the view changed.
pub open spec fn unchanged(a: &ViewState, b: &ViewState) -> bool {
    same_position(a, b) && same_but_position(a, b)
}

/// Only the horizontal offset moved, by `delta` columns (saturating).
pub open spec fn x_shifted(a: &ViewState, b: &ViewState, delta: int, moved: bool) -> bool {
    &&& same_position(a, b)
    &&& a.wrap == b.wrap
    &&& a.jump_buffer@ == b.jump_buffer@
    &&& same_search(a, b)
    &&& same_structure(a, b)
    &&& b.x == shifted(a.x as int, delta)
    &&& moved == (b.x != a.x)
}

/// Wrapping was switched, and the top line starts at its first row again.
pub open spec fn wrap_toggled(a: &ViewState, b: &ViewState) -> bool {
    &&& b.wrap == !a.wrap
    &&& a.x == b.x
    &&& a.jump_buffer@ == b.jump_buffer@
    &&& same_search(a, b)
    &&& same_structure(a, b)
    &&& position(b) == at_line(a.top, !a.wrap)
}

/// What a key does with no prompt open and no line number typed.
pub open spec fn normal_key_handled(
    a: &ViewState,
    b: &ViewState,
    code: KeyCode,
    modifiers: KeyModifiers,
    line_count: usize,
    page: usize,
    dirty: bool,
    quit: bool,
) -> bool {
    let plain = !modifiers.control && !modifiers.alt;
    if code is Char && accepts_jump_digit_spec(code->Char_0, modifiers) {
        dirty && !quit && digit_pushed(a, b, code->Char_0)
    } else if code == KeyCode::Char('/') && plain {
        !quit && prompt_opened(a, b, dirty)
    } else if code == KeyCode::Char('n') && plain {
        !quit && repeat_search_started(a, b, line_count, SearchDirection::Forward, dirty)
    } else if code == KeyCode::Char('N') && plain {
        !quit && repeat_search_started(a, b, line_count, SearchDirection::Backward, dirty)
    } else if code == KeyCode::Enter {
        !dirty && !quit && unchanged(a, b)
    } else if code == KeyCode::Esc && a.search_task is Some {
        !quit && search_canceled(a, b, dirty)
    } else if code == KeyCode::Esc && a.search_message is Some {
        !quit && message_cleared(a, b, dirty)
    } else if code == KeyCode::Char('q') || code == KeyCode::Esc {
        quit && !dirty && unchanged(a, b)
    } else if code == KeyCode::Char('w') {
        dirty && !quit && wrap_toggled(a, b)
    } else if code == KeyCode::Down || code == KeyCode::Char('j') {
        !quit && stepped(a, b, down_step(position(a), a.wrap, line_count), dirty)
    } else if code == KeyCode::Up || code == KeyCode::Char('k') {
        !quit && stepped(a, b, up_step(position(a), a.wrap, line_count), dirty)
    } else if code == KeyCode::PageDown || code == KeyCode::Char(' ') || code == KeyCode::Char(
        'f',
    ) {
        !quit && stepped(a, b, page_down_step(position(a), a.wrap, line_count, page), dirty)
    } else if code == KeyCode::PageUp || code == KeyCode::Char('b') {
        !quit && stepped(a, b, page_up_step(position(a), a.wrap, line_count, page), dirty)
    } else if code == KeyCode::Home || code == KeyCode::Char('g') {
        !quit && stepped(a, b, top_step(position(a), a.wrap, 0), dirty)
    } else if code == KeyCode::End || code == KeyCode::Char('G') {
        !quit && stepped(a, b, end_step(position(a), a.wrap, line_count), dirty)
    } else if (code == KeyCode::Right || code == KeyCode::Char('l')) && !a.wrap {
        !quit && x_shifted(a, b, MOUSE_HORIZONTAL_COLUMNS as int, dirty)
    } else if (code == KeyCode::Left || code == KeyCode::Char('h')) && !a.wrap {
        !quit && x_shifted(a, b, -(MOUSE_HORIZONTAL_COLUMNS as int), dirty)
    } else {
        !dirty && !quit && unchanged(a, b)
    }
}

/// What a key does: Control-C quits; with the search prompt open the key goes
/// there; while a line number is typed it goes there; else it is a command.
pub open spec fn key_handled(
    a: &ViewState,
    b: &ViewState,
    code: KeyCode,
    modifiers: KeyModifiers,
    line_count: usize,
    line_count_exact: bool,
    page: usize,
    action: EventAction,
) -> bool {
    if code == KeyCode::Char('c') && modifiers.control {
        action.quit && !action.dirty && unchanged(a, b)
    } else if a.search_active {
        !action.quit && search_key_handled(a, b, code, modifiers, line_count, action.dirty)
    } else if a.jump_buffer@.len() > 0 {
        !action.quit && jump_key_handled(
            a,
            b,
            code,
            modifiers,
            line_count,
            line_count_exact,
            action.dirty,
        )
    } else {
        normal_key_handled(a, b, code, modifiers, line_count, page, action.dirty, action.quit)
    }
}

/// Handles one key press.
pub fn handle_key_event(
    code: KeyCode,
    modifiers: KeyModifiers,
    state: &mut ViewState,
    line_count: usize,
    line_count_exact: bool,
    page: usize,
) -> (action: EventAction)
    requires
        page as isize != isize::MIN,
    ensures
        key_handled(
            old(state),
            final(state),
            code,
            modifiers,
            line_count,
            line_count_exact,
            page,
            action,
        ),
{
    if code == KeyCode::Char('c') && modifiers.control {
        return EventAction { dirty: false, quit: true };
    }
    if state.search_active {
        let dirty = handle_search_input_key(code, modifiers, state, line_count);
        return EventAction { dirty, quit: false };
    }
    if !state.jump_buffer.as_str().is_empty() {
        let dirty = handle_jump_input_key(code, modifiers, state, line_count, line_count_exact);
        return EventAction { dirty, quit: false };
    }
    let plain = plain_key(modifiers);
    if let KeyCode::Char(ch) = code {
        if accepts_jump_digit(ch, modifiers) {
            push_jump_digit(state, ch);
            return EventAction { dirty: true, quit: false };
        }
    }
    let dirty = if code == KeyCode::Char('/') && plain {
        start_search_prompt(state)
    } else if code == KeyCode::Char('n') && plain {
        start_repeat_search(state, line_count, SearchDirection::Forward)
    } else if code == KeyCode::Char('N') && plain {
        start_repeat_search(state, line_count, SearchDirection::Backward)
    } else if code == KeyCode::Enter {
        false
    } else if code == KeyCode::Esc && state.search_task.is_some() {
        cancel_search_task(state)
    } else if code == KeyCode::Esc && state.search_message.is_some() {
        clear_search_message(state)
    } else if code == KeyCode::Char('q') || code == KeyCode::Esc {
        return EventAction { dirty: false, quit: true };
    } else if code == KeyCode::Char('w') {
        state.wrap = !state.wrap;
        reset_top_row_offset(state);
        true
    } else if code == KeyCode::Down || code == KeyCode::Char('j') {
        scroll_down(state, line_count)
    } else if code == KeyCode::Up || code == KeyCode::Char('k') {
        scroll_up(state, line_count)
    } else if code == KeyCode::PageDown || code == KeyCode::Char(' ') || code == KeyCode::Char(
        'f',
    ) {
        page_down(state, line_count, page)
    } else if code == KeyCode::PageUp || code == KeyCode::Char('b') {
        page_up(state, line_count, page)
    } else if code == KeyCode::Home || code == KeyCode::Char('g') {
        set_top(state, 0)
    } else if code == KeyCode::End || code == KeyCode::Char('G') {
        set_file_end(state, line_count)
    } else if (code == KeyCode::Right || code == KeyCode::Char('l')) && !state.wrap {
        scroll_x_by(&mut state.x, MOUSE_HORIZONTAL_COLUMNS as isize)
    } else if (code == KeyCode::Left || code == KeyCode::Char('h')) && !state.wrap {
        scroll_x_by(&mut state.x, -(MOUSE_HORIZONTAL_COLUMNS as isize))
    } else {
        false
    };
    EventAction { dirty, quit: false }
}

/// What a mouse event does: the wheel scrolls rows, or columns with Shift
/// when not wrapping; sideways scrolling moves columns when not wrapping.
pub open spec fn mouse_handled(
    a: &ViewState,
    b: &ViewState,
    kind: MouseEventKind,
    modifiers: KeyModifiers,
    line_count: usize,
    action: EventAction,
) -> bool {
    &&& !action.quit
    &&& if kind == MouseEventKind::ScrollDown && modifiers.shift && !a.wrap {
        x_shifted(a, b, MOUSE_HORIZONTAL_COLUMNS as int, action.dirty)
    } else if kind == MouseEventKind::ScrollUp && modifiers.shift && !a.wrap {
        x_shifted(a, b, -(MOUSE_HORIZONTAL_COLUMNS as int), action.dirty)
    } else if kind == MouseEventKind::ScrollDown {
        stepped(
            a,
            b,
            down_rows(position(a), a.wrap, line_count, MOUSE_SCROLL_LINES as nat),
            action.dirty,
        )
    } else if kind == MouseEventKind::ScrollUp {
        stepped(
            a,
            b,
            up_rows(position(a), a.wrap, line_count, MOUSE_SCROLL_LINES as nat),
            action.dirty,
        )
    } else if kind == MouseEventKind::ScrollRight && !a.wrap {
        x_shifted(a, b, MOUSE_HORIZONTAL_COLUMNS as int, action.dirty)
    } else if kind == MouseEventKind::ScrollLeft && !a.wrap {
        x_shifted(a, b, -(MOUSE_HORIZONTAL_COLUMNS as int), action.dirty)
    } else {
        !action.dirty && unchanged(a, b)
    }
}

/// Handles one mouse event.
pub fn handle_mouse_event(
    kind: MouseEventKind,
    modifiers: KeyModifiers,
    state: &mut ViewState,
    line_count: usize,
) -> (action: EventAction)
    ensures
        mouse_handled(old(state), final(state), kind, modifiers, line_count, action),
{
    let dirty = if kind == MouseEventKind::ScrollDown && modifiers.shift && !state.wrap {
        scroll_x_by(&mut state.x, MOUSE_HORIZONTAL_COLUMNS as isize)
    } else if kind == MouseEventKind::ScrollUp && modifiers.shift && !state.wrap {
        scroll_x_by(&mut state.x, -(MOUSE_HORIZONTAL_COLUMNS as isize))
    } else if kind == MouseEventKind::ScrollDown {
        scroll_down_by(state, line_count, MOUSE_SCROLL_LINES)
    } else if kind == MouseEventKind::ScrollUp {
        scroll_up_by(state, line_count, MOUSE_SCROLL_LINES)
    } else if kind == MouseEventKind::ScrollRight && !state.wrap {
        scroll_x_by(&mut state.x, MOUSE_HORIZONTAL_COLUMNS as isize)
    } else if kind == MouseEventKind::ScrollLeft && !state.wrap {
        scroll_x_by(&mut state.x, -(MOUSE_HORIZONTAL_COLUMNS as isize))
    } else {
        false
    };
    EventAction { dirty, quit: false }
}

/// Handles one terminal event: key releases are ignored, the mouse only acts
/// with no prompt open, and a resize asks for a redraw.
pub fn handle_event(
    event: Event,
    state: &mut ViewState,
    line_count: usize,
    line_count_exact: bool,
    page: usize,
) -> (action: EventAction)
    requires
        page as isize != isize::MIN,
    ensures
        match event {
            Event::Key { code, modifiers, release } => if release {
                !action.dirty && !action.quit && unchanged(old(state), final(state))
            } else {
                key_handled(
                    old(state),
                    final(state),
                    code,
                    modifiers,
                    line_count,
                    line_count_exact,
                    page,
                    action,
                )
            },
            Event::Mouse { kind, modifiers } => if !old(state).search_active && old(
                state,
            ).jump_buffer@.len() == 0 {
                mouse_handled(old(state), final(state), kind, modifiers, line_count, action)
            } else {
                !action.dirty && !action.quit && unchanged(old(state), final(state))
            },
            Event::Resize => action.dirty && !action.quit && unchanged(old(state), final(state)),
            Event::Other => !action.dirty && !action.quit && unchanged(old(state), final(state)),
        },
{
    match event {
        Event::Key { code, modifiers, release } => {
            if release {
                EventAction::none()
            } else {
                handle_key_event(code, modifiers, state, line_count, line_count_exact, page)
            }
        },
        Event::Mouse { kind, modifiers } => {
            if !state.has_active_prompt() {
                handle_mouse_event(kind, modifiers, state, line_count)
            } else {
                EventAction::none()
            }
        },
        Event::Resize => EventAction { dirty: true, quit: false },
        Event::Other => EventAction::none(),
    }
}

/// Whether handling a run of events should stop before the next: on quit,
/// when a redraw must measure rows anew, or after the most events per frame.
pub fn drain_should_stop(action: EventAction, needs_layout: bool, processed: usize) -> (stop: bool)
    ensures
        stop == (action.quit || needs_layout || processed >= EVENT_DRAIN_LIMIT),
{
    action.quit || needs_layout || processed >= EVENT_DRAIN_LIMIT
}

} // verus!
