//! Typing a line number and jumping to it.
use vstd::prelude::*;

use crate::decimal::{parse_usize, parse_usize_spec};
use crate::text::{byte_len, chars_of, lemma_str_len, push_chars};

use super::keys::{accepts_jump_digit, KeyCode, KeyModifiers};
use super::scroll::set_top;
use super::state::{same_position, same_search, same_structure, ViewState};

verus! {

/// At most this many bytes of line number are kept.
pub const JUMP_BUFFER_MAX_DIGITS: usize = 20;

/// `b` is `a` with only the line-number buffer changed.
pub open spec fn only_jump_buffer_changed(a: &ViewState, b: &ViewState) -> bool {
    &&& same_position(a, b)
    &&& a.x == b.x
    &&& a.wrap == b.wrap
    &&& same_search(a, b)
    &&& same_structure(a, b)
}

/// The top line for a requested 1-based line number: clamped into the lines
/// known so far, whether the file has been read whole or is still being read.
pub open spec fn target_top_spec(requested: int, line_count: int, line_count_exact: bool) -> int {
    let at_least_one = if requested < 1 {
        1
    } else {
        requested
    };
    if line_count == 0 {
        0
    } else if at_least_one > line_count {
        line_count - 1
    } else {
        at_least_one - 1
    }
}

/// The line that the buffer `digits` asks for: its value, or the largest
/// `usize` where it does not parse.
pub open spec fn requested_line(digits: Seq<char>) -> int {
    match parse_usize_spec(digits) {
        Some(v) => v as int,
        None => usize::MAX as int,
    }
}

/// `b` is `a` after the buffered jump: the buffer emptied and the position at
/// line `top`, where `set_top` puts it.
pub open spec fn jumped_to(a: &ViewState, b: &ViewState, top: int) -> bool {
    &&& b.jump_buffer@.len() == 0
    &&& a.x == b.x
    &&& a.wrap == b.wrap
    &&& same_search(a, b)
    &&& same_structure(a, b)
    &&& if a.top == top && a.top_row_offset == 0 {
        same_position(a, b)
    } else {
        &&& b.top == top
        &&& b.top_row_offset == 0
        &&& b.top_max_row_offset == 0
        &&& b.wrap_bounds_stale == a.wrap
    }
}

/// The top line for line number `requested` (1-based).
pub fn target_top_for_line(requested: usize, line_count: usize, line_count_exact: bool) -> (top:
    usize)
    ensures
        top == target_top_spec(requested as int, line_count as int, line_count_exact),
{
    let at_least_one = if requested < 1 {
        1
    } else {
        requested
    };
    if line_count == 0 {
        return 0;
    }
    if at_least_one > line_count {
        line_count - 1
    } else {
        at_least_one - 1
    }
}

/// `b` is `a` with `ch` added to the line number, unless it is full.
pub open spec fn digit_pushed(a: &ViewState, b: &ViewState, ch: char) -> bool {
    &&& only_jump_buffer_changed(a, b)
    &&& b.jump_buffer@ == if byte_len(a.jump_buffer@) < JUMP_BUFFER_MAX_DIGITS {
        a.jump_buffer@.push(ch)
    } else {
        a.jump_buffer@
    }
}

/// Adds a digit to the line number being typed, while it is short enough.
pub fn push_jump_digit(state: &mut ViewState, ch: char)
    ensures
        digit_pushed(old(state), final(state), ch),
{
    let current = state.jump_buffer.as_str();
    proof {
        lemma_str_len(current);
    }
    if current.as_bytes().len() < JUMP_BUFFER_MAX_DIGITS {
        crate::text::string_push(&mut state.jump_buffer, ch);
    }
}

/// Removes the last typed digit; tells whether there was one.
pub fn pop_jump_digit(state: &mut ViewState) -> (changed: bool)
    ensures
        only_jump_buffer_changed(old(state), final(state)),
        changed == (old(state).jump_buffer@.len() > 0),
        final(state).jump_buffer@ == if changed {
            old(state).jump_buffer@.drop_last()
        } else {
            old(state).jump_buffer@
        },
{
    let cs = chars_of(state.jump_buffer.as_str());
    if cs.len() == 0 {
        return false;
    }
    let mut kept = String::new();
    push_chars(&mut kept, &cs.as_slice()[0..cs.len() - 1]);
    proof {
        assert(cs@.subrange(0, cs.len() - 1) =~= cs@.drop_last());
    }
    state.jump_buffer = kept;
    true
}

/// Forgets the line number being typed; tells whether there was one.
pub fn clear_jump_buffer(state: &mut ViewState) -> (was_active: bool)
    ensures
        only_jump_buffer_changed(old(state), final(state)),
        final(state).jump_buffer@.len() == 0,
        was_active == (old(state).jump_buffer@.len() > 0),
{
    let was_active = !state.jump_buffer.as_str().is_empty();
    state.jump_buffer = String::new();
    was_active
}

/// Jumps to the typed line number and forgets it; nothing happens without one.
pub fn jump_to_buffered_line(state: &mut ViewState, line_count: usize, line_count_exact: bool) -> (r:
    bool)
    ensures
        r == (old(state).jump_buffer@.len() > 0),
        !r ==> only_jump_buffer_changed(old(state), final(state)) && final(state).jump_buffer@
            == old(state).jump_buffer@,
        r ==> jumped_to(
            old(state),
            final(state),
            target_top_spec(
                requested_line(old(state).jump_buffer@),
                line_count as int,
                line_count_exact,
            ),
        ),
{
    if state.jump_buffer.as_str().is_empty() {
        return false;
    }
    let requested = match parse_usize(state.jump_buffer.as_str()) {
        Some(v) => v,
        None => usize::MAX,
    };
    state.jump_buffer = String::new();
    let top = target_top_for_line(requested, line_count, line_count_exact);
    set_top(state, top);
    true
}

/// `b` is `a` after `code` was typed while a line number is being typed.
pub open spec fn jump_key_handled(a: &ViewState, b: &ViewState, code: KeyCode, modifiers: KeyModifiers, line_count: usize, line_count_exact: bool, changed: bool) -> bool {
    &&& match code {
            KeyCode::Char(ch) => if accepts_jump_digit_spec(ch, modifiers) {
                &&& changed
                &&& only_jump_buffer_changed(a, b)
                &&& b.jump_buffer@ == if byte_len(a.jump_buffer@)
                    < JUMP_BUFFER_MAX_DIGITS {
                    a.jump_buffer@.push(ch)
                } else {
                    a.jump_buffer@
                }
            } else {
                !changed && only_jump_buffer_changed(a, b)
                    && b.jump_buffer@ == a.jump_buffer@
            },
            KeyCode::Enter => {
                &&& changed == (a.jump_buffer@.len() > 0)
                &&& !changed ==> only_jump_buffer_changed(a, b)
                    && b.jump_buffer@ == a.jump_buffer@
                &&& changed ==> jumped_to(
                    a,
                    b,
                    target_top_spec(
                        requested_line(a.jump_buffer@),
                        line_count as int,
                        line_count_exact,
                    ),
                )
            },
            KeyCode::Backspace => {
                &&& changed == (a.jump_buffer@.len() > 0)
                &&& only_jump_buffer_changed(a, b)
                &&& b.jump_buffer@ == if changed {
                    a.jump_buffer@.drop_last()
                } else {
                    a.jump_buffer@
                }
            },
            KeyCode::Esc => {
                &&& changed == (a.jump_buffer@.len() > 0)
                &&& only_jump_buffer_changed(a, b)
                &&& b.jump_buffer@.len() == 0
            },
            _ => !changed && only_jump_buffer_changed(a, b)
                && b.jump_buffer@ == a.jump_buffer@,
        }
}

/// What a key does while a line number is being typed: digits extend it,
/// Enter jumps, Backspace removes a digit, Esc forgets it. Tells whether
/// anything changed.
pub fn handle_jump_input_key(
    code: KeyCode,
    modifiers: KeyModifiers,
    state: &mut ViewState,
    line_count: usize,
    line_count_exact: bool,
) -> (changed: bool)
    ensures
        jump_key_handled(old(state), final(state), code, modifiers, line_count, line_count_exact, changed),
{
    match code {
        KeyCode::Char(ch) => {
            if accepts_jump_digit(ch, modifiers) {
                push_jump_digit(state, ch);
                true
            } else {
                false
            }
        },
        KeyCode::Enter => jump_to_buffered_line(state, line_count, line_count_exact),
        KeyCode::Backspace => pop_jump_digit(state),
        KeyCode::Esc => clear_jump_buffer(state),
        _ => false,
    }
}

/// The condition under which `accepts_jump_digit` takes a key.
pub open spec fn accepts_jump_digit_spec(ch: char, modifiers: KeyModifiers) -> bool {
    '0' <= ch <= '9' && !modifiers.control && !modifiers.alt
}

} // verus!
