//! Searching for text, a chunk of lines at a time.
use vstd::prelude::*;

use crate::text::{chars_of, contains_seq, push_chars, push_str, str_contains, string_push};

use super::keys::{accepts_search_char, KeyCode, KeyModifiers};
use super::scroll::set_top;
use super::state::{
    same_position, same_structure, SearchDirection, SearchTask, ViewState,
};

verus! {

/// At most this many lines are looked at per step.
pub const SEARCH_CHUNK_LINES: usize = 4096;

/// Everything outside the search prompt, query, message and task is the same.
pub open spec fn outside_search_same(a: &ViewState, b: &ViewState) -> bool {
    &&& same_position(a, b)
    &&& a.x == b.x
    &&& a.wrap == b.wrap
    &&& a.jump_buffer@ == b.jump_buffer@
    &&& a.search_target == b.search_target
    &&& a.search_cursor == b.search_cursor
    &&& same_structure(a, b)
}

/// The message shown is `text`.
pub open spec fn message_is(message: Option<String>, text: Seq<char>) -> bool {
    message matches Some(m) && m@ == text
}

/// A message made of `prefix` and the query.
fn message_with(prefix: &str, query: &str) -> (m: String)
    ensures
        m@ == prefix@ + query@,
{
    let mut m = String::new();
    push_str(&mut m, prefix);
    push_str(&mut m, query);
    m
}

/// `b` is `a` with the search prompt opened empty and no message or search.
pub open spec fn prompt_opened(a: &ViewState, b: &ViewState, changed: bool) -> bool {
    &&& changed
    &&& outside_search_same(a, b)
    &&& b.search_active
    &&& b.search_buffer@.len() == 0
    &&& b.search_query@ == a.search_query@
    &&& b.search_message is None
    &&& b.search_task is None
}

/// Opens the search prompt, empty, and drops any message and running search.
pub fn start_search_prompt(state: &mut ViewState) -> (changed: bool)
    ensures
        prompt_opened(old(state), final(state), changed),
{
    state.search_active = true;
    state.search_buffer = String::new();
    state.search_message = None;
    state.search_task = None;
    true
}

/// Removes the last char of the search prompt; tells whether there was one.
pub fn pop_search_char(state: &mut ViewState) -> (changed: bool)
    ensures
        outside_search_same(old(state), final(state)),
        changed == (old(state).search_buffer@.len() > 0),
        final(state).search_buffer@ == if changed {
            old(state).search_buffer@.drop_last()
        } else {
            old(state).search_buffer@
        },
        final(state).search_active == old(state).search_active,
        final(state).search_query@ == old(state).search_query@,
        final(state).search_message == old(state).search_message,
        final(state).search_task == old(state).search_task,
{
    let cs = chars_of(state.search_buffer.as_str());
    if cs.len() == 0 {
        return false;
    }
    let mut kept = String::new();
    push_chars(&mut kept, &cs.as_slice()[0..cs.len() - 1]);
    proof {
        assert(cs@.subrange(0, cs.len() - 1) =~= cs@.drop_last());
    }
    state.search_buffer = kept;
    true
}

/// Closes the search prompt without searching.
pub fn cancel_search_prompt(state: &mut ViewState) -> (changed: bool)
    ensures
        changed,
        outside_search_same(old(state), final(state)),
        !final(state).search_active,
        final(state).search_buffer@.len() == 0,
        final(state).search_query@ == old(state).search_query@,
        final(state).search_message == old(state).search_message,
        final(state).search_task == old(state).search_task,
{
    state.search_active = false;
    state.search_buffer = String::new();
    true
}

/// `b` is `a` after starting a search for `query` in `direction` from
/// `start_line`, over `line_count` lines (`query` not empty): the query is
/// remembered, and either a search is under way from the start line (clamped
/// to the last line) over all lines, or, with no lines, nothing is found.
pub open spec fn search_started(
    a: &ViewState,
    b: &ViewState,
    query: Seq<char>,
    direction: SearchDirection,
    start_line: int,
    line_count: int,
) -> bool {
    &&& outside_search_same(a, b)
    &&& b.search_query@ == query
    &&& if line_count == 0 {
        &&& b.search_task is None
        &&& message_is(b.search_message, "not found: "@ + query)
    } else {
        &&& b.search_task matches Some(task) && task.query@ == query && task.direction
            == direction && task.next_line == (if start_line < line_count - 1 {
            start_line
        } else {
            line_count - 1
        }) && task.remaining == line_count
        &&& message_is(b.search_message, "searching: "@ + query)
    }
}

/// Starts searching for `query`; an empty query does nothing.
pub fn start_search(
    state: &mut ViewState,
    query: String,
    direction: SearchDirection,
    start_line: usize,
    line_count: usize,
) -> (changed: bool)
    ensures
        changed == (query@.len() > 0),
        !changed ==> outside_search_same(old(state), final(state)) && final(state).search_active
            == old(state).search_active && final(state).search_buffer@ == old(
            state,
        ).search_buffer@ && final(state).search_query@ == old(state).search_query@
            && final(state).search_message == old(state).search_message
            && final(state).search_task == old(state).search_task,
        changed ==> search_started(
            old(state),
            final(state),
            query@,
            direction,
            start_line as int,
            line_count as int,
        ) && final(state).search_active == old(state).search_active && final(state).search_buffer@ == old(state).search_buffer@,
{
    if query.as_str().is_empty() {
        return false;
    }
    state.search_query = query.clone();
    state.search_message = Some(message_with("searching: ", query.as_str()));
    if line_count == 0 {
        state.search_task = None;
        state.search_message = Some(message_with("not found: ", query.as_str()));
        return true;
    }
    let last = line_count - 1;
    let next_line = if start_line < last {
        start_line
    } else {
        last
    };
    state.search_task = Some(SearchTask { query, direction, next_line, remaining: line_count });
    true
}

/// Searches for what the prompt holds, forward from the top line, and closes
/// the prompt; an empty prompt does nothing.
pub fn submit_search_buffer(state: &mut ViewState, line_count: usize) -> (changed: bool)
    ensures
        changed == (old(state).search_buffer@.len() > 0),
        !changed ==> outside_search_same(old(state), final(state)) && final(state).search_active
            == old(state).search_active && final(state).search_buffer@ == old(
            state,
        ).search_buffer@ && final(state).search_query@ == old(state).search_query@
            && final(state).search_message == old(state).search_message
            && final(state).search_task == old(state).search_task,
        changed ==> {
            &&& !final(state).search_active
            &&& final(state).search_buffer@.len() == 0
            &&& search_started(
                old(state),
                final(state),
                old(state).search_buffer@,
                SearchDirection::Forward,
                old(state).top as int,
                line_count as int,
            )
        },
{
    if state.search_buffer.as_str().is_empty() {
        return false;
    }
    let query = state.search_buffer.clone();
    state.search_active = false;
    state.search_buffer = String::new();
    let top = state.top;
    start_search(state, query, SearchDirection::Forward, top, line_count)
}

/// Where a repeated search starts: the line after the top going forward, the
/// line before it going backward, wrapping around the ends.
pub open spec fn repeat_start_spec(top: int, line_count: int, direction: SearchDirection) -> int {
    if line_count == 0 {
        0
    } else {
        match direction {
            SearchDirection::Forward => (if top < usize::MAX {
                top + 1
            } else {
                top
            }) % line_count,
            SearchDirection::Backward => if top == 0 {
                line_count - 1
            } else {
                top - 1
            },
        }
    }
}

/// A repeated search starts on a neighbour of the top line, never on the top
/// line itself when there is more than one line: going forward on the next
/// line (the first after the last), going backward on the previous one (the
/// last before the first). It always starts inside the file.
pub proof fn law_repeat_search_moves_off_top(top: int, line_count: int, direction: SearchDirection)
    requires
        0 <= top < line_count,
        line_count <= usize::MAX,
    ensures
        0 <= repeat_start_spec(top, line_count, direction) < line_count,
        direction is Forward ==> repeat_start_spec(top, line_count, direction) == (top + 1)
            % line_count,
        direction is Backward ==> (repeat_start_spec(top, line_count, direction) + 1) % line_count
            == top,
        line_count > 1 ==> repeat_start_spec(top, line_count, direction) != top,
{
    if top + 1 == line_count {
        assert((top + 1) % line_count == 0) by (nonlinear_arith)
            requires
                top + 1 == line_count,
                line_count > 0,
        ;
    } else {
        assert((top + 1) % line_count == top + 1) by (nonlinear_arith)
            requires
                0 <= top + 1 < line_count,
        ;
    }
    if top > 0 {
        assert(top % line_count == top) by (nonlinear_arith)
            requires
                0 <= top < line_count,
        ;
    } else {
        assert(line_count % line_count == 0) by (nonlinear_arith)
            requires
                line_count > 0,
        ;
    }
}

/// The line a repeated search starts at.
pub fn repeat_search_start(top: usize, line_count: usize, direction: SearchDirection) -> (start:
    usize)
    ensures
        start == repeat_start_spec(top as int, line_count as int, direction),
{
    if line_count == 0 {
        return 0;
    }
    match direction {
        SearchDirection::Forward => {
            let next = if top < usize::MAX {
                top + 1
            } else {
                top
            };
            next % line_count
        },
        SearchDirection::Backward => if top == 0 {
            line_count - 1
        } else {
            top - 1
        },
    }
}

/// `b` is `a` after repeating the last search in `direction`, or saying that
/// there is none to repeat.
pub open spec fn repeat_search_started(a: &ViewState, b: &ViewState, line_count: usize, direction: SearchDirection, changed: bool) -> bool {
    &&& changed
    &&& a.search_query@.len() == 0 ==> {
            &&& outside_search_same(a, b)
            &&& b.search_active == a.search_active
            &&& b.search_buffer@ == a.search_buffer@
            &&& b.search_query@ == a.search_query@
            &&& b.search_task == a.search_task
            &&& message_is(b.search_message, "no search query"@)
        }
    &&& a.search_query@.len() > 0 ==> search_started(
            a,
            b,
            a.search_query@,
            direction,
            repeat_start_spec(a.top as int, line_count as int, direction),
            line_count as int,
        ) && b.search_active == a.search_active && b.search_buffer@ == a.search_buffer@
}

/// Searches again for the last query, from next to the top line; without a
/// query it says so.
pub fn start_repeat_search(state: &mut ViewState, line_count: usize, direction: SearchDirection) -> (changed:
    bool)
    ensures
        repeat_search_started(old(state), final(state), line_count, direction, changed),
{
    if state.search_query.as_str().is_empty() {
        let mut m = String::new();
        push_str(&mut m, "no search query");
        state.search_message = Some(m);
        return true;
    }
    let start = repeat_search_start(state.top, line_count, direction);
    let query = state.search_query.clone();
    start_search(state, query, direction, start, line_count)
}

/// `b` is `a` with the search stopped and a message saying so.
pub open spec fn search_canceled(a: &ViewState, b: &ViewState, changed: bool) -> bool {
    &&& changed
    &&& outside_search_same(a, b)
    &&& b.search_active == a.search_active
    &&& b.search_buffer@ == a.search_buffer@
    &&& b.search_query@ == a.search_query@
    &&& b.search_task is None
    &&& message_is(b.search_message, "search canceled"@)
}

/// Stops the running search and says so.
pub fn cancel_search_task(state: &mut ViewState) -> (changed: bool)
    ensures
        search_canceled(old(state), final(state), changed),
{
    state.search_task = None;
    let mut m = String::new();
    push_str(&mut m, "search canceled");
    state.search_message = Some(m);
    true
}

/// `b` is `a` without its message; `changed` tells whether there was one.
pub open spec fn message_cleared(a: &ViewState, b: &ViewState, changed: bool) -> bool {
    &&& changed == (a.search_message is Some)
    &&& outside_search_same(a, b)
    &&& b.search_active == a.search_active
    &&& b.search_buffer@ == a.search_buffer@
    &&& b.search_query@ == a.search_query@
    &&& b.search_task == a.search_task
    &&& b.search_message is None
}

/// Drops the message; tells whether there was one.
pub fn clear_search_message(state: &mut ViewState) -> (changed: bool)
    ensures
        message_cleared(old(state), final(state), changed),
{
    let was_active = state.search_message.is_some();
    state.search_message = None;
    was_active
}

/// `b` is `a` after `code` was typed into the search prompt.
pub open spec fn search_key_handled(a: &ViewState, b: &ViewState, code: KeyCode, modifiers: KeyModifiers, line_count: usize, changed: bool) -> bool {
    &&& match code {
            KeyCode::Char(ch) => if !modifiers.control && !modifiers.alt {
                &&& changed
                &&& outside_search_same(a, b)
                &&& b.search_buffer@ == a.search_buffer@.push(ch)
                &&& b.search_active == a.search_active
                &&& b.search_query@ == a.search_query@
                &&& b.search_message == a.search_message
                &&& b.search_task == a.search_task
            } else {
                &&& !changed
                &&& outside_search_same(a, b)
                &&& b.search_buffer@ == a.search_buffer@
                &&& b.search_active == a.search_active
                &&& b.search_query@ == a.search_query@
                &&& b.search_message == a.search_message
                &&& b.search_task == a.search_task
            },
            KeyCode::Enter => {
                &&& changed == (a.search_buffer@.len() > 0)
                &&& !changed ==> outside_search_same(a, b)
                    && b.search_active == a.search_active
                    && b.search_buffer@ == a.search_buffer@
                    && b.search_query@ == a.search_query@
                    && b.search_message == a.search_message
                    && b.search_task == a.search_task
                &&& changed ==> !b.search_active && b.search_buffer@.len()
                    == 0 && search_started(
                    a,
                    b,
                    a.search_buffer@,
                    SearchDirection::Forward,
                    a.top as int,
                    line_count as int,
                )
            },
            KeyCode::Backspace => {
                &&& changed == (a.search_buffer@.len() > 0)
                &&& outside_search_same(a, b)
                &&& b.search_buffer@ == if changed {
                    a.search_buffer@.drop_last()
                } else {
                    a.search_buffer@
                }
                &&& b.search_active == a.search_active
                &&& b.search_query@ == a.search_query@
                &&& b.search_message == a.search_message
                &&& b.search_task == a.search_task
            },
            KeyCode::Esc => {
                &&& changed
                &&& outside_search_same(a, b)
                &&& !b.search_active
                &&& b.search_buffer@.len() == 0
                &&& b.search_query@ == a.search_query@
                &&& b.search_message == a.search_message
                &&& b.search_task == a.search_task
            },
            _ => {
                &&& !changed
                &&& outside_search_same(a, b)
                &&& b.search_buffer@ == a.search_buffer@
                &&& b.search_active == a.search_active
                &&& b.search_query@ == a.search_query@
                &&& b.search_message == a.search_message
                &&& b.search_task == a.search_task
            },
        }
}

/// What a key does in the search prompt: text goes into it, Enter searches,
/// Backspace removes a char, Esc closes it. Tells whether anything changed.
pub fn handle_search_input_key(
    code: KeyCode,
    modifiers: KeyModifiers,
    state: &mut ViewState,
    line_count: usize,
) -> (changed: bool)
    ensures
        search_key_handled(old(state), final(state), code, modifiers, line_count, changed),
{
    match code {
        KeyCode::Char(ch) => {
            if accepts_search_char(modifiers) {
                string_push(&mut state.search_buffer, ch);
                true
            } else {
                false
            }
        },
        KeyCode::Enter => submit_search_buffer(state, line_count),
        KeyCode::Backspace => pop_search_char(state),
        KeyCode::Esc => cancel_search_prompt(state),
        _ => false,
    }
}

} // verus!

verus! {

/// What one step of a search found: the matching line, where the next step
/// starts, and how many lines were looked at.
#[derive(Debug, Clone, Copy, PartialEq, Eq, Structural)]
pub struct SearchStep {
    pub found_line: Option<usize>,
    pub next_line: usize,
    pub scanned: usize,
}

/// Line `i` exists and holds `query`.
pub open spec fn line_matches(lines: Seq<String>, i: int, query: Seq<char>) -> bool {
    0 <= i < lines.len() && contains_seq(lines[i]@, query)
}

/// The `k`-th line a search visits from `start`: forward it wraps to the first
/// line only when the line count is exact; backward it always wraps.
pub open spec fn visit_index(
    direction: SearchDirection,
    start: int,
    k: int,
    line_count: int,
    exact: bool,
) -> int {
    match direction {
        SearchDirection::Forward => if exact {
            (start + k) % line_count
        } else {
            start + k
        },
        SearchDirection::Backward => (start - k) % line_count,
    }
}

/// How many lines a step looks at when nothing matches: the limit, or, going
/// forward over lines not all known yet, as many as are left.
pub open spec fn visit_span(
    direction: SearchDirection,
    start: int,
    limit: int,
    line_count: int,
    exact: bool,
) -> int {
    match direction {
        SearchDirection::Forward => if exact || limit <= line_count - start {
            limit
        } else {
            line_count - start
        },
        SearchDirection::Backward => limit,
    }
}

/// Where a step starts: the task's next line, or the last line if it lies
/// beyond.
pub open spec fn step_start(next_line: int, line_count: int) -> int {
    if next_line < line_count - 1 {
        next_line
    } else {
        line_count - 1
    }
}

/// How many lines a step may look at.
pub open spec fn step_limit(remaining: int) -> int {
    if remaining < SEARCH_CHUNK_LINES {
        remaining
    } else {
        SEARCH_CHUNK_LINES as int
    }
}

/// `step` is what one step of `task` over `lines` gives: the first visited
/// line that holds the query, or, when none does, the count of lines visited
/// and where to go on.
pub open spec fn step_is(step: SearchStep, lines: Seq<String>, exact: bool, task: SearchTask) -> bool {
    let line_count = lines.len() as int;
    if line_count == 0 || task.remaining == 0 {
        step == SearchStep { found_line: None, next_line: 0, scanned: 0 }
    } else {
        let start = step_start(task.next_line as int, line_count);
        let limit = step_limit(task.remaining as int);
        let span = visit_span(task.direction, start, limit, line_count, exact);
        match step.found_line {
            Some(line) => {
                &&& 1 <= step.scanned <= span
                &&& line == visit_index(
                    task.direction,
                    start,
                    step.scanned - 1,
                    line_count,
                    exact,
                )
                &&& step.next_line == line
                &&& line_matches(lines, line as int, task.query@)
                &&& forall|k: int|
                    0 <= k < step.scanned - 1 ==> !line_matches(
                        lines,
                        #[trigger] visit_index(task.direction, start, k, line_count, exact),
                        task.query@,
                    )
            },
            None => {
                &&& step.scanned == span
                &&& step.next_line == visit_index(task.direction, start, span, line_count, exact)
                &&& forall|k: int|
                    0 <= k < span ==> !line_matches(
                        lines,
                        #[trigger] visit_index(task.direction, start, k, line_count, exact),
                        task.query@,
                    )
            },
        }
    }
}

/// One step of a forward search over `lines`.
pub fn scan_search_forward(lines: &[String], line_count_exact: bool, task: &SearchTask) -> (step:
    SearchStep)
    requires
        task.direction == SearchDirection::Forward,
    ensures
        step_is(step, lines@, line_count_exact, *task),
{
    let line_count = lines.len();
    if line_count == 0 || task.remaining == 0 {
        return SearchStep { found_line: None, next_line: 0, scanned: 0 };
    }
    let start = if task.next_line < line_count - 1 {
        task.next_line
    } else {
        line_count - 1
    };
    let limit = if task.remaining < SEARCH_CHUNK_LINES {
        task.remaining
    } else {
        SEARCH_CHUNK_LINES
    };
    let span = if line_count_exact || limit <= line_count - start {
        limit
    } else {
        line_count - start
    };
    let ghost dir = task.direction;
    let mut k: usize = 0;
    let mut at: usize = start;
    proof {
        crate::cyclic::lemma_mod_small(start as int, line_count as int);
    }
    while k < span
        invariant
            dir == SearchDirection::Forward,
            task.direction == dir,
            line_count == lines@.len(),
            line_count > 0,
            start < line_count,
            start == step_start(task.next_line as int, line_count as int),
            limit == step_limit(task.remaining as int),
            span == visit_span(dir, start as int, limit as int, line_count as int, line_count_exact),
            k <= span,
            span <= limit <= SEARCH_CHUNK_LINES,
            at as int == visit_index(dir, start as int, k as int, line_count as int, line_count_exact),
            at <= line_count,
            k < span ==> at < line_count,
            forall|j: int|
                0 <= j < k ==> !line_matches(
                    lines@,
                    #[trigger] visit_index(dir, start as int, j, line_count as int, line_count_exact),
                    task.query@,
                ),
        decreases span - k,
    {
        if str_contains(lines[at].as_str(), task.query.as_str()) {
            return SearchStep { found_line: Some(at), next_line: at, scanned: k + 1 };
        }
        proof {
            if line_count_exact {
                crate::cyclic::lemma_mod_succ(start + k, line_count as int);
            }
        }
        k = k + 1;
        at = at + 1;
        if at >= line_count && line_count_exact {
            at = 0;
        }
    }
    SearchStep { found_line: None, next_line: at, scanned: span }
}

/// One step of a backward search over `lines`; it wraps from the first line to
/// the last.
pub fn scan_search_backward(lines: &[String], line_count_exact: bool, task: &SearchTask) -> (step:
    SearchStep)
    requires
        task.direction == SearchDirection::Backward,
    ensures
        step_is(step, lines@, line_count_exact, *task),
{
    let line_count = lines.len();
    if line_count == 0 || task.remaining == 0 {
        return SearchStep { found_line: None, next_line: 0, scanned: 0 };
    }
    let start = if task.next_line < line_count - 1 {
        task.next_line
    } else {
        line_count - 1
    };
    let limit = if task.remaining < SEARCH_CHUNK_LINES {
        task.remaining
    } else {
        SEARCH_CHUNK_LINES
    };
    let ghost dir = task.direction;
    let mut k: usize = 0;
    let mut at: usize = start;
    proof {
        crate::cyclic::lemma_mod_small(start as int, line_count as int);
    }
    while k < limit
        invariant
            dir == SearchDirection::Backward,
            task.direction == dir,
            line_count == lines@.len(),
            line_count > 0,
            start < line_count,
            start == step_start(task.next_line as int, line_count as int),
            limit == step_limit(task.remaining as int),
            k <= limit <= SEARCH_CHUNK_LINES,
            at as int == visit_index(dir, start as int, k as int, line_count as int, line_count_exact),
            at < line_count,
            forall|j: int|
                0 <= j < k ==> !line_matches(
                    lines@,
                    #[trigger] visit_index(dir, start as int, j, line_count as int, line_count_exact),
                    task.query@,
                ),
        decreases limit - k,
    {
        if str_contains(lines[at].as_str(), task.query.as_str()) {
            return SearchStep { found_line: Some(at), next_line: at, scanned: k + 1 };
        }
        proof {
            crate::cyclic::lemma_mod_pred(start - k, line_count as int);
            assert(start - k - 1 == start - (k + 1));
        }
        k = k + 1;
        at = if at == 0 {
            line_count - 1
        } else {
            at - 1
        };
    }
    SearchStep { found_line: None, next_line: at, scanned: limit }
}

/// One step of `task` over `lines`, in its direction.
pub fn scan_search_chunk(lines: &[String], line_count_exact: bool, task: &SearchTask) -> (step:
    SearchStep)
    ensures
        step_is(step, lines@, line_count_exact, *task),
{
    match task.direction {
        SearchDirection::Forward => scan_search_forward(lines, line_count_exact, task),
        SearchDirection::Backward => scan_search_backward(lines, line_count_exact, task),
    }
}

} // verus!

verus! {

/// Lines left to search after `scanned` more were looked at: forward over
/// lines not all known yet, a search that ran out of lines gets another chunk.
pub open spec fn remaining_after(task: SearchTask, step: SearchStep, exact: bool) -> int {
    let left = if task.remaining >= step.scanned {
        task.remaining - step.scanned
    } else {
        0
    };
    if !exact && task.direction == SearchDirection::Forward && left == 0 && step.scanned > 0 {
        SEARCH_CHUNK_LINES as int
    } else {
        left
    }
}

/// Everything but the position, the search task and the message is the same.
pub open spec fn search_step_frame(a: &ViewState, b: &ViewState) -> bool {
    &&& a.x == b.x
    &&& a.wrap == b.wrap
    &&& a.jump_buffer@ == b.jump_buffer@
    &&& a.search_active == b.search_active
    &&& a.search_buffer@ == b.search_buffer@
    &&& a.search_query@ == b.search_query@
    &&& a.search_target == b.search_target
    &&& a.search_cursor == b.search_cursor
    &&& same_structure(a, b)
}

/// `b` is `a` after `step` of `task`: on a match the view moves to it (as
/// `set_top` moves) and says so; when the lines ran out or nothing was looked
/// at it says nothing was found; else the task goes on from where the step
/// stopped. `done` tells whether the search ended.
pub open spec fn search_step_applied(
    a: &ViewState,
    b: &ViewState,
    task: SearchTask,
    step: SearchStep,
    exact: bool,
    done: bool,
) -> bool {
    &&& search_step_frame(a, b)
    &&& match step.found_line {
        Some(line) => {
            &&& done
            &&& b.search_task is None
            &&& message_is(b.search_message, "match: "@ + task.query@)
            &&& if a.top == line && a.top_row_offset == 0 {
                same_position(a, b)
            } else {
                &&& b.top == line
                &&& b.top_row_offset == 0
                &&& b.top_max_row_offset == 0
                &&& b.wrap_bounds_stale == a.wrap
            }
        },
        None => {
            &&& same_position(a, b)
            &&& if remaining_after(task, step, exact) == 0 || step.scanned == 0 {
                &&& done
                &&& b.search_task is None
                &&& message_is(b.search_message, "not found: "@ + task.query@)
            } else {
                &&& !done
                &&& b.search_message == a.search_message
                &&& b.search_task matches Some(next) && next.query@ == task.query@
                    && next.direction == task.direction && next.next_line == step.next_line
                    && next.remaining == remaining_after(task, step, exact)
            }
        },
    }
}

/// Applies the outcome of one step of `task` to the view.
pub fn apply_search_step(
    state: &mut ViewState,
    task: SearchTask,
    step: SearchStep,
    line_count_exact: bool,
) -> (done: bool)
    ensures
        search_step_applied(old(state), final(state), task, step, line_count_exact, done),
{
    if let Some(line) = step.found_line {
        set_top(state, line);
        state.search_task = None;
        state.search_message = Some(message_with("match: ", task.query.as_str()));
        return true;
    }
    let mut task = task;
    task.next_line = step.next_line;
    task.remaining = if task.remaining >= step.scanned {
        task.remaining - step.scanned
    } else {
        0
    };
    if !line_count_exact && task.direction == SearchDirection::Forward && task.remaining == 0
        && step.scanned > 0 {
        task.remaining = SEARCH_CHUNK_LINES;
    }
    if task.remaining == 0 || step.scanned == 0 {
        state.search_task = None;
        state.search_message = Some(message_with("not found: ", task.query.as_str()));
        return true;
    }
    state.search_task = Some(task);
    false
}

/// Runs one step of the search under way over `lines`, if there is one.
/// Tells whether the view changed for good: a match, or the end of the search.
pub fn process_search_step(lines: &[String], line_count_exact: bool, state: &mut ViewState) -> (done:
    bool)
    ensures
        old(state).search_task is None ==> !done && search_step_frame(old(state), final(state))
            && same_position(old(state), final(state)) && final(state).search_task is None
            && final(state).search_message == old(state).search_message,
        old(state).search_task matches Some(task) ==> exists|step: SearchStep|
            step_is(step, lines@, line_count_exact, task) && search_step_applied(
                old(state),
                final(state),
                task,
                step,
                line_count_exact,
                done,
            ),
{
    let taken = state.search_task.take();
    match taken {
        None => false,
        Some(task) => {
            let step = scan_search_chunk(lines, line_count_exact, &task);
            apply_search_step(state, task, step, line_count_exact)
        },
    }
}

/// A search step is determined by the lines and the task: two steps that
/// both meet `step_is` are the same step.
pub proof fn law_search_step_is_determined(
    a: SearchStep,
    b: SearchStep,
    lines: Seq<String>,
    exact: bool,
    task: SearchTask,
)
    requires
        step_is(a, lines, exact, task),
        step_is(b, lines, exact, task),
    ensures
        a == b,
{
    let line_count = lines.len() as int;
    if !(line_count == 0 || task.remaining == 0) {
        let start = step_start(task.next_line as int, line_count);
        match (a.found_line, b.found_line) {
            (Some(_), Some(_)) => {
                if a.scanned < b.scanned {
                    assert(!line_matches(
                        lines,
                        visit_index(task.direction, start, a.scanned - 1, line_count, exact),
                        task.query@,
                    ));
                } else if b.scanned < a.scanned {
                    assert(!line_matches(
                        lines,
                        visit_index(task.direction, start, b.scanned - 1, line_count, exact),
                        task.query@,
                    ));
                }
            },
            (Some(_), None) => {
                assert(!line_matches(
                    lines,
                    visit_index(task.direction, start, a.scanned - 1, line_count, exact),
                    task.query@,
                ));
            },
            (None, Some(_)) => {
                assert(!line_matches(
                    lines,
                    visit_index(task.direction, start, b.scanned - 1, line_count, exact),
                    task.query@,
                ));
            },
            (None, None) => {},
        }
    }
}

} // verus!
