//! Jumping between blocks of structure: objects, elements, headings,
//! tables, template blocks, paragraphs.
use vstd::prelude::*;

use crate::text::push_str;

use super::points::{
    first_non_ws_byte, first_non_ws_spec, is_structure_point, structure_point_spec, SyntaxKind,
};
use super::scroll::same_but_position;
use super::state::{
    same_position, same_structure, SearchTarget, StructureDirection, StructureTask, ViewState,
};

verus! {

/// At most this many lines are looked at per step.
pub const STRUCTURE_CHUNK_LINES: usize = 4096;

/// What one step of a structure jump found, where the next step starts, and
/// how many lines were looked at.
#[derive(Debug, Clone, Copy, PartialEq, Eq, Structural)]
pub struct StructureStep {
    pub found: Option<SearchTarget>,
    pub next_line: usize,
    pub scanned: usize,
}

/// The line before `l`, as a step reads it: the first line stands for itself.
pub open spec fn previous_index(l: int) -> int {
    if l == 0 {
        0
    } else {
        l - 1
    }
}

/// Line `l` starts a block.
pub open spec fn point_at(lines: Seq<String>, syntax: SyntaxKind, l: int) -> bool {
    structure_point_spec(syntax, lines[l]@, Some(lines[previous_index(l)]@))
}

/// Where a jump to line `l` puts the cursor: its first char that is not
/// whitespace.
pub open spec fn target_at(lines: Seq<String>, l: int) -> SearchTarget {
    SearchTarget { line: l as usize, byte_index: first_non_ws_spec(lines[l]@) as usize }
}

/// How many lines a forward step from `next` looks at.
pub open spec fn forward_count(line_count: int, next: int) -> int {
    if line_count - next < STRUCTURE_CHUNK_LINES {
        line_count - next
    } else {
        STRUCTURE_CHUNK_LINES as int
    }
}

/// `step` is one forward step from `next_line`: the first block start in the
/// chunk, or the end of the chunk.
pub open spec fn forward_step_spec(
    step: StructureStep,
    lines: Seq<String>,
    next_line: int,
    syntax: SyntaxKind,
) -> bool {
    if lines.len() == 0 || next_line >= lines.len() {
        step == StructureStep { found: None, next_line: next_line as usize, scanned: 0 }
    } else {
        let count = forward_count(lines.len() as int, next_line);
        match step.found {
            Some(target) => {
                let l = next_line + step.scanned - 1;
                &&& 1 <= step.scanned <= count
                &&& point_at(lines, syntax, l)
                &&& target == target_at(lines, l)
                &&& step.next_line == l
                &&& forall|k: int|
                    0 <= k < step.scanned - 1 ==> !#[trigger] point_at(
                        lines,
                        syntax,
                        next_line + k,
                    )
            },
            None => {
                &&& step.scanned == count
                &&& step.next_line == next_line + count
                &&& forall|k: int|
                    0 <= k < count ==> !#[trigger] point_at(lines, syntax, next_line + k)
            },
        }
    }
}

/// How many lines a backward step from `next` looks at.
pub open spec fn backward_count(next: int) -> int {
    if next + 1 < STRUCTURE_CHUNK_LINES {
        next + 1
    } else {
        STRUCTURE_CHUNK_LINES as int
    }
}

/// `step` is one backward step from `next_line`: the nearest block start at
/// or above it within the chunk, or the line above the chunk (the largest
/// `usize` once past the first line).
pub open spec fn backward_step_spec(
    step: StructureStep,
    lines: Seq<String>,
    next_line: int,
    syntax: SyntaxKind,
) -> bool {
    if lines.len() == 0 || next_line >= lines.len() {
        step == StructureStep { found: None, next_line: usize::MAX, scanned: 0 }
    } else {
        let count = backward_count(next_line);
        let start = next_line + 1 - count;
        match step.found {
            Some(target) => {
                let l = next_line - (step.scanned - 1);
                &&& 1 <= step.scanned <= count
                &&& point_at(lines, syntax, l)
                &&& target == target_at(lines, l)
                &&& step.next_line == l
                &&& forall|k: int|
                    0 <= k < step.scanned - 1 ==> !#[trigger] point_at(
                        lines,
                        syntax,
                        next_line - k,
                    )
            },
            None => {
                &&& step.scanned == count
                &&& step.next_line == (if start == 0 {
                    usize::MAX as int
                } else {
                    start - 1
                })
                &&& forall|k: int|
                    0 <= k < count ==> !#[trigger] point_at(lines, syntax, next_line - k)
            },
        }
    }
}

/// Whether line `l` of `lines` starts a block.
fn point_at_exec(lines: &[String], syntax: SyntaxKind, l: usize) -> (r: bool)
    requires
        l < lines@.len(),
    ensures
        r == point_at(lines@, syntax, l as int),
{
    let previous = if l == 0 {
        0
    } else {
        l - 1
    };
    is_structure_point(syntax, lines[l].as_str(), Some(lines[previous].as_str()))
}

/// One forward step of a structure jump from `next_line`.
pub fn scan_structure_forward(lines: &[String], next_line: usize, syntax: SyntaxKind) -> (step:
    StructureStep)
    ensures
        forward_step_spec(step, lines@, next_line as int, syntax),
{
    let line_count = lines.len();
    if line_count == 0 || next_line >= line_count {
        return StructureStep { found: None, next_line, scanned: 0 };
    }
    let count = if line_count - next_line < STRUCTURE_CHUNK_LINES {
        line_count - next_line
    } else {
        STRUCTURE_CHUNK_LINES
    };
    let mut k: usize = 0;
    while k < count
        invariant
            line_count == lines@.len(),
            next_line < line_count,
            count == forward_count(line_count as int, next_line as int),
            k <= count,
            forall|j: int| 0 <= j < k ==> !#[trigger] point_at(lines@, syntax, next_line + j),
        decreases count - k,
    {
        let l = next_line + k;
        if point_at_exec(lines, syntax, l) {
            let byte_index = first_non_ws_byte(lines[l].as_str());
            return StructureStep {
                found: Some(SearchTarget { line: l, byte_index }),
                next_line: l,
                scanned: k + 1,
            };
        }
        k += 1;
    }
    StructureStep { found: None, next_line: next_line + count, scanned: count }
}

/// One backward step of a structure jump from `next_line`.
pub fn scan_structure_backward(lines: &[String], next_line: usize, syntax: SyntaxKind) -> (step:
    StructureStep)
    ensures
        backward_step_spec(step, lines@, next_line as int, syntax),
{
    let line_count = lines.len();
    if line_count == 0 || next_line >= line_count {
        return StructureStep { found: None, next_line: usize::MAX, scanned: 0 };
    }
    let count = if next_line + 1 < STRUCTURE_CHUNK_LINES {
        next_line + 1
    } else {
        STRUCTURE_CHUNK_LINES
    };
    let start = next_line + 1 - count;
    let mut k: usize = 0;
    while k < count
        invariant
            line_count == lines@.len(),
            next_line < line_count,
            count == backward_count(next_line as int),
            start == next_line + 1 - count,
            k <= count,
            forall|j: int| 0 <= j < k ==> !#[trigger] point_at(lines@, syntax, next_line - j),
        decreases count - k,
    {
        let l = next_line - k;
        if point_at_exec(lines, syntax, l) {
            let byte_index = first_non_ws_byte(lines[l].as_str());
            return StructureStep {
                found: Some(SearchTarget { line: l, byte_index }),
                next_line: l,
                scanned: k + 1,
            };
        }
        k += 1;
    }
    let next = if start == 0 {
        usize::MAX
    } else {
        start - 1
    };
    StructureStep { found: None, next_line: next, scanned: count }
}

/// What the view says when no block is left that way.
pub open spec fn no_block_text(direction: StructureDirection) -> Seq<char> {
    match direction {
        StructureDirection::Forward => "no next block"@,
        StructureDirection::Backward => "no previous block"@,
    }
}

/// The message for a jump that finds no block.
pub fn no_block_message(direction: StructureDirection) -> (m: String)
    ensures
        m@ == no_block_text(direction),
{
    let mut m = String::new();
    match direction {
        StructureDirection::Forward => push_str(&mut m, "no next block"),
        StructureDirection::Backward => push_str(&mut m, "no previous block"),
    }
    m
}

/// Where a jump from `top` starts looking: the line after it going forward
/// (if there is one, or more may come), the line before it going backward.
pub open spec fn start_line_spec(
    top: int,
    line_count: int,
    line_count_exact: bool,
    direction: StructureDirection,
) -> Option<usize> {
    match direction {
        StructureDirection::Forward => {
            let next = if top == usize::MAX {
                top
            } else {
                top + 1
            };
            if next < line_count || !line_count_exact {
                Some(next as usize)
            } else {
                None
            }
        },
        StructureDirection::Backward => if top > 0 {
            Some((top - 1) as usize)
        } else {
            None
        },
    }
}

/// The first line a jump from `top` looks at, if any.
pub fn structure_start_line(
    top: usize,
    line_count: usize,
    line_count_exact: bool,
    direction: StructureDirection,
) -> (start: Option<usize>)
    ensures
        start == start_line_spec(top as int, line_count as int, line_count_exact, direction),
{
    match direction {
        StructureDirection::Forward => {
            let next = if top == usize::MAX {
                top
            } else {
                top + 1
            };
            if next < line_count || !line_count_exact {
                Some(next)
            } else {
                None
            }
        },
        StructureDirection::Backward => if top > 0 {
            Some(top - 1)
        } else {
            None
        },
    }
}

/// Everything but the messages, the targets and the tasks is the same.
pub open spec fn structure_frame(a: &ViewState, b: &ViewState) -> bool {
    &&& same_position(a, b)
    &&& a.x == b.x
    &&& a.wrap == b.wrap
    &&& a.jump_buffer@ == b.jump_buffer@
    &&& a.search_active == b.search_active
    &&& a.search_buffer@ == b.search_buffer@
    &&& a.search_query@ == b.search_query@
    &&& a.search_cursor == b.search_cursor
}

/// Starts a jump to the next or previous block, from the block last jumped to
/// or else the top line; says so at once when there is nowhere to look.
pub fn start_structure_navigation(
    state: &mut ViewState,
    line_count: usize,
    line_count_exact: bool,
    direction: StructureDirection,
) -> (changed: bool)
    ensures
        changed,
        structure_frame(old(state), final(state)),
        final(state).structure_target is None,
        final(state).search_target is None,
        final(state).search_task is None,
        final(state).structure_cursor == old(state).structure_cursor,
        ({
            let anchor = match old(state).structure_cursor {
                Some(c) => c as int,
                None => old(state).top as int,
            };
            let start = start_line_spec(anchor, line_count as int, line_count_exact, direction);
            if line_count == 0 || start is None {
                &&& final(state).structure_task is None
                &&& final(state).search_message matches Some(m) && m@ == no_block_text(
                    direction,
                )
            } else {
                &&& final(state).structure_task == Some(
                    StructureTask { direction, next_line: start->0 },
                )
                &&& final(state).search_message is None
            }
        }),
{
    state.structure_task = None;
    state.structure_target = None;
    state.search_target = None;
    state.search_task = None;
    if line_count == 0 {
        state.search_message = Some(no_block_message(direction));
        return true;
    }
    let anchor = match state.structure_cursor {
        Some(c) => c,
        None => state.top,
    };
    match structure_start_line(anchor, line_count, line_count_exact, direction) {
        None => {
            state.search_message = Some(no_block_message(direction));
            true
        },
        Some(next_line) => {
            state.search_message = None;
            state.structure_task = Some(StructureTask { direction, next_line });
            true
        },
    }
}

/// Whether a jump has no lines left to look at.
pub open spec fn scan_end_spec(line_count: int, line_count_exact: bool, task: StructureTask) -> bool {
    match task.direction {
        StructureDirection::Forward => line_count_exact && task.next_line >= line_count,
        StructureDirection::Backward => task.next_line == usize::MAX,
    }
}

/// Whether a jump has no lines left to look at, in a file of `line_count`
/// lines (exact, or still being read).
pub fn reached_structure_scan_end(line_count: usize, line_count_exact: bool, task: &StructureTask) -> (r: bool)
    ensures
        r == scan_end_spec(line_count as int, line_count_exact, *task),
{
    match task.direction {
        StructureDirection::Forward => line_count_exact && task.next_line >= line_count,
        StructureDirection::Backward => task.next_line == usize::MAX,
    }
}

/// One step of `task` over `lines`, in its direction.
pub fn scan_structure_chunk(lines: &[String], task: StructureTask, syntax: SyntaxKind) -> (step:
    StructureStep)
    ensures
        match task.direction {
            StructureDirection::Forward => forward_step_spec(
                step,
                lines@,
                task.next_line as int,
                syntax,
            ),
            StructureDirection::Backward => backward_step_spec(
                step,
                lines@,
                task.next_line as int,
                syntax,
            ),
        },
{
    match task.direction {
        StructureDirection::Forward => scan_structure_forward(lines, task.next_line, syntax),
        StructureDirection::Backward => scan_structure_backward(lines, task.next_line, syntax),
    }
}

/// `b` is `a` after `step` of `task`: a block found becomes the target and
/// the cursor; else, with nothing looked at or no lines left, a message says
/// there is no block; else the jump goes on from where the step stopped.
/// `done` tells whether the jump ended.
pub open spec fn structure_step_applied(
    a: &ViewState,
    b: &ViewState,
    task: StructureTask,
    step: StructureStep,
    line_count: int,
    line_count_exact: bool,
    done: bool,
) -> bool {
    &&& structure_frame(a, b)
    &&& b.search_target == a.search_target
    &&& b.search_task == a.search_task
    &&& b.structure_task == if step.found is None && !(step.scanned == 0 || scan_end_spec(
        line_count,
        line_count_exact,
        StructureTask { direction: task.direction, next_line: step.next_line },
    )) {
        Some(StructureTask { direction: task.direction, next_line: step.next_line })
    } else {
        None
    }
    &&& match step.found {
        Some(target) => {
            &&& done
            &&& b.structure_target == Some(target)
            &&& b.structure_cursor == Some(target.line)
            &&& b.search_message is None
        },
        None => {
            &&& b.structure_target == a.structure_target
            &&& b.structure_cursor == a.structure_cursor
            &&& if step.scanned == 0 || scan_end_spec(
                line_count,
                line_count_exact,
                StructureTask { direction: task.direction, next_line: step.next_line },
            ) {
                done && (b.search_message matches Some(m) && m@ == no_block_text(task.direction))
            } else {
                !done && b.search_message == a.search_message
            }
        },
    }
}

/// Runs one step of the structure jump under way over `lines`, if there is
/// one. Tells whether the jump ended.
pub fn process_structure_step(
    lines: &[String],
    line_count_exact: bool,
    state: &mut ViewState,
    syntax: SyntaxKind,
) -> (done: bool)
    ensures
        old(state).structure_task is None ==> !done && structure_frame(old(state), final(state))
            && same_structure(old(state), final(state)) && final(state).search_message == old(
            state,
        ).search_message && final(state).search_target == old(state).search_target
            && final(state).search_task == old(state).search_task,
        old(state).structure_task matches Some(task) ==> exists|step: StructureStep|
            {
                &&& match task.direction {
                    StructureDirection::Forward => forward_step_spec(
                        step,
                        lines@,
                        task.next_line as int,
                        syntax,
                    ),
                    StructureDirection::Backward => backward_step_spec(
                        step,
                        lines@,
                        task.next_line as int,
                        syntax,
                    ),
                }
                &&& structure_step_applied(
                    old(state),
                    final(state),
                    task,
                    step,
                    lines@.len() as int,
                    line_count_exact,
                    done,
                )
            },
{
    let taken = state.structure_task.take();
    let task = match taken {
        None => return false,
        Some(task) => task,
    };
    let step = scan_structure_chunk(lines, task, syntax);
    if let Some(target) = step.found {
        state.structure_target = Some(target);
        state.structure_cursor = Some(target.line);
        state.search_message = None;
        assert(structure_step_applied(
            old(state),
            state,
            task,
            step,
            lines@.len() as int,
            line_count_exact,
            true,
        ));
        return true;
    }
    let next = StructureTask { direction: task.direction, next_line: step.next_line };
    let at_end = reached_structure_scan_end(lines.len(), line_count_exact, &next);
    if step.scanned == 0 || at_end {
        state.search_message = Some(no_block_message(task.direction));
        assert(structure_step_applied(
            old(state),
            state,
            task,
            step,
            lines@.len() as int,
            line_count_exact,
            true,
        ));
        return true;
    }
    state.structure_task = Some(next);
    assert(structure_step_applied(
        old(state),
        state,
        task,
        step,
        lines@.len() as int,
        line_count_exact,
        false,
    ));
    false
}

/// A forward step of a structure jump is determined by where it starts:
/// two steps that both meet `forward_step_spec` are the same step.
pub proof fn law_forward_structure_step_is_determined(
    a: StructureStep,
    b: StructureStep,
    lines: Seq<String>,
    next_line: int,
    syntax: SyntaxKind,
)
    requires
        forward_step_spec(a, lines, next_line, syntax),
        forward_step_spec(b, lines, next_line, syntax),
    ensures
        a == b,
{
    if !(lines.len() == 0 || next_line >= lines.len()) {
        match (a.found, b.found) {
            (Some(_), Some(_)) => {
                if a.scanned < b.scanned {
                    assert(!point_at(lines, syntax, next_line + (a.scanned - 1)));
                } else if b.scanned < a.scanned {
                    assert(!point_at(lines, syntax, next_line + (b.scanned - 1)));
                }
            },
            (Some(_), None) => {
                assert(!point_at(lines, syntax, next_line + (a.scanned - 1)));
            },
            (None, Some(_)) => {
                assert(!point_at(lines, syntax, next_line + (b.scanned - 1)));
            },
            (None, None) => {},
        }
    }
}

/// A backward step of a structure jump is determined by where it starts.
pub proof fn law_backward_structure_step_is_determined(
    a: StructureStep,
    b: StructureStep,
    lines: Seq<String>,
    next_line: int,
    syntax: SyntaxKind,
)
    requires
        backward_step_spec(a, lines, next_line, syntax),
        backward_step_spec(b, lines, next_line, syntax),
    ensures
        a == b,
{
    if !(lines.len() == 0 || next_line >= lines.len()) {
        match (a.found, b.found) {
            (Some(_), Some(_)) => {
                if a.scanned < b.scanned {
                    assert(!point_at(lines, syntax, next_line - (a.scanned - 1)));
                } else if b.scanned < a.scanned {
                    assert(!point_at(lines, syntax, next_line - (b.scanned - 1)));
                }
            },
            (Some(_), None) => {
                assert(!point_at(lines, syntax, next_line - (a.scanned - 1)));
            },
            (None, Some(_)) => {
                assert(!point_at(lines, syntax, next_line - (b.scanned - 1)));
            },
            (None, None) => {},
        }
    }
}

} // verus!
