//! The viewer's state between frames.
use vstd::prelude::*;

verus! {

/// A position to bring into view: a line and a byte in it.
#[derive(Debug, Clone, Copy, PartialEq, Eq, Structural)]
pub struct SearchTarget {
    pub line: usize,
    pub byte_index: usize,
}

#[derive(Debug, Clone, Copy, PartialEq, Eq, Structural)]
pub enum SearchDirection {
    Forward,
    Backward,
}

/// A search in progress: what is searched for, which way, where the next
/// chunk starts, and how many lines are left to look at.
#[derive(Debug, Clone)]
pub struct SearchTask {
    pub query: String,
    pub direction: SearchDirection,
    pub next_line: usize,
    pub remaining: usize,
}

#[derive(Debug, Clone, Copy, PartialEq, Eq, Structural)]
pub enum StructureDirection {
    Forward,
    Backward,
}

/// A structure jump in progress.
#[derive(Debug, Clone, Copy, PartialEq, Eq, Structural)]
pub struct StructureTask {
    pub direction: StructureDirection,
    pub next_line: usize,
}

/// Where the viewer stands and what it is doing.
pub struct ViewState {
    pub top: usize,
    pub top_row_offset: usize,
    pub top_max_row_offset: usize,
    pub wrap_bounds_stale: bool,
    pub x: usize,
    pub wrap: bool,
    pub jump_buffer: String,
    pub search_active: bool,
    pub search_buffer: String,
    pub search_query: String,
    pub search_message: Option<String>,
    pub search_task: Option<SearchTask>,
    pub search_target: Option<SearchTarget>,
    pub search_cursor: Option<usize>,
    pub structure_task: Option<StructureTask>,
    pub structure_target: Option<SearchTarget>,
    pub structure_cursor: Option<usize>,
}

impl ViewState {
    /// The state a viewer opens with: at the top, wrapping, nothing pending.
    pub fn new() -> (s: Self)
        ensures
            s.top == 0,
            s.top_row_offset == 0,
            s.top_max_row_offset == 0,
            !s.wrap_bounds_stale,
            s.x == 0,
            s.wrap,
            s.jump_buffer@.len() == 0,
            !s.search_active,
            s.search_buffer@.len() == 0,
            s.search_query@.len() == 0,
            s.search_message is None,
            s.search_task is None,
            s.search_target is None,
            s.search_cursor is None,
            s.structure_task is None,
            s.structure_target is None,
            s.structure_cursor is None,
    {
        ViewState {
            top: 0,
            top_row_offset: 0,
            top_max_row_offset: 0,
            wrap_bounds_stale: false,
            x: 0,
            wrap: true,
            jump_buffer: String::new(),
            search_active: false,
            search_buffer: String::new(),
            search_query: String::new(),
            search_message: None,
            search_task: None,
            search_target: None,
            search_cursor: None,
            structure_task: None,
            structure_target: None,
            structure_cursor: None,
        }
    }

    /// Whether a prompt (search text or a line number) is being typed.
    pub fn has_active_prompt(&self) -> (r: bool)
        ensures
            r == (self.search_active || self.jump_buffer@.len() > 0),
    {
        self.search_active || !self.jump_buffer.as_str().is_empty()
    }
}

/// `a` and `b` stand at the same line and row.
pub open spec fn same_position(a: &ViewState, b: &ViewState) -> bool {
    &&& a.top == b.top
    &&& a.top_row_offset == b.top_row_offset
    &&& a.top_max_row_offset == b.top_max_row_offset
    &&& a.wrap_bounds_stale == b.wrap_bounds_stale
}

/// `a` and `b` have the same search prompt, query, message and search.
pub open spec fn same_search(a: &ViewState, b: &ViewState) -> bool {
    &&& a.search_active == b.search_active
    &&& a.search_buffer@ == b.search_buffer@
    &&& a.search_query@ == b.search_query@
    &&& a.search_message == b.search_message
    &&& a.search_task == b.search_task
    &&& a.search_target == b.search_target
    &&& a.search_cursor == b.search_cursor
}

/// `a` and `b` have the same structure navigation.
pub open spec fn same_structure(a: &ViewState, b: &ViewState) -> bool {
    &&& a.structure_task == b.structure_task
    &&& a.structure_target == b.structure_target
    &&& a.structure_cursor == b.structure_cursor
}

/// What handling events asks of the loop: redraw, quit.
#[derive(Debug, Clone, Copy, PartialEq, Eq, Structural)]
pub struct EventAction {
    pub dirty: bool,
    pub quit: bool,
}

impl EventAction {
    pub fn none() -> (a: Self)
        ensures
            !a.dirty && !a.quit,
    {
        EventAction { dirty: false, quit: false }
    }

    /// Combines two actions: redraw or quit if either asks for it.
    pub fn merge(&mut self, next: Self)
        ensures
            final(self).dirty == (old(self).dirty || next.dirty),
            final(self).quit == (old(self).quit || next.quit),
    {
        self.dirty = self.dirty || next.dirty;
        self.quit = self.quit || next.quit;
    }
}

} // verus!
