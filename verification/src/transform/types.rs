use vstd::prelude::*;

verus! {

/// The formats the transform engine knows.
#[derive(Debug, Clone, Copy, PartialEq, Eq, Structural)]
pub enum FormatKind {
    Auto,
    Json,
    Jsonl,
    Xml,
    Plain,
    Jinja,
}

/// What to format as, and how many spaces one indentation level takes.
#[derive(Debug, Clone, Copy, PartialEq, Eq, Structural)]
pub struct FormatOptions {
    pub kind: FormatKind,
    pub indent: usize,
}

} // verus!
