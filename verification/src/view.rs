//! Options for the embedded record-timeline viewer.
use vstd::prelude::*;

use crate::text::push_str;

verus! {

/// Options for the embedded JSONL record-timeline viewer: the indent of each
/// formatted record, a message shown on opening, and whether newer records
/// are followed as they come.
#[derive(Debug, Clone, PartialEq, Eq)]
pub struct ViewOptions {
    pub indent: usize,
    pub notice: Option<String>,
    pub follow: bool,
}

impl Default for ViewOptions {
    /// A two-space indent, no notice, and a snapshot that is not followed.
    fn default() -> (o: Self)
        ensures
            o.indent == 2,
            o.notice is None,
            !o.follow,
    {
        ViewOptions { indent: 2, notice: None, follow: false }
    }
}

/// Why options were refused.
#[derive(Debug, Clone, PartialEq, Eq)]
pub struct OptionsError {
    pub message: String,
}

/// The smallest and largest indent a record may be formatted with.
pub const MIN_VIEW_INDENT: usize = 1;
pub const MAX_VIEW_INDENT: usize = 16;

/// Accepts an indent of 1 to 16 spaces; refuses any other, saying so.
pub fn validate_options(options: &ViewOptions) -> (r: Result<(), OptionsError>)
    ensures
        r is Ok <==> (MIN_VIEW_INDENT <= options.indent <= MAX_VIEW_INDENT),
        r matches Err(e) ==> e.message@ == "view indent must be between 1 and 16"@,
{
    if options.indent < MIN_VIEW_INDENT || options.indent > MAX_VIEW_INDENT {
        let mut message = String::new();
        push_str(&mut message, "view indent must be between 1 and 16");
        return Err(OptionsError { message });
    }
    Ok(())
}

} // verus!
