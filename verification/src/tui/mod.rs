pub mod scroll;
pub mod wrap;
pub mod ansi;
