pub mod detect;
pub mod engine;
pub mod json;
pub mod types;
pub mod utf8_check;
