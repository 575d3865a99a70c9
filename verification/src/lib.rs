use vstd::prelude::*;

pub mod bytes;
pub mod cyclic;
pub mod decimal;
pub mod text;
pub mod transform;
pub mod tui;
pub mod view;
pub mod viewer;

verus! {

} // verus!
