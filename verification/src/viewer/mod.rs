pub mod breadcrumb;
pub mod diff;
pub mod frame;
pub mod gutter;
pub mod highlight;
pub mod palette;
pub mod input;
pub mod position;
pub mod viewport;
