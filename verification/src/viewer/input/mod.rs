pub mod blocks;
pub mod events;
pub mod jump;
pub mod keys;
pub mod points;
pub mod scroll;
pub mod search;
pub mod state;
pub mod structure;
