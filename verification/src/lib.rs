//! Editing and canvas state for a small GPUI drawing playground, with the
//! state logic proved correct.

pub mod async_tasks;
pub mod state_management;
pub mod utf;
pub mod graphemes;
pub mod text_input;
pub mod shape;
