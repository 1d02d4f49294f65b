//! Small helpers shared by the other modules.
pub mod print;
pub mod stack;
