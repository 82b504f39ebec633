//! An interactive to-do list manager: an ordered store of tasks with unique
//! ids, a line-oriented command grammar, and a pretty-printed JSON file
//! format for persistence, each with a verified contract.

pub mod codec;
pub mod command;
pub mod digits;
pub mod errors;
pub mod store;
pub mod task;
