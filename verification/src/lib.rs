//! Core of a command-line task tracker: an in-memory task store with
//! identifier assignment, date windowing (week, month, overdue counts),
//! filtered views, a "reuse" (reschedule) operation that flattens chains
//! to their root, and a persistence codec that round-trips the collection.
pub mod codec;
pub mod date;
pub mod laws;
pub mod ops;
pub mod render;
pub mod search;
pub mod store;
pub mod task;
pub mod text;
pub mod views;

pub use date::Date;
pub use store::TaskStore;
pub use task::Task;
pub use task::TdError;

