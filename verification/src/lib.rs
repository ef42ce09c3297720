//! An in-process cache for task records managed by an external task-tracking
//! tool. One bulk query populates the cache, local reads and mutations follow,
//! and one bulk save flushes the changes back; dirty-tracking keeps the save
//! batch to exactly the entries that were touched.

pub mod cache;
pub mod dirtyset;
pub mod error;
pub mod task;
