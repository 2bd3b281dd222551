//! Transactions: commit log, snapshots and visibility, locks.

pub mod clog_buffer;
pub mod clog_file;
pub mod clog_mem;
pub mod lock_manager;
pub mod manager;
pub mod redo;
pub mod snapshot;
pub mod visibility;
