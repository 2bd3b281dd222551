//! Write-ahead log (WAL).

pub mod durable;
pub mod image;
pub mod log;
pub mod reader;
pub mod record;
pub mod segment;
pub mod writer;
