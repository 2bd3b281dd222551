//! Storage and transaction core of a small relational database engine.

pub mod buffer_pool;
pub mod checkpoint;
pub mod checksum;
pub mod clog;
pub mod codec;
pub mod config;
pub mod engine;
pub mod error;
pub mod freelist_meta;
pub mod keys;
pub mod lsn_clock;
pub mod oid;
pub mod page;
pub mod page_allocator;
pub mod recovery;
pub mod superblock;
pub mod text;
pub mod txn;
pub mod txn_id;
pub mod types;
pub mod wal;
pub mod wire;
