use std::io;

use pg_rust::config::{
    EnvOverrides, StorageConfig, DEFAULT_BUFFER_POOL_SIZE, DEFAULT_CHECKPOINT_INTERVAL_MS,
};
use pg_rust::error::StorageError;
use pg_rust::types::{PAGE_SIZE, WAL_SEGMENT_SIZE};

#[test]
fn default_config_uses_expected_constants() {
    let cfg = StorageConfig::default();
    assert_eq!(cfg.page_size(), PAGE_SIZE);
    assert_eq!(cfg.wal_segment_size, WAL_SEGMENT_SIZE);
    assert_eq!(cfg.buffer_pool_size, DEFAULT_BUFFER_POOL_SIZE);
    assert_eq!(cfg.buffer_pool_shards, 256);
    assert_eq!(cfg.checkpoint_interval_ms, DEFAULT_CHECKPOINT_INTERVAL_MS);
}

#[test]
fn default_config_validates() {
    let cfg = StorageConfig::default();
    assert!(cfg.validate().is_ok());
}

#[test]
fn invalid_buffer_pool_size_fails_validation() {
    let cfg = StorageConfig {
        buffer_pool_size: 100,
        ..Default::default()
    };
    assert!(cfg.validate().is_err());
}

#[test]
fn zero_shards_fails_validation() {
    let cfg = StorageConfig {
        buffer_pool_shards: 0,
        ..Default::default()
    };
    assert!(cfg.validate().is_err());
}

#[test]
fn zero_group_commit_timeout_fails_validation() {
    let cfg = StorageConfig {
        wal_group_commit_timeout_ms: 0,
        ..Default::default()
    };
    assert!(cfg.validate().is_err());
}

#[test]
fn zero_batch_size_fails_validation() {
    let cfg = StorageConfig {
        wal_group_commit_batch_size: 0,
        ..Default::default()
    };
    assert!(cfg.validate().is_err());
}

#[test]
fn io_error_converts() {
    let io_err = io::Error::new(io::ErrorKind::NotFound, "file gone");
    let storage_err: StorageError = io_err.into();
    assert!(matches!(storage_err, StorageError::Io(_)));
}

fn complaint(change: fn(&mut StorageConfig)) -> String {
    let mut cfg = StorageConfig::new("/db".to_string());
    assert_eq!(cfg.data_dir, "/db");
    change(&mut cfg);
    match cfg.validate() {
        Err(StorageError::InvalidConfig(message)) => message,
        other => panic!("{other:?}"),
    }
}

#[test]
fn validation_names_the_wrong_field() {
    assert_eq!(
        complaint(|c| c.page_size = 4096),
        "page_size 4096 does not match compile-time PAGE_SIZE 8192"
    );
    assert_eq!(
        complaint(|c| c.wal_segment_size = 0),
        "wal_segment_size must be > 0"
    );
    assert_eq!(
        complaint(|c| c.buffer_pool_size = 100),
        "buffer_pool_size 100 must be a positive multiple of page_size 8192"
    );
    assert_eq!(
        complaint(|c| c.buffer_pool_shards = 0),
        "buffer_pool_shards must be > 0"
    );
    assert_eq!(
        complaint(|c| c.wal_group_commit_batch_size = 0),
        "wal_group_commit_batch_size must be > 0"
    );
    assert_eq!(
        complaint(|c| c.wal_group_commit_timeout_ms = 0),
        "wal_group_commit_timeout_ms must be > 0"
    );
}

#[test]
fn environment_overrides_defaults() {
    let none = EnvOverrides {
        data_dir: None,
        buffer_pool_size: None,
        buffer_pool_shards: None,
        wal_timeout_ms: None,
        wal_batch_size: None,
        checkpoint_interval_ms: None,
    };
    let cfg = StorageConfig::from_env(&none);
    assert_eq!(cfg.data_dir, "pg_rust_data");
    assert_eq!(cfg.checkpoint_interval_ms, 30_000);

    let env = EnvOverrides {
        data_dir: Some("/srv".to_string()),
        buffer_pool_size: Some("65536".to_string()),
        buffer_pool_shards: Some("x".to_string()),
        wal_timeout_ms: Some("+7".to_string()),
        wal_batch_size: Some("-1".to_string()),
        checkpoint_interval_ms: Some("99999999999999999999".to_string()),
    };
    let cfg = StorageConfig::from_env(&env);
    assert_eq!(cfg.data_dir, "/srv");
    assert_eq!(cfg.buffer_pool_size, 65_536);
    assert_eq!(cfg.buffer_pool_shards, 256);
    assert_eq!(cfg.wal_group_commit_timeout_ms, 7);
    assert_eq!(cfg.wal_group_commit_batch_size, 64);
    assert_eq!(cfg.checkpoint_interval_ms, 30_000);
}
