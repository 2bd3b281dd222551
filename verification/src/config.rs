//! Storage-layer configuration.

use vstd::prelude::*;
use vstd::string::*;

use crate::error::{Result, StorageError};
use crate::text::{decimal, parse_unsigned, parsed_unsigned, push_decimal};
use crate::types::{PAGE_SIZE, WAL_SEGMENT_SIZE};

verus! {

/// Default buffer pool capacity in bytes (128 MiB).
pub const DEFAULT_BUFFER_POOL_SIZE: usize = 134_217_728;

/// Default number of shards in the buffer pool page table.
pub const DEFAULT_BUFFER_POOL_SHARDS: usize = 256;

/// Default WAL group-commit timeout in milliseconds.
pub const DEFAULT_WAL_GROUP_COMMIT_TIMEOUT_MS: u64 = 2;

/// Default WAL group-commit batch size.
pub const DEFAULT_WAL_GROUP_COMMIT_BATCH_SIZE: usize = 64;

/// Default interval between automatic checkpoints in milliseconds; 0 disables
/// them.
pub const DEFAULT_CHECKPOINT_INTERVAL_MS: u64 = 30_000;

/// Configuration for the storage engine.
#[derive(Debug, Clone)]
pub struct StorageConfig {
    /// Directory where database files live.
    pub data_dir: String,
    /// WAL segment size in bytes.
    pub wal_segment_size: u64,
    /// Buffer pool capacity in bytes.
    pub buffer_pool_size: usize,
    /// Number of shards in the buffer pool page table.
    pub buffer_pool_shards: usize,
    /// Maximum number of WAL records to batch before fsync (group commit).
    pub wal_group_commit_batch_size: usize,
    /// Maximum milliseconds to wait before fsync (group commit).
    pub wal_group_commit_timeout_ms: u64,
    /// Interval between automatic checkpoints in milliseconds; 0 disables them.
    pub checkpoint_interval_ms: u64,
    /// Page size in bytes: [`PAGE_SIZE`], or [`StorageConfig::validate`] rejects
    /// the configuration.
    pub page_size: usize,
}

/// The values of the environment variables that override the defaults; `None`
/// for a variable that is not set.
#[derive(Debug, Clone)]
pub struct EnvOverrides {
    /// `PG_RUST_DATA_DIR`
    pub data_dir: Option<String>,
    /// `PG_RUST_BUFFER_POOL_SIZE`
    pub buffer_pool_size: Option<String>,
    /// `PG_RUST_BP_SHARDS`
    pub buffer_pool_shards: Option<String>,
    /// `PG_RUST_WAL_TIMEOUT_MS`
    pub wal_timeout_ms: Option<String>,
    /// `PG_RUST_WAL_BATCH_SIZE`
    pub wal_batch_size: Option<String>,
    /// `PG_RUST_CHECKPOINT_INTERVAL_MS`
    pub checkpoint_interval_ms: Option<String>,
}

/// What a numeric override gives: the number that the variable holds, and the
/// default where it is not set or does not hold a number of at most `max`.
pub open spec fn overridden(variable: Option<String>, default_value: nat, max: nat) -> nat {
    match variable {
        Some(text) => match parsed_unsigned(text@, max) {
            Some(value) => value,
            None => default_value,
        },
        None => default_value,
    }
}

fn override_u64(variable: &Option<String>, default_value: u64) -> (value: u64)
    ensures
        value == overridden(*variable, default_value as nat, u64::MAX as nat),
{
    match variable {
        Some(text) => match parse_unsigned(text.as_str(), u64::MAX) {
            Some(value) => value,
            None => default_value,
        },
        None => default_value,
    }
}

fn override_usize(variable: &Option<String>, default_value: usize) -> (value: usize)
    ensures
        value == overridden(*variable, default_value as nat, usize::MAX as nat),
{
    match variable {
        Some(text) => match parse_unsigned(text.as_str(), usize::MAX as u64) {
            Some(value) => value as usize,
            None => default_value,
        },
        None => default_value,
    }
}

/// The result is an `InvalidConfig` with the message `text`.
pub open spec fn rejects_config<T>(result: Result<T>, text: Seq<char>) -> bool {
    result matches Err(StorageError::InvalidConfig(message)) && message@ == text
}

impl StorageConfig {
    /// The default configuration rooted at a directory, apart from the directory.
    pub open spec fn has_defaults(&self) -> bool {
        &&& self.wal_segment_size == WAL_SEGMENT_SIZE
        &&& self.buffer_pool_size == DEFAULT_BUFFER_POOL_SIZE
        &&& self.buffer_pool_shards == DEFAULT_BUFFER_POOL_SHARDS
        &&& self.wal_group_commit_batch_size == DEFAULT_WAL_GROUP_COMMIT_BATCH_SIZE
        &&& self.wal_group_commit_timeout_ms == DEFAULT_WAL_GROUP_COMMIT_TIMEOUT_MS
        &&& self.checkpoint_interval_ms == DEFAULT_CHECKPOINT_INTERVAL_MS
        &&& self.page_size == PAGE_SIZE
    }

    /// What the engine can run with.
    pub open spec fn is_valid(&self) -> bool {
        &&& self.page_size == PAGE_SIZE
        &&& self.wal_segment_size > 0
        &&& self.buffer_pool_size > 0
        &&& self.buffer_pool_size % self.page_size == 0
        &&& self.buffer_pool_shards > 0
        &&& self.wal_group_commit_batch_size > 0
        &&& self.wal_group_commit_timeout_ms > 0
    }

    /// What is wrong with the first field that is wrong; nothing if the engine can run
    /// with the configuration.
    pub open spec fn complaint(&self) -> Seq<char> {
        if self.page_size != PAGE_SIZE {
            "page_size "@ + decimal(self.page_size as nat)
                + " does not match compile-time PAGE_SIZE "@ + decimal(PAGE_SIZE as nat)
        } else if self.wal_segment_size == 0 {
            "wal_segment_size must be > 0"@
        } else if self.buffer_pool_size == 0 || self.buffer_pool_size % self.page_size != 0 {
            "buffer_pool_size "@ + decimal(self.buffer_pool_size as nat)
                + " must be a positive multiple of page_size "@ + decimal(self.page_size as nat)
        } else if self.buffer_pool_shards == 0 {
            "buffer_pool_shards must be > 0"@
        } else if self.wal_group_commit_batch_size == 0 {
            "wal_group_commit_batch_size must be > 0"@
        } else if self.wal_group_commit_timeout_ms == 0 {
            "wal_group_commit_timeout_ms must be > 0"@
        } else {
            Seq::empty()
        }
    }

    /// What is wrong with a log whose segments have another size than configured.
    pub open spec fn size_complaint(&self, segment_size: u64) -> Seq<char> {
        "wal_segment_size "@ + decimal(self.wal_segment_size as nat)
            + " does not match segments of "@ + decimal(segment_size as nat) + " bytes"@
    }

    /// A default configuration rooted at `data_dir`.
    pub fn new(data_dir: String) -> (config: Self)
        ensures
            config.data_dir == data_dir,
            config.has_defaults(),
    {
        StorageConfig {
            data_dir,
            wal_segment_size: WAL_SEGMENT_SIZE,
            buffer_pool_size: DEFAULT_BUFFER_POOL_SIZE,
            buffer_pool_shards: DEFAULT_BUFFER_POOL_SHARDS,
            wal_group_commit_batch_size: DEFAULT_WAL_GROUP_COMMIT_BATCH_SIZE,
            wal_group_commit_timeout_ms: DEFAULT_WAL_GROUP_COMMIT_TIMEOUT_MS,
            checkpoint_interval_ms: DEFAULT_CHECKPOINT_INTERVAL_MS,
            page_size: PAGE_SIZE,
        }
    }

    /// The page size.
    pub fn page_size(&self) -> (size: usize)
        ensures
            size == self.page_size,
    {
        self.page_size
    }

    /// Rejects configurations that the engine cannot run with.
    ///
    /// The first field that is wrong, in the order below, gives the message.
    pub fn validate(&self) -> (result: Result<()>)
        ensures
            result is Ok <==> self.is_valid(),
            result is Err ==> rejects_config(result, self.complaint()),
    {
        if self.page_size != PAGE_SIZE {
            let mut message = "page_size ".to_owned();
            push_decimal(&mut message, self.page_size as u64);
            message.append(" does not match compile-time PAGE_SIZE ");
            push_decimal(&mut message, PAGE_SIZE as u64);
            return Err(StorageError::InvalidConfig(message));
        }
        if self.wal_segment_size == 0 {
            return Err(StorageError::InvalidConfig("wal_segment_size must be > 0".to_owned()));
        }
        if self.buffer_pool_size == 0 || self.buffer_pool_size % self.page_size != 0 {
            let mut message = "buffer_pool_size ".to_owned();
            push_decimal(&mut message, self.buffer_pool_size as u64);
            message.append(" must be a positive multiple of page_size ");
            push_decimal(&mut message, self.page_size as u64);
            return Err(StorageError::InvalidConfig(message));
        }
        if self.buffer_pool_shards == 0 {
            return Err(StorageError::InvalidConfig("buffer_pool_shards must be > 0".to_owned()));
        }
        if self.wal_group_commit_batch_size == 0 {
            return Err(
                StorageError::InvalidConfig("wal_group_commit_batch_size must be > 0".to_owned()),
            );
        }
        if self.wal_group_commit_timeout_ms == 0 {
            return Err(
                StorageError::InvalidConfig("wal_group_commit_timeout_ms must be > 0".to_owned()),
            );
        }
        Ok(())
    }

    /// Rejects a log whose segments have another size than configured.
    pub fn validate_segment_size(&self, segment_size: u64) -> (result: Result<()>)
        ensures
            result is Ok <==> segment_size == self.wal_segment_size,
            result is Err ==> rejects_config(result, self.size_complaint(segment_size)),
    {
        if segment_size != self.wal_segment_size {
            let mut message = "wal_segment_size ".to_owned();
            push_decimal(&mut message, self.wal_segment_size);
            message.append(" does not match segments of ");
            push_decimal(&mut message, segment_size);
            message.append(" bytes");
            return Err(StorageError::InvalidConfig(message));
        }
        Ok(())
    }

    /// The configuration that the environment gives.
    ///
    /// A variable that is not set, or does not hold a number of its field's type,
    /// leaves the default in place.
    pub fn from_env(env: &EnvOverrides) -> (config: Self)
        ensures
            config.data_dir@ == match env.data_dir {
                Some(dir) => dir@,
                None => "pg_rust_data"@,
            },
            config.page_size == PAGE_SIZE,
            config.wal_segment_size == WAL_SEGMENT_SIZE,
            config.buffer_pool_size == overridden(
                env.buffer_pool_size,
                DEFAULT_BUFFER_POOL_SIZE as nat,
                usize::MAX as nat,
            ),
            config.buffer_pool_shards == overridden(
                env.buffer_pool_shards,
                DEFAULT_BUFFER_POOL_SHARDS as nat,
                usize::MAX as nat,
            ),
            config.wal_group_commit_timeout_ms == overridden(
                env.wal_timeout_ms,
                DEFAULT_WAL_GROUP_COMMIT_TIMEOUT_MS as nat,
                u64::MAX as nat,
            ),
            config.wal_group_commit_batch_size == overridden(
                env.wal_batch_size,
                DEFAULT_WAL_GROUP_COMMIT_BATCH_SIZE as nat,
                usize::MAX as nat,
            ),
            config.checkpoint_interval_ms == overridden(
                env.checkpoint_interval_ms,
                DEFAULT_CHECKPOINT_INTERVAL_MS as nat,
                u64::MAX as nat,
            ),
    {
        let data_dir = match &env.data_dir {
            Some(dir) => dir.clone(),
            None => "pg_rust_data".to_owned(),
        };
        let mut config = Self::new(data_dir);
        config.buffer_pool_size = override_usize(&env.buffer_pool_size, config.buffer_pool_size);
        config.buffer_pool_shards = override_usize(
            &env.buffer_pool_shards,
            config.buffer_pool_shards,
        );
        config.wal_group_commit_timeout_ms = override_u64(
            &env.wal_timeout_ms,
            config.wal_group_commit_timeout_ms,
        );
        config.wal_group_commit_batch_size = override_usize(
            &env.wal_batch_size,
            config.wal_group_commit_batch_size,
        );
        config.checkpoint_interval_ms = override_u64(
            &env.checkpoint_interval_ms,
            config.checkpoint_interval_ms,
        );
        config
    }
}

impl Default for StorageConfig {
    fn default() -> (config: Self)
        ensures
            config.data_dir@ == "pg_rust_data"@,
            config.has_defaults(),
    {
        Self::new("pg_rust_data".to_owned())
    }
}

/// The default configuration is one that the engine can run with: pages of 8 KiB, segments of
/// 16 MiB, a pool of 16,384 pages, and a checkpoint every half minute.
pub proof fn defaults_are_valid(config: StorageConfig)
    requires
        config.has_defaults(),
    ensures
        config.is_valid(),
        config.page_size == 8192,
        config.wal_segment_size == 16 * 1024 * 1024,
        config.buffer_pool_size == 16_384 * config.page_size,
        config.buffer_pool_shards == 256,
        config.wal_group_commit_batch_size == 64,
        config.wal_group_commit_timeout_ms == 2,
        config.checkpoint_interval_ms == 30_000,
{
}

/// The engine can run exactly with pages of 8 KiB, a pool of one or more whole pages in one or
/// more shards, and a log whose segments, batches and timeout are not zero. Any interval
/// between checkpoints will do, and any directory.
pub proof fn pool_holds_whole_pages(config: StorageConfig, pages: int)
    ensures
        config.is_valid() ==> config.page_size == 8192 && config.buffer_pool_size == (
        config.buffer_pool_size / 8192) * 8192 && config.buffer_pool_size / 8192 > 0
            && config.buffer_pool_shards > 0 && config.wal_segment_size > 0
            && config.wal_group_commit_batch_size > 0 && config.wal_group_commit_timeout_ms > 0,
        config.page_size == 8192 && pages > 0 && config.buffer_pool_size == pages * 8192
            && config.buffer_pool_shards > 0 && config.wal_segment_size > 0
            && config.wal_group_commit_batch_size > 0 && config.wal_group_commit_timeout_ms > 0
            ==> config.is_valid(),
{
}

/// Nothing is wrong with a configuration that the engine can run with. Else the complaint is
/// about the first field that is wrong: the page size, the size of a segment, the size of the
/// pool, its shards, the size of a batch, the timeout.
pub proof fn first_wrong_field_is_named(config: StorageConfig)
    ensures
        ({
            let text = config.complaint();
            let page = config.page_size == 8192;
            let segment = config.wal_segment_size > 0;
            let pool = config.buffer_pool_size > 0 && config.buffer_pool_size % 8192 == 0;
            let shards = config.buffer_pool_shards > 0;
            let batch = config.wal_group_commit_batch_size > 0;
            &&& config.is_valid() ==> text.len() == 0
            &&& !page ==> text == "page_size "@ + decimal(config.page_size as nat)
                + " does not match compile-time PAGE_SIZE "@ + decimal(8192)
            &&& page && !segment ==> text == "wal_segment_size must be > 0"@
            &&& page && segment && !pool ==> text == "buffer_pool_size "@ + decimal(
                config.buffer_pool_size as nat,
            ) + " must be a positive multiple of page_size "@ + decimal(8192)
            &&& page && segment && pool && !shards ==> text == "buffer_pool_shards must be > 0"@
            &&& page && segment && pool && shards && !batch ==> text
                == "wal_group_commit_batch_size must be > 0"@
            &&& page && segment && pool && shards && batch && config.wal_group_commit_timeout_ms
                == 0 ==> text == "wal_group_commit_timeout_ms must be > 0"@
        }),
{
}

/// A rejected configuration gives no result.
pub proof fn rejection_is_an_error<T>(result: Result<T>, text: Seq<char>)
    requires
        rejects_config(result, text),
    ensures
        result matches Err(StorageError::InvalidConfig(message)) && message@ == text,
{
}

/// A variable that holds a number replaces the default, whatever the default is; one that is
/// not set, or holds something else, leaves it in place.
pub proof fn variables_replace_defaults(
    variable: Option<String>,
    default_value: nat,
    max: nat,
    n: nat,
)
    ensures
        variable is None ==> overridden(variable, default_value, max) == default_value,
        variable matches Some(text) ==> text@ == decimal(n) ==> overridden(
            variable,
            default_value,
            max,
        ) == if n <= max {
            n
        } else {
            default_value
        },
        variable matches Some(text) ==> text@.len() == 0 ==> overridden(
            variable,
            default_value,
            max,
        ) == default_value,
        variable matches Some(text) ==> (exists|i: int|
            0 < i < text@.len() && !('0' <= #[trigger] text@[i] <= '9')) ==> overridden(
            variable,
            default_value,
            max,
        ) == default_value,
{
    crate::wal::segment::written_number_is_parsed(n, max);
    if variable is Some {
        let text = variable->0@;
        if exists|i: int| 0 < i < text.len() && !('0' <= #[trigger] text[i] <= '9') {
            let i = choose|i: int| 0 < i < text.len() && !('0' <= #[trigger] text[i] <= '9');
            let digits = crate::text::unsigned_digits(text);
            if crate::text::all_digits(digits) {
                let k = i - (text.len() - digits.len());
                assert(digits[k] == text[i]);
                assert(crate::text::is_digit(digits[k]));
            }
        }
    }
}

} // verus!
