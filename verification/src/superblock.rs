//! Database superblock.
//!
//! The superblock is the anchor of recovery: checkpoint LSN, next page ID, next
//! transaction ID, next OID. Its file holds two copies, A and B, of 512 bytes
//! each. An update goes to the inactive copy; the copy with the higher
//! checkpoint LSN among the undamaged ones is the active one. A torn update so
//! leaves the previous superblock in place.
//!
//! Layout of a copy (little-endian):
//!
//! ```text
//! 0..4 magic | 4..8 version | 8..12 page size | 12..16 zero
//! 16..24 checkpoint LSN | 24..32 next page | 32..40 next transaction
//! version 2: 40..48 next OID | 48..56 creation time | 56..60 CRC of the rest
//! version 1: 40..48 creation time | 48..52 CRC of the rest
//! ```
//!
//! Reading a file with a copy of version 1 migrates it: both copies are then
//! rewritten in version 2.

use vstd::bytes::*;
use vstd::prelude::*;
use vstd::slice::*;
use vstd::string::*;

use crate::checksum::{crc32, crc32_of_parts};
use crate::codec::{
    le_u32, le_u64, patched, push_bytes, push_u32, push_u64, push_zeros, read_u32, read_u64, zeros,
};
use crate::error::{Result, StorageError};
use crate::text::{
    decimal, hexadecimal, join_path, joined_path, push_decimal, push_hexadecimal,
};
use crate::types::{Lsn, Oid, PageId, TxnId};

verus! {

/// Magic number of superblocks: "PGRS".
pub const SUPERBLOCK_MAGIC: u32 = 0x5047_5253;

/// Format version that is written.
pub const SUPERBLOCK_VERSION: u32 = 2;

/// Older format version, without a next OID.
pub const SUPERBLOCK_VERSION_V1: u32 = 1;

/// Size of one copy in bytes.
pub const SUPERBLOCK_SIZE: usize = 512;

/// Size of the file: two copies.
pub const SUPERBLOCK_FILE_SIZE: usize = 1024;

/// Database superblock.
#[derive(Debug, Clone, Copy, PartialEq, Eq, Structural)]
pub struct Superblock {
    /// Format version.
    pub version: u32,
    /// Page size in bytes.
    pub page_size: u32,
    /// LSN of the most recent successful checkpoint (its `CheckpointBegin`).
    pub checkpoint_lsn: Lsn,
    /// Next page ID to allocate.
    pub next_page_id: PageId,
    /// Next transaction ID to allocate.
    pub next_txn_id: TxnId,
    /// Next OID to allocate.
    pub next_oid: Oid,
    /// Creation time of the database (Unix epoch nanoseconds).
    pub created_at: u64,
}

/// What the superblock file says.
#[derive(Debug, Clone, Copy, PartialEq, Eq, Structural)]
pub struct SuperblockRead {
    /// The active copy.
    pub superblock: Superblock,
    /// Where the active copy stands: 0 or [`SUPERBLOCK_SIZE`].
    pub active_offset: usize,
    /// Whether some undamaged copy is of version 1, so that the file is to be
    /// rewritten with [`Superblock::migrated_file`].
    pub needs_migration: bool,
}

/// A copy to be written into the superblock file.
#[derive(Debug, Clone, PartialEq, Eq)]
pub struct CopyWrite {
    /// Where the copy goes: 0 or [`SUPERBLOCK_SIZE`].
    pub offset: usize,
    /// The bytes of the copy.
    pub bytes: Vec<u8>,
}

impl Superblock {
    /// The fields in front of the checksum.
    pub open spec fn head(self) -> Seq<u8> {
        spec_u32_to_le_bytes(SUPERBLOCK_MAGIC) + spec_u32_to_le_bytes(self.version)
            + spec_u32_to_le_bytes(self.page_size) + spec_u32_to_le_bytes(0)
            + spec_u64_to_le_bytes(self.checkpoint_lsn.0) + spec_u64_to_le_bytes(
            self.next_page_id.0,
        ) + spec_u64_to_le_bytes(self.next_txn_id.0) + spec_u64_to_le_bytes(self.next_oid.0)
            + spec_u64_to_le_bytes(self.created_at)
    }

    /// The bytes of a copy.
    pub open spec fn copy_bytes(self) -> Seq<u8> {
        self.head() + spec_u32_to_le_bytes(crc32(self.head() + zeros(452))) + zeros(452)
    }

    /// A file with this superblock in both copies.
    pub open spec fn file_bytes(self) -> Seq<u8> {
        self.copy_bytes() + self.copy_bytes()
    }
}

/// The checksum of a version 1 copy is that of the rest of the copy.
pub open spec fn v1_checksum_holds(s: Seq<u8>) -> bool {
    le_u32(s, 48) == crc32(s.subrange(0, 48) + s.subrange(52, 512))
}

/// The checksum of a version 2 copy is that of the rest of the copy.
pub open spec fn v2_checksum_holds(s: Seq<u8>) -> bool {
    le_u32(s, 56) == crc32(s.subrange(0, 56) + s.subrange(60, 512))
}

/// What is wrong with a copy; `None` for an undamaged one.
pub open spec fn copy_fault(s: Seq<u8>) -> Option<Seq<char>> {
    if s.len() != SUPERBLOCK_SIZE {
        Some("superblock copy has wrong size"@)
    } else if le_u32(s, 0) != SUPERBLOCK_MAGIC {
        Some("bad magic: expected 0x50475253, got 0x"@ + hexadecimal(le_u32(s, 0) as nat))
    } else if le_u32(s, 4) == SUPERBLOCK_VERSION_V1 {
        if v1_checksum_holds(s) {
            None
        } else {
            Some("checksum mismatch"@)
        }
    } else if !v2_checksum_holds(s) {
        Some("checksum mismatch"@)
    } else if le_u32(s, 4) != SUPERBLOCK_VERSION {
        Some("unsupported version "@ + decimal(le_u32(s, 4) as nat))
    } else {
        None
    }
}

/// Whether an undamaged copy is of version 1.
pub open spec fn is_v1_copy(s: Seq<u8>) -> bool {
    copy_fault(s) is None && le_u32(s, 4) == SUPERBLOCK_VERSION_V1
}

/// What an undamaged copy says; a copy of version 1 is raised to version 2 and
/// gets the first user OID as its next OID.
pub open spec fn copy_value(s: Seq<u8>) -> Superblock {
    let v1 = le_u32(s, 4) == SUPERBLOCK_VERSION_V1;
    Superblock {
        version: SUPERBLOCK_VERSION,
        page_size: le_u32(s, 8),
        checkpoint_lsn: Lsn(le_u64(s, 16)),
        next_page_id: PageId(le_u64(s, 24)),
        next_txn_id: TxnId(le_u64(s, 32)),
        next_oid: if v1 {
            Oid::first_user()
        } else {
            Oid(le_u64(s, 40))
        },
        created_at: if v1 {
            le_u64(s, 40)
        } else {
            le_u64(s, 48)
        },
    }
}

/// Copy A of a file.
pub open spec fn copy_a(file: Seq<u8>) -> Seq<u8> {
    file.subrange(0, 512)
}

/// Copy B of a file.
pub open spec fn copy_b(file: Seq<u8>) -> Seq<u8> {
    file.subrange(512, 1024)
}

/// Copy B is the active one: it is undamaged, and copy A is damaged or older.
pub open spec fn b_is_active(file: Seq<u8>) -> bool {
    copy_fault(copy_b(file)) is None && (copy_fault(copy_a(file)) is Some || copy_value(
        copy_b(file),
    ).checkpoint_lsn.0 > copy_value(copy_a(file)).checkpoint_lsn.0)
}

/// At least one copy is undamaged.
pub open spec fn is_readable(file: Seq<u8>) -> bool {
    copy_fault(copy_a(file)) is None || copy_fault(copy_b(file)) is None
}

/// The message for a file with two damaged copies.
pub open spec fn unreadable_text(file: Seq<u8>) -> Seq<char> {
    "both copies are corrupted: copy A: metadata corrupted: "@ + copy_fault(copy_a(file))->0
        + "; copy B: metadata corrupted: "@ + copy_fault(copy_b(file))->0
}

/// What a readable file says.
pub open spec fn file_value(file: Seq<u8>) -> Superblock {
    if b_is_active(file) {
        copy_value(copy_b(file))
    } else {
        copy_value(copy_a(file))
    }
}

/// Where the active copy of a readable file stands.
pub open spec fn active_at(file: Seq<u8>) -> int {
    if b_is_active(file) {
        512
    } else {
        0
    }
}

/// Some undamaged copy is of version 1.
pub open spec fn file_needs_migration(file: Seq<u8>) -> bool {
    is_v1_copy(copy_a(file)) || is_v1_copy(copy_b(file))
}

/// The file after the writes `writes`, in order.
pub open spec fn written(file: Seq<u8>, writes: Seq<CopyWrite>) -> Seq<u8>
    decreases writes.len(),
{
    if writes.len() == 0 {
        file
    } else {
        patched(written(file, writes.drop_last()), writes.last().offset as int, writes.last().bytes@)
    }
}

/// The file as the migration leaves it: both copies of version 2.
pub open spec fn after_migration(file: Seq<u8>) -> Seq<u8> {
    if file_needs_migration(file) {
        file_value(file).file_bytes()
    } else {
        file
    }
}

/// The file with `sb` in the copy that is not active.
pub open spec fn with_inactive(file: Seq<u8>, sb: Superblock) -> Seq<u8> {
    if b_is_active(file) {
        sb.copy_bytes() + copy_b(file)
    } else {
        copy_a(file) + sb.copy_bytes()
    }
}

/// A copy reads back what was written into it.
pub proof fn copy_reads_back(sb: Superblock)
    requires
        sb.version == SUPERBLOCK_VERSION,
    ensures
        copy_fault(sb.copy_bytes()) is None,
        copy_value(sb.copy_bytes()) == sb,
        sb.copy_bytes().len() == SUPERBLOCK_SIZE,
        !is_v1_copy(sb.copy_bytes()),
{
    copy_len(sb);
    lemma_auto_spec_u64_to_from_le_bytes();
    lemma_auto_spec_u32_to_from_le_bytes();
    let s = sb.copy_bytes();
    assert(s.subrange(0, 4) =~= spec_u32_to_le_bytes(SUPERBLOCK_MAGIC));
    assert(s.subrange(4, 8) =~= spec_u32_to_le_bytes(sb.version));
    assert(s.subrange(8, 12) =~= spec_u32_to_le_bytes(sb.page_size));
    assert(s.subrange(16, 24) =~= spec_u64_to_le_bytes(sb.checkpoint_lsn.0));
    assert(s.subrange(24, 32) =~= spec_u64_to_le_bytes(sb.next_page_id.0));
    assert(s.subrange(32, 40) =~= spec_u64_to_le_bytes(sb.next_txn_id.0));
    assert(s.subrange(40, 48) =~= spec_u64_to_le_bytes(sb.next_oid.0));
    assert(s.subrange(48, 56) =~= spec_u64_to_le_bytes(sb.created_at));
    assert(s.subrange(56, 60) =~= spec_u32_to_le_bytes(crc32(sb.head() + zeros(452))));
    assert(s.subrange(0, 56) =~= sb.head());
    assert(s.subrange(60, 512) =~= zeros(452));
}

proof fn copy_len(sb: Superblock)
    ensures
        sb.head().len() == 56,
        sb.copy_bytes().len() == SUPERBLOCK_SIZE,
{
    lemma_auto_spec_u64_to_from_le_bytes();
    lemma_auto_spec_u32_to_from_le_bytes();
}

/// A new superblock file reads back, needs no migration, and has copy A active.
pub proof fn created_file_reads_back(sb: Superblock)
    requires
        sb.version == SUPERBLOCK_VERSION,
    ensures
        is_readable(sb.file_bytes()),
        file_value(sb.file_bytes()) == sb,
        active_at(sb.file_bytes()) == 0,
        !file_needs_migration(sb.file_bytes()),
{
    copy_reads_back(sb);
    assert(copy_a(sb.file_bytes()) =~= sb.copy_bytes());
    assert(copy_b(sb.file_bytes()) =~= sb.copy_bytes());
}

/// An update with a higher checkpoint LSN is what the next read gives, and it
/// leaves the copy that was active untouched.
pub proof fn update_reads_back(file: Seq<u8>, sb: Superblock)
    requires
        file.len() == SUPERBLOCK_FILE_SIZE,
        is_readable(file),
        sb.version == SUPERBLOCK_VERSION,
        sb.checkpoint_lsn.0 > file_value(file).checkpoint_lsn.0,
    ensures
        is_readable(with_inactive(file, sb)),
        file_value(with_inactive(file, sb)) == sb,
        active_at(with_inactive(file, sb)) == 512 - active_at(file),
        b_is_active(file) ==> copy_b(with_inactive(file, sb)) == copy_b(file),
        !b_is_active(file) ==> copy_a(with_inactive(file, sb)) == copy_a(file),
{
    copy_reads_back(sb);
    let after = with_inactive(file, sb);
    if b_is_active(file) {
        assert(copy_a(after) =~= sb.copy_bytes());
        assert(copy_b(after) =~= copy_b(file));
    } else {
        assert(copy_a(after) =~= copy_a(file));
        assert(copy_b(after) =~= sb.copy_bytes());
    }
}

/// The same holds where the update comes with a migration.
pub proof fn update_after_migration_reads_back(file: Seq<u8>, sb: Superblock)
    requires
        file.len() == SUPERBLOCK_FILE_SIZE,
        is_readable(file),
        file_needs_migration(file),
        sb.version == SUPERBLOCK_VERSION,
        sb.checkpoint_lsn.0 > file_value(file).checkpoint_lsn.0,
    ensures
        ({
            let after = patched(after_migration(file), 512 - active_at(file), sb.copy_bytes());
            is_readable(after) && file_value(after) == sb && !file_needs_migration(after)
        }),
{
    let old_value = file_value(file);
    copy_reads_back(sb);
    copy_reads_back(old_value);
    let after = patched(after_migration(file), 512 - active_at(file), sb.copy_bytes());
    if b_is_active(file) {
        assert(copy_a(after) =~= sb.copy_bytes());
        assert(copy_b(after) =~= old_value.copy_bytes());
    } else {
        assert(copy_a(after) =~= old_value.copy_bytes());
        assert(copy_b(after) =~= sb.copy_bytes());
    }
}

/// A torn update does no harm: whatever damaged bytes stand in the inactive
/// copy, the file still says what it said.
pub proof fn torn_update_is_harmless(file: Seq<u8>, torn: Seq<u8>)
    requires
        file.len() == SUPERBLOCK_FILE_SIZE,
        is_readable(file),
        torn.len() == SUPERBLOCK_SIZE,
        copy_fault(torn) is Some,
    ensures
        ({
            let after = if b_is_active(file) {
                torn + copy_b(file)
            } else {
                copy_a(file) + torn
            };
            is_readable(after) && file_value(after) == file_value(file) && active_at(after)
                == active_at(file)
        }),
{
    if b_is_active(file) {
        let after = torn + copy_b(file);
        assert(copy_a(after) =~= torn);
        assert(copy_b(after) =~= copy_b(file));
    } else {
        let after = copy_a(file) + torn;
        assert(copy_a(after) =~= copy_a(file));
        assert(copy_b(after) =~= torn);
    }
}

/// The migration keeps what the file says and is needed only once.
pub proof fn migration_runs_once(file: Seq<u8>)
    requires
        file.len() == SUPERBLOCK_FILE_SIZE,
        is_readable(file),
    ensures
        is_readable(after_migration(file)),
        file_value(after_migration(file)) == file_value(file),
        !file_needs_migration(after_migration(file)),
{
    if file_needs_migration(file) {
        created_file_reads_back(file_value(file));
    }
}

/// The most recent undamaged copy counts: of two, the one with the higher checkpoint LSN, and
/// the first if they are alike; a damaged one never does.
pub proof fn newest_undamaged_copy_counts(file: Seq<u8>)
    ensures
        ({
            let a = file.subrange(0, 512);
            let b = file.subrange(512, 1024);
            let a_lsn = copy_value(a).checkpoint_lsn.0;
            let b_lsn = copy_value(b).checkpoint_lsn.0;
            &&& is_readable(file) <==> copy_fault(a) is None || copy_fault(b) is None
            &&& copy_fault(a) is None && copy_fault(b) is Some ==> file_value(file) == copy_value(
                a,
            ) && active_at(file) == 0
            &&& copy_fault(a) is Some && copy_fault(b) is None ==> file_value(file) == copy_value(
                b,
            ) && active_at(file) == 512
            &&& copy_fault(a) is None && copy_fault(b) is None && a_lsn >= b_lsn ==> file_value(
                file,
            ) == copy_value(a) && active_at(file) == 0
            &&& copy_fault(a) is None && copy_fault(b) is None && a_lsn < b_lsn ==> file_value(
                file,
            ) == copy_value(b) && active_at(file) == 512
            &&& file_needs_migration(file) <==> copy_fault(a) is None && le_u32(a, 4) == 1
                || copy_fault(b) is None && le_u32(b, 4) == 1
        }),
{
}

/// A copy is undamaged exactly if it has the right size and magic number, is of version 1 or
/// 2, and its checksum is that of all its other bytes.
pub proof fn undamaged_copy_has_its_checksum(s: Seq<u8>)
    ensures
        copy_fault(s) is None <==> s.len() == 512 && le_u32(s, 0) == 0x50475253 && (le_u32(s, 4)
            == 1 && le_u32(s, 48) == crc32(s.subrange(0, 48) + s.subrange(52, 512)) || le_u32(s, 4)
            == 2 && le_u32(s, 56) == crc32(s.subrange(0, 56) + s.subrange(60, 512))),
{
}

/// Where the fields of a copy stand. A copy of version 1 has no OID, for which the first one
/// for users stands, and its creation time in the place of it.
pub proof fn copy_fields_have_their_places(s: Seq<u8>)
    ensures
        ({
            let sb = copy_value(s);
            &&& sb.version == 2
            &&& sb.page_size == le_u32(s, 8)
            &&& sb.checkpoint_lsn.0 == le_u64(s, 16)
            &&& sb.next_page_id.0 == le_u64(s, 24)
            &&& sb.next_txn_id.0 == le_u64(s, 32)
            &&& le_u32(s, 4) == 1 ==> sb.next_oid.0 == 16384 && sb.created_at == le_u64(s, 40)
            &&& le_u32(s, 4) != 1 ==> sb.next_oid.0 == le_u64(s, 40) && sb.created_at == le_u64(
                s,
                48,
            )
        }),
{
}

impl Superblock {
    /// A fresh superblock for a new database.
    pub fn new(page_size: u32, created_at: u64) -> (sb: Self)
        ensures
            sb == (Superblock {
                version: SUPERBLOCK_VERSION,
                page_size,
                checkpoint_lsn: Lsn::invalid(),
                next_page_id: PageId::first(),
                next_txn_id: TxnId::first(),
                next_oid: Oid::first_user(),
                created_at,
            }),
    {
        Superblock {
            version: SUPERBLOCK_VERSION,
            page_size,
            checkpoint_lsn: Lsn::invalid(),
            next_page_id: PageId::first(),
            next_txn_id: TxnId::first(),
            next_oid: Oid::first_user(),
            created_at,
        }
    }

    /// The path of the superblock file inside `data_dir`.
    pub fn path(data_dir: &str) -> (path: String)
        ensures
            path@ == joined_path(data_dir@, "superblock"@),
    {
        proof {
            reveal_strlit("superblock");
        }
        join_path(data_dir, "superblock")
    }

    /// The superblock of a new database, and the bytes of its file: two identical
    /// copies.
    pub fn create(page_size: u32, created_at: u64) -> (created: (Self, Vec<u8>))
        ensures
            created.0.version == SUPERBLOCK_VERSION,
            created.0.page_size == page_size,
            created.0.checkpoint_lsn == Lsn::invalid(),
            created.0.next_page_id == PageId::first(),
            created.0.next_txn_id == TxnId::first(),
            created.0.next_oid == Oid::first_user(),
            created.0.created_at == created_at,
            created.1@ == created.0.file_bytes(),
    {
        let sb = Self::new(page_size, created_at);
        let file = sb.migrated_file();
        (sb, file)
    }

    /// The bytes of a file with this superblock in both copies.
    pub fn migrated_file(&self) -> (file: Vec<u8>)
        ensures
            file@ == self.file_bytes(),
    {
        let mut file = self.encode();
        let second = self.encode();
        push_bytes(&mut file, second.as_slice());
        file
    }

    /// The bytes of one copy.
    pub fn encode(&self) -> (bytes: Vec<u8>)
        ensures
            bytes@ == self.copy_bytes(),
    {
        let mut head: Vec<u8> = Vec::new();
        push_u32(&mut head, SUPERBLOCK_MAGIC);
        push_u32(&mut head, self.version);
        push_u32(&mut head, self.page_size);
        push_u32(&mut head, 0);
        push_u64(&mut head, self.checkpoint_lsn.0);
        push_u64(&mut head, self.next_page_id.0);
        push_u64(&mut head, self.next_txn_id.0);
        push_u64(&mut head, self.next_oid.0);
        push_u64(&mut head, self.created_at);
        assert(head@ =~= self.head());
        proof {
            copy_len(*self);
        }
        let mut tail: Vec<u8> = Vec::new();
        push_zeros(&mut tail, 452);
        assert(tail@ =~= zeros(452));
        let crc: u32 = crc32_of_parts(head.as_slice(), tail.as_slice());
        let mut bytes: Vec<u8> = head;
        push_u32(&mut bytes, crc);
        push_bytes(&mut bytes, tail.as_slice());
        assert(bytes@ =~= self.copy_bytes());
        bytes
    }

    /// Reads one copy: its superblock, and whether it is of version 1.
    /// `MetadataCorrupted` says what is wrong with a damaged copy.
    pub fn decode(bytes: &[u8]) -> (result: Result<(Self, bool)>)
        ensures
            match copy_fault(bytes@) {
                None => result == Ok::<(Self, bool), StorageError>(
                    (copy_value(bytes@), is_v1_copy(bytes@)),
                ),
                Some(fault) => result matches Err(StorageError::MetadataCorrupted(message))
                    && message@ == fault,
            },
    {
        if bytes.len() != SUPERBLOCK_SIZE {
            return Err(StorageError::MetadataCorrupted("superblock copy has wrong size".to_owned()));
        }
        let magic: u32 = read_u32(bytes, 0);
        if magic != SUPERBLOCK_MAGIC {
            let mut message = "bad magic: expected 0x50475253, got 0x".to_owned();
            push_hexadecimal(&mut message, magic as u64);
            return Err(StorageError::MetadataCorrupted(message));
        }
        let version: u32 = read_u32(bytes, 4);
        let v1: bool = version == SUPERBLOCK_VERSION_V1;
        let crc_at: usize = if v1 {
            48
        } else {
            56
        };
        let stored: u32 = read_u32(bytes, crc_at);
        let head = slice_subrange(bytes, 0, crc_at);
        let tail = slice_subrange(bytes, crc_at + 4, SUPERBLOCK_SIZE);
        if crc32_of_parts(head, tail) != stored {
            return Err(StorageError::MetadataCorrupted("checksum mismatch".to_owned()));
        }
        if !v1 && version != SUPERBLOCK_VERSION {
            let mut message = "unsupported version ".to_owned();
            push_decimal(&mut message, version as u64);
            return Err(StorageError::MetadataCorrupted(message));
        }
        let sb = Superblock {
            version: SUPERBLOCK_VERSION,
            page_size: read_u32(bytes, 8),
            checkpoint_lsn: Lsn(read_u64(bytes, 16)),
            next_page_id: PageId(read_u64(bytes, 24)),
            next_txn_id: TxnId(read_u64(bytes, 32)),
            next_oid: if v1 {
                Oid::first_user()
            } else {
                Oid(read_u64(bytes, 40))
            },
            created_at: if v1 {
                read_u64(bytes, 40)
            } else {
                read_u64(bytes, 48)
            },
        };
        Ok((sb, v1))
    }

    /// Reads the contents of the superblock file: the most recent undamaged copy.
    ///
    /// `MetadataCorrupted` if both copies are damaged.
    pub fn read(file: &[u8]) -> (result: Result<SuperblockRead>)
        requires
            file@.len() == SUPERBLOCK_FILE_SIZE,
        ensures
            is_readable(file@) ==> (result matches Ok(read) && read.superblock == file_value(file@)
                && read.active_offset == active_at(file@) && read.needs_migration
                == file_needs_migration(file@)),
            !is_readable(file@) ==> (result matches Err(StorageError::MetadataCorrupted(message))
                && message@ == unreadable_text(file@)),
    {
        let a = Self::decode(slice_subrange(file, 0, SUPERBLOCK_SIZE));
        let b = Self::decode(slice_subrange(file, SUPERBLOCK_SIZE, SUPERBLOCK_FILE_SIZE));
        match (a, b) {
            (Ok((a, a_v1)), Ok((b, b_v1))) => if b.checkpoint_lsn.0 > a.checkpoint_lsn.0 {
                Ok(
                    SuperblockRead {
                        superblock: b,
                        active_offset: SUPERBLOCK_SIZE,
                        needs_migration: a_v1 || b_v1,
                    },
                )
            } else {
                Ok(
                    SuperblockRead {
                        superblock: a,
                        active_offset: 0,
                        needs_migration: a_v1 || b_v1,
                    },
                )
            },
            (Ok((a, a_v1)), Err(_)) => Ok(
                SuperblockRead { superblock: a, active_offset: 0, needs_migration: a_v1 },
            ),
            (Err(_), Ok((b, b_v1))) => Ok(
                SuperblockRead {
                    superblock: b,
                    active_offset: SUPERBLOCK_SIZE,
                    needs_migration: b_v1,
                },
            ),
            (Err(a), Err(b)) => {
                let mut message = "both copies are corrupted: copy A: metadata corrupted: ".to_owned();
                if let StorageError::MetadataCorrupted(fault) = a {
                    message.append(fault.as_str());
                }
                message.append("; copy B: metadata corrupted: ");
                if let StorageError::MetadataCorrupted(fault) = b {
                    message.append(fault.as_str());
                }
                Err(StorageError::MetadataCorrupted(message))
            },
        }
    }

    /// The writes that put this superblock into the file whose contents are
    /// `current`; `None` stands for a file that cannot be read.
    ///
    /// Where the file holds no undamaged copy, both copies are written. Otherwise
    /// the inactive copy is, after a migration where one is due. The checkpoint
    /// LSN must grow: `CheckpointFailed` if it does not.
    pub fn write(&self, current: Option<&[u8]>) -> (result: Result<Vec<CopyWrite>>)
        requires
            current matches Some(file) ==> file@.len() == SUPERBLOCK_FILE_SIZE,
        ensures
            match current {
                Some(file) => if !is_readable(file@) {
                    result matches Ok(writes) && written(file@, writes@) == self.file_bytes()
                } else if self.checkpoint_lsn.0 <= file_value(file@).checkpoint_lsn.0 {
                    result matches Err(StorageError::CheckpointFailed(message)) && message@
                        == "new checkpoint_lsn "@ + decimal(self.checkpoint_lsn.0 as nat)
                        + " is not greater than current "@ + decimal(
                        file_value(file@).checkpoint_lsn.0 as nat,
                    )
                } else if file_needs_migration(file@) {
                    result matches Ok(writes) && written(file@, writes@) == patched(
                        after_migration(file@),
                        512 - active_at(file@),
                        self.copy_bytes(),
                    )
                } else {
                    result matches Ok(writes) && writes@.len() == 1 && written(file@, writes@)
                        == with_inactive(file@, *self)
                },
                None => result matches Ok(writes) && forall|file: Seq<u8>|
                    file.len() == SUPERBLOCK_FILE_SIZE ==> #[trigger] written(file, writes@)
                        == self.file_bytes(),
            },
    {
        let read = match current {
            Some(file) => match Self::read(file) {
                Ok(read) => Some(read),
                Err(_) => None,
            },
            None => None,
        };
        let mut writes: Vec<CopyWrite> = Vec::new();
        match read {
            None => {
                writes.push(CopyWrite { offset: 0, bytes: self.encode() });
                writes.push(CopyWrite { offset: SUPERBLOCK_SIZE, bytes: self.encode() });
                proof {
                    assert forall|file: Seq<u8>|
                        file.len() == SUPERBLOCK_FILE_SIZE implies #[trigger] written(
                        file,
                        writes@,
                    ) == self.file_bytes() by {
                        both_written(file, writes@, *self);
                    }
                }
            },
            Some(read) => {
                if self.checkpoint_lsn.0 <= read.superblock.checkpoint_lsn.0 {
                    let mut message = "new checkpoint_lsn ".to_owned();
                    push_decimal(&mut message, self.checkpoint_lsn.0);
                    message.append(" is not greater than current ");
                    push_decimal(&mut message, read.superblock.checkpoint_lsn.0);
                    return Err(StorageError::CheckpointFailed(message));
                }
                let ghost file = current->0@;
                if read.needs_migration {
                    writes.push(CopyWrite { offset: 0, bytes: read.superblock.encode() });
                    writes.push(
                        CopyWrite { offset: SUPERBLOCK_SIZE, bytes: read.superblock.encode() },
                    );
                    proof {
                        both_written(file, writes@, read.superblock);
                    }
                }
                let ghost earlier = writes@;
                let inactive: usize = SUPERBLOCK_SIZE - read.active_offset;
                writes.push(CopyWrite { offset: inactive, bytes: self.encode() });
                proof {
                    assert(writes@.drop_last() =~= earlier);
                    copy_len(*self);
                    let base = written(file, earlier);
                    if !read.needs_migration {
                        assert(base == file);
                        assert(patched(file, inactive as int, self.copy_bytes()) =~= with_inactive(
                            file,
                            *self,
                        ));
                    }
                }
            },
        }
        Ok(writes)
    }

    /// The LSN from which recovery replays: the checkpoint LSN.
    pub fn redo_lsn(&self) -> (lsn: Lsn)
        ensures
            lsn == self.checkpoint_lsn,
    {
        self.checkpoint_lsn
    }
}

proof fn both_written(file: Seq<u8>, writes: Seq<CopyWrite>, sb: Superblock)
    requires
        file.len() == SUPERBLOCK_FILE_SIZE,
        writes.len() == 2,
        writes[0].offset == 0,
        writes[0].bytes@ == sb.copy_bytes(),
        writes[1].offset == 512,
        writes[1].bytes@ == sb.copy_bytes(),
    ensures
        written(file, writes) == sb.file_bytes(),
{
    copy_len(sb);
    let one = writes.drop_last();
    assert(one.drop_last() =~= Seq::<CopyWrite>::empty());
    assert(written(file, one.drop_last()) == file);
    assert(written(file, one) == patched(file, 0, sb.copy_bytes()));
    assert(written(file, writes) =~= sb.file_bytes());
}

/// Where the fields of a written copy stand: the magic number, the version, the page size and
/// four bytes that are zero, then the counters and the creation time, and zeros behind the
/// checksum.
pub proof fn written_copy_has_its_layout(sb: Superblock, i: int)
    ensures
        ({
            let s = sb.copy_bytes();
            &&& s.len() == 512
            &&& le_u32(s, 0) == 0x5047_5253
            &&& le_u32(s, 4) == sb.version
            &&& le_u32(s, 8) == sb.page_size
            &&& le_u32(s, 12) == 0
            &&& le_u64(s, 16) == sb.checkpoint_lsn.0
            &&& le_u64(s, 24) == sb.next_page_id.0
            &&& le_u64(s, 32) == sb.next_txn_id.0
            &&& le_u64(s, 40) == sb.next_oid.0
            &&& le_u64(s, 48) == sb.created_at
            &&& le_u32(s, 56) == crc32(s.subrange(0, 56) + s.subrange(60, 512))
            &&& 60 <= i < 512 ==> s[i] == 0
        }),
{
    copy_len(sb);
    lemma_auto_spec_u64_to_from_le_bytes();
    lemma_auto_spec_u32_to_from_le_bytes();
    let s = sb.copy_bytes();
    assert(s.subrange(0, 4) =~= spec_u32_to_le_bytes(SUPERBLOCK_MAGIC));
    assert(s.subrange(4, 8) =~= spec_u32_to_le_bytes(sb.version));
    assert(s.subrange(8, 12) =~= spec_u32_to_le_bytes(sb.page_size));
    assert(s.subrange(12, 16) =~= spec_u32_to_le_bytes(0));
    assert(s.subrange(16, 24) =~= spec_u64_to_le_bytes(sb.checkpoint_lsn.0));
    assert(s.subrange(24, 32) =~= spec_u64_to_le_bytes(sb.next_page_id.0));
    assert(s.subrange(32, 40) =~= spec_u64_to_le_bytes(sb.next_txn_id.0));
    assert(s.subrange(40, 48) =~= spec_u64_to_le_bytes(sb.next_oid.0));
    assert(s.subrange(48, 56) =~= spec_u64_to_le_bytes(sb.created_at));
    assert(s.subrange(56, 60) =~= spec_u32_to_le_bytes(crc32(sb.head() + zeros(452))));
    assert(s.subrange(0, 56) =~= sb.head());
    assert(s.subrange(60, 512) =~= zeros(452));
    if 60 <= i < 512 {
        assert(s[i] == s.subrange(60, 512)[i - 60]);
    }
}

} // verus!
