//! WAL record format, types and (de)serialization.
//!
//! A record is a 32-byte header, a payload of variable length and up to seven
//! bytes of padding to a multiple of eight:
//!
//! ```text
//! 0..8 lsn | 8..16 prev_lsn | 16..24 txn_id | 24 type | 25 flags
//! 26..28 payload length | 28..32 CRC-32 of everything else | payload | padding
//! ```

use vstd::bytes::*;
use vstd::prelude::*;
use vstd::slice::*;
use vstd::string::*;

use crate::checksum::{crc32, crc32_of_parts};
use crate::codec::{
    le_u16, le_u32, le_u64, push_bytes, push_u16, push_u32, push_u64, push_zeros, read_u16,
    read_u32, read_u64, zeros,
};
use crate::error::{Result, StorageError};
use crate::text::{decimal, push_decimal};
use crate::types::{align_up, Lsn, Oid, PageId, TxnId};
use crate::wire::{
    blob, blob_reads_back, decode_error_text, decode_six, decode_three, decode_u64,
    decode_u64_blob, encode_six, encode_three, encode_u64, encode_u64_blob, take_blob, take_six,
    take_three, take_varint, text_reads_back, varint, varint_reads_back,
};
use vstd::utf8::encode_utf8;

verus! {

/// Size of the fixed record header in bytes.
pub const WAL_RECORD_HEADER_SIZE: usize = 32;

/// Longest payload that a record can carry.
pub const MAX_PAYLOAD_LEN: usize = 65535;

/// Flags of a `CheckpointEnd` record whose payload has six fields. Without them
/// the payload has the three fields of the first format.
pub const CHECKPOINT_END_V2_FLAGS: u8 = 16;

/// WAL record type.
///
/// The bytes of [`WalRecordType::to_u8`] are part of the on-disk format.
#[derive(Debug, Clone, Copy, PartialEq, Eq, Hash, Structural)]
pub enum WalRecordType {
    /// Heap insert (reserved).
    HeapInsert,
    /// Heap update (reserved).
    HeapUpdate,
    /// Heap delete (reserved).
    HeapDelete,
    /// B+Tree insert (reserved).
    BTreeInsert,
    /// B+Tree split prepare (reserved).
    BTreeSplitPrepare,
    /// B+Tree delete (reserved).
    BTreeDelete,
    /// Heap HOT update (reserved).
    HeapHotUpdate,
    /// Heap cleanup (reserved).
    HeapCleanup,
    /// Full page image, written before the first change of a page after a
    /// checkpoint.
    FullPageImage,
    /// Transaction begin (reserved).
    TxnBegin,
    /// Transaction commit.
    TxnCommit,
    /// Transaction abort.
    TxnAbort,
    /// Checkpoint start marker.
    CheckpointBegin,
    /// Checkpoint end marker.
    CheckpointEnd,
    /// Page allocation.
    PageAlloc,
    /// Page free.
    PageFree,
    /// B+Tree split compensation (reserved).
    BTreeSplitCLR,
    /// B+Tree split copy (reserved).
    BTreeSplitCopy,
    /// B+Tree split commit (reserved).
    BTreeSplitCommit,
    /// Logical HNSW operation (reserved).
    LogicalHnsw,
    /// Logical inverted-index operation (reserved).
    LogicalInverted,
    /// Logical graph operation (reserved).
    LogicalGraph,
    /// Logical time-series operation (reserved).
    LogicalTimeSeries,
    /// Segment seal operation (reserved).
    SegmentSeal,
    /// Segment merge operation (reserved).
    SegmentMerge,
}

/// The on-disk byte of a record type.
pub open spec fn type_byte(t: WalRecordType) -> u8 {
    match t {
        WalRecordType::HeapInsert => 1,
        WalRecordType::HeapUpdate => 2,
        WalRecordType::HeapDelete => 3,
        WalRecordType::BTreeInsert => 4,
        WalRecordType::BTreeSplitPrepare => 5,
        WalRecordType::BTreeDelete => 6,
        WalRecordType::HeapHotUpdate => 7,
        WalRecordType::HeapCleanup => 8,
        WalRecordType::FullPageImage => 10,
        WalRecordType::TxnBegin => 20,
        WalRecordType::TxnCommit => 21,
        WalRecordType::TxnAbort => 22,
        WalRecordType::CheckpointBegin => 30,
        WalRecordType::CheckpointEnd => 31,
        WalRecordType::PageAlloc => 40,
        WalRecordType::PageFree => 41,
        WalRecordType::BTreeSplitCLR => 50,
        WalRecordType::BTreeSplitCopy => 51,
        WalRecordType::BTreeSplitCommit => 52,
        WalRecordType::LogicalHnsw => 100,
        WalRecordType::LogicalInverted => 101,
        WalRecordType::LogicalGraph => 102,
        WalRecordType::LogicalTimeSeries => 103,
        WalRecordType::SegmentSeal => 110,
        WalRecordType::SegmentMerge => 111,
    }
}

/// Whether `b` is the byte of some record type.
pub open spec fn is_type_byte(b: u8) -> bool {
    exists|t: WalRecordType| #[trigger] type_byte(t) == b
}

/// The record type of a byte that has one.
pub open spec fn type_of_byte(b: u8) -> WalRecordType {
    choose|t: WalRecordType| #[trigger] type_byte(t) == b
}

/// No two record types share a byte.
pub proof fn type_bytes_are_distinct(a: WalRecordType, b: WalRecordType)
    ensures
        type_byte(a) == type_byte(b) ==> a == b,
{
}

/// A record type comes back from its byte.
pub proof fn type_byte_reads_back(t: WalRecordType)
    ensures
        is_type_byte(type_byte(t)),
        type_of_byte(type_byte(t)) == t,
{
    type_bytes_are_distinct(t, type_of_byte(type_byte(t)));
}

impl WalRecordType {
    /// The on-disk byte.
    pub fn to_u8(self) -> (byte: u8)
        ensures
            byte == type_byte(self),
    {
        match self {
            WalRecordType::HeapInsert => 1,
            WalRecordType::HeapUpdate => 2,
            WalRecordType::HeapDelete => 3,
            WalRecordType::BTreeInsert => 4,
            WalRecordType::BTreeSplitPrepare => 5,
            WalRecordType::BTreeDelete => 6,
            WalRecordType::HeapHotUpdate => 7,
            WalRecordType::HeapCleanup => 8,
            WalRecordType::FullPageImage => 10,
            WalRecordType::TxnBegin => 20,
            WalRecordType::TxnCommit => 21,
            WalRecordType::TxnAbort => 22,
            WalRecordType::CheckpointBegin => 30,
            WalRecordType::CheckpointEnd => 31,
            WalRecordType::PageAlloc => 40,
            WalRecordType::PageFree => 41,
            WalRecordType::BTreeSplitCLR => 50,
            WalRecordType::BTreeSplitCopy => 51,
            WalRecordType::BTreeSplitCommit => 52,
            WalRecordType::LogicalHnsw => 100,
            WalRecordType::LogicalInverted => 101,
            WalRecordType::LogicalGraph => 102,
            WalRecordType::LogicalTimeSeries => 103,
            WalRecordType::SegmentSeal => 110,
            WalRecordType::SegmentMerge => 111,
        }
    }

    /// The record type with the on-disk byte `v`; `WalReadFailed` where there is
    /// none.
    pub fn from_u8(v: u8) -> (result: Result<Self>)
        ensures
            is_type_byte(v) ==> (result matches Ok(t) && t == type_of_byte(v) && type_byte(t) == v),
            !is_type_byte(v) ==> (result matches Err(StorageError::WalReadFailed(message))
                && message@ == "unknown WAL record type discriminant "@ + decimal(v as nat)),
    {
        let t = match v {
            1 => WalRecordType::HeapInsert,
            2 => WalRecordType::HeapUpdate,
            3 => WalRecordType::HeapDelete,
            4 => WalRecordType::BTreeInsert,
            5 => WalRecordType::BTreeSplitPrepare,
            6 => WalRecordType::BTreeDelete,
            7 => WalRecordType::HeapHotUpdate,
            8 => WalRecordType::HeapCleanup,
            10 => WalRecordType::FullPageImage,
            20 => WalRecordType::TxnBegin,
            21 => WalRecordType::TxnCommit,
            22 => WalRecordType::TxnAbort,
            30 => WalRecordType::CheckpointBegin,
            31 => WalRecordType::CheckpointEnd,
            40 => WalRecordType::PageAlloc,
            41 => WalRecordType::PageFree,
            50 => WalRecordType::BTreeSplitCLR,
            51 => WalRecordType::BTreeSplitCopy,
            52 => WalRecordType::BTreeSplitCommit,
            100 => WalRecordType::LogicalHnsw,
            101 => WalRecordType::LogicalInverted,
            102 => WalRecordType::LogicalGraph,
            103 => WalRecordType::LogicalTimeSeries,
            110 => WalRecordType::SegmentSeal,
            111 => WalRecordType::SegmentMerge,
            _ => {
                let mut message = "unknown WAL record type discriminant ".to_owned();
                push_decimal(&mut message, v as u64);
                return Err(StorageError::WalReadFailed(message));
            },
        };
        proof {
            type_byte_reads_back(t);
        }
        Ok(t)
    }
}

/// The contents of a WAL record.
pub struct RecordView {
    /// Where the record begins.
    pub lsn: Lsn,
    /// The previous record of the same transaction.
    pub prev_lsn: Lsn,
    /// The transaction, or 0.
    pub txn_id: TxnId,
    /// The record type.
    pub record_type: WalRecordType,
    /// The flags.
    pub flags: u8,
    /// The payload.
    pub payload: Seq<u8>,
}

impl RecordView {
    /// The size on disk, with padding.
    pub open spec fn size(self) -> nat {
        record_len(self.payload.len())
    }

    /// The same record at another LSN.
    pub open spec fn at(self, lsn: Lsn) -> RecordView {
        RecordView { lsn, ..self }
    }

    /// The first 28 bytes.
    pub open spec fn head(self) -> Seq<u8> {
        spec_u64_to_le_bytes(self.lsn.0) + spec_u64_to_le_bytes(self.prev_lsn.0)
            + spec_u64_to_le_bytes(self.txn_id.0) + seq![type_byte(self.record_type), self.flags]
            + spec_u16_to_le_bytes(self.payload.len() as u16)
    }

    /// What follows the checksum.
    pub open spec fn tail(self) -> Seq<u8> {
        self.payload + zeros((self.size() - 32 - self.payload.len()) as nat)
    }

    /// The bytes on disk.
    pub open spec fn bytes(self) -> Seq<u8> {
        self.head() + spec_u32_to_le_bytes(crc32(self.head() + self.tail())) + self.tail()
    }

    /// Whether the record can be written.
    pub open spec fn fits(self) -> bool {
        self.payload.len() <= MAX_PAYLOAD_LEN
    }
}

/// The size of a record with a payload of `n` bytes: header, payload, and
/// padding to a multiple of eight.
pub open spec fn record_len(n: nat) -> nat {
    ((32 + n + 7) / 8 * 8) as nat
}

/// The payload length in the header at the start of `s`.
pub open spec fn stored_payload_len(s: Seq<u8>) -> nat {
    le_u16(s, 26) as nat
}

/// The size of the record at the start of `s`, as its header says.
pub open spec fn stored_len(s: Seq<u8>) -> nat {
    record_len(stored_payload_len(s))
}

/// The checksum in the header at the start of `s` is that of the rest of the
/// record.
pub open spec fn stored_checksum_holds(s: Seq<u8>) -> bool {
    le_u32(s, 28) == crc32(s.subrange(0, 28) + s.subrange(32, stored_len(s) as int))
}

/// The record at the start of `s`.
pub open spec fn stored_record(s: Seq<u8>) -> RecordView {
    RecordView {
        lsn: Lsn(le_u64(s, 0)),
        prev_lsn: Lsn(le_u64(s, 8)),
        txn_id: TxnId(le_u64(s, 16)),
        record_type: type_of_byte(s[24]),
        flags: s[25],
        payload: s.subrange(32, 32 + stored_payload_len(s) as int),
    }
}

/// `s` starts with a whole, undamaged record.
pub open spec fn starts_with_record(s: Seq<u8>) -> bool {
    &&& s.len() >= WAL_RECORD_HEADER_SIZE
    &&& is_type_byte(s[24])
    &&& s.len() >= stored_len(s)
    &&& stored_checksum_holds(s)
}

/// What is written reads back: a buffer that starts with the bytes of a record
/// decodes to that record, and to its whole length.
pub proof fn record_reads_back(r: RecordView, rest: Seq<u8>)
    requires
        r.fits(),
    ensures
        starts_with_record(r.bytes() + rest),
        stored_record(r.bytes() + rest) == r,
        stored_len(r.bytes() + rest) == r.bytes().len(),
        r.bytes().len() == r.size(),
        r.size() % 8 == 0,
{
    lemma_auto_spec_u64_to_from_le_bytes();
    lemma_auto_spec_u32_to_from_le_bytes();
    lemma_auto_spec_u16_to_from_le_bytes();
    type_byte_reads_back(r.record_type);
    let s = r.bytes() + rest;
    assert(s.subrange(0, 8) =~= spec_u64_to_le_bytes(r.lsn.0));
    assert(s.subrange(8, 16) =~= spec_u64_to_le_bytes(r.prev_lsn.0));
    assert(s.subrange(16, 24) =~= spec_u64_to_le_bytes(r.txn_id.0));
    assert(s[24] == type_byte(r.record_type));
    assert(s[25] == r.flags);
    assert(s.subrange(26, 28) =~= spec_u16_to_le_bytes(r.payload.len() as u16));
    assert(s.subrange(28, 32) =~= spec_u32_to_le_bytes(crc32(r.head() + r.tail())));
    assert(s.subrange(32, 32 + r.payload.len() as int) =~= r.payload);
    assert(s.subrange(0, 28) =~= r.head());
    assert(s.subrange(32, r.size() as int) =~= r.tail());
}

/// A record is taken for undamaged only if its checksum is that of all its other bytes, the
/// header, the payload and the padding, and its type is known; its fields stand in their
/// places, and its length is that of the header and the payload, rounded up to eight.
pub proof fn undamaged_record_has_its_checksum(s: Seq<u8>)
    requires
        s.len() >= 32,
    ensures
        ({
            let payload = le_u16(s, 26) as int;
            let len = stored_len(s) as int;
            let record = stored_record(s);
            &&& 32 + payload <= len < 32 + payload + 8 && len % 8 == 0
            &&& starts_with_record(s) <==> is_type_byte(s[24]) && s.len() >= len && le_u32(s, 28)
                == crc32(s.subrange(0, 28) + s.subrange(32, len))
            &&& record.lsn.0 == le_u64(s, 0)
            &&& record.prev_lsn.0 == le_u64(s, 8)
            &&& record.txn_id.0 == le_u64(s, 16)
            &&& is_type_byte(s[24]) ==> type_byte(record.record_type) == s[24]
            &&& record.flags == s[25]
            &&& s.len() >= len ==> record.payload == s.subrange(32, 32 + payload)
        }),
{
}

/// A single WAL record.
#[derive(Debug, Clone, PartialEq, Eq)]
pub struct WalRecord {
    /// LSN at which this record begins.
    pub lsn: Lsn,
    /// LSN of the previous record of the same transaction (undo chain).
    pub prev_lsn: Lsn,
    /// Transaction ID, or 0 for non-transactional operations.
    pub txn_id: TxnId,
    /// Record type.
    pub record_type: WalRecordType,
    /// Flags.
    pub flags: u8,
    /// Variable-length payload.
    pub payload: Vec<u8>,
}

impl View for WalRecord {
    type V = RecordView;

    open spec fn view(&self) -> RecordView {
        RecordView {
            lsn: self.lsn,
            prev_lsn: self.prev_lsn,
            txn_id: self.txn_id,
            record_type: self.record_type,
            flags: self.flags,
            payload: self.payload@,
        }
    }
}

/// A record that has no place in the log yet.
pub open spec fn unplaced(record_type: WalRecordType, flags: u8, payload: Seq<u8>) -> RecordView {
    RecordView {
        lsn: Lsn(0),
        prev_lsn: Lsn(0),
        txn_id: TxnId(0),
        record_type,
        flags,
        payload,
    }
}

impl WalRecord {
    fn new(record_type: WalRecordType, flags: u8, payload: Vec<u8>) -> (record: Self)
        ensures
            record@ == unplaced(record_type, flags, payload@),
    {
        WalRecord {
            lsn: Lsn::invalid(),
            prev_lsn: Lsn::invalid(),
            txn_id: TxnId::invalid(),
            record_type,
            flags,
            payload,
        }
    }

    fn of_id(record_type: WalRecordType, id: u64) -> (result: Result<Self>)
        ensures
            result matches Ok(record) && record@ == unplaced(record_type, 0, varint(id)),
    {
        match encode_u64(id) {
            Ok(payload) => Ok(Self::new(record_type, 0, payload)),
            Err(_) => Err(StorageError::Serialize("encoding failed".to_owned())),
        }
    }

    /// A `PageAlloc` record.
    pub fn page_alloc(page_id: PageId) -> (result: Result<Self>)
        ensures
            result matches Ok(record) && record@ == unplaced(
                WalRecordType::PageAlloc,
                0,
                varint(page_id.0),
            ),
    {
        Self::of_id(WalRecordType::PageAlloc, page_id.0)
    }

    /// A `PageFree` record.
    pub fn page_free(page_id: PageId) -> (result: Result<Self>)
        ensures
            result matches Ok(record) && record@ == unplaced(
                WalRecordType::PageFree,
                0,
                varint(page_id.0),
            ),
    {
        Self::of_id(WalRecordType::PageFree, page_id.0)
    }

    /// A `TxnCommit` record.
    pub fn txn_commit(xid: TxnId) -> (result: Result<Self>)
        ensures
            result matches Ok(record) && record@ == unplaced(
                WalRecordType::TxnCommit,
                0,
                varint(xid.0),
            ),
    {
        Self::of_id(WalRecordType::TxnCommit, xid.0)
    }

    /// A `TxnAbort` record.
    pub fn txn_abort(xid: TxnId) -> (result: Result<Self>)
        ensures
            result matches Ok(record) && record@ == unplaced(
                WalRecordType::TxnAbort,
                0,
                varint(xid.0),
            ),
    {
        Self::of_id(WalRecordType::TxnAbort, xid.0)
    }

    /// A `FullPageImage` record.
    pub fn full_page_image(page_id: PageId, image: Vec<u8>) -> (result: Result<Self>)
        ensures
            result matches Ok(record) && record@ == unplaced(
                WalRecordType::FullPageImage,
                0,
                varint(page_id.0) + blob(image@),
            ),
    {
        match encode_u64_blob(page_id.0, &image) {
            Ok(payload) => Ok(Self::new(WalRecordType::FullPageImage, 0, payload)),
            Err(_) => Err(StorageError::Serialize("encoding failed".to_owned())),
        }
    }

    /// A `CheckpointBegin` record.
    pub fn checkpoint_begin() -> (record: Self)
        ensures
            record@ == unplaced(WalRecordType::CheckpointBegin, 0, Seq::empty()),
    {
        Self::new(WalRecordType::CheckpointBegin, 0, Vec::new())
    }

    /// A `CheckpointEnd` record of the first format.
    pub fn checkpoint_end(checkpoint_lsn: Lsn, next_page_id: PageId, next_txn_id: TxnId) -> (result:
        Result<Self>)
        ensures
            result matches Ok(record) && record@ == unplaced(
                WalRecordType::CheckpointEnd,
                0,
                varint(checkpoint_lsn.0) + varint(next_page_id.0) + varint(next_txn_id.0),
            ),
    {
        match encode_three(checkpoint_lsn.0, next_page_id.0, next_txn_id.0) {
            Ok(payload) => Ok(Self::new(WalRecordType::CheckpointEnd, 0, payload)),
            Err(_) => Err(StorageError::Serialize("encoding failed".to_owned())),
        }
    }

    /// A `CheckpointEnd` record of the second format.
    pub fn checkpoint_end_v2(end: &CheckpointEndRecord) -> (result: Result<Self>)
        ensures
            result matches Ok(record) && record@ == unplaced(
                WalRecordType::CheckpointEnd,
                CHECKPOINT_END_V2_FLAGS,
                end.payload(),
            ),
    {
        match encode_six(
            end.checkpoint_lsn.0,
            end.next_page_id.0,
            end.next_txn_id.0,
            end.next_oid,
            &end.att_file,
            &end.dpt_file,
        ) {
            Ok(payload) => Ok(
                Self::new(WalRecordType::CheckpointEnd, CHECKPOINT_END_V2_FLAGS, payload),
            ),
            Err(_) => Err(StorageError::Serialize("encoding failed".to_owned())),
        }
    }

    /// The serialized size of this record, with padding.
    pub fn record_size(&self) -> (size: usize)
        requires
            self.payload.len() + 39 <= usize::MAX,
        ensures
            size == self@.size(),
    {
        align_up(WAL_RECORD_HEADER_SIZE + self.payload.len(), 8)
    }

    /// Serializes the record.
    ///
    /// The caller sets `lsn` first. `WalWriteFailed` for a payload of more than
    /// [`MAX_PAYLOAD_LEN`] bytes.
    pub fn encode(&self) -> (result: Result<Vec<u8>>)
        ensures
            self@.fits() ==> (result matches Ok(bytes) && bytes@ == self@.bytes()),
            !self@.fits() ==> (result matches Err(StorageError::WalWriteFailed(message))
                && message@ == "payload length "@ + decimal(self.payload.len() as nat)
                + " exceeds maximum "@ + decimal(65535)),
    {
        if self.payload.len() > MAX_PAYLOAD_LEN {
            let mut message = "payload length ".to_owned();
            push_decimal(&mut message, self.payload.len() as u64);
            message.append(" exceeds maximum ");
            push_decimal(&mut message, 65535);
            return Err(StorageError::WalWriteFailed(message));
        }
        let total: usize = self.record_size();
        let mut head: Vec<u8> = Vec::new();
        push_u64(&mut head, self.lsn.0);
        push_u64(&mut head, self.prev_lsn.0);
        push_u64(&mut head, self.txn_id.0);
        head.push(self.record_type.to_u8());
        head.push(self.flags);
        push_u16(&mut head, self.payload.len() as u16);
        assert(head@ =~= self@.head());
        let mut tail: Vec<u8> = Vec::new();
        push_bytes(&mut tail, self.payload.as_slice());
        push_zeros(&mut tail, total - WAL_RECORD_HEADER_SIZE - self.payload.len());
        assert(tail@ =~= self@.tail());
        let crc: u32 = crc32_of_parts(head.as_slice(), tail.as_slice());
        let mut bytes: Vec<u8> = head;
        push_u32(&mut bytes, crc);
        push_bytes(&mut bytes, tail.as_slice());
        assert(bytes@ =~= self@.bytes());
        Ok(bytes)
    }

    /// Reads the record at the start of `buf`; gives the number of bytes that it
    /// takes up as well.
    pub fn decode(buf: &[u8]) -> (result: Result<(Self, usize)>)
        ensures
            starts_with_record(buf@) ==> (result matches Ok(found) && found.0@ == stored_record(
                buf@,
            ) && found.1 == stored_len(buf@)),
            buf@.len() < WAL_RECORD_HEADER_SIZE ==> result == Err::<
                (Self, usize),
                StorageError,
            >(StorageError::WalCorrupted(Lsn(0))),
            buf@.len() >= WAL_RECORD_HEADER_SIZE && !is_type_byte(buf@[24]) ==> (result matches Err(
                StorageError::WalReadFailed(message),
            ) && message@ == "unknown WAL record type discriminant "@ + decimal(buf@[24] as nat)),
            buf@.len() >= WAL_RECORD_HEADER_SIZE && is_type_byte(buf@[24]) && !starts_with_record(
                buf@,
            ) ==> result == Err::<(Self, usize), StorageError>(
                StorageError::WalCorrupted(Lsn(le_u64(buf@, 0))),
            ),
    {
        if buf.len() < WAL_RECORD_HEADER_SIZE {
            return Err(StorageError::WalCorrupted(Lsn::invalid()));
        }
        let lsn = Lsn(read_u64(buf, 0));
        let prev_lsn = Lsn(read_u64(buf, 8));
        let txn_id = TxnId(read_u64(buf, 16));
        let record_type = match WalRecordType::from_u8(buf[24]) {
            Ok(record_type) => record_type,
            Err(error) => return Err(error),
        };
        let flags: u8 = buf[25];
        let payload_len: usize = read_u16(buf, 26) as usize;
        let stored_crc: u32 = read_u32(buf, 28);
        let total: usize = align_up(WAL_RECORD_HEADER_SIZE + payload_len, 8);
        if buf.len() < total {
            return Err(StorageError::WalCorrupted(lsn));
        }
        let head = slice_subrange(buf, 0, 28);
        let tail = slice_subrange(buf, 32, total);
        if crc32_of_parts(head, tail) != stored_crc {
            return Err(StorageError::WalCorrupted(lsn));
        }
        let payload = slice_to_vec(slice_subrange(buf, 32, 32 + payload_len));
        let record = WalRecord { lsn, prev_lsn, txn_id, record_type, flags, payload };
        Ok((record, total))
    }
}

/// The error that a payload gives which does not decode.
pub open spec fn is_serialize_error<T>(result: Result<T>) -> bool {
    result matches Err(StorageError::Serialize(_))
}

fn decode_id(payload: &[u8]) -> (result: Result<u64>)
    ensures
        match take_varint(payload@) {
            Some((id, _)) => result == Ok::<u64, StorageError>(id),
            None => is_serialize_error(result),
        },
{
    match decode_u64(payload) {
        Ok(id) => Ok(id),
        Err(error) => Err(StorageError::Serialize(decode_error_text(&error))),
    }
}

/// Payload of a `PageAlloc` record.
#[derive(Debug, Clone, Copy, PartialEq, Eq, Structural)]
pub struct PageAllocRecord {
    /// The page that was allocated.
    pub page_id: PageId,
}

impl PageAllocRecord {
    /// Reads the payload.
    pub fn decode(payload: &[u8]) -> (result: Result<Self>)
        ensures
            match take_varint(payload@) {
                Some((id, _)) => result == Ok::<Self, StorageError>(
                    PageAllocRecord { page_id: PageId(id) },
                ),
                None => is_serialize_error(result),
            },
    {
        match decode_id(payload) {
            Ok(id) => Ok(PageAllocRecord { page_id: PageId(id) }),
            Err(error) => Err(error),
        }
    }
}

/// Payload of a `PageFree` record.
#[derive(Debug, Clone, Copy, PartialEq, Eq, Structural)]
pub struct PageFreeRecord {
    /// The page that was freed.
    pub page_id: PageId,
}

impl PageFreeRecord {
    /// Reads the payload.
    pub fn decode(payload: &[u8]) -> (result: Result<Self>)
        ensures
            match take_varint(payload@) {
                Some((id, _)) => result == Ok::<Self, StorageError>(
                    PageFreeRecord { page_id: PageId(id) },
                ),
                None => is_serialize_error(result),
            },
    {
        match decode_id(payload) {
            Ok(id) => Ok(PageFreeRecord { page_id: PageId(id) }),
            Err(error) => Err(error),
        }
    }
}

/// Payload of a `TxnCommit` record.
#[derive(Debug, Clone, Copy, PartialEq, Eq, Structural)]
pub struct TxnCommitRecord {
    /// The transaction that committed.
    pub xid: TxnId,
}

impl TxnCommitRecord {
    /// Reads the payload.
    pub fn decode(payload: &[u8]) -> (result: Result<Self>)
        ensures
            match take_varint(payload@) {
                Some((id, _)) => result == Ok::<Self, StorageError>(
                    TxnCommitRecord { xid: TxnId(id) },
                ),
                None => is_serialize_error(result),
            },
    {
        match decode_id(payload) {
            Ok(id) => Ok(TxnCommitRecord { xid: TxnId(id) }),
            Err(error) => Err(error),
        }
    }
}

/// Payload of a `TxnAbort` record.
#[derive(Debug, Clone, Copy, PartialEq, Eq, Structural)]
pub struct TxnAbortRecord {
    /// The transaction that aborted.
    pub xid: TxnId,
}

impl TxnAbortRecord {
    /// Reads the payload.
    pub fn decode(payload: &[u8]) -> (result: Result<Self>)
        ensures
            match take_varint(payload@) {
                Some((id, _)) => result == Ok::<Self, StorageError>(
                    TxnAbortRecord { xid: TxnId(id) },
                ),
                None => is_serialize_error(result),
            },
    {
        match decode_id(payload) {
            Ok(id) => Ok(TxnAbortRecord { xid: TxnId(id) }),
            Err(error) => Err(error),
        }
    }
}

/// Payload of a `FullPageImage` record.
#[derive(Debug, Clone, PartialEq, Eq)]
pub struct FullPageImageRecord {
    /// The page whose image is stored.
    pub page_id: PageId,
    /// The raw page image.
    pub image: Vec<u8>,
}

/// The page and the image that the payload of a `FullPageImage` record holds.
pub open spec fn stored_image(payload: Seq<u8>) -> Option<(PageId, Seq<u8>)> {
    match take_varint(payload) {
        Some((id, rest)) => match take_blob(rest) {
            Some((image, _)) => Some((PageId(id), image)),
            None => None,
        },
        None => None,
    }
}

impl FullPageImageRecord {
    /// Reads the payload.
    pub fn decode(payload: &[u8]) -> (result: Result<Self>)
        ensures
            match stored_image(payload@) {
                Some((page_id, image)) => result matches Ok(record) && record.page_id == page_id
                    && record.image@ == image,
                None => is_serialize_error(result),
            },
    {
        match decode_u64_blob(payload) {
            Ok((id, image)) => Ok(FullPageImageRecord { page_id: PageId(id), image }),
            Err(error) => Err(StorageError::Serialize(decode_error_text(&error))),
        }
    }
}

/// Payload of a `CheckpointEnd` record.
#[derive(Debug, Clone, PartialEq, Eq)]
pub struct CheckpointEndRecord {
    /// The LSN of the corresponding `CheckpointBegin` record (redo point).
    pub checkpoint_lsn: Lsn,
    /// The next page ID to allocate after the checkpoint.
    pub next_page_id: PageId,
    /// The next transaction ID to allocate after the checkpoint.
    pub next_txn_id: TxnId,
    /// The next OID to allocate after the checkpoint.
    pub next_oid: u64,
    /// Snapshot file of the active-transaction table; empty for "rebuild it by a
    /// scan from the checkpoint on".
    pub att_file: String,
    /// Snapshot file of the dirty-page table; empty for "rebuild it by a scan
    /// from the checkpoint on".
    pub dpt_file: String,
}

impl CheckpointEndRecord {
    /// The payload of the second format.
    pub open spec fn payload(&self) -> Seq<u8> {
        varint(self.checkpoint_lsn.0) + varint(self.next_page_id.0) + varint(self.next_txn_id.0)
            + varint(self.next_oid) + blob(encode_utf8(self.att_file@)) + blob(
            encode_utf8(self.dpt_file@),
        )
    }

    /// Reads the payload of either format; the flags of the record tell which one
    /// it is. The first format has neither a next OID nor snapshot files: the
    /// first user OID and empty names stand for them.
    pub fn decode(payload: &[u8], flags: u8) -> (result: Result<Self>)
        ensures
            flags != CHECKPOINT_END_V2_FLAGS ==> match take_three(payload@) {
                Some((three, _)) => result matches Ok(end) && end.checkpoint_lsn.0 == three.0
                    && end.next_page_id.0 == three.1 && end.next_txn_id.0 == three.2 && end.next_oid
                    == Oid::first_user().0 && end.att_file@.len() == 0 && end.dpt_file@.len() == 0,
                None => is_serialize_error(result),
            },
            flags == CHECKPOINT_END_V2_FLAGS ==> match take_six(payload@) {
                Some((a, b, c, d, e, f)) => result matches Ok(end) && end.checkpoint_lsn.0 == a
                    && end.next_page_id.0 == b && end.next_txn_id.0 == c && end.next_oid == d
                    && end.att_file@ == e && end.dpt_file@ == f,
                None => is_serialize_error(result),
            },
    {
        if flags == CHECKPOINT_END_V2_FLAGS {
            match decode_six(payload) {
                Ok((lsn, page, txn, oid, att_file, dpt_file)) => Ok(
                    CheckpointEndRecord {
                        checkpoint_lsn: Lsn(lsn),
                        next_page_id: PageId(page),
                        next_txn_id: TxnId(txn),
                        next_oid: oid,
                        att_file,
                        dpt_file,
                    },
                ),
                Err(error) => Err(StorageError::Serialize(decode_error_text(&error))),
            }
        } else {
            match decode_three(payload) {
                Ok((lsn, page, txn)) => Ok(
                    CheckpointEndRecord {
                        checkpoint_lsn: Lsn(lsn),
                        next_page_id: PageId(page),
                        next_txn_id: TxnId(txn),
                        next_oid: Oid::first_user().0,
                        att_file: String::new(),
                        dpt_file: String::new(),
                    },
                ),
                Err(error) => Err(StorageError::Serialize(decode_error_text(&error))),
            }
        }
    }
}

/// A page or transaction ID reads back from a payload.
pub proof fn id_payload_reads_back(id: u64)
    ensures
        take_varint(varint(id)) == Some((id, Seq::<u8>::empty())),
{
    varint_reads_back(id, Seq::empty());
    assert(varint(id) + Seq::<u8>::empty() =~= varint(id));
}

/// A page image reads back from the payload of a `FullPageImage` record.
pub proof fn image_payload_reads_back(page_id: PageId, image: Seq<u8>)
    requires
        image.len() <= usize::MAX,
    ensures
        stored_image(varint(page_id.0) + blob(image)) == Some((page_id, image)),
{
    varint_reads_back(page_id.0, blob(image));
    blob_reads_back(image, Seq::empty());
    assert(blob(image) + Seq::<u8>::empty() =~= blob(image));
}

/// The payload of a `CheckpointEnd` record of the first format reads back.
pub proof fn checkpoint_end_v1_reads_back(a: u64, b: u64, c: u64, rest: Seq<u8>)
    ensures
        take_three(varint(a) + varint(b) + varint(c) + rest) == Some(((a, b, c), rest)),
{
    let s3 = rest;
    let s2 = varint(c) + s3;
    let s1 = varint(b) + s2;
    varint_reads_back(a, s1);
    varint_reads_back(b, s2);
    varint_reads_back(c, s3);
    assert(varint(a) + varint(b) + varint(c) + rest =~= varint(a) + s1);
}

/// The payload of a `CheckpointEnd` record of the second format reads back.
pub proof fn checkpoint_end_v2_reads_back(end: CheckpointEndRecord)
    requires
        encode_utf8(end.att_file@).len() <= u64::MAX,
        encode_utf8(end.dpt_file@).len() <= u64::MAX,
    ensures
        take_six(end.payload()) == Some(
            (
                end.checkpoint_lsn.0,
                end.next_page_id.0,
                end.next_txn_id.0,
                end.next_oid,
                end.att_file@,
                end.dpt_file@,
            ),
        ),
{
    let a = varint(end.checkpoint_lsn.0);
    let b = varint(end.next_page_id.0);
    let c = varint(end.next_txn_id.0);
    let d = varint(end.next_oid);
    let e = blob(encode_utf8(end.att_file@));
    let f = blob(encode_utf8(end.dpt_file@));
    regrouped(a, b, c, d, e, f);
    checkpoint_end_v1_reads_back(
        end.checkpoint_lsn.0,
        end.next_page_id.0,
        end.next_txn_id.0,
        d + (e + f),
    );
    varint_reads_back(end.next_oid, e + f);
    text_reads_back(end.att_file@, f);
    text_reads_back(end.dpt_file@, Seq::empty());
    assert(f + Seq::<u8>::empty() =~= f);
}

pub(crate) proof fn regrouped(
    a: Seq<u8>,
    b: Seq<u8>,
    c: Seq<u8>,
    d: Seq<u8>,
    e: Seq<u8>,
    f: Seq<u8>,
)
    ensures
        a + b + c + d + e + f == a + b + c + (d + (e + f)),
{
    assert(a + b + c + d + e + f =~= a + b + c + (d + (e + f)));
}

/// The byte of each record type on disk.
pub proof fn record_types_have_their_bytes()
    ensures
        type_byte(WalRecordType::HeapInsert) == 1,
        type_byte(WalRecordType::HeapUpdate) == 2,
        type_byte(WalRecordType::HeapDelete) == 3,
        type_byte(WalRecordType::BTreeInsert) == 4,
        type_byte(WalRecordType::BTreeSplitPrepare) == 5,
        type_byte(WalRecordType::BTreeDelete) == 6,
        type_byte(WalRecordType::HeapHotUpdate) == 7,
        type_byte(WalRecordType::HeapCleanup) == 8,
        type_byte(WalRecordType::FullPageImage) == 10,
        type_byte(WalRecordType::TxnBegin) == 20,
        type_byte(WalRecordType::TxnCommit) == 21,
        type_byte(WalRecordType::TxnAbort) == 22,
        type_byte(WalRecordType::CheckpointBegin) == 30,
        type_byte(WalRecordType::CheckpointEnd) == 31,
        type_byte(WalRecordType::PageAlloc) == 40,
        type_byte(WalRecordType::PageFree) == 41,
        type_byte(WalRecordType::BTreeSplitCLR) == 50,
        type_byte(WalRecordType::BTreeSplitCopy) == 51,
        type_byte(WalRecordType::BTreeSplitCommit) == 52,
        type_byte(WalRecordType::LogicalHnsw) == 100,
        type_byte(WalRecordType::LogicalInverted) == 101,
        type_byte(WalRecordType::LogicalGraph) == 102,
        type_byte(WalRecordType::LogicalTimeSeries) == 103,
        type_byte(WalRecordType::SegmentSeal) == 110,
        type_byte(WalRecordType::SegmentMerge) == 111,
{
}

/// A new record is about what it was made for, and belongs to no place and no transaction yet;
/// given a place, it is the same record there.
pub proof fn new_record_has_no_place(
    record_type: WalRecordType,
    flags: u8,
    payload: Seq<u8>,
    lsn: Lsn,
)
    ensures
        ({
            let record = unplaced(record_type, flags, payload);
            &&& record.record_type == record_type
            &&& record.flags == flags
            &&& record.payload == payload
            &&& record.lsn.0 == 0
            &&& record.prev_lsn.0 == 0
            &&& record.txn_id.0 == 0
            &&& record.at(lsn).lsn == lsn
            &&& record.at(lsn) == (RecordView { lsn, ..record })
        }),
{
}

/// A record has 32 bytes in front of its payload, room for 65,535 bytes of it, and zeros up to
/// the next multiple of eight.
pub proof fn record_is_padded(record: RecordView)
    ensures
        record.fits() <==> record.payload.len() <= 65_535,
        record.size() % 8 == 0,
        32 + record.payload.len() <= record.size() < 40 + record.payload.len(),
{
}

} // verus!
