//! Freelist snapshot.
//!
//! `meta/freelist.meta` holds the freelist of the page allocator as it was at a
//! checkpoint, so that recovery starts from it and replays only what was logged
//! later. Format (little-endian):
//!
//! ```text
//! crc32 of the rest: u32 | checkpoint LSN: u64 | count: u64 | page IDs: [u64; count]
//! ```

use vstd::bytes::*;
use vstd::prelude::*;
use vstd::slice::*;
use vstd::string::*;

use crate::checksum::{crc32, crc32_of};
use crate::codec::{le_u32, le_u64, push_bytes, push_u32, push_u64, read_u32, read_u64};
use crate::error::{Result, StorageError};
use crate::text::{decimal, join_path, joined_path, push_decimal, push_decimal_wide};
use crate::types::{Lsn, PageId};

verus! {

/// Bytes in front of the page IDs.
pub const FREELIST_HEADER_SIZE: usize = 20;

/// Freelist snapshot.
#[derive(Debug, Clone, PartialEq, Eq)]
pub struct FreelistMeta {
    /// LSN of the checkpoint that took the snapshot.
    pub checkpoint_lsn: Lsn,
    /// Page IDs in the freelist at that time.
    pub page_ids: Vec<PageId>,
}

/// The IDs one behind the other, eight bytes each.
pub open spec fn id_bytes(ids: Seq<PageId>) -> Seq<u8>
    decreases ids.len(),
{
    if ids.len() == 0 {
        Seq::empty()
    } else {
        id_bytes(ids.drop_last()) + spec_u64_to_le_bytes(ids.last().0)
    }
}

/// The bytes that the checksum covers.
pub open spec fn freelist_body(checkpoint_lsn: Lsn, ids: Seq<PageId>) -> Seq<u8> {
    spec_u64_to_le_bytes(checkpoint_lsn.0) + spec_u64_to_le_bytes(ids.len() as u64) + id_bytes(ids)
}

/// The contents of the snapshot file.
pub open spec fn freelist_bytes(checkpoint_lsn: Lsn, ids: Seq<PageId>) -> Seq<u8> {
    spec_u32_to_le_bytes(crc32(freelist_body(checkpoint_lsn, ids))) + freelist_body(
        checkpoint_lsn,
        ids,
    )
}

/// What is wrong with the contents of a snapshot file; `None` for a good one.
pub open spec fn freelist_fault(s: Seq<u8>) -> Option<Seq<char>> {
    if s.len() < FREELIST_HEADER_SIZE {
        Some("freelist.meta is too short"@)
    } else if le_u32(s, 0) != crc32(s.skip(4)) {
        Some("freelist.meta CRC mismatch"@)
    } else if s.len() != 20 + le_u64(s, 12) * 8 {
        Some(
            "freelist.meta size mismatch: expected "@ + decimal((20 + le_u64(s, 12) * 8) as nat)
                + ", got "@ + decimal(s.len()),
        )
    } else {
        None
    }
}

/// The page IDs in the contents of a good snapshot file.
pub open spec fn stored_ids(s: Seq<u8>) -> Seq<PageId> {
    Seq::new(le_u64(s, 12) as nat, |i: int| PageId(le_u64(s, 20 + i * 8)))
}

proof fn id_bytes_len(ids: Seq<PageId>)
    ensures
        id_bytes(ids).len() == ids.len() * 8,
    decreases ids.len(),
{
    lemma_auto_spec_u64_to_from_le_bytes();
    if ids.len() > 0 {
        id_bytes_len(ids.drop_last());
    }
}

proof fn id_reads_back(front: Seq<u8>, ids: Seq<PageId>, i: int)
    requires
        0 <= i < ids.len(),
    ensures
        le_u64(front + id_bytes(ids), front.len() + i * 8) == ids[i].0,
    decreases ids.len(),
{
    lemma_auto_spec_u64_to_from_le_bytes();
    id_bytes_len(ids);
    id_bytes_len(ids.drop_last());
    let all = front + id_bytes(ids);
    let at = front.len() + i * 8;
    if i == ids.len() - 1 {
        assert(all.subrange(at, at + 8) =~= spec_u64_to_le_bytes(ids.last().0));
    } else {
        id_reads_back(front, ids.drop_last(), i);
        let shorter = front + id_bytes(ids.drop_last());
        assert(all.subrange(at, at + 8) =~= shorter.subrange(at, at + 8));
    }
}

/// A snapshot reads back from the bytes that it was written as.
pub proof fn freelist_reads_back(checkpoint_lsn: Lsn, ids: Seq<PageId>)
    requires
        ids.len() <= u64::MAX,
    ensures
        freelist_fault(freelist_bytes(checkpoint_lsn, ids)) is None,
        le_u64(freelist_bytes(checkpoint_lsn, ids), 4) == checkpoint_lsn.0,
        stored_ids(freelist_bytes(checkpoint_lsn, ids)) == ids,
{
    lemma_auto_spec_u64_to_from_le_bytes();
    lemma_auto_spec_u32_to_from_le_bytes();
    id_bytes_len(ids);
    let s = freelist_bytes(checkpoint_lsn, ids);
    let body = freelist_body(checkpoint_lsn, ids);
    assert(s.subrange(0, 4) =~= spec_u32_to_le_bytes(crc32(body)));
    assert(s.skip(4) =~= body);
    assert(s.subrange(4, 12) =~= spec_u64_to_le_bytes(checkpoint_lsn.0));
    assert(s.subrange(12, 20) =~= spec_u64_to_le_bytes(ids.len() as u64));
    let front = s.subrange(0, 20);
    assert(s =~= front + id_bytes(ids));
    assert forall|i: int| 0 <= i < ids.len() implies PageId(le_u64(s, 20 + i * 8)) == ids[i] by {
        id_reads_back(front, ids, i);
    }
    assert(stored_ids(s) =~= ids);
}

/// A snapshot is taken for good exactly if it is as long as it says, and its checksum is that
/// of all its other bytes.
pub proof fn good_freelist_has_its_checksum(s: Seq<u8>)
    ensures
        freelist_fault(s) is None <==> s.len() >= 20 && s.len() == 20 + le_u64(s, 12) * 8
            && le_u32(s, 0) == crc32(s.skip(4)),
        stored_ids(s).len() == le_u64(s, 12),
        forall|i: int|
            0 <= i < le_u64(s, 12) ==> (#[trigger] stored_ids(s)[i]).0 == le_u64(s, 20 + i * 8),
{
}

impl FreelistMeta {
    /// The path of the snapshot file inside `data_dir`.
    pub fn path(data_dir: &str) -> (path: String)
        ensures
            path@ == joined_path(joined_path(data_dir@, "meta"@), "freelist.meta"@),
    {
        proof {
            reveal_strlit("meta");
            reveal_strlit("freelist.meta");
        }
        let dir = join_path(data_dir, "meta");
        join_path(dir.as_str(), "freelist.meta")
    }

    /// The contents of the snapshot file.
    pub fn encode(&self) -> (bytes: Vec<u8>)
        ensures
            bytes@ == freelist_bytes(self.checkpoint_lsn, self.page_ids@),
    {
        let mut body: Vec<u8> = Vec::new();
        push_u64(&mut body, self.checkpoint_lsn.0);
        push_u64(&mut body, self.page_ids.len() as u64);
        let ghost front = body@;
        let mut i: usize = 0;
        while i < self.page_ids.len()
            invariant
                i <= self.page_ids.len(),
                body@ == front + id_bytes(self.page_ids@.take(i as int)),
            decreases self.page_ids.len() - i,
        {
            push_u64(&mut body, self.page_ids[i].0);
            i += 1;
            proof {
                let taken = self.page_ids@.take(i as int);
                assert(taken.drop_last() =~= self.page_ids@.take(i - 1));
                assert(body@ =~= front + id_bytes(taken));
            }
        }
        assert(self.page_ids@.take(i as int) =~= self.page_ids@);
        assert(body@ =~= freelist_body(self.checkpoint_lsn, self.page_ids@));
        let crc: u32 = crc32_of(body.as_slice());
        let mut bytes: Vec<u8> = Vec::new();
        push_u32(&mut bytes, crc);
        push_bytes(&mut bytes, body.as_slice());
        assert(bytes@ =~= freelist_bytes(self.checkpoint_lsn, self.page_ids@));
        bytes
    }

    /// Reads the contents of a snapshot file. `MetadataCorrupted` says what is
    /// wrong with damaged ones.
    pub fn decode(bytes: &[u8]) -> (result: Result<Self>)
        ensures
            match freelist_fault(bytes@) {
                None => result matches Ok(meta) && meta.checkpoint_lsn.0 == le_u64(bytes@, 4)
                    && meta.page_ids@ == stored_ids(bytes@),
                Some(fault) => result matches Err(StorageError::MetadataCorrupted(message))
                    && message@ == fault,
            },
    {
        if bytes.len() < FREELIST_HEADER_SIZE {
            return Err(StorageError::MetadataCorrupted("freelist.meta is too short".to_owned()));
        }
        let body = slice_subrange(bytes, 4, bytes.len());
        assert(body@ =~= bytes@.skip(4));
        if read_u32(bytes, 0) != crc32_of(body) {
            return Err(StorageError::MetadataCorrupted("freelist.meta CRC mismatch".to_owned()));
        }
        let checkpoint_lsn = Lsn(read_u64(bytes, 4));
        let count: u64 = read_u64(bytes, 12);
        let expected: u128 = 20 + count as u128 * 8;
        if bytes.len() as u128 != expected {
            let mut message = "freelist.meta size mismatch: expected ".to_owned();
            push_decimal_wide(&mut message, expected);
            message.append(", got ");
            push_decimal(&mut message, bytes.len() as u64);
            return Err(StorageError::MetadataCorrupted(message));
        }
        let n: usize = count as usize;
        let mut page_ids: Vec<PageId> = Vec::new();
        let mut i: usize = 0;
        while i < n
            invariant
                i <= n,
                n == le_u64(bytes@, 12),
                bytes.len() == 20 + n * 8,
                page_ids@ =~= stored_ids(bytes@).take(i as int),
            decreases n - i,
        {
            page_ids.push(PageId(read_u64(bytes, 20 + i * 8)));
            i += 1;
        }
        assert(page_ids@ =~= stored_ids(bytes@));
        Ok(FreelistMeta { checkpoint_lsn, page_ids })
    }
}

} // verus!
