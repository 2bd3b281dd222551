//! CLOG segment files.
//!
//! The commit log stands in `{data_dir}/clog/clog-{segment_id:08}.log`, files of
//! 128 MiB each. Every XID has four bits; a byte holds two XIDs:
//!
//! ```text
//! byte N:  high four bits -> XID 2N (even)   low four bits -> XID 2N + 1 (odd)
//! ```
//!
//! A segment is exactly 16,384 pages of 8 KiB, so that no page straddles two
//! segments. A region that was never written reads as zeros: in progress.

use std::collections::HashSet;

use vstd::prelude::*;
use vstd::string::*;

use crate::clog::{state_number, TxnState};
use crate::keys::{lists, sorted_members};
use crate::text::{join_path, joined_path, push_zero_padded, zero_padded};
use crate::types::TxnId;

verus! {

/// Size of a CLOG page in bytes.
pub const CLOG_PAGE_BYTES: u64 = 8192;

/// XIDs whose states fit in one page.
pub const XIDS_PER_CLOG_PAGE: u64 = 16_384;

/// XIDs whose states fit in one segment.
pub const XIDS_PER_SEGMENT: u64 = 268_435_456;

/// Size of a segment file in bytes (128 MiB).
pub const CLOG_SEGMENT_BYTES: u64 = 134_217_728;

/// Pages per segment.
pub const CLOG_PAGES_PER_SEGMENT: u64 = 16_384;

/// The segment that holds `xid`.
#[verifier::allow_in_spec]
pub fn segment_id_of_xid(xid: TxnId) -> u64
    returns
        xid.0 / XIDS_PER_SEGMENT,
{
    xid.0 / XIDS_PER_SEGMENT
}

/// The byte of `xid` within its segment.
#[verifier::allow_in_spec]
pub fn byte_offset_of_xid(xid: TxnId) -> u64
    returns
        xid.0 % XIDS_PER_SEGMENT / 2,
{
    xid.0 % XIDS_PER_SEGMENT / 2
}

/// The page that holds `xid`, counted over all segments.
#[verifier::allow_in_spec]
pub fn page_no_of_xid(xid: TxnId) -> u64
    returns
        xid.0 / XIDS_PER_CLOG_PAGE,
{
    xid.0 / XIDS_PER_CLOG_PAGE
}

/// The byte of `xid` within its page.
#[verifier::allow_in_spec]
pub fn byte_in_page_of_xid(xid: TxnId) -> usize
    returns
        (xid.0 % XIDS_PER_CLOG_PAGE / 2) as usize,
{
    (xid.0 % XIDS_PER_CLOG_PAGE / 2) as usize
}

/// The segment that holds a page.
#[verifier::allow_in_spec]
pub fn segment_id_of_page(page_no: u64) -> u64
    returns
        page_no / CLOG_PAGES_PER_SEGMENT,
{
    page_no / CLOG_PAGES_PER_SEGMENT
}

/// Where a page starts within its segment.
#[verifier::allow_in_spec]
pub fn page_offset_in_segment(page_no: u64) -> u64
    returns
        (page_no % CLOG_PAGES_PER_SEGMENT * CLOG_PAGE_BYTES) as u64,
{
    page_no % CLOG_PAGES_PER_SEGMENT * CLOG_PAGE_BYTES
}

/// Pages and segments agree on where an XID is, and no page straddles two
/// segments.
pub proof fn pages_fit_segments(xid: TxnId)
    ensures
        segment_id_of_page(page_no_of_xid(xid)) == segment_id_of_xid(xid),
        byte_offset_of_xid(xid) == page_offset_in_segment(page_no_of_xid(xid))
            + byte_in_page_of_xid(xid),
        byte_in_page_of_xid(xid) < CLOG_PAGE_BYTES,
        page_offset_in_segment(page_no_of_xid(xid)) + CLOG_PAGE_BYTES <= CLOG_SEGMENT_BYTES,
{
}

/// No two XIDs share four bits.
pub proof fn places_are_distinct(a: TxnId, b: TxnId)
    requires
        segment_id_of_xid(a) == segment_id_of_xid(b),
        byte_offset_of_xid(a) == byte_offset_of_xid(b),
        a.0 % 2 == b.0 % 2,
    ensures
        a == b,
{
}

/// The path of a segment file in the CLOG directory.
pub fn segment_path(clog_dir: &str, segment_id: u64) -> (path: String)
    ensures
        path@ == joined_path(
            clog_dir@,
            "clog-"@ + zero_padded(segment_id as nat, 8) + ".log"@,
        ),
{
    proof {
        reveal_strlit("clog-");
    }
    let mut name = "clog-".to_owned();
    push_zero_padded(&mut name, segment_id, 8);
    name.append(".log");
    join_path(clog_dir, name.as_str())
}

/// The four bits of an XID in its byte: the high ones for an even XID, the low
/// ones for an odd one.
pub open spec fn nibble(byte: u8, xid: TxnId) -> u8 {
    if xid.0 % 2 == 0 {
        (byte / 16) as u8
    } else {
        (byte % 16) as u8
    }
}

/// A byte with the four bits of an XID replaced by the low ones of `state`.
pub open spec fn with_nibble(byte: u8, xid: TxnId, state: u8) -> u8 {
    if xid.0 % 2 == 0 {
        (state % 16 * 16 + byte % 16) as u8
    } else {
        (byte / 16 * 16 + state % 16) as u8
    }
}

proof fn nibble_bits(byte: u8, state: u8, x: u64)
    ensures
        (x & 1 == 0) <==> (x % 2 == 0),
        byte >> 4 == byte / 16,
        byte & 0x0f == byte % 16,
        (byte & 0x0f) | ((state & 0x0f) << 4) == state % 16 * 16 + byte % 16,
        (byte & 0xf0) | (state & 0x0f) == byte / 16 * 16 + state % 16,
{
    assert((x & 1 == 0) <==> (x % 2 == 0)) by (bit_vector);
    assert(byte >> 4 == byte / 16) by (bit_vector);
    assert(byte & 0x0f == byte % 16) by (bit_vector);
    assert((byte & 0x0f) | ((state & 0x0f) << 4) == state % 16 * 16 + byte % 16) by (bit_vector);
    assert((byte & 0xf0) | (state & 0x0f) == byte / 16 * 16 + state % 16) by (bit_vector);
}

/// The four bits of `xid` in `byte`.
pub fn get_nibble(byte: u8, xid: TxnId) -> (bits: u8)
    ensures
        bits == nibble(byte, xid),
{
    proof {
        nibble_bits(byte, 0, xid.0);
    }
    if xid.0 & 1 == 0 {
        byte >> 4
    } else {
        byte & 0x0f
    }
}

/// `byte` with the four bits of `xid` replaced by the low ones of `state`.
pub fn set_nibble(byte: u8, xid: TxnId, state: u8) -> (changed: u8)
    ensures
        changed == with_nibble(byte, xid, state),
{
    proof {
        nibble_bits(byte, state, xid.0);
    }
    if xid.0 & 1 == 0 {
        (byte & 0x0f) | ((state & 0x0f) << 4)
    } else {
        (byte & 0xf0) | (state & 0x0f)
    }
}

/// What is set reads back, and the other XID of the byte is left alone.
pub proof fn nibbles_are_independent(byte: u8, xid: TxnId, other: TxnId, state: u8)
    requires
        state < 16,
        other.0 % 2 != xid.0 % 2,
    ensures
        nibble(with_nibble(byte, xid, state), xid) == state,
        nibble(with_nibble(byte, xid, state), other) == nibble(byte, other),
{
}

/// The state that four bits stand for; `None` for bits that no state has.
pub open spec fn state_of_nibble(bits: u8) -> Option<TxnState> {
    if bits == 0 {
        Some(TxnState::InProgress)
    } else if bits == 1 {
        Some(TxnState::Committed)
    } else if bits == 2 {
        Some(TxnState::Aborted)
    } else if bits == 3 {
        Some(TxnState::SubCommitted)
    } else {
        None
    }
}

/// The state that four bits stand for.
pub fn txn_state_from_nibble(bits: u8) -> (state: TxnState)
    requires
        bits <= 3,
    ensures
        state_of_nibble(bits) == Some(state),
        state_number(state) == bits,
{
    if bits == 0 {
        TxnState::InProgress
    } else if bits == 1 {
        TxnState::Committed
    } else if bits == 2 {
        TxnState::Aborted
    } else {
        TxnState::SubCommitted
    }
}

/// Every transaction has its place: segments of 268,435,456 XIDs, pages of 16,384, two XIDs to
/// a byte.
pub proof fn xids_have_their_places(xid: TxnId)
    ensures
        segment_id_of_xid(xid) * 268_435_456 + byte_offset_of_xid(xid) * 2 + xid.0 % 2 == xid.0,
        byte_offset_of_xid(xid) < 134_217_728,
        page_no_of_xid(xid) * 16_384 + byte_in_page_of_xid(xid) * 2 + xid.0 % 2 == xid.0,
        byte_in_page_of_xid(xid) < 8192,
{
}

/// Of the two transactions in a byte, the even one has the high bits.
pub proof fn even_xids_have_the_high_bits(xid: TxnId, byte: u8, state: u8)
    requires
        state < 16,
    ensures
        xid.0 % 2 == 0 ==> nibble(byte, xid) == byte / 16 && with_nibble(byte, xid, state) == state
            * 16 + byte % 16,
        xid.0 % 2 == 1 ==> nibble(byte, xid) == byte % 16 && with_nibble(byte, xid, state) == byte
            / 16 * 16 + state,
{
}

/// Pages follow each other in their segment, and segments hold 16,384 of them.
pub proof fn pages_have_their_places(page_no: u64)
    ensures
        segment_id_of_page(page_no) * 134_217_728 + page_offset_in_segment(page_no) == page_no
            * 8192,
        page_offset_in_segment(page_no) + 8192 <= 134_217_728,
{
}

/// The bits of each state: none for a transaction in progress, so that what was never written
/// reads as that.
pub proof fn states_have_their_bits(state: TxnState)
    ensures
        state_of_nibble(state_number(state)) == Some(state),
        state_number(TxnState::InProgress) == 0,
        state_number(TxnState::Committed) == 1,
        state_number(TxnState::Aborted) == 2,
        state_number(TxnState::SubCommitted) == 3,
        forall|bits: u8| bits > 3 ==> #[trigger] state_of_nibble(bits) is None,
{
}

/// Keeps track of the segment files that hold writes which are not durable yet.
///
/// A segment stays on the list until it has been made durable, whatever became
/// of the cached page that was written.
#[derive(Debug)]
pub struct ClogSegmentStore {
    unsynced: HashSet<u64>,
}

impl View for ClogSegmentStore {
    type V = Set<u64>;

    closed spec fn view(&self) -> Set<u64> {
        self.unsynced@
    }
}

impl ClogSegmentStore {
    /// A store without writes.
    pub fn new() -> (store: Self)
        ensures
            store@ == Set::<u64>::empty(),
    {
        ClogSegmentStore { unsynced: HashSet::new() }
    }

    /// Whether a segment file of `len` bytes is to be grown to its full size when
    /// it is opened. It never shrinks.
    pub fn needs_growth(len: u64) -> (needed: bool)
        ensures
            needed <==> len < CLOG_SEGMENT_BYTES,
    {
        len < CLOG_SEGMENT_BYTES
    }

    /// Reports a page as written to its segment file.
    pub fn page_written(&mut self, page_no: u64)
        ensures
            final(self)@ == old(self)@.insert(segment_id_of_page(page_no)),
    {
        broadcast use vstd::std_specs::hash::group_hash_axioms;

        self.unsynced.insert(segment_id_of_page(page_no));
    }

    /// The segments that are to be made durable.
    pub fn unsynced_segments(&self) -> (segments: Vec<u64>)
        ensures
            lists(segments@, self@),
    {
        sorted_members(&self.unsynced)
    }

    /// Reports a segment as durable.
    pub fn segment_synced(&mut self, segment_id: u64)
        ensures
            final(self)@ == old(self)@.remove(segment_id),
    {
        broadcast use vstd::std_specs::hash::group_hash_axioms;

        self.unsynced.remove(&segment_id);
    }

    /// The number of segments with writes that are not durable yet.
    pub fn unsynced_segment_count(&self) -> (count: usize)
        ensures
            count == self@.len(),
    {
        broadcast use vstd::std_specs::hash::group_hash_axioms;

        self.unsynced.len()
    }
}

} // verus!
