//! The page header.
//!
//! Every data page starts with a header of [`PAGE_HEADER_SIZE`] bytes. Its first
//! eight bytes (little-endian) are `pd_lsn`: the LSN of the latest WAL record that
//! changed the page.

use vstd::bytes::*;
use vstd::prelude::*;

use crate::codec::{fields_read_back, le_u64, overwrite, patched, read_u64};
use crate::types::Lsn;

verus! {

/// Size of the page header in bytes.
pub const PAGE_HEADER_SIZE: usize = 32;

/// The `pd_lsn` of a page.
pub open spec fn pd_lsn(page: Seq<u8>) -> Lsn {
    Lsn(le_u64(page, 0))
}

/// A page with another `pd_lsn`.
pub open spec fn with_pd_lsn(page: Seq<u8>, lsn: Lsn) -> Seq<u8> {
    patched(page, 0, spec_u64_to_le_bytes(lsn.0))
}

/// What is stored as `pd_lsn` reads back, and the rest of the page stays as it is.
pub proof fn pd_lsn_reads_back(page: Seq<u8>, lsn: Lsn)
    requires
        page.len() >= 8,
    ensures
        pd_lsn(with_pd_lsn(page, lsn)) == lsn,
        with_pd_lsn(page, lsn).len() == page.len(),
        forall|i: int| 8 <= i < page.len() ==> #[trigger] with_pd_lsn(page, lsn)[i] == page[i],
{
    let bytes = spec_u64_to_le_bytes(lsn.0);
    let rest = page.subrange(8, page.len() as int);
    fields_read_back(Seq::empty(), rest);
    assert(with_pd_lsn(page, lsn) =~= Seq::<u8>::empty() + bytes + rest);
}

/// The `pd_lsn` of a page.
pub fn page_pd_lsn(page: &[u8]) -> (lsn: Lsn)
    requires
        page.len() >= 8,
    ensures
        lsn == pd_lsn(page@),
{
    Lsn(read_u64(page, 0))
}

/// Stores `lsn` as the `pd_lsn` of a page.
pub fn set_page_pd_lsn(page: &mut Vec<u8>, lsn: Lsn)
    requires
        old(page).len() >= 8,
    ensures
        final(page)@ == with_pd_lsn(old(page)@, lsn),
{
    proof {
        fields_read_back(Seq::empty(), Seq::empty());
    }
    let bytes = u64_to_le_bytes(lsn.0);
    overwrite(page, 0, bytes.as_slice());
}

/// The header of a page.
#[derive(Debug, Clone, Copy, PartialEq, Eq, Structural)]
pub struct PageHeader {
    /// The LSN of the latest WAL record that changed the page.
    pub pd_lsn: Lsn,
}

impl PageHeader {
    /// Reads the header of a page.
    pub fn read_from(page: &[u8]) -> (header: Self)
        requires
            page.len() >= PAGE_HEADER_SIZE,
        ensures
            header.pd_lsn == pd_lsn(page@),
    {
        PageHeader { pd_lsn: page_pd_lsn(page) }
    }
}

} // verus!
