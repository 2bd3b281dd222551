//! Identifiers shared by the whole engine.

use vstd::prelude::*;

use crate::text::{decimal, push_decimal, tagged, tagged_text};
use vstd::string::*;

verus! {

/// Size of a database page in bytes.
///
/// It stays the same for the lifetime of a database.
pub const PAGE_SIZE: usize = 8192;

/// WAL segment size in bytes (16 MiB).
pub const WAL_SEGMENT_SIZE: u64 = 16_777_216;

/// Alignment of WAL records, and so of every LSN.
pub const LSN_ALIGNMENT: u64 = 8;

/// A physical page identifier.
///
/// `PageId(0)` is reserved and never allocated. Page IDs start at 1.
#[derive(Debug, Clone, Copy, PartialEq, Eq, PartialOrd, Ord, Hash, Structural)]
pub struct PageId(pub u64);

impl PageId {
    /// The reserved page ID 0.
    #[verifier::allow_in_spec]
    pub fn invalid() -> PageId
        returns
            PageId(0),
    {
        PageId(0)
    }

    /// The first valid page ID.
    #[verifier::allow_in_spec]
    pub fn first() -> PageId
        returns
            PageId(1),
    {
        PageId(1)
    }

    /// The text `PageId(n)`.
    pub fn to_text(&self) -> (text: String)
        ensures
            text@ == tagged("PageId"@, self.0 as nat),
    {
        tagged_text("PageId", self.0)
    }
}

/// A log sequence number: a byte offset into the WAL stream, always a multiple
/// of [`LSN_ALIGNMENT`].
#[derive(Debug, Clone, Copy, PartialEq, Eq, PartialOrd, Ord, Hash, Structural)]
pub struct Lsn(pub u64);

impl Lsn {
    /// The invalid LSN (0).
    #[verifier::allow_in_spec]
    pub fn invalid() -> Lsn
        returns
            Lsn(0),
    {
        Lsn(0)
    }

    /// The first valid LSN.
    #[verifier::allow_in_spec]
    pub fn first() -> Lsn
        returns
            Lsn(8),
    {
        Lsn(8)
    }

    /// Whether this LSN differs from [`Lsn::invalid`].
    #[verifier::allow_in_spec]
    pub fn is_valid(&self) -> bool
        returns
            self.0 != 0,
    {
        self.0 != 0
    }

    /// The ID of the WAL segment that contains this LSN.
    pub fn segment_id(&self, segment_size: u64) -> (id: u64)
        requires
            segment_size > 0,
        ensures
            id == self.0 / segment_size,
    {
        self.0 / segment_size
    }

    /// The offset of this LSN within its WAL segment.
    pub fn segment_offset(&self, segment_size: u64) -> (offset: u64)
        requires
            segment_size > 0,
        ensures
            offset == self.0 % segment_size,
    {
        self.0 % segment_size
    }

    /// The LSN right after a record of `record_size` bytes at this LSN.
    pub fn advance(&self, record_size: u64) -> (next: Lsn)
        requires
            record_size % LSN_ALIGNMENT == 0,
            self.0 + record_size <= u64::MAX,
        ensures
            next.0 == self.0 + record_size,
    {
        Lsn(self.0 + record_size)
    }

    /// The text `Lsn(n)`.
    pub fn to_text(&self) -> (text: String)
        ensures
            text@ == tagged("Lsn"@, self.0 as nat),
    {
        tagged_text("Lsn", self.0)
    }
}

/// A 64-bit transaction identifier.
#[derive(Debug, Clone, Copy, PartialEq, Eq, PartialOrd, Ord, Hash, Structural)]
pub struct TxnId(pub u64);

impl TxnId {
    /// The invalid transaction ID (0).
    #[verifier::allow_in_spec]
    pub fn invalid() -> TxnId
        returns
            TxnId(0),
    {
        TxnId(0)
    }

    /// The first valid transaction ID.
    #[verifier::allow_in_spec]
    pub fn first() -> TxnId
        returns
            TxnId(1),
    {
        TxnId(1)
    }

    /// The text `TxnId(n)`.
    pub fn to_text(&self) -> (text: String)
        ensures
            text@ == tagged("TxnId"@, self.0 as nat),
    {
        tagged_text("TxnId", self.0)
    }
}

/// A frame of the buffer pool.
#[derive(Debug, Clone, Copy, PartialEq, Eq, PartialOrd, Ord, Hash, Structural)]
pub struct FrameId(pub usize);

impl FrameId {
    /// The invalid frame ID.
    #[verifier::allow_in_spec]
    pub fn invalid() -> FrameId
        returns
            FrameId(usize::MAX),
    {
        FrameId(usize::MAX)
    }
}

/// A database object identifier (table, type, index and so on).
///
/// `Oid(0)` is reserved. User objects start at 16384; everything between is the
/// system's.
#[derive(Debug, Clone, Copy, PartialEq, Eq, PartialOrd, Ord, Hash, Structural)]
pub struct Oid(pub u64);

impl Oid {
    /// The reserved OID 0.
    #[verifier::allow_in_spec]
    pub fn invalid() -> Oid
        returns
            Oid(0),
    {
        Oid(0)
    }

    /// The first OID of a user object.
    #[verifier::allow_in_spec]
    pub fn first_user() -> Oid
        returns
            Oid(16384),
    {
        Oid(16384)
    }

    /// Whether this OID belongs to the system: valid and below the user range.
    pub fn is_system(&self) -> (system: bool)
        ensures
            system <==> 0 < self.0 < Oid::first_user().0,
    {
        self.0 > 0 && self.0 < Oid::first_user().0
    }

    /// The text `Oid(n)`.
    pub fn to_text(&self) -> (text: String)
        ensures
            text@ == tagged("Oid"@, self.0 as nat),
    {
        tagged_text("Oid", self.0)
    }
}

/// A tuple identifier: a page and a slot in it.
#[derive(Debug, Clone, Copy, PartialEq, Eq, PartialOrd, Ord, Hash, Structural)]
pub struct Tid {
    /// The page that holds the tuple.
    pub page_id: PageId,
    /// The slot within the page.
    pub slot_id: u16,
}

impl Tid {
    /// The text `Tid(page.slot)`.
    pub fn to_text(&self) -> (text: String)
        ensures
            text@ == "Tid("@ + decimal(self.page_id.0 as nat) + "."@ + decimal(self.slot_id as nat)
                + ")"@,
    {
        let mut text = "Tid(".to_owned();
        push_decimal(&mut text, self.page_id.0);
        text.append(".");
        push_decimal(&mut text, self.slot_id as u64);
        text.append(")");
        text
    }
}

/// `m` is the least multiple of `align` that is not below `n`.
pub open spec fn is_aligned_up(n: int, align: int, m: int) -> bool {
    &&& m % align == 0
    &&& n <= m < n + align
}

/// Aligns `n` up to the next multiple of `align`.
pub fn align_up(n: usize, align: usize) -> (m: usize)
    requires
        align > 0,
        n + align - 1 <= usize::MAX,
    ensures
        is_aligned_up(n as int, align as int, m as int),
{
    let blocks: usize = (n + (align - 1)) / align;
    proof {
        let total = n + align - 1;
        vstd::arithmetic::div_mod::lemma_fundamental_div_mod(total, align as int);
        vstd::arithmetic::mul::lemma_mul_is_commutative(align as int, blocks as int);
        vstd::arithmetic::div_mod::lemma_mod_multiples_basic(blocks as int, align as int);
    }
    blocks * align
}

/// What is aligned up is the least multiple that is not below: it is one, and no other that is
/// not below is smaller. A multiple stays what it is.
pub proof fn aligned_up_is_least(n: int, align: int, m: int, k: int)
    requires
        align > 0,
        is_aligned_up(n, align, m),
    ensures
        n <= m,
        m % align == 0,
        k % align == 0 && n <= k ==> m <= k,
        n % align == 0 ==> m == n,
{
    if k % align == 0 && n <= k && m > k {
        vstd::arithmetic::div_mod::lemma_fundamental_div_mod(m, align);
        vstd::arithmetic::div_mod::lemma_fundamental_div_mod(k, align);
        assert(false) by (nonlinear_arith)
            requires
                align > 0,
                m == align * (m / align),
                k == align * (k / align),
                k < m < k + align,
        ;
    }
    if n % align == 0 && m != n {
        vstd::arithmetic::div_mod::lemma_fundamental_div_mod(m, align);
        vstd::arithmetic::div_mod::lemma_fundamental_div_mod(n, align);
        assert(false) by (nonlinear_arith)
            requires
                align > 0,
                m == align * (m / align),
                n == align * (n / align),
                n < m < n + align,
        ;
    }
}

} // verus!
