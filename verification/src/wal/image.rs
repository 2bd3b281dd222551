//! The contents of the WAL segment files, and the operations on them.

use std::collections::HashMap;

use vstd::prelude::*;
use vstd::slice::*;

use crate::codec::{overwrite, patched, push_bytes};
use crate::keys::sorted_keys;
use crate::types::Lsn;

verus! {

/// No byte of the stream lies at or behind this position: the end of a segment is an
/// LSN, too, and LSNs have 64 bits.
pub const MAX_STREAM_LEN: u64 = 0xffff_ffff_ffff_ffff;

/// One step of writing to the log.
#[derive(Debug, PartialEq, Eq)]
pub enum SegmentOp {
    /// Open the segment file, create it where it does not exist, give it the
    /// segment size, and make all of that durable.
    Create(u64),
    /// Write bytes into a segment.
    Write {
        /// The segment.
        segment_id: u64,
        /// The offset in its file.
        offset: u64,
        /// What is written.
        bytes: Vec<u8>,
    },
    /// Make what was written to a segment durable.
    Sync(u64),
}

/// A [`SegmentOp`] with the bytes as a sequence.
pub enum OpView {
    /// See [`SegmentOp::Create`].
    Create(u64),
    /// See [`SegmentOp::Write`].
    Write(u64, u64, Seq<u8>),
    /// See [`SegmentOp::Sync`].
    Sync(u64),
}

impl View for SegmentOp {
    type V = OpView;

    open spec fn view(&self) -> OpView {
        match self {
            SegmentOp::Create(id) => OpView::Create(*id),
            SegmentOp::Write { segment_id, offset, bytes } => OpView::Write(
                *segment_id,
                *offset,
                bytes@,
            ),
            SegmentOp::Sync(id) => OpView::Sync(*id),
        }
    }
}

/// The operations with their bytes as sequences.
pub open spec fn op_views(ops: Seq<SegmentOp>) -> Seq<OpView> {
    Seq::new(ops.len(), |i: int| ops[i]@)
}

/// `s` cut off or filled up with zeros to `n` bytes.
pub open spec fn resized(s: Seq<u8>, n: nat) -> Seq<u8> {
    Seq::new(
        n,
        |i: int|
            if i < s.len() {
                s[i]
            } else {
                0u8
            },
    )
}

/// The files after one operation. A write that has no place changes nothing.
pub open spec fn op_applied(files: Map<u64, Seq<u8>>, size: u64, op: OpView) -> Map<
    u64,
    Seq<u8>,
> {
    match op {
        OpView::Create(id) => files.insert(
            id,
            resized(
                if files.contains_key(id) {
                    files[id]
                } else {
                    Seq::empty()
                },
                size as nat,
            ),
        ),
        OpView::Write(id, offset, bytes) => if files.contains_key(id) && offset + bytes.len()
            <= files[id].len() {
            files.insert(id, patched(files[id], offset as int, bytes))
        } else {
            files
        },
        OpView::Sync(_) => files,
    }
}

/// The segment files, and what of them is on disk: what a crash leaves for certain.
pub struct LogFiles {
    /// The contents of each file.
    pub files: Map<u64, Seq<u8>>,
    /// The contents that are durable.
    pub durable: Map<u64, Seq<u8>>,
}

/// The files after one operation, and what is durable then. A write alone makes
/// nothing durable.
pub open spec fn op_performed(disk: LogFiles, size: u64, op: OpView) -> LogFiles {
    let files = op_applied(disk.files, size, op);
    LogFiles {
        files,
        durable: match op {
            OpView::Create(id) => disk.durable.insert(id, files[id]),
            OpView::Write(_, _, _) => disk.durable,
            OpView::Sync(id) => if files.contains_key(id) {
                disk.durable.insert(id, files[id])
            } else {
                disk.durable
            },
        },
    }
}

/// The files after operations in turn, and what is durable then.
pub open spec fn ops_performed(disk: LogFiles, size: u64, ops: Seq<OpView>) -> LogFiles
    decreases ops.len(),
{
    if ops.len() == 0 {
        disk
    } else {
        op_performed(ops_performed(disk, size, ops.drop_last()), size, ops.last())
    }
}

/// The files after operations in turn.
pub open spec fn ops_applied(files: Map<u64, Seq<u8>>, size: u64, ops: Seq<OpView>) -> Map<
    u64,
    Seq<u8>,
>
    decreases ops.len(),
{
    if ops.len() == 0 {
        files
    } else {
        op_applied(ops_applied(files, size, ops.drop_last()), size, ops.last())
    }
}

/// The byte of the stream at position `p`; `None` where the files hold none.
pub open spec fn stream_byte(files: Map<u64, Seq<u8>>, size: u64, p: int) -> Option<u8> {
    let id = p / (size as int);
    let offset = p % (size as int);
    if 0 <= p && id <= u64::MAX && files.contains_key(id as u64) && offset < files[id as u64].len() {
        Some(files[id as u64][offset])
    } else {
        None
    }
}

/// The files hold the `n` bytes of the stream from `at` on.
pub open spec fn stream_has(files: Map<u64, Seq<u8>>, size: u64, at: int, n: int) -> bool {
    forall|p: int| at <= p < at + n ==> #[trigger] stream_byte(files, size, p) is Some
}

/// The `n` bytes of the stream from `at` on.
pub open spec fn stream_bytes(files: Map<u64, Seq<u8>>, size: u64, at: int, n: nat) -> Seq<u8> {
    Seq::new(n, |i: int| stream_byte(files, size, at + i)->0)
}

/// Positions within one segment differ in the offset only.
pub(crate) proof fn same_segment(size: int, p: int, k: int)
    requires
        size > 0,
        0 <= p,
        0 <= k,
        p % size + k < size,
    ensures
        (p + k) / size == p / size,
        (p + k) % size == p % size + k,
{
    vstd::arithmetic::div_mod::lemma_fundamental_div_mod(p, size);
    vstd::arithmetic::div_mod::lemma_mod_bound(p, size);
    vstd::arithmetic::mul::lemma_mul_is_commutative(size, p / size);
    vstd::arithmetic::div_mod::lemma_fundamental_div_mod_converse(
        p + k,
        size,
        p / size,
        p % size + k,
    );
}

/// A position lies before the end of its segment.
pub(crate) proof fn position_in_segment(p: int, size: int)
    requires
        size > 0,
        0 <= p,
    ensures
        p < (p / size + 1) * size,
        (p / size) * size <= p,
        0 <= p / size <= p,
{
    vstd::arithmetic::div_mod::lemma_fundamental_div_mod(p, size);
    vstd::arithmetic::div_mod::lemma_mod_bound(p, size);
    assert((p / size + 1) * size == size * (p / size) + size) by (nonlinear_arith);
    assert((p / size) * size == size * (p / size)) by (nonlinear_arith);
    assert(0 <= p / size <= p) by (nonlinear_arith)
        requires
            size > 0,
            0 <= p,
    ;
}

/// The contents of the WAL segment files.
#[derive(Debug)]
pub struct WalImage {
    segment_size: u64,
    segments: HashMap<u64, Vec<u8>>,
}

impl WalImage {
    /// The segment size.
    pub closed spec fn size(&self) -> u64 {
        self.segment_size
    }

    /// The contents of each segment file.
    pub closed spec fn files(&self) -> Map<u64, Seq<u8>> {
        self.segments@.map_values(|bytes: Vec<u8>| bytes@)
    }

    /// The segment size is not 0, and the stream is not too long.
    pub open spec fn wf(&self) -> bool {
        &&& self.size() > 0
        &&& forall|id: u64| #[trigger]
            self.files().contains_key(id) ==> (id + 1) * self.size() <= MAX_STREAM_LEN
    }

    /// The files hold the `n` bytes of the stream from `at` on.
    pub open spec fn has(&self, at: int, n: int) -> bool {
        stream_has(self.files(), self.size(), at, n)
    }

    /// The `n` bytes of the stream from `at` on.
    pub open spec fn bytes(&self, at: int, n: nat) -> Seq<u8> {
        stream_bytes(self.files(), self.size(), at, n)
    }

    /// A log without segments.
    pub fn new(segment_size: u64) -> (image: Self)
        requires
            segment_size > 0,
        ensures
            image.wf(),
            image.size() == segment_size,
            image.files() == Map::<u64, Seq<u8>>::empty(),
    {
        let image = WalImage { segment_size, segments: HashMap::new() };
        assert(image.files() =~= Map::empty());
        image
    }

    /// Adds the contents of a segment file; `false`, and no change, for a segment
    /// whose end lies behind [`MAX_STREAM_LEN`].
    pub fn load(&mut self, segment_id: u64, contents: Vec<u8>) -> (loaded: bool)
        requires
            old(self).wf(),
        ensures
            final(self).wf(),
            final(self).size() == old(self).size(),
            loaded <==> (segment_id + 1) * old(self).size() <= MAX_STREAM_LEN,
            loaded ==> final(self).files() == old(self).files().insert(segment_id, contents@),
            !loaded ==> final(self).files() == old(self).files(),
    {
        broadcast use vstd::std_specs::hash::group_hash_axioms;

        assert((segment_id + 1) * self.segment_size <= u128::MAX) by (nonlinear_arith)
            requires
                segment_id <= u64::MAX,
                self.segment_size <= u64::MAX,
        ;
        let end: u128 = (segment_id as u128 + 1) * (self.segment_size as u128);
        if end > MAX_STREAM_LEN as u128 {
            return false;
        }
        self.segments.insert(segment_id, contents);
        assert(self.files() =~= old(self).files().insert(segment_id, contents@));
        true
    }

    /// Whether there is a file for the segment.
    pub fn has_segment(&self, segment_id: u64) -> (present: bool)
        ensures
            present <==> self.files().contains_key(segment_id),
    {
        broadcast use vstd::std_specs::hash::group_hash_axioms;

        self.segments.contains_key(&segment_id)
    }

    /// The contents of the file of a segment.
    pub fn segment(&self, segment_id: u64) -> (file: Option<&Vec<u8>>)
        ensures
            file is Some <==> self.files().contains_key(segment_id),
            file matches Some(bytes) ==> bytes@ == self.files()[segment_id],
    {
        broadcast use vstd::std_specs::hash::group_hash_axioms;

        self.segments.get(&segment_id)
    }

    /// The segment size in bytes.
    pub fn segment_size(&self) -> (size: u64)
        ensures
            size == self.size(),
    {
        self.segment_size
    }

    /// Reads `len` bytes of the stream from `at` on, across segments; `None`
    /// where the files end, or a file is missing, before that.
    pub fn read_at(&self, at: u64, len: usize) -> (found: Option<Vec<u8>>)
        requires
            self.wf(),
        ensures
            found is Some <==> self.has(at as int, len as int),
            found matches Some(bytes) ==> bytes@ == self.bytes(at as int, len as nat),
    {
        broadcast use vstd::std_specs::hash::group_hash_axioms;

        let mut bytes: Vec<u8> = Vec::new();
        if len as u64 > u64::MAX - at {
            proof {
                if self.has(at as int, len as int) {
                    self.within_stream(at as int, len as int);
                }
            }
            return None;
        }
        while bytes.len() < len
            invariant
                self.wf(),
                at + len <= u64::MAX,
                bytes.len() <= len,
                self.has(at as int, bytes.len() as int),
                bytes@ == self.bytes(at as int, bytes.len() as nat),
            decreases len - bytes.len(),
        {
            broadcast use vstd::std_specs::hash::group_hash_axioms;

            let done: usize = bytes.len();
            let pos = Lsn(at + done as u64);
            let segment_id: u64 = pos.segment_id(self.segment_size);
            let offset: u64 = pos.segment_offset(self.segment_size);
            assert(stream_byte(self.files(), self.size(), pos.0 as int) is None ==> !self.has(
                at as int,
                len as int,
            ));
            match self.segments.get(&segment_id) {
                None => {
                    assert(!self.files().contains_key(segment_id));
                    return None;
                },
                Some(file) => {
                    assert(self.files()[segment_id] == file@);
                    if offset >= file.len() as u64 {
                        return None;
                    }
                    let start: usize = offset as usize;
                    let in_segment: u64 = self.segment_size - offset;
                    let mut chunk: usize = len - done;
                    if in_segment < chunk as u64 {
                        chunk = in_segment as usize;
                    }
                    if file.len() - start < chunk {
                        chunk = file.len() - start;
                    }
                    push_bytes(&mut bytes, slice_subrange(file.as_slice(), start, start + chunk));
                    proof {
                        assert forall|p: int| at <= p < at + bytes.len() implies #[trigger]
                            stream_byte(self.files(), self.size(), p) == Some(
                            bytes@[p - at],
                        ) by {
                            if p >= pos.0 {
                                same_segment(self.size() as int, pos.0 as int, p - pos.0);
                            } else {
                                assert(bytes@[p - at] == self.bytes(at as int, done as nat)[p - at]);
                            }
                        }
                        assert(bytes@ =~= self.bytes(at as int, bytes.len() as nat));
                    }
                },
            }
        }
        Some(bytes)
    }

    /// A position at or behind the end of the last segment.
    pub fn stream_end(&self) -> (end: u64)
        requires
            self.wf(),
        ensures
            forall|p: int|
                end <= p ==> (#[trigger] stream_byte(self.files(), self.size(), p)) is None,
    {
        broadcast use vstd::std_specs::hash::group_hash_axioms;

        let ids = sorted_keys(&self.segments);
        if ids.len() == 0 {
            assert forall|id: u64| !self.files().contains_key(id) by {
                assert(!ids@.contains(id));
            }
            return 0;
        }
        let last: u64 = ids[ids.len() - 1];
        proof {
            assert(ids@.contains(last));
            assert(self.files().contains_key(last));
            assert((last + 1) * self.size() <= u64::MAX);
            assert(0 <= last * self.size()) by (nonlinear_arith);
            vstd::arithmetic::mul::lemma_mul_is_distributive_add_other_way(
                self.size() as int,
                last as int,
                1,
            );
        }
        let end: u64 = last * self.segment_size + self.segment_size;
        proof {
            let size = self.size() as int;
            assert forall|p: int| end <= p implies (#[trigger] stream_byte(
                self.files(),
                self.size(),
                p,
            )) is None by {
                let id = p / size;
                position_in_segment(p, size);
                if id <= last {
                    assert((id + 1) * size <= (last + 1) * size) by (nonlinear_arith)
                        requires
                            id <= last,
                            size > 0,
                    ;
                }
                assert(id > last);
                if id <= u64::MAX && self.files().contains_key(id as u64) {
                    assert(ids@.contains(id as u64));
                    let k = choose|k: int| 0 <= k < ids@.len() && ids@[k] == id as u64;
                    assert(k == ids@.len() - 1 || ids@[k] < ids@[ids@.len() - 1]);
                }
            }
        }
        end
    }

    /// What the files hold lies within the stream.
    pub proof fn within_stream(&self, at: int, n: int)
        requires
            self.wf(),
            0 <= at,
            n > 0,
            self.has(at, n),
        ensures
            at + n <= MAX_STREAM_LEN,
    {
        let last = at + n - 1;
        assert(stream_byte(self.files(), self.size(), last) is Some);
        position_in_segment(last, self.size() as int);
    }

    /// Performs one operation.
    ///
    /// A write that does not fit into the file of its segment changes nothing.
    pub fn apply(&mut self, op: &SegmentOp)
        requires
            old(self).wf(),
            old(self).size() <= usize::MAX,
            op@ matches OpView::Create(id) ==> (id + 1) * old(self).size() <= MAX_STREAM_LEN,
        ensures
            final(self).wf(),
            final(self).size() == old(self).size(),
            final(self).files() == op_applied(old(self).files(), old(self).size(), op@),
    {
        broadcast use vstd::std_specs::hash::group_hash_axioms;

        match op {
            SegmentOp::Create(id) => {
                let mut file: Vec<u8> = match self.segments.remove(id) {
                    Some(file) => file,
                    None => Vec::new(),
                };
                let ghost contents = file@;
                file.resize(self.segment_size as usize, 0);
                assert(file@ =~= resized(contents, self.segment_size as nat));
                self.segments.insert(*id, file);
                assert(self.files() =~= op_applied(old(self).files(), old(self).size(), op@));
            },
            SegmentOp::Write { segment_id, offset, bytes } => {
                let fits: bool = match self.segments.get(segment_id) {
                    Some(file) => *offset <= file.len() as u64 && bytes.len() as u64 <= file.len()
                        as u64 - *offset,
                    None => false,
                };
                if fits {
                    if let Some(mut file) = self.segments.remove(segment_id) {
                        overwrite(&mut file, *offset as usize, bytes.as_slice());
                        self.segments.insert(*segment_id, file);
                    }
                }
                assert(self.files() =~= op_applied(old(self).files(), old(self).size(), op@));
            },
            SegmentOp::Sync(_) => {},
        }
    }
}

/// What an operation does to the files: opening a segment makes it one of the full size, with
/// what it held and zeros behind that; a write changes the bytes that it writes and no others,
/// if they lie within the file; no other file changes, and making a segment durable changes
/// none.
pub proof fn operations_touch_their_own_bytes(
    files: Map<u64, Seq<u8>>,
    size: u64,
    op: OpView,
    id: u64,
    i: int,
)
    ensures
        ({
            let after = op_applied(files, size, op);
            &&& op matches OpView::Create(made) ==> {
                &&& after.contains_key(made) && after[made].len() == size
                &&& 0 <= i < size && files.contains_key(made) && i < files[made].len()
                    ==> after[made][i] == files[made][i]
                &&& 0 <= i < size && (files.contains_key(made) ==> files[made].len() <= i)
                    ==> after[made][i] == 0
                &&& id != made ==> after.contains_key(id) == files.contains_key(id) && after[id]
                    == files[id]
            }
            &&& op matches OpView::Write(into, offset, bytes) ==> {
                &&& files.contains_key(into) && offset + bytes.len() <= files[into].len() ==> {
                    &&& after[into].len() == files[into].len()
                    &&& 0 <= i < files[into].len() ==> after[into][i] == if offset <= i < offset
                        + bytes.len() {
                        bytes[i - offset]
                    } else {
                        files[into][i]
                    }
                }
                &&& !files.contains_key(into) || offset + bytes.len() > files[into].len() ==> after
                    == files
                &&& after.dom() == files.dom()
                &&& id != into ==> after[id] == files[id]
            }
            &&& op is Sync ==> after == files
        }),
{
    let after = op_applied(files, size, op);
    if op is Write {
        assert(after.dom() =~= files.dom());
    }
}

/// The bytes of the log stand one behind the other, segment after segment.
pub proof fn stream_runs_through_the_segments(
    files: Map<u64, Seq<u8>>,
    size: u64,
    id: u64,
    offset: int,
)
    requires
        0 <= offset < size,
        files.contains_key(id),
        files[id].len() == size,
    ensures
        stream_byte(files, size, id * size + offset) == Some(files[id][offset]),
{
    vstd::arithmetic::div_mod::lemma_fundamental_div_mod_converse(
        id * size + offset,
        size as int,
        id as int,
        offset,
    );
}

} // verus!
