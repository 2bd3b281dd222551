//! WAL writing with group commit.
//!
//! The writer assigns LSNs, lays records out over the segment files and decides
//! when the log is made durable. It does no I/O itself: an append gives the
//! operations to perform ([`SegmentOp`]), and the outcome is handed back
//! ([`WalWriter::op_done`], [`WalWriter::record_written`],
//! [`WalWriter::sync_succeeded`], [`WalWriter::sync_failed`]). Appending makes
//! no record durable; [`WalWriter::flush_to`] says when one is. Only the current segment
//! is made durable from time to time, so that a segment that is left is made durable
//! first.

use vstd::prelude::*;
use vstd::slice::*;
use vstd::string::*;

use crate::codec::{push_zeros, zeros};
use crate::config::rejects_config;
use crate::error::{Result, StorageError};
use crate::lsn_clock::LsnClock;
use crate::text::{decimal, push_decimal, tagged};
use crate::types::{Lsn, LSN_ALIGNMENT};
use crate::wal::image::{op_views, OpView, SegmentOp, WalImage};
use crate::wal::reader::{can_open, is_fault, is_open_fault, log_end, outcome_at, WalReader};
use crate::wal::record::{record_reads_back, RecordView, WalRecord};
use crate::wal::segment::{
    is_latest_segment, is_latest_up_to, misaligned_size_text, segments_after, texts,
    WalSegmentManager,
};

verus! {

/// Going on from segment `current` to segment `id`: each segment that is left is made
/// durable before the next one is opened.
pub open spec fn advances(current: int, id: int) -> Seq<OpView>
    decreases id - current,
{
    if current < id {
        advances(current, id - 1) + seq![
            OpView::Sync((id - 1) as u64),
            OpView::Create(id as u64),
        ]
    } else {
        Seq::empty()
    }
}

/// Writing `bytes` into segment `id`. What goes into a reserved place, or into a segment
/// that was left, is made durable at once: the log around it may be durable already.
pub open spec fn part_planned(
    current: int,
    id: int,
    offset: int,
    bytes: Seq<u8>,
    reserved: bool,
) -> Seq<OpView> {
    let write = OpView::Write(id as u64, offset as u64, bytes);
    advances(current, id) + if reserved || id < current {
        seq![write, OpView::Sync(id as u64)]
    } else {
        seq![write]
    }
}

/// The later one of two segments.
pub open spec fn later(a: int, b: int) -> int {
    if a < b {
        b
    } else {
        a
    }
}

/// Writing `bytes` to the stream at position `at`, with `current` as the latest
/// open segment, into a place that was `reserved` before or is the next one: each
/// segment is opened when its turn comes, and a segment that is left is made durable
/// first.
pub open spec fn planned(
    current: int,
    size: u64,
    at: int,
    bytes: Seq<u8>,
    reserved: bool,
) -> Seq<OpView>
    decreases bytes.len(),
{
    let id = at / (size as int);
    let offset = at % (size as int);
    let room = size - offset;
    if size == 0 || bytes.len() == 0 {
        Seq::empty()
    } else if bytes.len() <= room {
        part_planned(current, id, offset, bytes, reserved)
    } else if room > 0 {
        part_planned(current, id, offset, bytes.take(room), reserved) + planned(
            later(current, id),
            size,
            at + room,
            bytes.skip(room),
            reserved,
        )
    } else {
        Seq::empty()
    }
}

/// How much of the file of a segment belongs to the log.
pub open spec fn used_len(file: Seq<u8>, size: u64) -> int {
    if file.len() < size {
        file.len() as int
    } else {
        size as int
    }
}

/// Something other than zeros stands in a file from `offset` on.
pub open spec fn has_residue(file: Seq<u8>, size: u64, offset: int) -> bool {
    exists|i: int| offset <= i < used_len(file, size) && #[trigger] file[i] != 0
}

/// Clearing a file from `offset` on, where a torn record may stand: what comes behind its
/// header goes first, so that a crash in between leaves a torn record again.
pub open spec fn file_cleared(id: u64, offset: int, len: int) -> Seq<OpView> {
    let head = if offset + 32 < len {
        offset + 32
    } else {
        len
    };
    let front = seq![
        OpView::Write(id, offset as u64, zeros((head - offset) as nat)),
        OpView::Sync(id),
    ];
    if head < len {
        seq![OpView::Write(id, head as u64, zeros((len - head) as nat)), OpView::Sync(id)] + front
    } else {
        front
    }
}

/// Clearing what a torn or damaged record has left at the end of the log, at position
/// `at`, in its segment.
pub open spec fn tail_cleared(files: Map<u64, Seq<u8>>, size: u64, at: int) -> Seq<OpView> {
    let id = (at / (size as int)) as u64;
    let offset = at % (size as int);
    if files.contains_key(id) && has_residue(files[id], size, offset) {
        file_cleared(id, offset, used_len(files[id], size))
    } else {
        Seq::empty()
    }
}

/// What is to be done to the files of a log, in this order, before anything is appended.
#[derive(Debug)]
pub struct LogRepair {
    /// The files of segments behind the end of the log, which are to be deleted.
    pub stale_segments: Vec<String>,
    /// What is to be done to the segment in which the log ends.
    pub ops: Vec<SegmentOp>,
}

impl LogRepair {
    /// This leaves nothing behind `at`, where the log ends, in a directory with the files
    /// `names`.
    pub open spec fn mends(
        &self,
        names: Seq<String>,
        files: Map<u64, Seq<u8>>,
        size: u64,
        at: int,
    ) -> bool {
        &&& texts(self.stale_segments@) == segments_after(names, (at / (size as int)) as u64)
        &&& op_views(self.ops@) == tail_cleared(files, size, at)
    }
}

/// The operations that clear the tail of the log.
fn clear_tail(image: &WalImage, at: Lsn) -> (ops: Vec<SegmentOp>)
    requires
        image.wf(),
    ensures
        op_views(ops@) == tail_cleared(image.files(), image.size(), at.0 as int),
{
    let size: u64 = image.segment_size();
    let id: u64 = at.segment_id(size);
    let offset: u64 = at.segment_offset(size);
    let mut ops: Vec<SegmentOp> = Vec::new();
    assert(op_views(ops@) =~= Seq::empty());
    if let Some(file) = image.segment(id) {
        let len: u64 = if (file.len() as u64) < size {
            file.len() as u64
        } else {
            size
        };
        assert(len == used_len(file@, size));
        let mut residue: bool = false;
        let mut i: u64 = offset;
        while i < len && !residue
            invariant
                offset <= i,
                len <= file.len(),
                len == used_len(file@, size),
                residue ==> has_residue(file@, size, offset as int),
                !residue ==> forall|k: int| offset <= k < i && k < len ==> file@[k] == 0,
            decreases
                len - i + (if residue {
                    0int
                } else {
                    1int
                }),
        {
            if file[i as usize] != 0 {
                residue = true;
            } else {
                i += 1;
            }
        }
        if residue {
            let head: u64 = if len - offset > 32 {
                offset + 32
            } else {
                len
            };
            if head < len {
                let mut bytes: Vec<u8> = Vec::new();
                push_zeros(&mut bytes, (len - head) as usize);
                assert(bytes@ =~= zeros((len - head) as nat));
                ops.push(SegmentOp::Write { segment_id: id, offset: head, bytes });
                ops.push(SegmentOp::Sync(id));
            }
            let mut bytes: Vec<u8> = Vec::new();
            push_zeros(&mut bytes, (head - offset) as usize);
            assert(bytes@ =~= zeros((head - offset) as nat));
            ops.push(SegmentOp::Write { segment_id: id, offset, bytes });
            ops.push(SegmentOp::Sync(id));
            assert(op_views(ops@) =~= file_cleared(id, offset as int, len as int));
        }
    }
    ops
}

/// A record that has its place, and the operations that put it there.
#[derive(Debug)]
pub struct Append {
    /// The LSN of the record.
    pub lsn: Lsn,
    /// What is to be done, in order.
    pub ops: Vec<SegmentOp>,
}

/// What a caller who waits for durability does next.
#[derive(Debug, Clone, Copy, PartialEq, Eq, Structural)]
pub enum FlushStep {
    /// Nothing: everything asked for is durable.
    Done,
    /// Wake the worker, wait for it, and ask again.
    Wait,
}

/// What the worker does next.
#[derive(Debug, Clone, Copy, PartialEq, Eq, Structural)]
pub enum WorkerStep {
    /// Stop.
    Exit,
    /// Wait for the group-commit timeout or a wake-up.
    Wait,
    /// Make the current segment durable and report how that went.
    Sync,
}

/// The state of the log that is written.
pub struct WriterView {
    /// The LSN of the next record.
    pub now: Lsn,
    /// The segment size.
    pub segment_size: u64,
    /// The latest open segment.
    pub current_segment: u64,
    /// Where the log went on when it was opened: what was there before is durable.
    pub opened: Lsn,
    /// Everything before this LSN has been made durable since; 0 if nothing has.
    pub synced: Lsn,
    /// The number of records written since it was last made durable.
    pub pending: nat,
    /// Whether the writer has been shut down.
    pub shutdown: bool,
    /// The error that has stopped the writer.
    pub error: Option<Seq<char>>,
    /// Number of pending records that makes the log durable.
    pub batch_size: usize,
    /// Milliseconds after which pending records are made durable.
    pub timeout_ms: u64,
}

/// The log that is written.
#[derive(Debug)]
pub struct WalWriter {
    clock: LsnClock,
    segments: WalSegmentManager,
    opened_lsn: Lsn,
    synced_lsn: Lsn,
    pending: usize,
    shutdown: bool,
    last_error: Option<String>,
    batch_size: usize,
    timeout_ms: u64,
}

impl View for WalWriter {
    type V = WriterView;

    closed spec fn view(&self) -> WriterView {
        WriterView {
            now: self.clock.now(),
            segment_size: self.segments.size(),
            current_segment: self.segments.current(),
            opened: self.opened_lsn,
            synced: self.synced_lsn,
            pending: self.pending as nat,
            shutdown: self.shutdown,
            error: match self.last_error {
                Some(message) => Some(message@),
                None => None,
            },
            batch_size: self.batch_size,
            timeout_ms: self.timeout_ms,
        }
    }
}

/// The result is a `WalWriteFailed` with the message `text`.
pub open spec fn write_failed<T>(result: Result<T>, text: Seq<char>) -> bool {
    result matches Err(StorageError::WalWriteFailed(message)) && message@ == text
}

/// The message for a record whose payload is too long.
pub open spec fn payload_too_long(len: nat) -> Seq<char> {
    "payload length "@ + decimal(len) + " exceeds maximum "@ + decimal(65535)
}

/// The message for a record that is longer than a segment.
pub open spec fn record_too_long(len: nat, segment_size: nat) -> Seq<char> {
    "record size "@ + decimal(len) + " exceeds segment size "@ + decimal(segment_size)
}

/// The state of a log that was opened to go on at `at`.
pub open spec fn opened_at(
    at: Lsn,
    segment_size: u64,
    current_segment: u64,
    batch_size: usize,
    timeout_ms: u64,
) -> WriterView {
    WriterView {
        now: at,
        segment_size,
        current_segment,
        opened: at,
        synced: Lsn(0),
        pending: 0,
        shutdown: false,
        error: None,
        batch_size,
        timeout_ms,
    }
}

impl WriterView {
    /// What comes of writing `record`, already at its LSN, into a place that was
    /// `reserved` before or is the next one.
    pub open spec fn lays_out(
        self,
        record: RecordView,
        reserved: bool,
        result: Result<Vec<SegmentOp>>,
    ) -> bool {
        if !record.fits() {
            write_failed(result, payload_too_long(record.payload.len()))
        } else if record.size() > self.segment_size {
            write_failed(result, record_too_long(record.size(), self.segment_size as nat))
        } else {
            result matches Ok(ops) && op_views(ops@) == planned(
                self.current_segment as int,
                self.segment_size,
                record.lsn.0 as int,
                record.bytes(),
                reserved,
            )
        }
    }

    /// The state once an operation has been performed: a segment that was opened is the
    /// current one.
    pub open spec fn op_noted(self, op: OpView) -> WriterView {
        match op {
            OpView::Create(id) => WriterView { current_segment: id, ..self },
            _ => self,
        }
    }

    /// The state once operations have been performed in turn.
    pub open spec fn ops_noted(self, ops: Seq<OpView>) -> WriterView
        decreases ops.len(),
    {
        if ops.len() == 0 {
            self
        } else {
            self.ops_noted(ops.drop_last()).op_noted(ops.last())
        }
    }

    /// Everything before this position is durable.
    pub open spec fn durable_to(self) -> int {
        if self.synced.0 < self.opened.0 {
            self.opened.0 as int
        } else {
            self.synced.0 as int
        }
    }

    /// Every record with an LSN of at most `lsn` is durable: the durable part of
    /// the log ends behind `lsn`, or it is the whole log.
    pub open spec fn is_durable(self, lsn: Lsn) -> bool {
        self.durable_to() > lsn.0 || self.durable_to() == self.now.0
    }

    /// The state once everything written so far is durable.
    pub open spec fn all_synced(self) -> WriterView {
        WriterView { synced: self.now, pending: 0, error: None, ..self }
    }
}

/// What comes of appending `record`: it gets the next LSN and is laid out there. The
/// LSN is used up even where the record is refused.
pub open spec fn appended(
    before: WriterView,
    record: RecordView,
    after: WriterView,
    result: Result<Append>,
) -> bool {
    match before.error {
        Some(text) => write_failed(result, text) && after == before,
        None => {
            &&& after == (WriterView {
                now: Lsn((before.now.0 + record.size()) as u64),
                ..before
            })
            &&& result matches Ok(append) ==> append.lsn == before.now
            &&& before.lays_out(
                record.at(before.now),
                false,
                match result {
                    Ok(append) => Ok(append.ops),
                    Err(error) => Err(error),
                },
            )
        },
    }
}

/// What asking whether the log is durable up to `lsn` gives.
pub open spec fn flush_answered(w: WriterView, lsn: Lsn, result: Result<FlushStep>) -> bool {
    match w.error {
        Some(text) => write_failed(result, text),
        None => if lsn.0 > w.now.0 {
            result == Err::<FlushStep, StorageError>(StorageError::LsnNotAvailable(lsn))
        } else if w.is_durable(lsn) {
            result == Ok::<FlushStep, StorageError>(FlushStep::Done)
        } else if w.shutdown {
            write_failed(result, "wal writer shut down"@)
        } else {
            result == Ok::<FlushStep, StorageError>(FlushStep::Wait)
        },
    }
}

/// What the worker does, `elapsed_ms` after the log was last made durable.
pub open spec fn worker_does(w: WriterView, elapsed_ms: u64) -> WorkerStep {
    if w.shutdown && w.pending == 0 {
        WorkerStep::Exit
    } else if w.shutdown || (w.pending > 0 && (w.pending >= w.batch_size || elapsed_ms
        >= w.timeout_ms)) {
        WorkerStep::Sync
    } else {
        WorkerStep::Wait
    }
}

/// An append succeeds whenever the record can be written: the writer has not been stopped, the
/// payload has at most 65,535 bytes, and the record is no longer than a segment. The record
/// gets the LSN that was next, and the LSNs of as many bytes as it has are used up, even where
/// it is refused; a writer that was stopped does nothing but fail.
pub proof fn append_succeeds_where_the_record_fits(
    before: WriterView,
    record: RecordView,
    after: WriterView,
    result: Result<Append>,
)
    requires
        appended(before, record, after, result),
        before.now.0 + record.size() <= u64::MAX,
    ensures
        result is Ok <==> before.error is None && record.payload.len() <= 65_535 && record.size()
            <= before.segment_size,
        result matches Ok(append) ==> append.lsn == before.now,
        before.error is None ==> after.now.0 == before.now.0 + record.size() && after == (
        WriterView { now: after.now, ..before }),
        before.error is Some ==> after == before,
        32 + record.payload.len() <= record.size() < 40 + record.payload.len(),
        record.size() % 8 == 0,
{
}

/// Once the log was made durable, all of it is, whatever was asked for; nothing is pending, and
/// nothing else changes. A writer that was opened takes what was there for durable.
pub proof fn sync_makes_everything_durable(w: WriterView, lsn: Lsn)
    requires
        w.opened.0 <= w.now.0,
    ensures
        w.all_synced().is_durable(lsn),
        w.all_synced().pending == 0,
        w.all_synced().error is None,
        w.all_synced().synced == w.now,
        w.all_synced() == (WriterView {
            synced: w.all_synced().synced,
            pending: w.all_synced().pending,
            error: w.all_synced().error,
            ..w
        }),
        lsn.0 < w.opened.0 || lsn.0 < w.synced.0 ==> w.is_durable(lsn),
        w.is_durable(lsn) ==> lsn.0 < w.opened.0 || lsn.0 < w.synced.0 || w.now == w.opened
            || w.now == w.synced,
{
}

/// What a flush answers: the error that stopped the writer; else that an LSN was not given out;
/// else that it is done, exactly if the log is durable up to there; else to wait, unless the
/// writer was shut down.
pub proof fn flush_answers_what_is_durable(w: WriterView, lsn: Lsn, result: Result<FlushStep>)
    requires
        flush_answered(w, lsn, result),
    ensures
        result == Ok::<FlushStep, StorageError>(FlushStep::Done) <==> w.error is None && lsn.0
            <= w.now.0 && w.is_durable(lsn),
        result == Ok::<FlushStep, StorageError>(FlushStep::Wait) <==> w.error is None && lsn.0
            <= w.now.0 && !w.is_durable(lsn) && !w.shutdown,
        w.error is None && lsn.0 > w.now.0 ==> result == Err::<FlushStep, StorageError>(
            StorageError::LsnNotAvailable(lsn),
        ),
        w.error matches Some(text) ==> (result matches Err(StorageError::WalWriteFailed(message))
            && message@ == text),
{
}

/// The worker never leaves records behind: it stops only after a shutdown with nothing
/// pending, and pending records are made durable at a shutdown, when there are enough of them,
/// and when they are old enough; otherwise it waits.
pub proof fn worker_leaves_nothing_behind(w: WriterView, elapsed_ms: u64)
    ensures
        worker_does(w, elapsed_ms) is Exit <==> w.shutdown && w.pending == 0,
        w.pending > 0 && (w.shutdown || w.pending >= w.batch_size || elapsed_ms >= w.timeout_ms)
            <==> worker_does(w, elapsed_ms) is Sync,
        !w.shutdown && w.pending == 0 ==> worker_does(w, elapsed_ms) is Wait,
{
}

/// The message for a start in a segment that is not the latest one.
pub open spec fn later_segment_text(lsn: Lsn, segment: u64, latest: u64) -> Seq<char> {
    "start_lsn "@ + tagged("Lsn"@, lsn.0 as nat) + " is in segment "@ + decimal(segment as nat)
        + " but latest WAL segment is "@ + decimal(latest as nat)
        + "; recovery must trim or recycle segments first"@
}

/// The log can be read from [`Lsn::first`] to its end.
pub open spec fn resumes(files: Map<u64, Seq<u8>>, size: u64) -> bool {
    can_open(files, size, Lsn::first()) && outcome_at(files, size, log_end(files, size, 8)) is End
}

/// The error that reading the log from [`Lsn::first`] on gives.
pub open spec fn is_resume_fault(
    files: Map<u64, Seq<u8>>,
    size: u64,
    error: StorageError,
) -> bool {
    if !can_open(files, size, Lsn::first()) {
        is_open_fault(files, size, Lsn::first(), error)
    } else {
        is_fault(
            outcome_at(files, size, log_end(files, size, 8)),
            log_end(files, size, 8),
            error,
        )
    }
}

impl WalWriter {
    /// The segment size is usable, nothing is durable that was not given out, and no
    /// segment is open that lies behind the next record; LSNs are valid and aligned.
    pub closed spec fn wf(&self) -> bool {
        &&& self.segments.wf()
        &&& self@.durable_to() <= self@.now.0
        &&& self@.current_segment <= self@.now.0 / self@.segment_size
        &&& self@.now.is_valid() && self@.now.0 % LSN_ALIGNMENT == 0
        &&& self@.opened.is_valid() && self@.opened.0 % LSN_ALIGNMENT == 0
        &&& self@.synced.0 % LSN_ALIGNMENT == 0
    }

    /// What `wf` says of the state.
    pub proof fn wf_facts(&self)
        requires
            self.wf(),
        ensures
            self@.segment_size > 0,
            self@.segment_size % LSN_ALIGNMENT == 0,
            self@.durable_to() <= self@.now.0,
            self@.current_segment <= self@.now.0 / self@.segment_size,
            self@.now.is_valid() && self@.now.0 % LSN_ALIGNMENT == 0,
            self@.opened.is_valid() && self@.opened.0 % LSN_ALIGNMENT == 0,
            self@.synced.0 % LSN_ALIGNMENT == 0,
    {
    }

    fn with_segments(
        segments: WalSegmentManager,
        batch_size: usize,
        timeout_ms: u64,
        start_lsn: Lsn,
    ) -> (writer: Self)
        requires
            segments.wf(),
            start_lsn.is_valid(),
            start_lsn.0 % LSN_ALIGNMENT == 0,
            segments.current() <= start_lsn.0 / segments.size(),
        ensures
            writer.wf(),
            writer@ == opened_at(
                start_lsn,
                segments.size(),
                segments.current(),
                batch_size,
                timeout_ms,
            ),
    {
        WalWriter {
            clock: LsnClock::new(start_lsn),
            segments,
            opened_lsn: start_lsn,
            synced_lsn: Lsn::invalid(),
            pending: 0,
            shutdown: false,
            last_error: None,
            batch_size,
            timeout_ms,
        }
    }

    /// The LSN right behind the last complete record of the log from
    /// [`Lsn::first`] on. A torn record at the end is passed over: its place is
    /// the next to be written.
    pub fn discover_resume_lsn(image: &WalImage) -> (result: Result<Lsn>)
        requires
            image.wf(),
        ensures
            match result {
                Ok(lsn) => resumes(image.files(), image.size()) && lsn.0 == log_end(
                    image.files(),
                    image.size(),
                    8,
                ) && lsn.is_valid() && lsn.0 % LSN_ALIGNMENT == 0,
                Err(error) => is_resume_fault(image.files(), image.size(), error),
            },
    {
        let mut reader = match WalReader::open_at(image, Lsn::first()) {
            Ok(reader) => reader,
            Err(error) => return Err(error),
        };
        loop
            invariant
                reader.wf(),
                reader.files() == image.files(),
                reader.size() == image.size(),
                reader.position().0 >= 8,
                reader.position().0 % 8 == 0,
                can_open(image.files(), image.size(), Lsn::first()),
                log_end(image.files(), image.size(), 8) == log_end(
                    image.files(),
                    image.size(),
                    reader.position().0 as int,
                ),
            decreases u64::MAX - reader.position().0,
        {
            match reader.next_record() {
                Ok(Some(_)) => {
                    proof {
                        reader.position_bound();
                    }
                },
                Ok(None) => return Ok(reader.current_lsn()),
                Err(error) => return Err(error),
            }
        }
    }

    /// Opens the log whose segment files have the contents `image` and stand in
    /// a directory with the files `names`, and goes on right behind its last
    /// complete record. Also gives what is to be done first about what a torn record has
    /// left behind that place.
    ///
    /// The whole log has to be there. Where older segments have been recycled,
    /// [`open_at`](Self::open_at) opens it.
    pub fn open(
        image: &WalImage,
        names: &Vec<String>,
        batch_size: usize,
        timeout_ms: u64,
    ) -> (result: Result<(Self, LogRepair)>)
        requires
            image.wf(),
        ensures
            match result {
                Ok((writer, repair)) => {
                    &&& resumes(image.files(), image.size())
                    &&& writer.wf()
                    &&& writer@.now.0 == log_end(image.files(), image.size(), 8)
                    &&& is_latest_up_to(
                        names@,
                        (writer@.now.0 / image.size()) as u64,
                        writer@.current_segment,
                    )
                    &&& repair.mends(
                        names@,
                        image.files(),
                        image.size(),
                        writer@.now.0 as int,
                    )
                    &&& writer@ == opened_at(
                        Lsn(log_end(image.files(), image.size(), 8) as u64),
                        image.size(),
                        writer@.current_segment,
                        batch_size,
                        timeout_ms,
                    )
                },
                Err(error) => if image.size() % LSN_ALIGNMENT != 0 {
                    error matches StorageError::InvalidConfig(message) && message@
                        == misaligned_size_text(image.size())
                } else {
                    is_resume_fault(image.files(), image.size(), error)
                },
            },
    {
        match WalSegmentManager::open(image.segment_size(), names) {
            Ok(_) => {},
            Err(error) => return Err(error),
        }
        match Self::discover_resume_lsn(image) {
            Ok(start_lsn) => Self::resume(image, names, batch_size, timeout_ms, start_lsn),
            Err(error) => Err(error),
        }
    }

    /// Opens the log in a directory with the files `names` at `start_lsn`.
    ///
    /// The latest segment has to be the one that holds `start_lsn`:
    /// `InvalidConfig` if a later one exists, so that recovery can trim the log
    /// first, and for an LSN that is invalid or not aligned.
    pub fn open_at(
        segment_size: u64,
        names: &Vec<String>,
        batch_size: usize,
        timeout_ms: u64,
        start_lsn: Lsn,
    ) -> (result: Result<Self>)
        ensures
            match result {
                Ok(writer) => {
                    &&& start_lsn.is_valid() && start_lsn.0 % LSN_ALIGNMENT == 0
                    &&& segment_size > 0 && segment_size % LSN_ALIGNMENT == 0
                    &&& is_latest_segment(names@, (start_lsn.0 / segment_size) as u64)
                    &&& writer.wf()
                    &&& writer@ == opened_at(
                        start_lsn,
                        segment_size,
                        (start_lsn.0 / segment_size) as u64,
                        batch_size,
                        timeout_ms,
                    )
                },
                Err(error) => if !start_lsn.is_valid() || start_lsn.0 % LSN_ALIGNMENT != 0 {
                    rejects_config(
                        result,
                        "invalid WAL start LSN "@ + tagged("Lsn"@, start_lsn.0 as nat),
                    )
                } else if segment_size == 0 {
                    rejects_config(result, "wal_segment_size must be > 0"@)
                } else if segment_size % LSN_ALIGNMENT != 0 {
                    rejects_config(result, misaligned_size_text(segment_size))
                } else {
                    exists|latest: u64| #[trigger]
                        is_latest_segment(names@, latest) && latest != start_lsn.0 / segment_size
                            && rejects_config(
                            result,
                            later_segment_text(
                                start_lsn,
                                (start_lsn.0 / segment_size) as u64,
                                latest,
                            ),
                        )
                },
            },
    {
        if !start_lsn.is_valid() || start_lsn.0 % LSN_ALIGNMENT != 0 {
            let mut message = "invalid WAL start LSN ".to_owned();
            let lsn = start_lsn.to_text();
            message.append(lsn.as_str());
            return Err(StorageError::InvalidConfig(message));
        }
        let segments = match WalSegmentManager::open(segment_size, names) {
            Ok(segments) => segments,
            Err(error) => return Err(error),
        };
        let expected: u64 = start_lsn.segment_id(segment_size);
        if expected != segments.current_segment_id() {
            let mut message = "start_lsn ".to_owned();
            let lsn = start_lsn.to_text();
            message.append(lsn.as_str());
            message.append(" is in segment ");
            push_decimal(&mut message, expected);
            message.append(" but latest WAL segment is ");
            push_decimal(&mut message, segments.current_segment_id());
            message.append("; recovery must trim or recycle segments first");
            return Err(StorageError::InvalidConfig(message));
        }
        Ok(Self::with_segments(segments, batch_size, timeout_ms, start_lsn))
    }

    /// Goes on at `at`, where recovery found the end of the log, in a directory with
    /// the files `names`. Segments before the last checkpoint need not be there. Also
    /// gives what is to be done first about what a torn or damaged record has left behind
    /// that place: later segments are deleted, and the rest of its own is cleared.
    ///
    /// `InvalidConfig` for a segment size that is not a multiple of [`LSN_ALIGNMENT`].
    pub fn resume(
        image: &WalImage,
        names: &Vec<String>,
        batch_size: usize,
        timeout_ms: u64,
        at: Lsn,
    ) -> (result: Result<(Self, LogRepair)>)
        requires
            image.wf(),
            at.is_valid(),
            at.0 % LSN_ALIGNMENT == 0,
        ensures
            result is Ok <==> image.size() % LSN_ALIGNMENT == 0,
            image.size() % LSN_ALIGNMENT != 0 ==> rejects_config(
                result,
                misaligned_size_text(image.size()),
            ),
            result matches Ok((writer, repair)) ==> {
                &&& writer.wf()
                &&& is_latest_up_to(
                    names@,
                    (at.0 / image.size()) as u64,
                    writer@.current_segment,
                )
                &&& repair.mends(names@, image.files(), image.size(), at.0 as int)
                &&& writer@ == opened_at(
                    at,
                    image.size(),
                    writer@.current_segment,
                    batch_size,
                    timeout_ms,
                )
            },
    {
        let size: u64 = image.segment_size();
        let last: u64 = at.segment_id(size);
        let (segments, stale_segments) = WalSegmentManager::open_up_to(size, names, last)?;
        let ops = clear_tail(image, at);
        Ok(
            (
                Self::with_segments(segments, batch_size, timeout_ms, at),
                LogRepair { stale_segments, ops },
            ),
        )
    }

    /// The error that has stopped the writer, if one has.
    pub fn check_error(&self) -> (result: Result<()>)
        ensures
            match self@.error {
                Some(text) => write_failed(result, text),
                None => result is Ok,
            },
    {
        match &self.last_error {
            Some(message) => Err(StorageError::WalWriteFailed(message.clone())),
            None => Ok(()),
        }
    }

    /// The operations that write a serialized record at `lsn`, across segments
    /// where it has to be.
    fn plan_write(&self, bytes: &[u8], lsn: Lsn, reserved: bool) -> (result: Result<
        Vec<SegmentOp>,
    >)
        requires
            self.segments.wf(),
            bytes.len() > 0,
            lsn.0 + bytes.len() <= u64::MAX,
        ensures
            ({
                let size = self@.segment_size;
                if bytes.len() > size {
                    write_failed(result, record_too_long(bytes@.len(), size as nat))
                } else {
                    result matches Ok(ops) && op_views(ops@) == planned(
                        self@.current_segment as int,
                        size,
                        lsn.0 as int,
                        bytes@,
                        reserved,
                    )
                }
            }),
    {
        let size: u64 = self.segments.segment_size();
        if bytes.len() as u64 > size {
            let mut message = "record size ".to_owned();
            push_decimal(&mut message, bytes.len() as u64);
            message.append(" exceeds segment size ");
            push_decimal(&mut message, size);
            return Err(StorageError::WalWriteFailed(message));
        }
        let mut ops: Vec<SegmentOp> = Vec::new();
        let mut current: u64 = self.segments.current_segment_id();
        let mut written: usize = 0;
        assert(bytes@.skip(0) =~= bytes@);
        let ghost whole = planned(current as int, size, lsn.0 as int, bytes@, reserved);
        assert(op_views(ops@) + whole =~= whole);
        while written < bytes.len()
            invariant
                size > 0,
                written <= bytes.len(),
                lsn.0 + bytes.len() <= u64::MAX,
                op_views(ops@) + planned(
                    current as int,
                    size,
                    lsn.0 + written,
                    bytes@.skip(written as int),
                    reserved,
                ) == whole,
            decreases bytes.len() - written,
        {
            let pos = Lsn(lsn.0 + written as u64);
            let segment_id: u64 = pos.segment_id(size);
            let offset: u64 = pos.segment_offset(size);
            let older: bool = segment_id < current;
            let ghost before = op_views(ops@);
            let ghost from = current as int;
            assert(before =~= before + advances(from, from));
            while current < segment_id
                invariant
                    from <= current,
                    current <= segment_id || current == from,
                    op_views(ops@) == before + advances(from, current as int),
                decreases segment_id - current,
            {
                let ghost earlier = ops@;
                ops.push(SegmentOp::Sync(current));
                ops.push(SegmentOp::Create(current + 1));
                proof {
                    views_push(earlier, SegmentOp::Sync(current));
                    views_push(
                        earlier.push(SegmentOp::Sync(current)),
                        SegmentOp::Create((current + 1) as u64),
                    );
                    assert(op_views(ops@) =~= before + advances(from, current + 1));
                }
                current = current + 1;
            }
            assert(advances(from, current as int) == advances(from, segment_id as int));
            let room: u64 = size - offset;
            let left: usize = bytes.len() - written;
            let chunk: usize = if room < left as u64 {
                room as usize
            } else {
                left
            };
            let part = slice_to_vec(slice_subrange(bytes, written, written + chunk));
            let ghost rest = bytes@.skip(written as int);
            let ghost write = OpView::Write(segment_id, offset, part@);
            assert(part@ =~= rest.take(chunk as int));
            let ghost earlier = ops@;
            ops.push(SegmentOp::Write { segment_id, offset, bytes: part });
            proof {
                views_push(earlier, ops@.last());
                assert(ops@ =~= earlier.push(ops@.last()));
            }
            if reserved || older {
                let ghost earlier = ops@;
                ops.push(SegmentOp::Sync(segment_id));
                proof {
                    views_push(earlier, SegmentOp::Sync(segment_id));
                }
            }
            let ghost placed = part_planned(
                from,
                segment_id as int,
                offset as int,
                part@,
                reserved,
            );
            assert(op_views(ops@) =~= before + placed);
            written = written + chunk;
            proof {
                assert(bytes@.skip(written as int) =~= rest.skip(chunk as int));
                if chunk == left {
                    assert(rest.take(chunk as int) =~= rest);
                }
                assert(op_views(ops@) + planned(
                    current as int,
                    size,
                    lsn.0 + written,
                    bytes@.skip(written as int),
                    reserved,
                ) =~= before + planned(from, size, pos.0 as int, rest, reserved));
            }
        }
        assert(op_views(ops@) =~= whole);
        Ok(ops)
    }

    /// Serializes the record at `lsn` and lays it out.
    fn lay_out(&self, record: WalRecord, lsn: Lsn, reserved: bool) -> (result: Result<
        Vec<SegmentOp>,
    >)
        requires
            self.wf(),
            lsn.0 + record@.size() <= u64::MAX,
        ensures
            self@.lays_out(record@.at(lsn), reserved, result),
    {
        let mut placed = record;
        placed.lsn = lsn;
        proof {
            if placed@.fits() {
                record_reads_back(placed@, Seq::empty());
            }
        }
        match placed.encode() {
            Ok(bytes) => self.plan_write(bytes.as_slice(), lsn, reserved),
            Err(error) => Err(error),
        }
    }

    /// Gives a record the next LSN and lays it out.
    ///
    /// The record is not durable yet, and not even written before the operations
    /// have been performed. The LSN is used up even where the record is refused:
    /// for a payload that is too long, and for a record that is longer than a
    /// segment.
    pub fn append(&mut self, record: WalRecord) -> (result: Result<Append>)
        requires
            old(self).wf(),
            record.payload.len() + 39 <= usize::MAX,
            old(self)@.now.0 + record@.size() <= u64::MAX,
        ensures
            final(self).wf(),
            appended(old(self)@, record@, final(self)@, result),
    {
        match self.check_error() {
            Ok(_) => {},
            Err(error) => return Err(error),
        }
        let size: u64 = record.record_size() as u64;
        let lsn = self.clock.next(size);
        assert(self@ == (WriterView { now: self@.now, ..old(self)@ }));
        proof {
            self.position_grew(old(self));
        }
        match self.lay_out(record, lsn, false) {
            Ok(ops) => Ok(Append { lsn, ops }),
            Err(error) => Err(error),
        }
    }

    /// Reserves the next `size` bytes of the log for a record to be written with
    /// [`append_at`](Self::append_at).
    pub fn reserve_lsn(&mut self, size: u64) -> (lsn: Lsn)
        requires
            old(self).wf(),
            size > 0,
            size % LSN_ALIGNMENT == 0,
            old(self)@.now.0 + size <= u64::MAX,
        ensures
            final(self).wf(),
            lsn == old(self)@.now,
            final(self)@ == (WriterView {
                now: Lsn((old(self)@.now.0 + size) as u64),
                ..old(self)@
            }),
    {
        let lsn = self.clock.reserve(size);
        proof {
            self.position_grew(old(self));
        }
        lsn
    }

    /// When only the next LSN has grown, the state stays in order.
    proof fn position_grew(&self, before: &Self)
        requires
            before.wf(),
            self@ == (WriterView { now: self@.now, ..before@ }),
            self.segments == before.segments,
            before@.now.0 <= self@.now.0,
            self@.now.0 % LSN_ALIGNMENT == 0,
        ensures
            self.wf(),
    {
        vstd::arithmetic::div_mod::lemma_div_is_ordered(
            before@.now.0 as int,
            self@.now.0 as int,
            self@.segment_size as int,
        );
    }

    /// Lays a record out at an LSN that was reserved for it. What has been appended
    /// meanwhile may lie in later segments, and may be durable already, so that the
    /// operations make the record durable, too.
    pub fn append_at(&self, record: WalRecord, lsn: Lsn) -> (result: Result<Vec<SegmentOp>>)
        requires
            self.wf(),
            lsn.0 + record@.size() <= self@.now.0,
        ensures
            match self@.error {
                Some(text) => write_failed(result, text),
                None => self@.lays_out(record@.at(lsn), true, result),
            },
    {
        match self.check_error() {
            Ok(_) => self.lay_out(record, lsn, true),
            Err(error) => Err(error),
        }
    }

    /// Reports an operation as performed: a segment that was opened is the
    /// current one from now on.
    pub fn op_done(&mut self, op: &SegmentOp)
        requires
            old(self).wf(),
            op@ matches OpView::Create(id) ==> id == old(self)@.current_segment + 1 && id
                <= old(self)@.now.0 / old(self)@.segment_size,
        ensures
            final(self).wf(),
            final(self)@ == old(self)@.op_noted(op@),
    {
        match op {
            SegmentOp::Create(_) => {
                self.segments.rotate();
            },
            _ => {},
        }
    }

    /// Reports a record as written, `elapsed_ms` after the log was last made
    /// durable. Says whether the worker is to be woken.
    pub fn record_written(&mut self, elapsed_ms: u64) -> (wake: bool)
        requires
            old(self).wf(),
            old(self)@.pending < usize::MAX,
        ensures
            final(self).wf(),
            final(self)@ == (WriterView { pending: old(self)@.pending + 1, ..old(self)@ }),
            wake <==> old(self)@.pending + 1 >= old(self)@.batch_size || elapsed_ms >= old(
                self,
            )@.timeout_ms,
    {
        self.pending = self.pending + 1;
        self.pending >= self.batch_size || elapsed_ms >= self.timeout_ms
    }

    /// The LSN up to which [`flush_to`](Self::flush_to) makes everything durable
    /// that has been appended; `None` if nothing is pending.
    pub fn flush(&self) -> (result: Result<Option<Lsn>>)
        ensures
            match self@.error {
                Some(text) => write_failed(result, text),
                None => result == Ok::<Option<Lsn>, StorageError>(
                    if self@.pending == 0 {
                        None
                    } else {
                        Some(self@.now)
                    },
                ),
            },
    {
        match self.check_error() {
            Ok(_) => if self.pending == 0 {
                Ok(None)
            } else {
                Ok(Some(self.clock.current()))
            },
            Err(error) => Err(error),
        }
    }

    /// Whether all records with an LSN of at most `lsn` are durable.
    ///
    /// The error that stopped the writer comes first, then `LsnNotAvailable` for
    /// an LSN that has not been given out. A writer that was shut down with
    /// records left gives `WalWriteFailed`.
    pub fn flush_to(&self, lsn: Lsn) -> (result: Result<FlushStep>)
        requires
            self.wf(),
        ensures
            match self@.error {
                Some(text) => write_failed(result, text),
                None => if lsn.0 > self@.now.0 {
                    result == Err::<FlushStep, StorageError>(StorageError::LsnNotAvailable(lsn))
                } else if self@.is_durable(lsn) {
                    result == Ok::<FlushStep, StorageError>(FlushStep::Done)
                } else if self@.shutdown {
                    write_failed(result, "wal writer shut down"@)
                } else {
                    result == Ok::<FlushStep, StorageError>(FlushStep::Wait)
                },
            },
            flush_answered(self@, lsn, result),
    {
        match self.check_error() {
            Ok(_) => {},
            Err(error) => return Err(error),
        }
        let now = self.clock.current();
        if lsn.0 > now.0 {
            return Err(StorageError::LsnNotAvailable(lsn));
        }
        let durable_to: u64 = if self.synced_lsn.0 < self.opened_lsn.0 {
            self.opened_lsn.0
        } else {
            self.synced_lsn.0
        };
        if durable_to > lsn.0 || durable_to == now.0 {
            return Ok(FlushStep::Done);
        }
        if self.shutdown {
            return Err(StorageError::WalWriteFailed("wal writer shut down".to_owned()));
        }
        Ok(FlushStep::Wait)
    }

    /// The LSN before which everything has been made durable; 0 before the first time.
    pub fn synced_lsn(&self) -> (lsn: Lsn)
        ensures
            lsn == self@.synced,
    {
        self.synced_lsn
    }

    /// The LSN of the next record.
    pub fn current_lsn(&self) -> (lsn: Lsn)
        ensures
            lsn == self@.now,
    {
        self.clock.current()
    }

    /// The segment that is written to; the worker makes it durable.
    pub fn current_segment_id(&self) -> (id: u64)
        ensures
            id == self@.current_segment,
    {
        self.segments.current_segment_id()
    }

    /// What the worker does next, `elapsed_ms` after the log was last made
    /// durable: pending records are made durable once there are enough of them
    /// or they are old enough, or the writer is shut down; a writer that was shut
    /// down and has nothing pending is done.
    pub fn worker_step(&self, elapsed_ms: u64) -> (step: WorkerStep)
        ensures
            step == (if self@.shutdown && self@.pending == 0 {
                WorkerStep::Exit
            } else if self@.shutdown || (self@.pending > 0 && (self@.pending >= self@.batch_size
                || elapsed_ms >= self@.timeout_ms)) {
                WorkerStep::Sync
            } else {
                WorkerStep::Wait
            }),
            step == worker_does(self@, elapsed_ms),
    {
        if self.shutdown && self.pending == 0 {
            return WorkerStep::Exit;
        }
        let should_flush: bool = self.pending > 0 && (self.pending >= self.batch_size || elapsed_ms
            >= self.timeout_ms);
        if !should_flush && !self.shutdown {
            return WorkerStep::Wait;
        }
        WorkerStep::Sync
    }

    /// Reports that the current segment is durable, and with it everything written so
    /// far: the segments before it were made durable when they were left.
    pub fn sync_succeeded(&mut self)
        requires
            old(self).wf(),
        ensures
            final(self).wf(),
            final(self)@ == old(self)@.all_synced(),
    {
        self.last_error = None;
        self.synced_lsn = self.clock.current();
        self.pending = 0;
    }

    /// Reports that making the log durable failed. The writer is stopped: what
    /// follows fails with this error.
    pub fn sync_failed(&mut self, reason: &str)
        requires
            old(self).wf(),
        ensures
            final(self).wf(),
            final(self)@ == (WriterView {
                shutdown: true,
                error: Some("wal fsync failed: "@ + reason@),
                ..old(self)@
            }),
    {
        let mut message = "wal fsync failed: ".to_owned();
        message.append(reason);
        self.last_error = Some(message);
        self.shutdown = true;
    }

    /// Shuts the writer down; the worker makes pending records durable and stops.
    pub fn shutdown(&mut self)
        requires
            old(self).wf(),
        ensures
            final(self).wf(),
            final(self)@ == (WriterView { shutdown: true, ..old(self)@ }),
    {
        self.shutdown = true;
    }

    /// The files among `names` that are to be deleted: the segments before the
    /// one that holds `lsn`, but never the current one or a later one.
    pub fn recycle_before(&self, lsn: Lsn, names: &Vec<String>) -> (removed: Vec<String>)
        requires
            self.wf(),
        ensures
            crate::wal::segment::texts(removed@) == crate::wal::segment::segments_before(
                names@,
                if lsn.0 / self@.segment_size < self@.current_segment {
                    (lsn.0 / self@.segment_size) as u64
                } else {
                    self@.current_segment
                },
            ),
            crate::wal::segment::texts(removed@) == crate::wal::segment::segments_before(
                names@,
                crate::wal::segment::recycle_cutoff(
                    lsn,
                    self@.segment_size,
                    self@.current_segment,
                ),
            ),
    {
        self.segments.recycle_before(lsn, names)
    }
}

proof fn views_push(ops: Seq<SegmentOp>, op: SegmentOp)
    ensures
        op_views(ops.push(op)) == op_views(ops).push(op@),
{
    assert(op_views(ops.push(op)) =~= op_views(ops).push(op@));
}

/// Behind the end of a segment comes the start of the next one.
pub(crate) proof fn next_segment(size: int, p: int)
    requires
        size > 0,
        0 <= p,
    ensures
        (p + (size - p % size)) / size == p / size + 1,
        (p + (size - p % size)) % size == 0,
        0 <= p % size < size,
{
    vstd::arithmetic::div_mod::lemma_fundamental_div_mod(p, size);
    vstd::arithmetic::div_mod::lemma_mod_bound(p, size);
    assert((p / size + 1) * size == size * (p / size) + size) by (nonlinear_arith);
    vstd::arithmetic::div_mod::lemma_fundamental_div_mod_converse(
        p + (size - p % size),
        size,
        p / size + 1,
        0,
    );
}

/// A log that was opened goes on where it was opened: what is there is durable, nothing is
/// pending, and nothing has failed.
pub proof fn opened_writer_has_nothing_to_do(
    at: Lsn,
    segment_size: u64,
    current_segment: u64,
    batch_size: usize,
    timeout_ms: u64,
    lsn: Lsn,
)
    ensures
        ({
            let w = opened_at(at, segment_size, current_segment, batch_size, timeout_ms);
            &&& w.now == at
            &&& w.is_durable(lsn)
            &&& w.durable_to() == at.0
            &&& w.pending == 0
            &&& !w.shutdown
            &&& w.error is None
            &&& w.segment_size == segment_size
            &&& w.current_segment == current_segment
            &&& w.batch_size == batch_size
            &&& w.timeout_ms == timeout_ms
        }),
{
}

/// A record is laid out exactly if it fits into a segment, as the operations that write it; one
/// that does not is refused.
pub proof fn record_is_laid_out_where_it_fits(
    w: WriterView,
    record: RecordView,
    reserved: bool,
    result: Result<Vec<SegmentOp>>,
)
    requires
        w.lays_out(record, reserved, result),
    ensures
        result is Ok <==> record.payload.len() <= 65_535 && record.size() <= w.segment_size,
        result matches Ok(ops) ==> op_views(ops@) == planned(
            w.current_segment as int,
            w.segment_size,
            record.lsn.0 as int,
            record.bytes(),
            reserved,
        ),
        result matches Err(e) ==> e is WalWriteFailed,
{
}

/// Opening a segment makes it the current one; no other operation is noted, and nothing else
/// changes.
pub proof fn opened_segment_is_current(w: WriterView, op: OpView)
    ensures
        op matches OpView::Create(id) ==> w.op_noted(op).current_segment == id,
        !(op is Create) ==> w.op_noted(op) == w,
        w.op_noted(op) == (WriterView {
            current_segment: w.op_noted(op).current_segment,
            ..w
        }),
{
}

/// A failed write gives no result.
pub proof fn failed_write_is_an_error<T>(result: Result<T>, text: Seq<char>)
    requires
        write_failed(result, text),
    ensures
        result matches Err(StorageError::WalWriteFailed(message)) && message@ == text,
{
}

/// A log is resumed exactly if it can be opened at its first LSN and read to where nothing
/// more was written; else the fault is that of the opening or of the reading.
pub proof fn whole_log_is_resumed(files: Map<u64, Seq<u8>>, size: u64, error: StorageError)
    requires
        size > 0,
    ensures
        resumes(files, size) ==> size % 8 == 0 && files.contains_key(8u64 / size) && outcome_at(
            files,
            size,
            log_end(files, size, 8),
        ) is End,
        is_resume_fault(files, size, error) ==> !resumes(files, size),
        is_resume_fault(files, size, error) && size % 8 == 0 && !files.contains_key(8u64 / size)
            ==> error is Io,
        is_resume_fault(files, size, error) && can_open(files, size, Lsn(8)) ==> is_fault(
            outcome_at(files, size, log_end(files, size, 8)),
            log_end(files, size, 8),
            error,
        ),
{
}

/// Going on to a later segment opens every segment up to it, one after the other, and each that
/// is left is made durable before the next one is opened. There is nothing to do for a segment
/// that is already open.
pub proof fn segments_are_opened_in_turn(current: int, id: int, k: int)
    ensures
        id <= current ==> advances(current, id).len() == 0,
        current <= id ==> advances(current, id).len() == 2 * (id - current),
        current <= k < id ==> advances(current, id)[2 * (k - current)] == OpView::Sync(k as u64)
            && advances(current, id)[2 * (k - current) + 1] == OpView::Create((k + 1) as u64),
    decreases id - current,
{
    if current < id {
        segments_are_opened_in_turn(current, id - 1, k);
    }
}

/// A part of a record is written last of all, once its segment is open; where the log around it
/// may be durable already, it is made durable at once.
pub proof fn rewritten_part_is_made_durable(
    current: int,
    id: int,
    offset: int,
    bytes: Seq<u8>,
    reserved: bool,
)
    ensures
        ({
            let ops = part_planned(current, id, offset, bytes, reserved);
            let write = OpView::Write(id as u64, offset as u64, bytes);
            let n = ops.len() as int;
            &&& reserved || id < current ==> n >= 2 && ops[n - 2] == write && ops[n - 1]
                == OpView::Sync(id as u64)
            &&& !reserved && current <= id ==> n >= 1 && ops[n - 1] == write
            &&& id <= current ==> n <= 2
        }),
{
}

/// The rest of a segment is cleared behind the header of the torn record first, and the 32
/// bytes of the header after that is durable.
pub proof fn torn_header_is_cleared_last(id: u64, offset: int, len: int)
    requires
        0 <= offset < len <= u64::MAX,
    ensures
        ({
            let ops = file_cleared(id, offset, len);
            let n = ops.len() as int;
            let rest = len - offset;
            &&& rest <= 32 ==> n == 2 && ops[0] == OpView::Write(
                id,
                offset as u64,
                zeros(rest as nat),
            )
            &&& rest > 32 ==> n == 4 && ops[0] == OpView::Write(
                id,
                (offset + 32) as u64,
                zeros((rest - 32) as nat),
            ) && ops[1] == OpView::Sync(id) && ops[2] == OpView::Write(id, offset as u64, zeros(32))
            &&& ops[n - 1] == OpView::Sync(id)
        }),
{
}

} // verus!
