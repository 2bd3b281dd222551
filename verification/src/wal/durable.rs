//! What is reported as durable is on disk.
//!
//! Only the current segment is made durable from time to time; each segment before it
//! was made durable when it was left. So what the writer takes for durable is the same
//! on disk as in the files, and a crash leaves all of it.

use vstd::prelude::*;

use crate::codec::{patched, zeros};
use crate::types::Lsn;
use crate::wal::image::{
    op_applied, op_performed, op_views, ops_applied, ops_performed, position_in_segment, resized,
    same_segment, stream_byte, LogFiles, OpView, MAX_STREAM_LEN,
};
use crate::wal::log::{
    append_extends_log, clear_log_ends, log_ready, reaches, reading_goes_on, reading_reaches_end,
    records_until, same_bytes_read_alike, segment_ready, write_effect,
};
use crate::wal::reader::{log_end, log_records};
use crate::wal::record::{record_reads_back, RecordView};
use crate::wal::segment::{
    denotes, is_latest_up_to, later_segments_are_listed, segment_of, texts,
};
use crate::wal::writer::{
    advances, appended, file_cleared, has_residue, later, next_segment, part_planned, planned,
    used_len, Append, LogRepair, WriterView,
};

verus! {

/// A log: the writer, the files, and what of them is durable.
pub struct LogState {
    /// The state of the writer.
    pub writer: WriterView,
    /// The files.
    pub disk: LogFiles,
}

impl LogState {
    /// The current segment is the latest one; those before it are durable, and so is
    /// what the writer takes for durable of the current one.
    pub open spec fn is_kept(self) -> bool {
        let size = self.writer.segment_size;
        let current = self.writer.current_segment;
        &&& segment_ready(self.disk.files, size, current as int)
        &&& segment_ready(self.disk.durable, size, current as int)
        &&& self.writer.durable_to() <= self.writer.now.0
        &&& current <= self.writer.now.0 / size
        &&& forall|id: u64|
            id < current ==> (#[trigger] self.disk.files.contains_key(id)
                <==> self.disk.durable.contains_key(id))
        &&& forall|id: u64|
            id < current && #[trigger] self.disk.files.contains_key(id) ==> self.disk.durable[id]
                == self.disk.files[id]
        &&& forall|offset: int|
            0 <= offset < size && current * size + offset < self.writer.durable_to()
                ==> #[trigger] self.disk.durable[current][offset]
                == self.disk.files[current][offset]
    }

    /// The log once an operation has been performed.
    pub open spec fn after_op(self, op: OpView) -> LogState {
        LogState {
            writer: self.writer.op_noted(op),
            disk: op_performed(self.disk, self.writer.segment_size, op),
        }
    }

    /// The log once operations have been performed in turn.
    pub open spec fn after(self, ops: Seq<OpView>) -> LogState {
        LogState {
            writer: self.writer.ops_noted(ops),
            disk: ops_performed(self.disk, self.writer.segment_size, ops),
        }
    }
}

/// What happens to a log.
pub enum LogStep {
    /// A record is appended, and so many of the operations for it are performed: all of
    /// them, or those before one that failed.
    Append(RecordView, nat),
    /// The next bytes are reserved. That is also what is left of a record that was
    /// refused.
    Reserve(u64),
    /// A record is written into a reserved place, with all of the operations for it.
    /// Where one of them fails, the writer is stopped, and no longer takes anything for
    /// durable.
    AppendAt(RecordView),
    /// The current segment is made durable.
    Sync,
    /// A segment before the current one is deleted.
    Recycle(u64),
    /// The writer takes note of a record that was written or an error, or is shut down.
    Note(WriterView),
}

/// The operations that append a record.
pub open spec fn append_ops(w: WriterView, record: RecordView) -> Seq<OpView> {
    planned(
        w.current_segment as int,
        w.segment_size,
        w.now.0 as int,
        record.at(w.now).bytes(),
        false,
    )
}

/// The operations that write a record into a reserved place.
pub open spec fn append_at_ops(w: WriterView, record: RecordView) -> Seq<OpView> {
    planned(
        w.current_segment as int,
        w.segment_size,
        record.lsn.0 as int,
        record.bytes(),
        true,
    )
}

/// A step leads from one state of the log to the next.
pub open spec fn takes(before: LogState, step: LogStep, after: LogState) -> bool {
    let w = before.writer;
    match step {
        LogStep::Append(record, done) => {
            let moved = LogState {
                writer: WriterView { now: Lsn((w.now.0 + record.size()) as u64), ..w },
                ..before
            };
            &&& record.fits()
            &&& record.size() <= w.segment_size
            &&& w.now.0 + record.size() <= u64::MAX
            &&& done <= append_ops(w, record).len()
            &&& after == moved.after(append_ops(w, record).take(done as int))
        },
        LogStep::Reserve(size) => {
            &&& w.now.0 + size <= u64::MAX
            &&& after == (LogState {
                writer: WriterView { now: Lsn((w.now.0 + size) as u64), ..w },
                ..before
            })
        },
        LogStep::AppendAt(record) => {
            &&& record.fits()
            &&& record.size() <= w.segment_size
            &&& record.lsn.0 + record.size() <= w.now.0
            &&& after == before.after(append_at_ops(w, record))
        },
        LogStep::Sync => after == (LogState {
            writer: w.all_synced(),
            disk: op_performed(before.disk, w.segment_size, OpView::Sync(w.current_segment)),
        }),
        LogStep::Recycle(id) => {
            &&& id < w.current_segment
            &&& after == (LogState {
                writer: w,
                disk: LogFiles {
                    files: before.disk.files.remove(id),
                    durable: before.disk.durable.remove(id),
                },
            })
        },
        LogStep::Note(noted) => {
            &&& noted == (WriterView {
                pending: noted.pending,
                shutdown: noted.shutdown,
                error: noted.error,
                ..w
            })
            &&& after == (LogState { writer: noted, ..before })
        },
    }
}

/// `steps` lead from each of the states to the next.
pub open spec fn is_history(states: Seq<LogState>, steps: Seq<LogStep>) -> bool {
    &&& states.len() == steps.len() + 1
    &&& forall|k: int|
        0 <= k < steps.len() ==> #[trigger] takes(states[k], steps[k], states[k + 1])
}

/// An append whose operations are performed, up to one that fails, is such a step.
pub proof fn append_is_a_step(
    before: LogState,
    record: RecordView,
    writer: WriterView,
    append: Append,
    done: nat,
)
    requires
        appended(before.writer, record, writer, Ok(append)),
        before.writer.now.0 + record.size() <= u64::MAX,
        done <= append.ops@.len(),
    ensures
        append.lsn == before.writer.now,
        takes(
            before,
            LogStep::Append(record, done),
            (LogState { writer, ..before }).after(op_views(append.ops@).take(done as int)),
        ),
{
    assert(op_views(append.ops@) == append_ops(before.writer, record));
}

proof fn performed_concat(disk: LogFiles, size: u64, a: Seq<OpView>, b: Seq<OpView>)
    ensures
        ops_performed(disk, size, a + b) == ops_performed(ops_performed(disk, size, a), size, b),
    decreases b.len(),
{
    if b.len() == 0 {
        assert(a + b =~= a);
    } else {
        performed_concat(disk, size, a, b.drop_last());
        assert((a + b).drop_last() =~= a + b.drop_last());
    }
}

proof fn noted_concat(w: WriterView, a: Seq<OpView>, b: Seq<OpView>)
    ensures
        w.ops_noted(a + b) == w.ops_noted(a).ops_noted(b),
    decreases b.len(),
{
    if b.len() == 0 {
        assert(a + b =~= a);
    } else {
        noted_concat(w, a, b.drop_last());
        assert((a + b).drop_last() =~= a + b.drop_last());
    }
}

proof fn noted_keeps(w: WriterView, ops: Seq<OpView>)
    ensures
        w.ops_noted(ops) == (WriterView {
            current_segment: w.ops_noted(ops).current_segment,
            ..w
        }),
    decreases ops.len(),
{
    if ops.len() > 0 {
        noted_keeps(w, ops.drop_last());
    }
}

proof fn after_concat(s: LogState, a: Seq<OpView>, b: Seq<OpView>)
    ensures
        s.after(a + b) == s.after(a).after(b),
{
    performed_concat(s.disk, s.writer.segment_size, a, b);
    noted_concat(s.writer, a, b);
    noted_keeps(s.writer, a);
}

proof fn after_push(s: LogState, ops: Seq<OpView>, op: OpView)
    ensures
        s.after(ops.push(op)) == s.after(ops).after_op(op),
{
    assert(ops.push(op).drop_last() =~= ops);
    noted_keeps(s.writer, ops);
}

proof fn sync_keeps(s: LogState)
    requires
        s.is_kept(),
    ensures
        ({
            let t = s.after_op(OpView::Sync(s.writer.current_segment));
            &&& t.is_kept()
            &&& t.writer == s.writer
            &&& t.disk.files == s.disk.files
            &&& t.disk.durable[s.writer.current_segment]
                == t.disk.files[s.writer.current_segment]
        }),
{
}

proof fn create_keeps(s: LogState)
    requires
        s.is_kept(),
        s.disk.durable[s.writer.current_segment] == s.disk.files[s.writer.current_segment],
        s.writer.current_segment + 1 <= s.writer.now.0 / s.writer.segment_size,
    ensures
        s.after_op(OpView::Create((s.writer.current_segment + 1) as u64)).is_kept(),
{
    let size = s.writer.segment_size;
    position_in_segment(s.writer.now.0 as int, size as int);
    let id = (s.writer.current_segment + 1) as u64;
    let t = s.after_op(OpView::Create(id));
    assert(!s.disk.files.contains_key(id));
    assert(t.disk.files[id] == resized(Seq::empty(), size as nat));
}

proof fn write_keeps(s: LogState, at: int, bytes: Seq<u8>)
    requires
        s.is_kept(),
        s.writer.durable_to() <= at,
        0 <= at,
        at / (s.writer.segment_size as int) == s.writer.current_segment,
        at % (s.writer.segment_size as int) + bytes.len() <= s.writer.segment_size,
    ensures
        s.after_op(
            OpView::Write(
                s.writer.current_segment,
                (at % (s.writer.segment_size as int)) as u64,
                bytes,
            ),
        ).is_kept(),
{
    let size = s.writer.segment_size as int;
    let current = s.writer.current_segment;
    let start = at % size;
    vstd::arithmetic::div_mod::lemma_fundamental_div_mod(at, size);
    vstd::arithmetic::div_mod::lemma_mod_bound(at, size);
    vstd::arithmetic::mul::lemma_mul_is_commutative(size, current as int);
    let t = s.after_op(OpView::Write(current, start as u64, bytes));
    let contents = patched(s.disk.files[current], start, bytes);
    assert(t.disk.files == s.disk.files.insert(current, contents));
    assert forall|offset: int|
        0 <= offset < size && current * size + offset < t.writer.durable_to() implies #[trigger]
        t.disk.durable[current][offset] == t.disk.files[current][offset] by {
        assert(offset < start);
        assert(contents[offset] == s.disk.files[current][offset]);
    }
}

proof fn write_sync_keeps(s: LogState, id: u64, offset: u64, bytes: Seq<u8>)
    requires
        s.is_kept(),
        id <= s.writer.current_segment,
        offset + bytes.len() <= s.writer.segment_size,
    ensures
        s.after(seq![OpView::Write(id, offset, bytes), OpView::Sync(id)]).is_kept(),
        s.after(seq![OpView::Write(id, offset, bytes), OpView::Sync(id)]).writer == s.writer,
{
    let write = OpView::Write(id, offset, bytes);
    let sync = OpView::Sync(id);
    after_push(s, Seq::empty().push(write), sync);
    after_push(s, Seq::empty(), write);
    assert(seq![write, sync] =~= Seq::empty().push(write).push(sync));
    assert(s.after(Seq::empty()) == s);
    let t = s.after(seq![write, sync]);
    let files = op_applied(s.disk.files, s.writer.segment_size, write);
    assert(t.disk.files == files);
    if files.contains_key(id) {
        assert(t.disk.durable == s.disk.durable.insert(id, files[id]));
    } else {
        assert(files == s.disk.files);
        assert(t.disk.durable == s.disk.durable);
    }
}

proof fn advance_keeps(s: LogState, id: int, k: int)
    requires
        s.is_kept(),
        s.writer.current_segment <= id <= s.writer.now.0 / s.writer.segment_size,
        0 <= k <= advances(s.writer.current_segment as int, id).len(),
    ensures
        ({
            let ops = advances(s.writer.current_segment as int, id);
            let t = s.after(ops.take(k));
            &&& t.is_kept()
            &&& k == ops.len() ==> t.writer.current_segment == id
        }),
    decreases id - s.writer.current_segment,
{
    let current = s.writer.current_segment as int;
    let ops = advances(current, id);
    if current == id {
        assert(ops.take(k) =~= Seq::empty());
    } else {
        let front = advances(current, id - 1);
        let n = front.len() as int;
        let sync = OpView::Sync((id - 1) as u64);
        let create = OpView::Create(id as u64);
        assert(ops =~= front.push(sync).push(create));
        if k <= n {
            advance_keeps(s, id - 1, k);
            assert(ops.take(k) =~= front.take(k));
        } else {
            advance_keeps(s, id - 1, n);
            assert(front.take(n) =~= front);
            let t = s.after(front);
            noted_keeps(s.writer, front);
            sync_keeps(t);
            after_push(s, front, sync);
            let u = s.after(front.push(sync));
            if k == n + 1 {
                assert(ops.take(k) =~= front.push(sync));
            } else {
                assert(ops.take(k) =~= front.push(sync).push(create));
                create_keeps(u);
                after_push(s, front.push(sync), create);
            }
        }
    }
}

proof fn append_keeps(s: LogState, at: int, bytes: Seq<u8>, k: int)
    requires
        s.is_kept(),
        s.writer.durable_to() <= at,
        s.writer.current_segment <= at / (s.writer.segment_size as int),
        0 <= at,
        at + bytes.len() <= s.writer.now.0,
        0 <= k <= planned(
            s.writer.current_segment as int,
            s.writer.segment_size,
            at,
            bytes,
            false,
        ).len(),
    ensures
        s.after(
            planned(
                s.writer.current_segment as int,
                s.writer.segment_size,
                at,
                bytes,
                false,
            ).take(k),
        ).is_kept(),
    decreases bytes.len(),
{
    let size = s.writer.segment_size;
    let n = size as int;
    let current = s.writer.current_segment as int;
    let id = at / n;
    let offset = at % n;
    let room = n - offset;
    let ops = planned(current, size, at, bytes, false);
    vstd::arithmetic::div_mod::lemma_mod_bound(at, n);
    vstd::arithmetic::div_mod::lemma_div_is_ordered(at, s.writer.now.0 as int, n);
    position_in_segment(at, n);
    if bytes.len() == 0 {
        assert(ops.take(k) =~= Seq::empty());
    } else {
        let opened = advances(current, id);
        let m = opened.len() as int;
        let part = if bytes.len() <= room {
            bytes
        } else {
            bytes.take(room)
        };
        let write = OpView::Write(id as u64, offset as u64, part);
        let front = part_planned(current, id, offset, part, false);
        assert(front =~= opened.push(write));
        assert(ops.take(m) =~= opened);
        if k <= m {
            advance_keeps(s, id, k);
            assert(ops.take(k) =~= opened.take(k));
        } else {
            advance_keeps(s, id, m);
            assert(opened.take(m) =~= opened);
            let t = s.after(opened);
            noted_keeps(s.writer, opened);
            write_keeps(t, at, part);
            after_push(s, opened, write);
            let u = s.after(front);
            if k == m + 1 {
                assert(ops.take(k) =~= front);
            } else {
                let rest = bytes.skip(room);
                let tail = planned(id, size, at + room, rest, false);
                assert(ops =~= front + tail);
                assert(ops.take(k) =~= front + tail.take(k - m - 1));
                next_segment(n, at);
                append_keeps(u, at + room, rest, k - m - 1);
                after_concat(s, front, tail.take(k - m - 1));
            }
        }
    }
}

proof fn append_at_keeps(s: LogState, at: int, bytes: Seq<u8>)
    requires
        s.is_kept(),
        0 <= at,
        at + bytes.len() <= s.writer.now.0,
    ensures
        s.after(
            planned(s.writer.current_segment as int, s.writer.segment_size, at, bytes, true),
        ).is_kept(),
    decreases bytes.len(),
{
    let size = s.writer.segment_size;
    let n = size as int;
    let current = s.writer.current_segment as int;
    let id = at / n;
    let offset = at % n;
    let room = n - offset;
    let ops = planned(current, size, at, bytes, true);
    vstd::arithmetic::div_mod::lemma_mod_bound(at, n);
    vstd::arithmetic::div_mod::lemma_div_is_ordered(at, s.writer.now.0 as int, n);
    position_in_segment(at, n);
    if bytes.len() > 0 {
        let opened = advances(current, id);
        let part = if bytes.len() <= room {
            bytes
        } else {
            bytes.take(room)
        };
        let both = seq![OpView::Write(id as u64, offset as u64, part), OpView::Sync(id as u64)];
        let front = part_planned(current, id, offset, part, true);
        assert(front =~= opened + both);
        let t = s.after(opened);
        if current <= id {
            advance_keeps(s, id, opened.len() as int);
            assert(opened.take(opened.len() as int) =~= opened);
        } else {
            assert(s.after(opened) == s);
        }
        noted_keeps(s.writer, opened);
        write_sync_keeps(t, id as u64, offset as u64, part);
        after_concat(s, opened, both);
        let u = s.after(front);
        if bytes.len() > room {
            let rest = bytes.skip(room);
            let tail = planned(later(current, id), size, at + room, rest, true);
            assert(u.writer.current_segment == later(current, id));
            append_at_keeps(u, at + room, rest);
            after_concat(s, front, tail);
            assert(ops =~= front + tail);
        }
    }
}

/// Whatever happens to the log, the segments before the current one stay durable, and
/// so does what the writer takes for durable.
pub proof fn step_keeps_log(before: LogState, step: LogStep, after: LogState)
    requires
        before.is_kept(),
        takes(before, step, after),
    ensures
        after.is_kept(),
{
    let w = before.writer;
    let size = w.segment_size as int;
    match step {
        LogStep::Append(record, done) => {
            let moved = LogState {
                writer: WriterView { now: Lsn((w.now.0 + record.size()) as u64), ..w },
                ..before
            };
            let placed = record.at(w.now);
            record_reads_back(placed, Seq::empty());
            vstd::arithmetic::div_mod::lemma_div_is_ordered(
                w.now.0 as int,
                moved.writer.now.0 as int,
                size,
            );
            append_keeps(moved, w.now.0 as int, placed.bytes(), done as int);
        },
        LogStep::Reserve(n) => {
            vstd::arithmetic::div_mod::lemma_div_is_ordered(
                w.now.0 as int,
                after.writer.now.0 as int,
                size,
            );
        },
        LogStep::AppendAt(record) => {
            record_reads_back(record, Seq::empty());
            append_at_keeps(before, record.lsn.0 as int, record.bytes());
        },
        LogStep::Sync => {
            sync_keeps(before);
        },
        LogStep::Recycle(id) => {},
        LogStep::Note(noted) => {},
    }
}

/// From a log that is in order, every history leads to one that is.
pub proof fn history_keeps_log(states: Seq<LogState>, steps: Seq<LogStep>, k: int)
    requires
        is_history(states, steps),
        states[0].is_kept(),
        0 <= k < states.len(),
    ensures
        states[k].is_kept(),
    decreases k,
{
    if k > 0 {
        history_keeps_log(states, steps, k - 1);
        assert(takes(states[k - 1], steps[k - 1], states[k - 1 + 1]));
        step_keeps_log(states[k - 1], steps[k - 1], states[k]);
    }
}

/// Every byte before the position up to which the log is durable is on disk as it is
/// in the files.
pub proof fn durable_bytes_are_on_disk(s: LogState, p: int)
    requires
        s.is_kept(),
        p < s.writer.durable_to(),
    ensures
        stream_byte(s.disk.durable, s.writer.segment_size, p) == stream_byte(
            s.disk.files,
            s.writer.segment_size,
            p,
        ),
{
    let size = s.writer.segment_size as int;
    let current = s.writer.current_segment;
    if 0 <= p {
        let id = p / size;
        vstd::arithmetic::div_mod::lemma_fundamental_div_mod(p, size);
        vstd::arithmetic::div_mod::lemma_mod_bound(p, size);
        vstd::arithmetic::mul::lemma_mul_is_commutative(size, id);
        position_in_segment(p, size);
        if id == current {
            assert(s.disk.durable[current][p % size] == s.disk.files[current][p % size]);
        } else if id < current {
            assert(s.disk.files.contains_key(id as u64) <==> s.disk.durable.contains_key(
                id as u64,
            ));
        } else {
            assert(!s.disk.files.contains_key(id as u64));
            assert(!s.disk.durable.contains_key(id as u64));
        }
    }
}

/// What a crash leaves reads like the log, up to where the log is durable.
pub proof fn durable_log_reads_alike(s: LogState, start: int, to: int)
    requires
        s.is_kept(),
        0 <= start,
        reaches(s.disk.files, s.writer.segment_size, start, to),
        to <= s.writer.durable_to(),
    ensures
        ({
            let size = s.writer.segment_size;
            let records = records_until(s.disk.files, size, start, to);
            &&& reaches(s.disk.durable, size, start, to)
            &&& records_until(s.disk.durable, size, start, to) == records
            &&& records.is_prefix_of(log_records(s.disk.durable, size, start))
        }),
{
    let size = s.writer.segment_size;
    assert forall|p: int|
        start <= p < to && stream_byte(s.disk.files, size, p) is Some implies #[trigger]
        stream_byte(s.disk.durable, size, p) == stream_byte(s.disk.files, size, p) by {
        durable_bytes_are_on_disk(s, p);
    }
    same_bytes_read_alike(s.disk.files, s.disk.durable, size, start, to);
    assert(s.writer.durable_to() <= MAX_STREAM_LEN);
    reading_goes_on(s.disk.durable, size, start, to);
}

proof fn boundary_is_kept(states: Seq<LogState>, steps: Seq<LogStep>, i: int, j: int)
    requires
        is_history(states, steps),
        states[0].is_kept(),
        0 <= i < j < states.len(),
        states[i].writer.now.0 < states[i + 1].writer.now.0,
    ensures
        states[i + 1].writer.now.0 <= states[j].writer.now.0,
        states[j].writer.durable_to() <= states[i].writer.now.0
            || states[i + 1].writer.now.0 <= states[j].writer.durable_to(),
    decreases j,
{
    let k = j - 1;
    assert(takes(states[k], steps[k], states[k + 1]));
    match steps[k] {
        LogStep::Append(record, done) => {
            let w = states[k].writer;
            noted_keeps(
                WriterView { now: Lsn((w.now.0 + record.size()) as u64), ..w },
                append_ops(w, record).take(done as int),
            );
        },
        LogStep::AppendAt(record) => {
            noted_keeps(states[k].writer, append_at_ops(states[k].writer, record));
        },
        _ => {},
    }
    if k == i {
        history_keeps_log(states, steps, i);
    } else {
        boundary_is_kept(states, steps, i, k);
        history_keeps_log(states, steps, k);
    }
}

/// What is reported as durable survives a crash: once the log is durable up to the
/// record that got its place in step `i`, what a crash leaves of the files reads like
/// the log up to the end of that record, and so gives every record with an LSN of at
/// most its own.
pub proof fn durable_records_survive(
    states: Seq<LogState>,
    steps: Seq<LogStep>,
    i: int,
    j: int,
    start: int,
)
    requires
        is_history(states, steps),
        states[0].is_kept(),
        0 <= i < j < states.len(),
        states[i].writer.now.0 < states[i + 1].writer.now.0,
        states[j].writer.is_durable(states[i].writer.now),
        0 <= start,
        reaches(
            states[j].disk.files,
            states[j].writer.segment_size,
            start,
            states[i + 1].writer.now.0 as int,
        ),
    ensures
        ({
            let s = states[j];
            let size = s.writer.segment_size;
            let end = states[i + 1].writer.now.0 as int;
            let records = records_until(s.disk.files, size, start, end);
            &&& end <= s.writer.durable_to()
            &&& reaches(s.disk.durable, size, start, end)
            &&& records_until(s.disk.durable, size, start, end) == records
            &&& records.is_prefix_of(log_records(s.disk.durable, size, start))
        }),
{
    history_keeps_log(states, steps, j);
    boundary_is_kept(states, steps, i, j);
    durable_log_reads_alike(states[j], start, states[i + 1].writer.now.0 as int);
}

/// The log as it is when it has been opened: the files with the names `stale` are
/// deleted, the current segment is opened, and `ops` are performed.
pub open spec fn opened_log(
    files: Map<u64, Seq<u8>>,
    stale: Seq<Seq<char>>,
    ops: Seq<OpView>,
    writer: WriterView,
) -> LogState {
    let kept = Map::new(
        |id: u64| files.contains_key(id) && !denotes(stale, id),
        |id: u64| files[id],
    );
    let opened = op_applied(
        kept,
        writer.segment_size,
        OpView::Create(writer.current_segment),
    );
    LogState {
        writer,
        disk: ops_performed(
            LogFiles { files: opened, durable: opened },
            writer.segment_size,
            ops,
        ),
    }
}

/// Clearing the end of a segment leaves the log before it as it was and nothing but zeros
/// behind.
proof fn clearing_effect(files: Map<u64, Seq<u8>>, size: u64, at: int, len: int)
    requires
        0 <= at <= u64::MAX,
        segment_ready(files, size, at / (size as int)),
        at % (size as int) < len <= size,
        forall|i: int|
            len <= i < size ==> #[trigger] files[(at / (size as int)) as u64][i] == 0,
    ensures
        ({
            let id = (at / (size as int)) as u64;
            let ops = file_cleared(id, at % (size as int), len);
            let after = ops_applied(files, size, ops);
            let disk = LogFiles { files, durable: files };
            &&& segment_ready(after, size, id as int)
            &&& ops_performed(disk, size, ops).files == after
            &&& ops_performed(disk, size, ops).durable == after
            &&& forall|p: int|
                p < at ==> #[trigger] stream_byte(after, size, p) == stream_byte(files, size, p)
            &&& forall|p: int|
                at <= p ==> (#[trigger] stream_byte(after, size, p) is Some ==> stream_byte(
                    after,
                    size,
                    p,
                ) == Some(0u8))
        }),
{
    let n = size as int;
    let id = (at / n) as u64;
    let offset = at % n;
    position_in_segment(at, n);
    vstd::arithmetic::div_mod::lemma_mod_bound(at, n);
    let head = if offset + 32 < len {
        offset + 32
    } else {
        len
    };
    let ops = file_cleared(id, offset, len);
    let disk = LogFiles { files, durable: files };
    let sync = OpView::Sync(id);
    let write2 = OpView::Write(id, offset as u64, zeros((head - offset) as nat));
    let at1 = at + (head - offset);
    assert(ops_applied(files, size, Seq::empty()) == files);
    assert(ops_performed(disk, size, Seq::empty()) == disk);
    let (f1, d1, front) = if head < len {
        let bytes = zeros((len - head) as nat);
        let write1 = OpView::Write(id, head as u64, bytes);
        same_segment(n, at, head - offset);
        write_effect(files, size, id as int, at1, bytes);
        let one = Seq::empty().push(write1);
        let two = one.push(sync);
        assert(one.drop_last() =~= Seq::empty());
        assert(two.drop_last() =~= one);
        let f1 = op_applied(files, size, write1);
        assert(ops_applied(files, size, one) == f1);
        assert(ops_applied(files, size, two) == f1);
        let mid = ops_performed(disk, size, one);
        assert(mid.files == f1 && mid.durable == files);
        let d1 = ops_performed(disk, size, two);
        assert(d1.files == f1);
        assert(d1.durable =~= f1);
        (f1, d1, two)
    } else {
        (files, disk, Seq::empty())
    };
    write_effect(f1, size, id as int, at, zeros((head - offset) as nat));
    let f2 = op_applied(f1, size, write2);
    let three = front.push(write2);
    let four = three.push(sync);
    assert(ops =~= four);
    assert(three.drop_last() =~= front);
    assert(four.drop_last() =~= three);
    assert(ops_applied(files, size, three) == f2);
    assert(ops_applied(files, size, four) == f2);
    let mid = ops_performed(disk, size, three);
    assert(mid.files == f2 && mid.durable == f1);
    let d2 = ops_performed(disk, size, four);
    assert(d2.files == f2);
    assert(d2.durable =~= f2);
    assert forall|p: int| p < at implies #[trigger] stream_byte(f2, size, p) == stream_byte(
        files,
        size,
        p,
    ) by {
        assert(stream_byte(f1, size, p) == stream_byte(files, size, p));
    }
    assert forall|p: int|
        at <= p && #[trigger] stream_byte(f2, size, p) is Some implies stream_byte(f2, size, p)
        == Some(0u8) by {
        if p >= at + (len - offset) {
            position_in_segment(p, n);
            vstd::arithmetic::div_mod::lemma_mod_bound(p, n);
            vstd::arithmetic::div_mod::lemma_div_is_ordered(at, p, n);
            vstd::arithmetic::div_mod::lemma_fundamental_div_mod(p, n);
            vstd::arithmetic::div_mod::lemma_fundamental_div_mod(at, n);
            assert(f2.contains_key((p / n) as u64));
            assert(p / n == at / n);
            assert(p % n >= len);
            assert(files[id][p % n] == 0);
            assert(stream_byte(files, size, p) == Some(0u8));
        }
    }
}

/// A log that has been opened at its end, and repaired, is in order. It reads as before,
/// whatever a torn or damaged record had left there, in the same segment or in a later
/// one, and is ready for more: what is appended reads back behind what was there, and
/// nothing else does.
pub proof fn opened_log_goes_on(
    files: Map<u64, Seq<u8>>,
    names: Seq<String>,
    repair: LogRepair,
    writer: WriterView,
    start: int,
    record: RecordView,
)
    requires
        forall|id: u64| #[trigger] files.contains_key(id) <==> denotes(texts(names), id),
        writer.segment_size > 0,
        writer.opened == writer.now,
        writer.synced == Lsn(0),
        is_latest_up_to(
            names,
            (writer.now.0 / writer.segment_size) as u64,
            writer.current_segment,
        ),
        repair.mends(names, files, writer.segment_size, writer.now.0 as int),
        0 <= start,
        files.contains_key((start / (writer.segment_size as int)) as u64),
        log_end(files, writer.segment_size, start) == writer.now.0,
        record.fits(),
        writer.now.0 + record.size() <= MAX_STREAM_LEN,
    ensures
        ({
            let size = writer.segment_size;
            let opened = opened_log(
                files,
                texts(repair.stale_segments@),
                op_views(repair.ops@),
                writer,
            );
            let now = writer.now.0 as int;
            let after = opened.after(append_ops(writer, record)).disk.files;
            let end = now + record.size();
            &&& opened.is_kept()
            &&& log_ready(opened.disk.files, size, writer.current_segment as int, now)
            &&& log_records(opened.disk.files, size, start) == log_records(files, size, start)
            &&& log_end(opened.disk.files, size, start) == now
            &&& log_records(after, size, start) == log_records(files, size, start).push(
                record.at(writer.now),
            )
            &&& log_end(after, size, start) == end
            &&& log_ready(after, size, (end - 1) / (size as int), end)
        }),
{
    let size = writer.segment_size;
    let n = size as int;
    let now = writer.now.0 as int;
    let last = (writer.now.0 / size) as u64;
    let current = writer.current_segment;
    let stale = texts(repair.stale_segments@);
    let ops = op_views(repair.ops@);
    let opened = opened_log(files, stale, ops, writer);
    let kept = Map::new(
        |id: u64| files.contains_key(id) && !denotes(stale, id),
        |id: u64| files[id],
    );
    let f1 = op_applied(kept, size, OpView::Create(current));
    let f = opened.disk.files;
    position_in_segment(start, n);
    position_in_segment(now, n);
    vstd::arithmetic::div_mod::lemma_mod_bound(now, n);
    reading_reaches_end(files, size, start);
    vstd::arithmetic::div_mod::lemma_div_is_ordered(start, now, n);
    assert forall|id: u64| #[trigger] files.contains_key(id) && id <= last implies id
        <= current && !denotes(stale, id) by {
        later_segments_are_listed(names, last, id);
        let i = choose|i: int|
            0 <= i < texts(names).len() && #[trigger] segment_of(texts(names)[i]) == Some(id);
        assert(names[i]@ == texts(names)[i]);
    }
    assert forall|id: u64| #[trigger] f1.contains_key(id) implies id <= current by {
        if id != current {
            assert(files.contains_key(id) && !denotes(stale, id));
            later_segments_are_listed(names, last, id);
        }
    }
    assert(segment_ready(f1, size, current as int));
    // Behind the end of the log nothing but zeros is left.
    let offset = now % n;
    if files.contains_key(last) && has_residue(files[last], size, offset) {
        assert(last == current);
        let len = used_len(files[last], size);
        clearing_effect(f1, size, now, len);
    } else {
        assert(f == f1 && opened.disk.durable == f1);
        assert forall|p: int|
            now <= p && #[trigger] stream_byte(f, size, p) is Some implies stream_byte(f, size, p)
            == Some(0u8) by {
            position_in_segment(p, n);
            vstd::arithmetic::div_mod::lemma_mod_bound(p, n);
            vstd::arithmetic::div_mod::lemma_div_is_ordered(now, p, n);
            vstd::arithmetic::div_mod::lemma_fundamental_div_mod(p, n);
            vstd::arithmetic::div_mod::lemma_fundamental_div_mod(now, n);
            assert(f1.contains_key((p / n) as u64));
            assert(p / n == last && last == current);
            assert(p % n >= offset);
            if files.contains_key(last) && p % n < files[last].len() {
                assert(files[last][p % n] == 0);
            }
        }
    }
    assert(log_ready(f, size, current as int, now));
    assert(opened.is_kept());
    assert forall|p: int|
        start <= p < now && stream_byte(files, size, p) is Some implies #[trigger] stream_byte(
        f,
        size,
        p,
    ) == stream_byte(files, size, p) by {
        let id = (p / n) as u64;
        position_in_segment(p, n);
        vstd::arithmetic::div_mod::lemma_div_is_ordered(p, now, n);
        vstd::arithmetic::div_mod::lemma_mod_bound(p, n);
        assert(files.contains_key(id) && id <= last);
        assert(stream_byte(f1, size, p) == stream_byte(files, size, p));
    }
    same_bytes_read_alike(files, f, size, start, now);
    clear_log_ends(f, size, now);
    reading_goes_on(f, size, start, now);
    assert(log_records(f, size, now) =~= Seq::empty());
    assert(log_records(f, size, start) =~= log_records(files, size, start));
    append_extends_log(f, size, current as int, start, record.at(writer.now));
    performed_files(opened.disk, size, append_ops(writer, record));
}

/// What is durable has no part in what the files hold.
proof fn performed_files(disk: LogFiles, size: u64, ops: Seq<OpView>)
    ensures
        ops_performed(disk, size, ops).files == ops_applied(disk.files, size, ops),
    decreases ops.len(),
{
    if ops.len() > 0 {
        performed_files(disk, size, ops.drop_last());
    }
}

} // verus!
