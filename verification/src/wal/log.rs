//! What is written to the log reads back.

use vstd::prelude::*;

use crate::codec::{patched, zeros};
use crate::wal::image::{
    op_applied, ops_applied, position_in_segment, resized, same_segment, stream_byte, stream_bytes, stream_has, OpView,
    MAX_STREAM_LEN,
};
use crate::wal::reader::{log_end, log_records, outcome_at, Outcome};
use crate::wal::record::{record_reads_back, stored_len, type_byte, RecordView};
use crate::wal::writer::{advances, later, next_segment, part_planned, planned};

verus! {

/// The latest segment file is `current`, and it has its full size.
pub open spec fn segment_ready(files: Map<u64, Seq<u8>>, size: u64, current: int) -> bool {
    &&& size > 0
    &&& 0 <= current <= u64::MAX
    &&& files.contains_key(current as u64)
    &&& files[current as u64].len() == size
    &&& forall|id: u64| #[trigger] files.contains_key(id) ==> id <= current
}

/// The log is ready for a record at `now`: that is not before the latest segment,
/// and nothing but zeros stands from there on.
pub open spec fn log_ready(files: Map<u64, Seq<u8>>, size: u64, current: int, now: int) -> bool {
    &&& segment_ready(files, size, current)
    &&& 0 <= now
    &&& current <= now / (size as int)
    &&& forall|p: int|
        now <= p ==> (#[trigger] stream_byte(files, size, p) is Some ==> stream_byte(files, size, p)
            == Some(0u8))
}

/// `after` has the bytes of `before`, and zeros where `before` has none.
pub open spec fn grown(before: Map<u64, Seq<u8>>, after: Map<u64, Seq<u8>>, size: u64) -> bool {
    forall|p: int|
        #![trigger stream_byte(after, size, p)]
        stream_byte(after, size, p) == stream_byte(before, size, p) || (stream_byte(before, size, p)
            is None && stream_byte(after, size, p) == Some(0u8))
}

/// `after` has `bytes` at position `at`; elsewhere it has the bytes of `before`,
/// and zeros where `before` has none.
pub open spec fn has_written(
    before: Map<u64, Seq<u8>>,
    after: Map<u64, Seq<u8>>,
    size: u64,
    at: int,
    bytes: Seq<u8>,
) -> bool {
    forall|p: int|
        #![trigger stream_byte(after, size, p)]
        if at <= p < at + bytes.len() {
            stream_byte(after, size, p) == Some(bytes[p - at])
        } else {
            stream_byte(after, size, p) == stream_byte(before, size, p) || (stream_byte(
                before,
                size,
                p,
            ) is None && stream_byte(after, size, p) == Some(0u8))
        }
}

/// Operations one after the other.
pub(crate) proof fn applied_concat(files: Map<u64, Seq<u8>>, size: u64, a: Seq<OpView>, b: Seq<OpView>)
    ensures
        ops_applied(files, size, a + b) == ops_applied(ops_applied(files, size, a), size, b),
    decreases b.len(),
{
    if b.len() == 0 {
        assert(a + b =~= a);
    } else {
        applied_concat(files, size, a, b.drop_last());
        assert((a + b).drop_last() =~= a + b.drop_last());
        assert((a + b).last() == b.last());
    }
}

proof fn advances_effect(files: Map<u64, Seq<u8>>, size: u64, current: int, id: int)
    requires
        segment_ready(files, size, current),
        current <= id <= u64::MAX,
    ensures
        segment_ready(ops_applied(files, size, advances(current, id)), size, id),
        grown(files, ops_applied(files, size, advances(current, id)), size),
    decreases id - current,
{
    let ops = advances(current, id);
    if id > current {
        advances_effect(files, size, current, id - 1);
        let front = advances(current, id - 1);
        let before = ops_applied(files, size, front);
        let after = ops_applied(files, size, ops);
        assert(ops.drop_last() =~= front.push(OpView::Sync((id - 1) as u64)));
        assert(ops.drop_last().drop_last() =~= front);
        assert(ops_applied(files, size, ops.drop_last()) == before);
        assert(ops.last() == OpView::Create(id as u64));
        assert(after == before.insert(id as u64, resized(Seq::empty(), size as nat)));
        assert forall|p: int|
            #![trigger stream_byte(after, size, p)]
            stream_byte(after, size, p) == stream_byte(files, size, p) || (stream_byte(
                files,
                size,
                p,
            ) is None && stream_byte(after, size, p) == Some(0u8)) by {
            let seg = p / (size as int);
            if p >= 0 {
                vstd::arithmetic::div_mod::lemma_mod_bound(p, size as int);
            }
            if 0 <= p && seg == id {
                assert(stream_byte(before, size, p) is None);
                assert(stream_byte(after, size, p) == Some(0u8));
            } else {
                assert(stream_byte(after, size, p) == stream_byte(before, size, p));
            }
        }
    }
}

/// Writing into a segment.
pub(crate) proof fn write_effect(
    files: Map<u64, Seq<u8>>,
    size: u64,
    current: int,
    at: int,
    bytes: Seq<u8>,
)
    requires
        segment_ready(files, size, current),
        0 <= at,
        at / (size as int) <= current,
        files.contains_key((at / (size as int)) as u64),
        files[(at / (size as int)) as u64].len() == size,
        at % (size as int) + bytes.len() <= size,
    ensures
        ({
            let id = at / (size as int);
            let after = op_applied(
                files,
                size,
                OpView::Write(id as u64, (at % (size as int)) as u64, bytes),
            );
            &&& segment_ready(after, size, current)
            &&& has_written(files, after, size, at, bytes)
            &&& forall|k: u64| #[trigger]
                files.contains_key(k) ==> after.contains_key(k) && after[k].len() == files[k].len()
        }),
{
    let n = size as int;
    let id = at / n;
    let offset = at % n;
    vstd::arithmetic::div_mod::lemma_mod_bound(at, n);
    position_in_segment(at, n);
    let after = op_applied(files, size, OpView::Write(id as u64, offset as u64, bytes));
    let contents = patched(files[id as u64], offset, bytes);
    assert(after == files.insert(id as u64, contents));
    assert forall|p: int|
        #![trigger stream_byte(after, size, p)]
        if at <= p < at + bytes.len() {
            stream_byte(after, size, p) == Some(bytes[p - at])
        } else {
            stream_byte(after, size, p) == stream_byte(files, size, p)
        } by {
        if p >= 0 {
            vstd::arithmetic::div_mod::lemma_mod_bound(p, n);
        }
        if at <= p < at + bytes.len() {
            same_segment(n, at, p - at);
            assert(contents[offset + (p - at)] == bytes[p - at]);
        } else if 0 <= p && p / n == id {
            vstd::arithmetic::div_mod::lemma_fundamental_div_mod(p, n);
            vstd::arithmetic::div_mod::lemma_fundamental_div_mod(at, n);
            assert(p % n - offset == p - at);
            assert(contents[p % n] == files[id as u64][p % n]);
        }
    }
}

/// The segments from the one that holds `at` to the current one are there.
pub open spec fn older_ready(files: Map<u64, Seq<u8>>, size: u64, at: int, current: int) -> bool {
    forall|id: u64|
        at / (size as int) <= id < current ==> #[trigger] files.contains_key(id) && files[id].len()
            == size
}

proof fn part_effect(
    files: Map<u64, Seq<u8>>,
    size: u64,
    current: int,
    at: int,
    bytes: Seq<u8>,
    reserved: bool,
)
    requires
        segment_ready(files, size, current),
        older_ready(files, size, at, current),
        0 <= at <= u64::MAX,
        at % (size as int) + bytes.len() <= size,
    ensures
        ({
            let id = at / (size as int);
            let after = ops_applied(
                files,
                size,
                part_planned(current, id, at % (size as int), bytes, reserved),
            );
            &&& segment_ready(after, size, later(current, id))
            &&& has_written(files, after, size, at, bytes)
            &&& id < current ==> older_ready(after, size, at, current)
        }),
{
    let n = size as int;
    let id = at / n;
    let offset = at % n;
    position_in_segment(at, n);
    vstd::arithmetic::div_mod::lemma_mod_bound(at, n);
    let opened = advances(current, id);
    let ops = part_planned(current, id, offset, bytes, reserved);
    let write = OpView::Write(id as u64, offset as u64, bytes);
    let f1 = ops_applied(files, size, opened);
    let now = later(current, id);
    if current <= id {
        advances_effect(files, size, current, id);
    }
    assert(segment_ready(f1, size, now));
    assert(f1.contains_key(id as u64) && f1[id as u64].len() == size);
    assert(grown(files, f1, size));
    write_effect(f1, size, now, at, bytes);
    let f2 = op_applied(f1, size, write);
    let after = ops_applied(files, size, ops);
    assert(opened.push(write).drop_last() =~= opened);
    assert(ops_applied(files, size, opened.push(write)) == f2);
    if reserved || id < current {
        assert(ops.drop_last() =~= opened.push(write));
    } else {
        assert(ops =~= opened.push(write));
    }
    assert(after == f2);
    if id < current {
        assert forall|k: u64| id <= k < current implies #[trigger] after.contains_key(k)
            && after[k].len() == size by {
            assert(files.contains_key(k));
        }
    }
    assert forall|p: int|
        #![trigger stream_byte(after, size, p)]
        if at <= p < at + bytes.len() {
            stream_byte(after, size, p) == Some(bytes[p - at])
        } else {
            stream_byte(after, size, p) == stream_byte(files, size, p) || (stream_byte(
                files,
                size,
                p,
            ) is None && stream_byte(after, size, p) == Some(0u8))
        } by {
        assert(stream_byte(f1, size, p) == stream_byte(f1, size, p));
    }
}

/// The operations for a record put its bytes where they belong, leave the rest
/// of the log as it was, and leave the segments ready for more. That holds for a place
/// in a segment before the current one, too.
pub proof fn plan_effect(
    files: Map<u64, Seq<u8>>,
    size: u64,
    current: int,
    at: int,
    bytes: Seq<u8>,
    reserved: bool,
)
    requires
        segment_ready(files, size, current),
        older_ready(files, size, at, current),
        0 <= at,
        0 < bytes.len(),
        at + bytes.len() <= u64::MAX,
    ensures
        ({
            let after = ops_applied(files, size, planned(current, size, at, bytes, reserved));
            &&& has_written(files, after, size, at, bytes)
            &&& segment_ready(after, size, later(current, (at + bytes.len() - 1) / (size as int)))
        }),
    decreases bytes.len(),
{
    let n = size as int;
    let id = at / n;
    let offset = at % n;
    let room = n - offset;
    vstd::arithmetic::div_mod::lemma_mod_bound(at, n);
    if bytes.len() <= room {
        part_effect(files, size, current, at, bytes, reserved);
        same_segment(n, at, bytes.len() - 1);
    } else {
        let first = bytes.take(room);
        let rest = bytes.skip(room);
        let front = part_planned(current, id, offset, first, reserved);
        part_effect(files, size, current, at, first, reserved);
        let f2 = ops_applied(files, size, front);
        let now = later(current, id);
        next_segment(n, at);
        plan_effect(f2, size, now, at + room, rest, reserved);
        let tail = planned(now, size, at + room, rest, reserved);
        applied_concat(files, size, front, tail);
        let after = ops_applied(files, size, planned(current, size, at, bytes, reserved));
        assert(after == ops_applied(f2, size, tail));
        vstd::arithmetic::div_mod::lemma_div_is_ordered(at + room, at + bytes.len() - 1, n);
        assert forall|p: int|
            #![trigger stream_byte(after, size, p)]
            if at <= p < at + bytes.len() {
                stream_byte(after, size, p) == Some(bytes[p - at])
            } else {
                stream_byte(after, size, p) == stream_byte(files, size, p) || (stream_byte(
                    files,
                    size,
                    p,
                ) is None && stream_byte(after, size, p) == Some(0u8))
            } by {
            assert(stream_byte(f2, size, p) == stream_byte(f2, size, p));
            if at + room <= p < at + bytes.len() {
                assert(rest[p - (at + room)] == bytes[p - at]);
            }
        }
    }
}

/// A record that has been written stands at its LSN.
proof fn written_record_stands(
    before: Map<u64, Seq<u8>>,
    after: Map<u64, Seq<u8>>,
    size: u64,
    record: RecordView,
)
    requires
        record.fits(),
        has_written(before, after, size, record.lsn.0 as int, record.bytes()),
    ensures
        outcome_at(after, size, record.lsn.0 as int) == Outcome::Record(record),
{
    let at = record.lsn.0 as int;
    let bytes = record.bytes();
    record_reads_back(record, Seq::empty());
    assert(bytes + Seq::<u8>::empty() =~= bytes);
    let total = bytes.len();
    assert(stream_has(after, size, at, total as int));
    assert(stream_has(after, size, at, 32));
    let head = stream_bytes(after, size, at, 32);
    assert forall|i: int| 0 <= i < 32 implies head[i] == bytes[i] by {
        assert(stream_byte(after, size, at + i) == Some(bytes[i]));
    }
    assert(head.subrange(26, 28) =~= bytes.subrange(26, 28));
    assert(stored_len(head) == total);
    let whole = stream_bytes(after, size, at, total);
    assert forall|i: int| 0 <= i < total implies whole[i] == bytes[i] by {
        assert(stream_byte(after, size, at + i) == Some(bytes[i]));
    }
    assert(whole =~= bytes);
    vstd::bytes::lemma_auto_spec_u64_to_from_le_bytes();
    assert(bytes[24] == type_byte(record.record_type));
    assert(head[24] != zeros(32)[24]);
}

/// Behind the last record the log ends.
pub(crate) proof fn clear_log_ends(files: Map<u64, Seq<u8>>, size: u64, at: int)
    requires
        forall|p: int|
            at <= p ==> (#[trigger] stream_byte(files, size, p) is Some ==> stream_byte(
                files,
                size,
                p,
            ) == Some(0u8)),
    ensures
        outcome_at(files, size, at) == Outcome::End,
{
    if stream_has(files, size, at, 32) {
        clear_bytes_are_zero(files, size, at);
        if stream_has(files, size, at + 32, 32) {
            clear_bytes_are_zero(files, size, at + 32);
        }
    }
}

proof fn clear_bytes_are_zero(files: Map<u64, Seq<u8>>, size: u64, at: int)
    requires
        stream_has(files, size, at, 32),
        forall|p: int|
            at <= p ==> (#[trigger] stream_byte(files, size, p) is Some ==> stream_byte(
                files,
                size,
                p,
            ) == Some(0u8)),
    ensures
        stream_bytes(files, size, at, 32) == zeros(32),
{
    let s = stream_bytes(files, size, at, 32);
    assert forall|i: int| 0 <= i < 32 implies #[trigger] s[i] == 0 by {
        assert(stream_byte(files, size, at + i) is Some);
    }
    assert(s =~= zeros(32));
}

/// A record that stands between two positions still stands when nothing between them
/// has changed.
pub(crate) proof fn earlier_record_stands(
    before: Map<u64, Seq<u8>>,
    after: Map<u64, Seq<u8>>,
    size: u64,
    at: int,
    end: int,
    record: RecordView,
)
    requires
        outcome_at(before, size, at) == Outcome::Record(record),
        at + record.size() <= end,
        forall|p: int|
            at <= p < end ==> (stream_byte(before, size, p) is Some ==> #[trigger] stream_byte(
                after,
                size,
                p,
            ) == stream_byte(before, size, p)),
    ensures
        outcome_at(after, size, at) == Outcome::Record(record),
{
    let head = stream_bytes(before, size, at, 32);
    let total = stored_len(head);
    let whole = stream_bytes(before, size, at, total);
    assert(whole.len() == total);
    assert(whole.subrange(26, 28) =~= head.subrange(26, 28));
    assert(record.size() == total);
    assert(total >= 32);
    assert forall|p: int| at <= p < at + total implies #[trigger] stream_byte(after, size, p)
        == stream_byte(before, size, p) && stream_byte(after, size, p) is Some by {
        assert(stream_byte(before, size, p) is Some);
    }
    assert(stream_has(after, size, at, total as int));
    assert(stream_has(after, size, at, 32));
    assert forall|i: int| 0 <= i < total implies stream_bytes(after, size, at, total)[i]
        == whole[i] by {
        assert(stream_byte(after, size, at + i) == stream_byte(before, size, at + i));
    }
    assert(stream_bytes(after, size, at, total) =~= whole);
    assert forall|i: int| 0 <= i < 32 implies stream_bytes(after, size, at, 32)[i] == head[i] by {
        assert(stream_byte(after, size, at + i) == stream_byte(before, size, at + i));
    }
    assert(stream_bytes(after, size, at, 32) =~= head);
}

/// Reading never goes back.
proof fn log_end_is_ahead(files: Map<u64, Seq<u8>>, size: u64, at: int)
    ensures
        at <= log_end(files, size, at),
    decreases MAX_STREAM_LEN - at,
{
    match outcome_at(files, size, at) {
        Outcome::Record(record) => if 0 <= at && at + record.size() <= MAX_STREAM_LEN {
            log_end_is_ahead(files, size, at + record.size());
        },
        _ => {},
    }
}

proof fn log_grows(
    before: Map<u64, Seq<u8>>,
    after: Map<u64, Seq<u8>>,
    size: u64,
    start: int,
    now: int,
    record: RecordView,
)
    requires
        log_end(before, size, start) == now,
        outcome_at(before, size, now) is End,
        outcome_at(after, size, now) == Outcome::Record(record),
        outcome_at(after, size, now + record.size()) is End,
        now + record.size() <= MAX_STREAM_LEN,
        0 <= start,
        forall|p: int|
            p < now ==> (stream_byte(before, size, p) is Some ==> #[trigger] stream_byte(
                after,
                size,
                p,
            ) == stream_byte(before, size, p)),
    ensures
        log_records(after, size, start) == log_records(before, size, start).push(record),
        log_end(after, size, start) == now + record.size(),
    decreases MAX_STREAM_LEN - start,
{
    match outcome_at(before, size, start) {
        Outcome::Record(first) => {
            assert(start + first.size() <= MAX_STREAM_LEN);
            log_end_is_ahead(before, size, start + first.size());
            earlier_record_stands(before, after, size, start, now, first);
            log_grows(before, after, size, start + first.size(), now, record);
            assert(log_records(after, size, start) =~= log_records(before, size, start).push(record));
        },
        _ => {
            assert(start == now);
            assert(log_end(after, size, now + record.size()) == now + record.size());
            assert(log_records(after, size, now + record.size()) =~= Seq::empty());
            assert(log_records(after, size, start) =~= log_records(before, size, start).push(record));
        },
    }
}

/// Reading from `at` on comes to position `to`, record by record.
pub open spec fn reaches(files: Map<u64, Seq<u8>>, size: u64, at: int, to: int) -> bool
    decreases to - at,
{
    at == to || (0 <= at < to && (outcome_at(files, size, at) matches Outcome::Record(record) && at
        + record.size() <= to && reaches(files, size, at + record.size(), to)))
}

/// The records that are read on the way from `at` to position `to`.
pub open spec fn records_until(files: Map<u64, Seq<u8>>, size: u64, at: int, to: int) -> Seq<
    RecordView,
>
    decreases to - at,
{
    match outcome_at(files, size, at) {
        Outcome::Record(record) => if 0 <= at < to && at + record.size() <= to {
            seq![record] + records_until(files, size, at + record.size(), to)
        } else {
            Seq::empty()
        },
        _ => Seq::empty(),
    }
}

/// What is read on the way to a position is the beginning of what is read in all.
pub proof fn reading_goes_on(files: Map<u64, Seq<u8>>, size: u64, at: int, to: int)
    requires
        reaches(files, size, at, to),
        to <= MAX_STREAM_LEN,
    ensures
        log_records(files, size, at) == records_until(files, size, at, to) + log_records(
            files,
            size,
            to,
        ),
        log_end(files, size, at) == log_end(files, size, to),
        at <= to,
    decreases to - at,
{
    if at < to {
        let record = outcome_at(files, size, at)->Record_0;
        reading_goes_on(files, size, at + record.size(), to);
        assert(log_records(files, size, at) =~= records_until(files, size, at, to) + log_records(
            files,
            size,
            to,
        ));
    } else {
        assert(log_records(files, size, at) =~= records_until(files, size, at, to) + log_records(
            files,
            size,
            to,
        ));
    }
}

/// Reading comes to the end of the log.
pub proof fn reading_reaches_end(files: Map<u64, Seq<u8>>, size: u64, at: int)
    requires
        0 <= at,
    ensures
        reaches(files, size, at, log_end(files, size, at)),
        records_until(files, size, at, log_end(files, size, at)) == log_records(files, size, at),
        at <= log_end(files, size, at),
        log_end(files, size, at) <= MAX_STREAM_LEN || log_end(files, size, at) == at,
    decreases MAX_STREAM_LEN - at,
{
    match outcome_at(files, size, at) {
        Outcome::Record(record) => if at + record.size() <= MAX_STREAM_LEN {
            reading_reaches_end(files, size, at + record.size());
        },
        _ => {},
    }
}

/// Where one way ends another can go on.
proof fn ways_join(files: Map<u64, Seq<u8>>, size: u64, a: int, b: int, c: int)
    requires
        reaches(files, size, a, b),
        reaches(files, size, b, c),
    ensures
        reaches(files, size, a, c),
        records_until(files, size, a, c) == records_until(files, size, a, b) + records_until(
            files,
            size,
            b,
            c,
        ),
        a <= b <= c,
    decreases (b - a) + (c - b),
{
    if a < b {
        let record = outcome_at(files, size, a)->Record_0;
        ways_join(files, size, a + record.size(), b, c);
        assert(records_until(files, size, a, c) =~= records_until(files, size, a, b)
            + records_until(files, size, b, c));
    } else {
        if b < c {
            let record = outcome_at(files, size, b)->Record_0;
            ways_join(files, size, b + record.size(), b + record.size(), c);
        }
        assert(records_until(files, size, a, c) =~= records_until(files, size, a, b)
            + records_until(files, size, b, c));
    }
}

/// Files with the same bytes between two positions read alike there.
pub proof fn same_bytes_read_alike(
    before: Map<u64, Seq<u8>>,
    after: Map<u64, Seq<u8>>,
    size: u64,
    at: int,
    to: int,
)
    requires
        reaches(before, size, at, to),
        forall|p: int|
            at <= p < to ==> (stream_byte(before, size, p) is Some ==> #[trigger] stream_byte(
                after,
                size,
                p,
            ) == stream_byte(before, size, p)),
    ensures
        reaches(after, size, at, to),
        records_until(after, size, at, to) == records_until(before, size, at, to),
    decreases to - at,
{
    if at < to {
        let record = outcome_at(before, size, at)->Record_0;
        earlier_record_stands(before, after, size, at, to, record);
        same_bytes_read_alike(before, after, size, at + record.size(), to);
    } else {
        assert(records_until(after, size, at, to) =~= records_until(before, size, at, to));
    }
}

/// What is written reads back, whatever stands behind it: when the operations for a
/// record have been performed, reading gives what it gave before up to the place of the
/// record, then the record, and then what it gave behind that place. That place is the
/// next one, where nothing has been read yet, or one that was reserved, with records
/// behind it in the same segment or in later ones.
pub proof fn record_joins_log(
    files: Map<u64, Seq<u8>>,
    size: u64,
    current: int,
    start: int,
    record: RecordView,
    reserved: bool,
    to: int,
)
    requires
        record.fits(),
        segment_ready(files, size, current),
        older_ready(files, size, record.lsn.0 as int, current),
        0 <= start,
        reaches(files, size, start, record.lsn.0 as int),
        reaches(files, size, record.lsn.0 + record.size(), to),
        to <= MAX_STREAM_LEN,
    ensures
        ({
            let at = record.lsn.0 as int;
            let now = at + record.size();
            let after = ops_applied(
                files,
                size,
                planned(current, size, at, record.bytes(), reserved),
            );
            let records = records_until(files, size, start, at).push(record) + records_until(
                files,
                size,
                now,
                to,
            );
            &&& reaches(after, size, start, to)
            &&& records_until(after, size, start, to) == records
            &&& records.is_prefix_of(log_records(after, size, start))
            &&& segment_ready(after, size, later(current, (now - 1) / (size as int)))
        }),
{
    let at = record.lsn.0 as int;
    let now = at + record.size();
    let after = ops_applied(files, size, planned(current, size, at, record.bytes(), reserved));
    record_reads_back(record, Seq::empty());
    reading_goes_on(files, size, now, to);
    reading_goes_on(files, size, start, at);
    plan_effect(files, size, current, at, record.bytes(), reserved);
    written_record_stands(files, after, size, record);
    same_bytes_read_alike(files, after, size, start, at);
    same_bytes_read_alike(files, after, size, now, to);
    assert(reaches(after, size, now, now));
    assert(reaches(after, size, at, now));
    assert(records_until(after, size, now, now) =~= Seq::empty());
    assert(records_until(after, size, at, now) =~= seq![record]);
    ways_join(after, size, start, at, now);
    ways_join(after, size, start, now, to);
    assert(records_until(after, size, start, to) =~= records_until(files, size, start, at).push(
        record,
    ) + records_until(files, size, now, to));
    reading_goes_on(after, size, start, to);
}

/// What is appended at the end of a log reads back, whatever a torn or damaged record
/// has left there: reading the log gives the records that it gave before and then the
/// new one.
pub proof fn appended_record_reads_back(
    files: Map<u64, Seq<u8>>,
    size: u64,
    current: int,
    start: int,
    record: RecordView,
)
    requires
        record.fits(),
        segment_ready(files, size, current),
        current <= record.lsn.0 / size,
        0 <= start,
        log_end(files, size, start) == record.lsn.0,
        record.lsn.0 + record.size() <= MAX_STREAM_LEN,
    ensures
        ({
            let now = record.lsn.0 + record.size();
            let after = ops_applied(
                files,
                size,
                planned(current, size, record.lsn.0 as int, record.bytes(), false),
            );
            &&& log_records(files, size, start).push(record).is_prefix_of(
                log_records(after, size, start),
            )
            &&& records_until(after, size, start, now) == log_records(files, size, start).push(
                record,
            )
            &&& reaches(after, size, start, now)
            &&& segment_ready(after, size, (now - 1) / (size as int))
            &&& (now - 1) / (size as int) <= now / (size as int)
        }),
{
    let at = record.lsn.0 as int;
    let now = at + record.size();
    reading_reaches_end(files, size, start);
    assert(reaches(files, size, now, now));
    assert(records_until(files, size, now, now) =~= Seq::empty());
    record_reads_back(record, Seq::empty());
    next_to_last(size as int, current, at, now);
    record_joins_log(files, size, current, start, record, false, now);
    let records = log_records(files, size, start).push(record);
    assert(records + Seq::<RecordView>::empty() =~= records);
}

/// When the operations of an append have been performed on a log that ends at `now`
/// with nothing but zeros behind it, reading the log gives the records that
/// it gave before and then the new one; the log ends right behind it and is ready
/// for the next.
pub proof fn append_extends_log(
    files: Map<u64, Seq<u8>>,
    size: u64,
    current: int,
    start: int,
    record: RecordView,
)
    requires
        record.fits(),
        log_ready(files, size, current, record.lsn.0 as int),
        0 <= start,
        log_end(files, size, start) == record.lsn.0,
        record.lsn.0 + record.size() <= MAX_STREAM_LEN,
    ensures
        ({
            let now = record.lsn.0 + record.size();
            let after = ops_applied(
                files,
                size,
                planned(current, size, record.lsn.0 as int, record.bytes(), false),
            );
            &&& log_records(after, size, start) == log_records(files, size, start).push(record)
            &&& log_end(after, size, start) == now
            &&& outcome_at(after, size, now) is End
            &&& log_ready(after, size, (now - 1) / (size as int), now)
        }),
{
    let at = record.lsn.0 as int;
    let now = at + record.size();
    let after = ops_applied(files, size, planned(current, size, at, record.bytes(), false));
    record_reads_back(record, Seq::empty());
    plan_effect(files, size, current, at, record.bytes(), false);
    written_record_stands(files, after, size, record);
    assert forall|p: int|
        now <= p && #[trigger] stream_byte(after, size, p) is Some implies stream_byte(
        after,
        size,
        p,
    ) == Some(0u8) by {
        assert(stream_byte(files, size, p) is Some ==> stream_byte(files, size, p) == Some(0u8));
    }
    clear_log_ends(files, size, at);
    clear_log_ends(after, size, now);
    next_to_last(size as int, current, at, now);
    log_grows(files, after, size, start, at, record);
}

proof fn next_to_last(size: int, current: int, at: int, now: int)
    requires
        size > 0,
        current <= at / size,
        0 <= at < now,
    ensures
        current <= (now - 1) / size <= now / size,
{
    vstd::arithmetic::div_mod::lemma_div_is_ordered(at, now - 1, size);
    vstd::arithmetic::div_mod::lemma_div_is_ordered(now - 1, now, size);
}

/// A log that was just opened reads as empty: one segment full of zeros.
pub proof fn fresh_log_is_ready(files: Map<u64, Seq<u8>>, size: u64)
    requires
        size >= 8,
        files.dom() == set![0u64],
        files[0] == zeros(size as nat),
    ensures
        log_ready(files, size, 0, 8),
        log_end(files, size, 8) == 8,
        log_records(files, size, 8) == Seq::<RecordView>::empty(),
{
    assert forall|id: u64| #[trigger] files.contains_key(id) implies id <= 0 by {
        assert(files.dom().contains(id));
    }
    assert(files.dom().contains(0u64));
    assert forall|p: int|
        8 <= p && #[trigger] stream_byte(files, size, p) is Some implies stream_byte(
        files,
        size,
        p,
    ) == Some(0u8) by {
        vstd::arithmetic::div_mod::lemma_mod_bound(p, size as int);
    }
    assert(0 <= 8int / (size as int)) by (nonlinear_arith)
        requires
            size > 0,
    ;
    clear_log_ends(files, size, 8);
}

} // verus!
