//! Sequential WAL reading.
//!
//! The reader takes the WAL as one byte stream, split across the segment files,
//! starts at an LSN and reads record after record.

use vstd::prelude::*;
use vstd::string::*;

use crate::codec::{le_u64, read_u16, read_u64, zeros};
use crate::error::{Result, StorageError};
use crate::text::{decimal, push_decimal, tagged};
use crate::types::{align_up, Lsn, LSN_ALIGNMENT};
use crate::wal::image::{
    position_in_segment, stream_byte, stream_bytes, stream_has, WalImage, MAX_STREAM_LEN,
};
use crate::wal::record::{
    is_type_byte, starts_with_record, stored_len, stored_record, RecordView, WalRecord,
    WAL_RECORD_HEADER_SIZE,
};

verus! {

/// What stands at a position of the stream.
pub enum Outcome {
    /// The durable log ends here: the files end, a header of zeros with nothing
    /// behind it, or a record that is not all there.
    End,
    /// A whole, undamaged record.
    Record(RecordView),
    /// A header of zeros with data right behind it: a slot that was reserved and
    /// never written.
    Hole,
    /// A whole record that does not decode.
    Damaged(Seq<u8>),
}

/// What stands at position `at` of the stream.
pub open spec fn outcome_at(files: Map<u64, Seq<u8>>, size: u64, at: int) -> Outcome {
    let head = stream_bytes(files, size, at, 32);
    let total = stored_len(head);
    let whole = stream_bytes(files, size, at, total);
    if !stream_has(files, size, at, 32) {
        Outcome::End
    } else if head == zeros(32) {
        if stream_has(files, size, at + 32, 32) && stream_bytes(files, size, at + 32, 32) != zeros(
            32,
        ) {
            Outcome::Hole
        } else {
            Outcome::End
        }
    } else if !stream_has(files, size, at, total as int) {
        Outcome::End
    } else if starts_with_record(whole) {
        Outcome::Record(stored_record(whole))
    } else {
        Outcome::Damaged(whole)
    }
}

/// The records that reading from `at` on gives.
pub open spec fn log_records(files: Map<u64, Seq<u8>>, size: u64, at: int) -> Seq<RecordView>
    decreases MAX_STREAM_LEN - at,
{
    match outcome_at(files, size, at) {
        Outcome::Record(record) => if 0 <= at && at + record.size() <= MAX_STREAM_LEN {
            seq![record] + log_records(files, size, at + record.size())
        } else {
            Seq::empty()
        },
        _ => Seq::empty(),
    }
}

/// Where reading from `at` on stops.
pub open spec fn log_end(files: Map<u64, Seq<u8>>, size: u64, at: int) -> int
    decreases MAX_STREAM_LEN - at,
{
    match outcome_at(files, size, at) {
        Outcome::Record(record) => if 0 <= at && at + record.size() <= MAX_STREAM_LEN {
            log_end(files, size, at + record.size())
        } else {
            at
        },
        _ => at,
    }
}

/// The error that reading gives at a position with the outcome `outcome`.
pub open spec fn is_fault(outcome: Outcome, at: int, error: StorageError) -> bool {
    match outcome {
        Outcome::Hole => error matches StorageError::MetadataCorrupted(message) && message@
            == "WAL hole detected: zero-filled header at "@ + tagged("Lsn"@, at as nat)
            + " followed by non-zero data at "@ + tagged("Lsn"@, (at + 32) as nat)
            + "; an unflushed reserved slot truncated the log"@,
        Outcome::Damaged(whole) => if is_type_byte(whole[24]) {
            error == StorageError::WalCorrupted(Lsn(le_u64(whole, 0)))
        } else {
            error matches StorageError::WalReadFailed(message) && message@
                == "unknown WAL record type discriminant "@ + decimal(whole[24] as nat)
        },
        _ => false,
    }
}

/// A reader can be opened at `lsn`.
pub open spec fn can_open(files: Map<u64, Seq<u8>>, size: u64, lsn: Lsn) -> bool {
    &&& lsn.is_valid()
    &&& lsn.0 % LSN_ALIGNMENT == 0
    &&& size % LSN_ALIGNMENT == 0
    &&& files.contains_key(lsn.0 / size)
}

/// The error that opening a reader at `lsn` gives.
pub open spec fn is_open_fault(
    files: Map<u64, Seq<u8>>,
    size: u64,
    lsn: Lsn,
    error: StorageError,
) -> bool {
    if !lsn.is_valid() || lsn.0 % LSN_ALIGNMENT != 0 {
        error matches StorageError::InvalidConfig(message) && message@ == "invalid WAL start LSN "@
            + tagged("Lsn"@, lsn.0 as nat)
    } else if size % LSN_ALIGNMENT != 0 {
        error matches StorageError::InvalidConfig(message) && message@
            == "invalid WAL segment size "@ + decimal(size as nat)
    } else {
        error is Io && !files.contains_key(lsn.0 / size)
    }
}

/// The contents of each of the records.
pub open spec fn record_views(records: Seq<WalRecord>) -> Seq<RecordView> {
    Seq::new(records.len(), |i: int| records[i]@)
}

/// `std::io::Error::from` on `ErrorKind::NotFound`: the error for a file that is
/// not there.
#[verifier::external_body]
fn file_not_found() -> std::io::Error {
    std::io::Error::from(std::io::ErrorKind::NotFound)
}

fn all_zero(bytes: &Vec<u8>) -> (zero: bool)
    ensures
        zero <==> bytes@ == zeros(bytes@.len()),
{
    let mut i: usize = 0;
    while i < bytes.len()
        invariant
            i <= bytes.len(),
            forall|k: int| 0 <= k < i ==> bytes@[k] == 0,
        decreases bytes.len() - i,
    {
        if bytes[i] != 0 {
            assert(bytes@[i as int] != zeros(bytes@.len())[i as int]);
            return false;
        }
        i += 1;
    }
    assert(bytes@ =~= zeros(bytes@.len()));
    true
}

/// A sequential WAL reader.
#[derive(Debug)]
pub struct WalReader<'a> {
    image: &'a WalImage,
    current_lsn: Lsn,
}

impl<'a> WalReader<'a> {
    /// The position of the next record.
    pub closed spec fn position(&self) -> Lsn {
        self.current_lsn
    }

    /// The contents of the segment files.
    pub closed spec fn files(&self) -> Map<u64, Seq<u8>> {
        self.image.files()
    }

    /// The segment size.
    pub closed spec fn size(&self) -> u64 {
        self.image.size()
    }

    /// The position lies within the stream or at its end.
    pub closed spec fn wf(&self) -> bool {
        &&& self.image.wf()
        &&& self.current_lsn.0 <= MAX_STREAM_LEN
    }

    /// Positions leave room in 64 bits.
    pub proof fn position_bound(&self)
        requires
            self.wf(),
        ensures
            self.position().0 <= MAX_STREAM_LEN,
    {
    }

    /// What stands at the reader's position.
    pub open spec fn outcome(&self) -> Outcome {
        outcome_at(self.files(), self.size(), self.position().0 as int)
    }

    /// Opens a reader at [`Lsn::first`].
    pub fn open(image: &'a WalImage) -> (result: Result<Self>)
        requires
            image.wf(),
        ensures
            match result {
                Ok(reader) => can_open(image.files(), image.size(), Lsn::first()) && reader.wf()
                    && reader.position() == Lsn::first() && reader.files() == image.files()
                    && reader.size() == image.size(),
                Err(error) => is_open_fault(image.files(), image.size(), Lsn::first(), error),
            },
    {
        Self::open_at(image, Lsn::first())
    }

    /// Opens a reader at `start_lsn`, which is to be the first byte of a record.
    ///
    /// `InvalidConfig` for an LSN that is invalid or not aligned, then for a
    /// segment size that is not aligned; an I/O error where the segment that
    /// holds the LSN is missing.
    pub fn open_at(image: &'a WalImage, start_lsn: Lsn) -> (result: Result<Self>)
        requires
            image.wf(),
        ensures
            match result {
                Ok(reader) => can_open(image.files(), image.size(), start_lsn) && reader.wf()
                    && reader.position() == start_lsn && reader.files() == image.files()
                    && reader.size() == image.size(),
                Err(error) => is_open_fault(image.files(), image.size(), start_lsn, error),
            },
    {
        if !start_lsn.is_valid() || start_lsn.0 % LSN_ALIGNMENT != 0 {
            let mut message = "invalid WAL start LSN ".to_owned();
            let lsn = start_lsn.to_text();
            message.append(lsn.as_str());
            return Err(StorageError::InvalidConfig(message));
        }
        let size: u64 = image.segment_size();
        if size % LSN_ALIGNMENT != 0 {
            let mut message = "invalid WAL segment size ".to_owned();
            push_decimal(&mut message, size);
            return Err(StorageError::InvalidConfig(message));
        }
        if !image.has_segment(start_lsn.segment_id(size)) {
            return Err(StorageError::Io(file_not_found()));
        }
        proof {
            position_in_segment(start_lsn.0 as int, size as int);
        }
        Ok(WalReader { image, current_lsn: start_lsn })
    }

    /// The LSN at which the next record begins.
    pub fn current_lsn(&self) -> (lsn: Lsn)
        ensures
            lsn == self.position(),
    {
        self.current_lsn
    }

    /// Reads the next record; `None` at the end of the durable log.
    ///
    /// A record that is not all there ends the log, and so does a header of
    /// zeros, unless data stands right behind it: then a reserved slot was never
    /// written, and going on would lose what follows (`MetadataCorrupted`). A
    /// record that is all there and does not decode is an error, too.
    pub fn next_record(&mut self) -> (result: Result<Option<WalRecord>>)
        requires
            old(self).wf(),
        ensures
            final(self).wf(),
            final(self).files() == old(self).files(),
            final(self).size() == old(self).size(),
            match old(self).outcome() {
                Outcome::End => result == Ok::<Option<WalRecord>, StorageError>(None)
                    && final(self).position() == old(self).position(),
                Outcome::Record(record) => (result matches Ok(Some(found)) && found@ == record)
                    && final(self).position().0 == old(self).position().0 + record.size(),
                Outcome::Hole => (result matches Err(error) && is_fault(
                    old(self).outcome(),
                    old(self).position().0 as int,
                    error,
                )) && final(self).position().0 == old(self).position().0 + 32,
                Outcome::Damaged(whole) => (result matches Err(error) && is_fault(
                    old(self).outcome(),
                    old(self).position().0 as int,
                    error,
                )) && final(self).position().0 == old(self).position().0 + whole.len(),
            },
    {
        let start: u64 = self.current_lsn.0;
        let ghost at = start as int;
        let head = match self.image.read_at(start, WAL_RECORD_HEADER_SIZE) {
            Some(head) => head,
            None => return Ok(None),
        };
        proof {
            self.image.within_stream(at, 32);
        }
        if all_zero(&head) {
            match self.image.read_at(start + 32, WAL_RECORD_HEADER_SIZE) {
                Some(probe) => if !all_zero(&probe) {
                    self.current_lsn = Lsn(start + 32);
                    let mut message = "WAL hole detected: zero-filled header at ".to_owned();
                    let first = Lsn(start).to_text();
                    message.append(first.as_str());
                    message.append(" followed by non-zero data at ");
                    let second = Lsn(start + 32).to_text();
                    message.append(second.as_str());
                    message.append("; an unflushed reserved slot truncated the log");
                    return Err(StorageError::MetadataCorrupted(message));
                },
                None => {},
            }
            return Ok(None);
        }
        let payload_len: usize = read_u16(head.as_slice(), 26) as usize;
        let total: usize = align_up(WAL_RECORD_HEADER_SIZE + payload_len, 8);
        assert(total == stored_len(head@));
        let whole = match self.image.read_at(start, total) {
            Some(whole) => whole,
            None => return Ok(None),
        };
        proof {
            self.image.within_stream(at, total as int);
            assert(whole@.subrange(26, 28) =~= head@.subrange(26, 28));
            assert(stored_len(whole@) == total);
        }
        self.current_lsn = Lsn(start + total as u64);
        match WalRecord::decode(whole.as_slice()) {
            Ok((record, _)) => {
                assert(record@.size() == total);
                Ok(Some(record))
            },
            Err(error) => Err(error),
        }
    }

    /// Reads the records from the reader's position to the end of the durable log, or to
    /// the first error, which is given, too. The position is then behind what gave the
    /// error, so that reading can go on there.
    pub fn records(&mut self) -> (read: (Vec<WalRecord>, Option<StorageError>))
        requires
            old(self).wf(),
        ensures
            final(self).wf(),
            final(self).files() == old(self).files(),
            final(self).size() == old(self).size(),
            ({
                let end = log_end(
                    old(self).files(),
                    old(self).size(),
                    old(self).position().0 as int,
                );
                let outcome = outcome_at(old(self).files(), old(self).size(), end);
                &&& record_views(read.0@) == log_records(
                    old(self).files(),
                    old(self).size(),
                    old(self).position().0 as int,
                )
                &&& match outcome {
                    Outcome::End => read.1 is None && final(self).position().0 == end,
                    Outcome::Hole => (read.1 matches Some(error) && is_fault(outcome, end, error))
                        && final(self).position().0 == end + 32,
                    Outcome::Damaged(whole) => (read.1 matches Some(error) && is_fault(
                        outcome,
                        end,
                        error,
                    )) && final(self).position().0 == end + whole.len(),
                    Outcome::Record(_) => false,
                }
            }),
    {
        let ghost files = self.files();
        let ghost size = self.size();
        let ghost start = self.position().0 as int;
        let mut records: Vec<WalRecord> = Vec::new();
        loop
            invariant
                self.wf(),
                self.files() == files,
                files == old(self).files(),
                self.size() == size == old(self).size(),
                start == old(self).position().0,
                log_end(files, size, start) == log_end(files, size, self.position().0 as int),
                log_records(files, size, start) == record_views(records@) + log_records(
                    files,
                    size,
                    self.position().0 as int,
                ),
            decreases MAX_STREAM_LEN - self.position().0,
        {
            let ghost at = self.position().0 as int;
            match self.next_record() {
                Ok(Some(record)) => {
                    let ghost before = records@;
                    records.push(record);
                    proof {
                        assert(record_views(records@) =~= record_views(before).push(record@));
                        assert(log_records(files, size, start) =~= record_views(records@)
                            + log_records(files, size, self.position().0 as int));
                    }
                },
                Ok(None) => {
                    assert(log_records(files, size, start) =~= record_views(records@));
                    return (records, None);
                },
                Err(error) => {
                    assert(log_records(files, size, start) =~= record_views(records@));
                    return (records, Some(error));
                },
            }
        }
    }
}

/// A whole record stands at position `p`, under its own LSN.
pub open spec fn stands_at(files: Map<u64, Seq<u8>>, size: u64, p: int) -> bool {
    p % 8 == 0 && (outcome_at(files, size, p) matches Outcome::Record(record) && record.lsn.0 == p)
}

/// A damaged record at `at` is the last one: the log ends right behind it, and no whole
/// record stands anywhere behind its beginning.
pub open spec fn is_final(files: Map<u64, Seq<u8>>, size: u64, at: int, len: nat) -> bool {
    &&& outcome_at(files, size, at + len) is End
    &&& forall|p: int| at < p ==> !#[trigger] stands_at(files, size, p)
}

/// Recovery takes position `at`, where reading has stopped, for the end of the log: there
/// is nothing more, or a last record that was being written when the crash came.
pub open spec fn log_stops(files: Map<u64, Seq<u8>>, size: u64, at: int) -> bool {
    match outcome_at(files, size, at) {
        Outcome::End => true,
        Outcome::Damaged(whole) => is_final(files, size, at, whole.len()),
        _ => false,
    }
}

/// Whether a whole record stands behind position `at`.
fn record_behind(image: &WalImage, at: u64) -> (found: bool)
    requires
        image.wf(),
        at % 8 == 0,
    ensures
        found <==> exists|p: int| at < p && #[trigger] stands_at(image.files(), image.size(), p),
{
    let ghost files = image.files();
    let ghost size = image.size();
    let end: u64 = image.stream_end();
    let mut p: u64 = at;
    while p < end
        invariant
            image.wf(),
            files == image.files(),
            size == image.size(),
            at <= p,
            p % 8 == 0,
            forall|q: int| end <= q ==> (#[trigger] stream_byte(files, size, q)) is None,
            forall|q: int| at < q < p ==> !#[trigger] stands_at(files, size, q),
            p == at || !stands_at(files, size, p as int),
        decreases u64::MAX - p,
    {
        if p > u64::MAX - 8 {
            proof {
                assert forall|q: int| at < q implies !#[trigger] stands_at(files, size, q) by {
                    if q > p {
                        assert(q >= end || q % 8 != 0);
                        if stream_has(files, size, q, 32) {
                            assert(stream_byte(files, size, q) is Some);
                        }
                    }
                }
            }
            return false;
        }
        let ghost before = p as int;
        p = p + 8;
        if let Some(head) = image.read_at(p, WAL_RECORD_HEADER_SIZE) {
            if read_u64(head.as_slice(), 0) == p {
                let mut reader = WalReader { image, current_lsn: Lsn(p) };
                let next = reader.next_record();
                if let Ok(Some(record)) = next {
                    if record.lsn.0 == p {
                        assert(stands_at(files, size, p as int));
                        return true;
                    }
                }
            } else {
                proof {
                    let total = stored_len(head@);
                    let whole = stream_bytes(files, size, p as int, total);
                    if total >= 32 {
                        assert(whole.subrange(0, 8) =~= head@.subrange(0, 8));
                    }
                }
            }
        }
        assert(!stands_at(files, size, p as int));
        assert forall|q: int| at < q < p implies !#[trigger] stands_at(files, size, q) by {
            if q > before {
                assert(q % 8 != 0);
            }
        }
    }
    proof {
        assert forall|q: int| at < q implies !#[trigger] stands_at(files, size, q) by {
            if q > p {
                if stream_has(files, size, q, 32) {
                    assert(stream_byte(files, size, q) is Some);
                }
            }
        }
    }
    false
}

/// What recovery reads of a log.
#[derive(Debug)]
pub struct LogTail {
    /// The records, in order.
    pub records: Vec<WalRecord>,
    /// Where the log ends, and goes on.
    pub end: Lsn,
}

/// Reads the log from `start_lsn` to its end for recovery. A record that is not all
/// there ends the log, and so does a damaged one with nothing behind it: it was being
/// written when the crash came. A damaged record with others behind it is an error, and
/// so is a reserved slot that was never written, with data behind it.
pub fn read_tail(image: &WalImage, start_lsn: Lsn) -> (result: Result<LogTail>)
    requires
        image.wf(),
    ensures
        match result {
            Ok(tail) => {
                &&& can_open(image.files(), image.size(), start_lsn)
                &&& log_stops(
                    image.files(),
                    image.size(),
                    log_end(image.files(), image.size(), start_lsn.0 as int),
                )
                &&& record_views(tail.records@) == log_records(
                    image.files(),
                    image.size(),
                    start_lsn.0 as int,
                )
                &&& tail.end.0 == log_end(image.files(), image.size(), start_lsn.0 as int)
                &&& tail.end.is_valid() && tail.end.0 % LSN_ALIGNMENT == 0 && tail.end.0
                    <= MAX_STREAM_LEN
            },
            Err(error) => if !can_open(image.files(), image.size(), start_lsn) {
                is_open_fault(image.files(), image.size(), start_lsn, error)
            } else {
                let end = log_end(image.files(), image.size(), start_lsn.0 as int);
                &&& !log_stops(image.files(), image.size(), end)
                &&& is_fault(outcome_at(image.files(), image.size(), end), end, error)
            },
        },
{
    let mut reader = WalReader::open_at(image, start_lsn)?;
    let ghost files = image.files();
    let ghost size = image.size();
    let ghost start = start_lsn.0 as int;
    let mut records: Vec<WalRecord> = Vec::new();
    loop
        invariant
            reader.wf(),
            reader.files() == files,
            reader.size() == size,
            files == image.files(),
            size == image.size(),
            start == start_lsn.0,
            can_open(files, size, start_lsn),
            reader.position().0 >= start,
            reader.position().0 % 8 == 0,
            log_end(files, size, start) == log_end(files, size, reader.position().0 as int),
            log_records(files, size, start) == record_views(records@) + log_records(
                files,
                size,
                reader.position().0 as int,
            ),
        decreases MAX_STREAM_LEN - reader.position().0,
    {
        let end = reader.current_lsn();
        proof {
            reader.position_bound();
        }
        match reader.next_record() {
            Ok(Some(record)) => {
                let ghost before = records@;
                records.push(record);
                proof {
                    reader.position_bound();
                    assert(record_views(records@) =~= record_views(before).push(record@));
                    assert(log_records(files, size, start) =~= record_views(records@) + log_records(
                        files,
                        size,
                        reader.position().0 as int,
                    ));
                }
            },
            Ok(None) => {
                assert(log_records(files, size, start) =~= record_views(records@));
                return Ok(LogTail { records, end });
            },
            Err(StorageError::MetadataCorrupted(message)) => {
                return Err(StorageError::MetadataCorrupted(message));
            },
            Err(error) => {
                assert(log_records(files, size, start) =~= record_views(records@));
                let ghost behind = reader.position().0 as int;
                let follows: bool = match reader.next_record() {
                    Ok(None) => false,
                    _ => true,
                };
                assert(follows <==> !(outcome_at(files, size, behind) is End));
                if follows || record_behind(image, end.0) {
                    return Err(error);
                }
                return Ok(LogTail { records, end });
            },
        }
    }
}

/// What stands at a position is told apart as follows. Where the stream does not hold a whole
/// header, or not the whole record that a header tells of, the log ends. A header of zeros
/// ends it, too, unless something stands right behind it: that is a hole. A whole record is
/// read, or reported as damaged, by its checksum and its type.
pub proof fn outcomes_are_told_apart(files: Map<u64, Seq<u8>>, size: u64, at: int)
    ensures
        ({
            let head = stream_bytes(files, size, at, 32);
            let behind = stream_bytes(files, size, at + 32, 32);
            let whole = stream_bytes(files, size, at, stored_len(head));
            let outcome = outcome_at(files, size, at);
            let started = stream_has(files, size, at, 32);
            let complete = stream_has(files, size, at, stored_len(head) as int);
            &&& !started ==> outcome is End
            &&& started && head == zeros(32) ==> (outcome is Hole <==> stream_has(
                files,
                size,
                at + 32,
                32,
            ) && behind != zeros(32)) && (outcome is Hole || outcome is End)
            &&& started && head != zeros(32) && !complete ==> outcome is End
            &&& started && head != zeros(32) && complete && starts_with_record(whole) ==> outcome
                == Outcome::Record(stored_record(whole))
            &&& started && head != zeros(32) && complete && !starts_with_record(whole) ==> outcome
                == Outcome::Damaged(whole)
        }),
        forall|p: int, n: int| #[trigger]
            stream_has(files, size, p, n) <==> forall|q: int|
                p <= q < p + n ==> (#[trigger] stream_byte(files, size, q)) is Some,
        forall|p: int, n: nat, k: int|
            0 <= k < n && stream_byte(files, size, p + k) is Some ==> #[trigger] stream_bytes(
                files,
                size,
                p,
                n,
            )[k] == stream_byte(files, size, p + k)->0,
{
}

/// When recovery takes a position for the end of the log: not at a hole; not at a damaged
/// record with a whole one anywhere behind it, under its own LSN; but where the log ends, and
/// at a damaged record with nothing behind it.
pub proof fn log_stops_only_at_its_end(files: Map<u64, Seq<u8>>, size: u64, at: int, p: int)
    ensures
        ({
            let outcome = outcome_at(files, size, at);
            let stands = |q: int|
                q % 8 == 0 && outcome_at(files, size, q) is Record && (outcome_at(
                    files,
                    size,
                    q,
                )->Record_0).lsn.0 == q;
            &&& outcome is Hole ==> !log_stops(files, size, at)
            &&& outcome is Damaged && p > at && stands(p) ==> !log_stops(files, size, at)
            &&& outcome is End ==> log_stops(files, size, at)
            &&& outcome is Damaged && outcome_at(
                files,
                size,
                at + (outcome->Damaged_0).len(),
            ) is End && (forall|q: int| q > at ==> !#[trigger] stands_at(files, size, q))
                ==> log_stops(files, size, at)
            &&& stands(p) <==> stands_at(files, size, p)
        }),
{
    assert(p > at && outcome_at(files, size, at) is Damaged && stands_at(files, size, p)
        ==> !log_stops(files, size, at));
}

/// The records of a log, one by one: where a record stands the reading goes on right behind
/// it, and where none does it has come to its end.
pub proof fn records_are_read_one_by_one(files: Map<u64, Seq<u8>>, size: u64, at: int)
    requires
        at >= 0,
    ensures
        outcome_at(files, size, at) matches Outcome::Record(record) ==> at + record.size()
            <= MAX_STREAM_LEN ==> log_records(files, size, at) == seq![record] + log_records(
            files,
            size,
            at + record.size(),
        ) && log_end(files, size, at) == log_end(files, size, at + record.size()),
        !(outcome_at(files, size, at) is Record) ==> log_records(files, size, at).len() == 0
            && log_end(files, size, at) == at,
{
}

/// A reader is opened where there is a segment to read from, at an LSN that a record can have.
/// Else it is not, and the error says why: a place or a size that is wrong, or else a segment
/// that is missing.
pub proof fn reader_opens_where_a_record_can_be(
    files: Map<u64, Seq<u8>>,
    size: u64,
    lsn: Lsn,
    error: StorageError,
)
    requires
        size > 0,
    ensures
        can_open(files, size, lsn) <==> lsn.0 != 0 && lsn.0 % 8 == 0 && size % 8 == 0
            && files.contains_key(lsn.0 / size),
        is_open_fault(files, size, lsn, error) ==> !can_open(files, size, lsn),
        is_open_fault(files, size, lsn, error) ==> (error is InvalidConfig <==> lsn.0 == 0 || lsn.0
            % 8 != 0 || size % 8 != 0),
        is_open_fault(files, size, lsn, error) ==> error is InvalidConfig || error is Io,
{
}

/// Only a hole and a damaged record stop a reader with an error. A hole is reported as such; a
/// damaged record by its LSN, or by its type if that is unknown.
pub proof fn faults_are_holes_and_damage(outcome: Outcome, at: int, error: StorageError)
    requires
        is_fault(outcome, at, error),
    ensures
        outcome is Hole || outcome is Damaged,
        outcome is Hole <==> error is MetadataCorrupted,
        outcome matches Outcome::Damaged(bytes) ==> if is_type_byte(bytes[24]) {
            error == StorageError::WalCorrupted(Lsn(le_u64(bytes, 0)))
        } else {
            error is WalReadFailed
        },
{
}

} // verus!
