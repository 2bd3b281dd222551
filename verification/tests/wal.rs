use std::collections::BTreeMap;

use pg_rust::error::{Result, StorageError};
use pg_rust::types::{Lsn, PageId, TxnId};
use pg_rust::wal::image::{SegmentOp, WalImage};
use pg_rust::wal::reader::{read_tail, WalReader};
use pg_rust::wal::record::{
    CheckpointEndRecord, FullPageImageRecord, PageAllocRecord, PageFreeRecord, TxnAbortRecord,
    TxnCommitRecord, WalRecord, WalRecordType, CHECKPOINT_END_V2_FLAGS, WAL_RECORD_HEADER_SIZE,
};
use pg_rust::wal::segment::{
    discover_latest_segment_id, parse_segment_id, wal_filename, WalSegmentManager,
};
use pg_rust::wal::writer::{FlushStep, LogRepair, WalWriter, WorkerStep};

// Records.

#[test]
fn page_alloc_roundtrip() {
    let mut record = WalRecord::page_alloc(PageId(42)).unwrap();
    record.lsn = Lsn(16);
    let buf = record.encode().unwrap();
    assert_eq!(buf.len() % 8, 0);

    let (decoded, consumed) = WalRecord::decode(&buf).unwrap();
    assert_eq!(consumed, buf.len());
    assert_eq!(decoded.lsn, Lsn(16));
    assert_eq!(decoded.record_type, WalRecordType::PageAlloc);
    assert_eq!(decoded.payload, record.payload);
}

#[test]
fn checkpoint_begin_roundtrip() {
    let mut record = WalRecord::checkpoint_begin();
    record.lsn = Lsn(128);
    let buf = record.encode().unwrap();
    assert_eq!(buf.len() % 8, 0);

    let (decoded, consumed) = WalRecord::decode(&buf).unwrap();
    assert_eq!(consumed, buf.len());
    assert_eq!(decoded.lsn, Lsn(128));
    assert_eq!(decoded.record_type, WalRecordType::CheckpointBegin);
    assert!(decoded.payload.is_empty());
}

#[test]
fn checkpoint_end_roundtrip() {
    let mut record = WalRecord::checkpoint_end(Lsn(128), PageId(99), TxnId(7)).unwrap();
    record.lsn = Lsn(256);
    let buf = record.encode().unwrap();
    let (decoded, _) = WalRecord::decode(&buf).unwrap();
    assert_eq!(decoded.lsn, Lsn(256));
    assert_eq!(decoded.record_type, WalRecordType::CheckpointEnd);
    assert_eq!(decoded.payload, record.payload);
}

#[test]
fn full_page_image_roundtrip() {
    let image = vec![0xAB; 8192];
    let mut record = WalRecord::full_page_image(PageId(3), image).unwrap();
    record.lsn = Lsn(64);
    let buf = record.encode().unwrap();
    let (decoded, _) = WalRecord::decode(&buf).unwrap();
    assert_eq!(decoded.record_type, WalRecordType::FullPageImage);
    assert_eq!(decoded.payload, record.payload);
}

#[test]
fn decode_rejects_corrupted_crc() {
    let mut record = WalRecord::page_alloc(PageId(1)).unwrap();
    record.lsn = Lsn(16);
    let mut buf = record.encode().unwrap();
    buf[0] ^= 0xff;
    assert!(WalRecord::decode(&buf).is_err());
}

#[test]
fn decode_rejects_truncated_record() {
    let mut record = WalRecord::page_alloc(PageId(1)).unwrap();
    record.lsn = Lsn(16);
    let buf = record.encode().unwrap();
    assert!(WalRecord::decode(&buf[..buf.len() - 1]).is_err());
}

#[test]
fn record_type_discriminants_are_stable() {
    assert_eq!(WalRecordType::PageAlloc.to_u8(), 40);
    assert_eq!(WalRecordType::CheckpointEnd.to_u8(), 31);
    assert_eq!(
        WalRecordType::from_u8(40).unwrap(),
        WalRecordType::PageAlloc
    );
}

#[test]
fn every_kind_of_record_reads_back() {
    let mut records = vec![
        WalRecord::page_free(PageId(7)).unwrap(),
        WalRecord::txn_commit(TxnId(300)).unwrap(),
        WalRecord::txn_abort(TxnId(u64::MAX)).unwrap(),
        WalRecord::checkpoint_end_v2(&CheckpointEndRecord {
            checkpoint_lsn: Lsn(64),
            next_page_id: PageId(9),
            next_txn_id: TxnId(4),
            next_oid: 16_400,
            att_file: "meta/att-64.snap".to_string(),
            dpt_file: "meta/dpt-64.snap".to_string(),
        })
        .unwrap(),
    ];
    for (i, record) in records.iter_mut().enumerate() {
        record.lsn = Lsn(8 * (i as u64 + 1));
        record.prev_lsn = Lsn(8);
        let buf = record.encode().unwrap();
        assert_eq!(buf.len(), record.record_size());
        let (decoded, consumed) = WalRecord::decode(&buf).unwrap();
        assert_eq!(consumed, buf.len());
        assert_eq!(decoded, *record);
    }
    assert_eq!(
        PageFreeRecord::decode(&records[0].payload).unwrap().page_id,
        PageId(7)
    );
    assert_eq!(
        TxnCommitRecord::decode(&records[1].payload).unwrap().xid,
        TxnId(300)
    );
    assert_eq!(
        TxnAbortRecord::decode(&records[2].payload).unwrap().xid,
        TxnId(u64::MAX)
    );
    assert_eq!(records[3].flags, CHECKPOINT_END_V2_FLAGS);
    let end = CheckpointEndRecord::decode(&records[3].payload, records[3].flags).unwrap();
    assert_eq!(end.checkpoint_lsn, Lsn(64));
    assert_eq!(end.next_oid, 16_400);
    assert_eq!(end.att_file, "meta/att-64.snap");
    assert_eq!(end.dpt_file, "meta/dpt-64.snap");
}

#[test]
fn payloads_are_variable_length_integers() {
    let small = WalRecord::page_alloc(PageId(250)).unwrap();
    assert_eq!(small.payload, [250]);
    let medium = WalRecord::page_alloc(PageId(251)).unwrap();
    assert_eq!(medium.payload, [251, 251, 0]);
    let large = WalRecord::page_alloc(PageId(65_536)).unwrap();
    assert_eq!(large.payload, [252, 0, 0, 1, 0]);
    let huge = WalRecord::page_alloc(PageId(1 << 32)).unwrap();
    assert_eq!(huge.payload, [253, 0, 0, 0, 0, 1, 0, 0, 0]);
    let image = WalRecord::full_page_image(PageId(1), vec![7, 8]).unwrap();
    assert_eq!(image.payload, [1, 2, 7, 8]);
    let decoded = FullPageImageRecord::decode(&image.payload).unwrap();
    assert_eq!(decoded.page_id, PageId(1));
    assert_eq!(decoded.image, [7, 8]);
    assert!(matches!(
        PageAllocRecord::decode(&[253, 1]),
        Err(StorageError::Serialize(_))
    ));
}

#[test]
fn record_header_layout() {
    let mut record = WalRecord::txn_commit(TxnId(5)).unwrap();
    record.lsn = Lsn(0x0102);
    record.prev_lsn = Lsn(8);
    record.txn_id = TxnId(5);
    let buf = record.encode().unwrap();
    assert_eq!(WAL_RECORD_HEADER_SIZE, 32);
    assert_eq!(buf.len(), 40);
    assert_eq!(buf[0..8], 0x0102u64.to_le_bytes());
    assert_eq!(buf[8..16], 8u64.to_le_bytes());
    assert_eq!(buf[16..24], 5u64.to_le_bytes());
    assert_eq!(buf[24], WalRecordType::TxnCommit.to_u8());
    assert_eq!(buf[25], 0);
    assert_eq!(buf[26..28], 1u16.to_le_bytes());
    let mut hasher = crc32fast::Hasher::new();
    hasher.update(&buf[0..28]);
    hasher.update(&buf[32..]);
    assert_eq!(buf[28..32], hasher.finalize().to_le_bytes());
}

#[test]
fn unknown_record_type_is_refused() {
    for byte in 0..=255u8 {
        if let Ok(kind) = WalRecordType::from_u8(byte) {
            assert_eq!(kind.to_u8(), byte);
        }
    }
    match WalRecordType::from_u8(200) {
        Err(StorageError::WalReadFailed(message)) => {
            assert!(message.ends_with("200"), "{message}")
        }
        other => panic!("{other:?}"),
    }
}

#[test]
fn overlong_payload_is_refused() {
    let image = WalRecord::full_page_image(PageId(1), vec![0; 70_000]).unwrap();
    assert!(image.encode().is_err());
}

// Segments.

#[test]
fn wal_filename_is_one_based() {
    assert_eq!(wal_filename(0), "wal-00000001.log");
    assert_eq!(wal_filename(42), "wal-00000043.log");
}

#[test]
fn segment_names_parse_back() {
    assert_eq!(parse_segment_id("wal-00000001.log"), Some(0));
    assert_eq!(parse_segment_id("wal-00000043.log"), Some(42));
    assert_eq!(parse_segment_id(&wal_filename(123_456_789)), Some(123_456_789));
    assert_eq!(parse_segment_id("wal-00000000.log"), None);
    assert_eq!(parse_segment_id("wal-.log"), None);
    assert_eq!(parse_segment_id("wal-00000001.tmp"), None);
    assert_eq!(parse_segment_id("clog-00000001.log"), None);
    let names = vec![wal_filename(3), "notes".to_string(), wal_filename(1)];
    assert_eq!(discover_latest_segment_id(&names), 3);
    assert_eq!(discover_latest_segment_id(&Vec::new()), 0);
}

#[test]
fn opens_first_segment_when_empty() {
    let mgr = WalSegmentManager::open(1024, &Vec::new()).unwrap();
    assert_eq!(mgr.current_segment_id(), 0);
    assert_eq!(wal_filename(mgr.current_segment_id()), "wal-00000001.log");
}

#[test]
fn rejects_zero_and_unaligned_segment_size() {
    assert!(WalSegmentManager::open(0, &Vec::new()).is_err());
    assert!(WalSegmentManager::open(65, &Vec::new()).is_err());
}

#[test]
fn ensure_for_write_rotates_when_full() {
    let mut mgr = WalSegmentManager::open(64, &Vec::new()).unwrap();
    let mut log = WalImage::new(64);
    log.load(0, vec![0; 64]);
    assert_eq!(mgr.current_segment_id(), 0);

    let lsn = Lsn(56);
    assert_eq!(mgr.ensure_for_write(lsn).unwrap(), None);
    log.apply(&SegmentOp::Write {
        segment_id: 0,
        offset: lsn.segment_offset(64),
        bytes: b"abcdefgh".to_vec(),
    });

    let next_lsn = lsn.advance(8);
    assert_eq!(mgr.ensure_for_write(next_lsn).unwrap(), Some(1));
    log.apply(&SegmentOp::Create(1));
    assert_eq!(mgr.rotate(), 1);
    assert_eq!(mgr.ensure_for_write(next_lsn).unwrap(), None);
    assert_eq!(mgr.current_segment_id(), 1);
    log.apply(&SegmentOp::Write {
        segment_id: 1,
        offset: next_lsn.segment_offset(64),
        bytes: b"12345678".to_vec(),
    });
    assert_eq!(log.read_at(56, 8).unwrap(), b"abcdefgh");
    assert_eq!(log.read_at(64, 8).unwrap(), b"12345678");
    assert_eq!(log.read_at(56, 16).unwrap(), b"abcdefgh12345678");
}

#[test]
fn recycle_before_deletes_old_segments() {
    let mut mgr = WalSegmentManager::open(64, &Vec::new()).unwrap();
    mgr.rotate();
    mgr.rotate();
    let names: Vec<String> = (0..3).map(wal_filename).collect();
    let removed = mgr.recycle_before(Lsn(128), &names);
    assert_eq!(removed, ["wal-00000001.log", "wal-00000002.log"]);
}

#[test]
fn reopen_discovers_latest_segment() {
    let names: Vec<String> = (0..3).map(wal_filename).collect();
    let mgr = WalSegmentManager::open(64, &names).unwrap();
    assert_eq!(mgr.current_segment_id(), 2);
}

#[test]
fn recycle_before_never_removes_current_or_future_segments() {
    let mut mgr = WalSegmentManager::open(64, &Vec::new()).unwrap();
    mgr.rotate();
    mgr.rotate();
    let names: Vec<String> = (0..3).map(wal_filename).collect();
    let removed = mgr.recycle_before(Lsn(1_000_000), &names);
    assert_eq!(removed.len(), 2);
    assert_eq!(removed, ["wal-00000001.log", "wal-00000002.log"]);
    assert!(!removed.contains(&"wal-00000003.log".to_string()));
}

#[test]
fn open_repairs_truncated_segment_file() {
    let mgr = WalSegmentManager::open(1024, &vec![wal_filename(0)]).unwrap();
    assert_eq!(mgr.current_segment_id(), 0);
    assert!(mgr.needs_preallocation(100));
    assert!(!mgr.needs_preallocation(1024));
    assert_eq!(mgr.segment_size(), 1024);
}

#[test]
fn ensure_for_write_rejects_backward_segment() {
    let mut mgr = WalSegmentManager::open(64, &Vec::new()).unwrap();
    mgr.rotate();
    assert_eq!(mgr.current_segment_id(), 1);
    let err = mgr.ensure_for_write(Lsn(8)).unwrap_err();
    assert!(matches!(err, StorageError::WalWriteFailed(_)));
}

// Writing and reading.

/// A writer and the segment files that it writes.
struct Log {
    writer: WalWriter,
    files: BTreeMap<u64, Vec<u8>>,
    durable: BTreeMap<u64, Vec<u8>>,
    segment_size: u64,
}

impl Log {
    fn open(segment_size: u64, batch_size: usize, timeout_ms: u64) -> Log {
        let files = BTreeMap::from([(0, vec![0; segment_size as usize])]);
        let mut image = WalImage::new(segment_size);
        image.load(0, files[&0].clone());
        let names = vec![wal_filename(0)];
        let (writer, repair) = WalWriter::open(&image, &names, batch_size, timeout_ms).unwrap();
        assert!(repair.stale_segments.is_empty() && repair.ops.is_empty());
        Log {
            writer,
            durable: files.clone(),
            files,
            segment_size,
        }
    }

    fn perform(&mut self, ops: &[SegmentOp]) {
        for op in ops {
            match op {
                SegmentOp::Create(id) => {
                    let file = self.files.entry(*id).or_default();
                    file.resize(self.segment_size as usize, 0);
                    self.durable.insert(*id, file.clone());
                }
                SegmentOp::Write {
                    segment_id,
                    offset,
                    bytes,
                } => {
                    let at = *offset as usize;
                    self.files.get_mut(segment_id).unwrap()[at..at + bytes.len()]
                        .copy_from_slice(bytes);
                }
                SegmentOp::Sync(id) => {
                    self.durable.insert(*id, self.files[id].clone());
                }
            }
            self.writer.op_done(op);
        }
    }

    fn append(&mut self, record: WalRecord) -> Result<Lsn> {
        let append = self.writer.append(record)?;
        self.perform(&append.ops);
        self.writer.record_written(0);
        Ok(append.lsn)
    }

    /// What the worker does when it makes the log durable.
    fn sync(&mut self) {
        let current = self.writer.current_segment_id();
        self.durable.insert(current, self.files[&current].clone());
        self.writer.sync_succeeded();
    }

    /// The log that a crash leaves.
    fn crashed(&self) -> WalImage {
        let mut image = WalImage::new(self.segment_size);
        for (id, bytes) in &self.durable {
            assert!(image.load(*id, bytes.clone()));
        }
        image
    }

    /// Opens the log again at `at`, as recovery does, and gives what that takes.
    fn resume(&mut self, at: Lsn) -> LogRepair {
        let (writer, repair) =
            WalWriter::resume(&self.image(), &self.names(), 1, 1, at).unwrap();
        let stale = &repair.stale_segments;
        self.files.retain(|id, _| !stale.contains(&wal_filename(*id)));
        self.writer = writer;
        let current = self.writer.current_segment_id();
        self.files
            .entry(current)
            .or_default()
            .resize(self.segment_size as usize, 0);
        self.durable = self.files.clone();
        let now = self.writer.current_lsn();
        self.perform(&repair.ops);
        assert_eq!(self.writer.current_lsn(), now);
        assert_eq!(self.durable, self.files);
        repair
    }

    /// All records, where every one of them can be read.
    fn records(&self) -> Vec<WalRecord> {
        all_records(&self.image())
    }

    fn flush_to(&mut self, lsn: Lsn) -> Result<()> {
        if self.writer.flush_to(lsn)? == FlushStep::Wait {
            assert_ne!(self.writer.worker_step(u64::MAX), WorkerStep::Wait);
            self.sync();
        }
        assert_eq!(self.writer.flush_to(lsn)?, FlushStep::Done);
        Ok(())
    }

    fn append_durably(&mut self, record: WalRecord) -> Lsn {
        let lsn = self.append(record).unwrap();
        self.flush_to(lsn).unwrap();
        lsn
    }

    fn image(&self) -> WalImage {
        let mut image = WalImage::new(self.segment_size);
        for (id, bytes) in &self.files {
            assert!(image.load(*id, bytes.clone()));
        }
        image
    }

    fn names(&self) -> Vec<String> {
        self.files.keys().map(|id| wal_filename(*id)).collect()
    }
}

fn all_records(image: &WalImage) -> Vec<WalRecord> {
    let (records, error) = WalReader::open(image).unwrap().records();
    assert!(error.is_none());
    records
}

fn page_alloc(page: u64) -> WalRecord {
    WalRecord::page_alloc(PageId(page)).unwrap()
}

#[test]
fn append_and_read_single_record() {
    let mut log = Log::open(1024, 4, 5);
    let lsn = log.append_durably(page_alloc(42));
    assert!(lsn.is_valid());
    assert!(log.writer.synced_lsn() >= lsn);
    let buf = &log.files[&0];
    let (decoded, _) = WalRecord::decode(&buf[lsn.segment_offset(1024) as usize..]).unwrap();
    assert_eq!(decoded.record_type, WalRecordType::PageAlloc);
    assert_eq!(decoded.lsn, lsn);
}

#[test]
fn append_many_records_preserves_order() {
    let mut log = Log::open(1024, 4, 5);
    let lsns: Vec<Lsn> = (0..100).map(|i| log.append_durably(page_alloc(i + 1))).collect();
    for window in lsns.windows(2) {
        assert!(window[1] > window[0]);
    }
    assert!(log.writer.synced_lsn() >= lsns[lsns.len() - 1]);
}

#[test]
fn cross_segment_write() {
    let size = 256;
    let mut log = Log::open(size, 1, 1);
    let fpi = WalRecord::full_page_image(PageId(99), vec![0xCD; 32]).unwrap();
    let fpi_size = fpi.record_size() as u64;
    assert!(fpi_size <= size);
    let small = page_alloc(1);
    let small_size = small.record_size() as u64;

    let mut last_lsn = log.append_durably(small.clone());
    loop {
        let offset = last_lsn.segment_offset(size);
        if offset + small_size + fpi_size > size && offset + fpi_size > size {
            break;
        }
        last_lsn = log.append_durably(small.clone());
    }
    let fpi_lsn = log.append_durably(fpi);
    assert_eq!(fpi_lsn.segment_id(size), last_lsn.segment_id(size));
    let fpi_end_segment = Lsn(fpi_lsn.0 + fpi_size - 1).segment_id(size);
    assert!(fpi_end_segment > fpi_lsn.segment_id(size));
    assert_eq!(log.names(), ["wal-00000001.log", "wal-00000002.log"]);
    let mut reader_image = log.image();
    assert!(reader_image.has_segment(1));
    let last = {
        let mut reader = WalReader::open_at(&reader_image, fpi_lsn).unwrap();
        reader.next_record().unwrap().unwrap()
    };
    assert_eq!(
        FullPageImageRecord::decode(&last.payload).unwrap().image,
        [0xCD; 32]
    );
    reader_image.load(1, Vec::new());
    let mut reader = WalReader::open_at(&reader_image, fpi_lsn).unwrap();
    assert!(reader.next_record().unwrap().is_none());
}

#[test]
fn flush_on_empty_writer_returns_immediately() {
    let log = Log::open(1024, 4, 5);
    assert_eq!(log.writer.flush().unwrap(), None);
}

#[test]
fn append_wakes_worker_for_sync() {
    let mut log = Log::open(1024, 100, 1000);
    let lsn = log.append(page_alloc(1)).unwrap();
    assert_eq!(log.writer.worker_step(0), WorkerStep::Wait);
    assert_eq!(log.writer.flush_to(lsn).unwrap(), FlushStep::Wait);
    assert_eq!(log.writer.flush().unwrap(), Some(log.writer.current_lsn()));
    assert_eq!(log.writer.worker_step(1000), WorkerStep::Sync);
    log.writer.sync_succeeded();
    assert_eq!(log.writer.flush_to(lsn).unwrap(), FlushStep::Done);
    assert!(log.writer.synced_lsn() >= lsn);
}

#[test]
fn flush_to_is_idempotent_after_sync() {
    let mut log = Log::open(1024, 4, 5);
    let lsn = log.append_durably(page_alloc(1));
    assert_eq!(log.writer.flush_to(lsn).unwrap(), FlushStep::Done);
    assert!(log.writer.synced_lsn() >= lsn);
}

#[test]
fn open_at_rejects_invalid_and_unaligned_lsn() {
    let names = Vec::new();
    assert!(WalWriter::open_at(1024, &names, 4, 5, Lsn::invalid()).is_err());
    assert!(WalWriter::open_at(1024, &names, 4, 5, Lsn(12)).is_err());
}

#[test]
fn open_at_rejects_lsn_in_older_segment() {
    let names = vec!["wal-00000002.log".to_string()];
    match WalWriter::open_at(64, &names, 4, 5, Lsn::first()) {
        Err(StorageError::InvalidConfig(message)) => assert_eq!(
            message,
            "start_lsn Lsn(8) is in segment 0 but latest WAL segment is 1; \
             recovery must trim or recycle segments first"
        ),
        other => panic!("{:?}", other.err()),
    }
}

#[test]
fn open_at_accepts_lsn_in_latest_segment() {
    let names = vec!["wal-00000002.log".to_string()];
    let mut writer = WalWriter::open_at(64, &names, 1, 1, Lsn(64)).unwrap();
    let append = writer.append(page_alloc(1)).unwrap();
    assert!(append.lsn >= Lsn(64));
}

#[test]
fn read_single_record() {
    let mut log = Log::open(1024, 1, 1);
    let lsn = log.append_durably(page_alloc(42));
    let image = log.image();
    let mut reader = WalReader::open(&image).unwrap();
    let record = reader.next_record().unwrap().unwrap();
    assert_eq!(record.record_type, WalRecordType::PageAlloc);
    assert_eq!(record.lsn, lsn);
    assert!(reader.next_record().unwrap().is_none());
}

#[test]
fn read_multiple_records_preserves_order() {
    let mut log = Log::open(1024, 1, 1);
    let count: usize = 100;
    let mut lsns = Vec::new();
    for i in 0..count {
        lsns.push(log.append_durably(page_alloc(i as u64 + 1)));
    }
    let image = log.image();
    let mut reader = WalReader::open(&image).unwrap();
    let mut read = 0;
    while let Some(record) = reader.next_record().unwrap() {
        assert_eq!(record.lsn, lsns[read]);
        read += 1;
    }
    assert_eq!(read, count);
}

#[test]
fn read_across_segment_boundary() {
    let mut log = Log::open(256, 1, 1);
    let n: usize = 20;
    for i in 0..n {
        log.append_durably(page_alloc(i as u64 + 1));
    }
    let image = log.image();
    let mut reader = WalReader::open(&image).unwrap();
    let mut count = 0;
    while reader.next_record().unwrap().is_some() {
        count += 1;
    }
    assert_eq!(count, n);
}

#[test]
fn read_from_start_lsn() {
    let mut log = Log::open(1024, 1, 1);
    let lsn1 = log.append_durably(page_alloc(1));
    log.append_durably(page_alloc(2));
    let image = log.image();
    let mut reader = WalReader::open_at(&image, lsn1).unwrap();
    let record = reader.next_record().unwrap().unwrap();
    assert_eq!(record.lsn, lsn1);
    assert!(reader.next_record().unwrap().is_some());
    assert!(reader.next_record().unwrap().is_none());
}

#[test]
fn read_rejects_corrupted_crc() {
    let mut log = Log::open(1024, 1, 1);
    let lsn = log.append_durably(page_alloc(1));
    let offset = lsn.segment_offset(1024) as usize;
    log.files.get_mut(&0).unwrap()[offset] ^= 0xff;
    let image = log.image();
    let mut reader = WalReader::open(&image).unwrap();
    assert!(reader.next_record().is_err());
}

#[test]
fn read_empty_wal_returns_none() {
    let mut image = WalImage::new(1024);
    image.load(0, Vec::new());
    let mut reader = WalReader::open(&image).unwrap();
    assert!(reader.next_record().unwrap().is_none());
}

#[test]
fn read_torn_payload_returns_none() {
    let mut log = Log::open(1024, 1, 1);
    let lsn = log.append_durably(WalRecord::full_page_image(PageId(1), vec![0xAB; 256]).unwrap());
    let record_start = lsn.segment_offset(1024) as usize;
    log.files
        .get_mut(&0)
        .unwrap()
        .truncate(record_start + WAL_RECORD_HEADER_SIZE + 4);
    let image = log.image();
    let mut reader = WalReader::open(&image).unwrap();
    assert!(reader.next_record().unwrap().is_none());
    assert_eq!(reader.current_lsn(), lsn);
}

#[test]
fn read_torn_header_returns_none() {
    let mut log = Log::open(1024, 1, 1);
    let lsn = log.append_durably(page_alloc(1));
    let record_start = lsn.segment_offset(1024) as usize;
    log.files
        .get_mut(&0)
        .unwrap()
        .truncate(record_start + WAL_RECORD_HEADER_SIZE / 2);
    let image = log.image();
    let mut reader = WalReader::open(&image).unwrap();
    assert!(reader.next_record().unwrap().is_none());
    assert_eq!(reader.current_lsn(), lsn);
}

#[test]
fn read_iterator_matches_next_record() {
    let mut log = Log::open(1024, 1, 1);
    for i in 0..5 {
        log.append_durably(page_alloc(i + 1));
    }
    let image = log.image();
    let mut reader = WalReader::open(&image).unwrap();
    let (records, error) = reader.records();
    assert!(error.is_none());
    let from_iter: Vec<_> = records.iter().map(|r| r.record_type).collect();
    assert_eq!(from_iter, vec![WalRecordType::PageAlloc; 5]);
}

#[test]
fn tail_of_the_log_is_read() {
    let mut log = Log::open(1024, 1, 1);
    log.append_durably(page_alloc(1));
    let second = log.append_durably(page_alloc(2));
    let end = log.writer.current_lsn();
    let tail = read_tail(&log.image(), second).unwrap();
    assert_eq!(tail.records.len(), 1);
    assert_eq!(tail.records[0].lsn, second);
    assert_eq!(tail.end, end);
    assert!(read_tail(&WalImage::new(1024), Lsn(8)).is_err());
    assert!(WalReader::open_at(&log.image(), Lsn(0)).is_err());
}

#[test]
fn writer_goes_on_behind_the_last_record() {
    let mut log = Log::open(256, 1, 1);
    let lsns: Vec<Lsn> = (1..=9).map(|i| log.append(page_alloc(i)).unwrap()).collect();
    assert_eq!(lsns[0], Lsn(8));
    assert_eq!(lsns[1], Lsn(48));
    let end = log.writer.current_lsn();
    assert_eq!(
        WalWriter::discover_resume_lsn(&log.image()).unwrap(),
        end
    );
    let (reopened, _) = WalWriter::open(&log.image(), &log.names(), 1, 1).unwrap();
    assert_eq!(reopened.current_lsn(), end);
    assert_eq!(reopened.current_segment_id(), 1);
    let (resumed, repair) = WalWriter::resume(&log.image(), &log.names(), 1, 1, end).unwrap();
    assert_eq!(resumed.current_lsn(), end);
    assert!(repair.stale_segments.is_empty() && repair.ops.is_empty());
    assert!(WalWriter::resume(&WalImage::new(12), &log.names(), 1, 1, end).is_err());
}

#[test]
fn failed_sync_stops_the_writer() {
    let mut log = Log::open(1024, 2, 5);
    let lsn = log.append(page_alloc(1)).unwrap();
    log.writer.sync_failed("disk gone");
    match log.append(page_alloc(2)) {
        Err(StorageError::WalWriteFailed(message)) => {
            assert_eq!(message, "wal fsync failed: disk gone")
        }
        other => panic!("{other:?}"),
    }
    assert!(log.writer.flush_to(lsn).is_err());
    assert!(log.writer.check_error().is_err());
}

#[test]
fn worker_flushes_before_it_exits() {
    let mut log = Log::open(1024, 2, 5);
    assert_eq!(log.writer.worker_step(100), WorkerStep::Wait);
    log.append(page_alloc(1)).unwrap();
    assert_eq!(log.writer.worker_step(0), WorkerStep::Wait);
    log.append(page_alloc(2)).unwrap();
    assert_eq!(log.writer.worker_step(0), WorkerStep::Sync);
    log.writer.shutdown();
    assert_eq!(log.writer.worker_step(0), WorkerStep::Sync);
    log.writer.sync_succeeded();
    assert_eq!(log.writer.worker_step(0), WorkerStep::Exit);
    assert_eq!(log.writer.synced_lsn(), log.writer.current_lsn());
}

#[test]
fn reserved_place_is_filled_later() {
    let mut log = Log::open(1024, 2, 5);
    let reserved = log.writer.reserve_lsn(32);
    assert_eq!(reserved, Lsn(8));
    let later = log.append(page_alloc(1)).unwrap();
    assert_eq!(later, Lsn(40));
    let ops = log
        .writer
        .append_at(WalRecord::checkpoint_begin(), reserved)
        .unwrap();
    let mut image = log.image();
    for op in &ops {
        image.apply(op);
    }
    let records = all_records(&image);
    assert_eq!(records.len(), 2);
    assert_eq!(records[0].record_type, WalRecordType::CheckpointBegin);
    assert_eq!(records[0].lsn, reserved);
    assert_eq!(records[1].lsn, later);
}

#[test]
fn left_segment_is_made_durable() {
    // The first record ends where its segment ends.
    let mut log = Log::open(48, 100, 1000);
    let first = log.append(page_alloc(1)).unwrap();
    assert_eq!(first, Lsn(8));
    assert_eq!(log.writer.current_lsn(), Lsn(48));
    let append = log.writer.append(page_alloc(2)).unwrap();
    assert_eq!(append.lsn, Lsn(48));
    assert_eq!(append.ops[0], SegmentOp::Sync(0));
    assert_eq!(append.ops[1], SegmentOp::Create(1));
    assert!(matches!(
        append.ops[2],
        SegmentOp::Write {
            segment_id: 1,
            offset: 0,
            ..
        }
    ));
    assert_eq!(append.ops.len(), 3);
    log.perform(&append.ops);
    log.writer.record_written(0);
    log.sync();
    assert_eq!(log.writer.flush_to(first).unwrap(), FlushStep::Done);
    let records = all_records(&log.crashed());
    assert_eq!(records.len(), 2);
    assert_eq!(records[0].lsn, first);
}

#[test]
fn durable_records_survive_a_crash() {
    let mut log = Log::open(128, 100, 1000);
    let lsns: Vec<Lsn> = (1..=20).map(|i| log.append(page_alloc(i)).unwrap()).collect();
    log.sync();
    for i in 21..=25 {
        log.append(page_alloc(i)).unwrap();
    }
    for lsn in &lsns {
        assert_eq!(log.writer.flush_to(*lsn).unwrap(), FlushStep::Done);
    }
    let records = read_tail(&log.crashed(), Lsn::first()).unwrap().records;
    assert!(records.len() >= 20);
    for (record, lsn) in records.iter().zip(&lsns) {
        assert_eq!(record.lsn, *lsn);
    }
}

#[test]
fn what_was_there_counts_as_durable() {
    let log = Log::open(1024, 4, 5);
    assert_eq!(log.writer.flush_to(Lsn(0)).unwrap(), FlushStep::Done);
    assert_eq!(log.writer.flush_to(Lsn(8)).unwrap(), FlushStep::Done);
    assert!(log.writer.flush_to(Lsn(16)).is_err());
    assert_eq!(log.writer.synced_lsn(), Lsn(0));
}

#[test]
fn reserved_place_is_filled_in_an_older_segment() {
    let mut log = Log::open(64, 100, 1000);
    let reserved = log.writer.reserve_lsn(32);
    let later: Vec<Lsn> = (1..=3).map(|i| log.append(page_alloc(i)).unwrap()).collect();
    assert_eq!(log.writer.current_segment_id(), 2);
    log.sync();
    let ops = log
        .writer
        .append_at(WalRecord::checkpoint_begin(), reserved)
        .unwrap();
    assert_eq!(ops.len(), 2);
    assert_eq!(ops[1], SegmentOp::Sync(0));
    log.perform(&ops);
    assert_eq!(log.writer.current_segment_id(), 2);
    let records = all_records(&log.crashed());
    assert_eq!(records.len(), 4);
    assert_eq!(records[0].record_type, WalRecordType::CheckpointBegin);
    assert_eq!(records[3].lsn, later[2]);
}

#[test]
fn torn_record_across_segments_is_written_over() {
    let mut log = Log::open(1024, 100, 1000);
    let mut last = Lsn(0);
    while log.writer.current_lsn().0 < 1000 {
        last = log.append(page_alloc(1)).unwrap();
    }
    let end = log.writer.current_lsn();
    assert_eq!(end.segment_id(1024), 0);
    let image = WalRecord::full_page_image(PageId(7), vec![0xEE; 64]).unwrap();
    let append = log.writer.append(image).unwrap();
    let create = append
        .ops
        .iter()
        .position(|op| matches!(op, SegmentOp::Create(1)))
        .unwrap();
    log.perform(&append.ops[..=create]);

    let tail = read_tail(&log.image(), Lsn::first()).unwrap();
    assert_eq!(tail.end, end);
    assert_eq!(tail.records.last().unwrap().lsn, last);
    assert_eq!(log.names().len(), 2);
    log.resume(tail.end);
    assert_eq!(log.names(), [wal_filename(0)]);
    assert_eq!(log.writer.current_segment_id(), 0);
    let first = log.append(page_alloc(2)).unwrap();
    let second = log.append(page_alloc(3)).unwrap();
    assert_eq!(first, end);
    let lsns: Vec<Lsn> = log.records().iter().map(|r| r.lsn).collect();
    assert_eq!(lsns[lsns.len() - 2..], [first, second]);

    let repair = WalWriter::open(&log.image(), &vec![wal_filename(0), wal_filename(9)], 1, 1)
        .unwrap()
        .1;
    assert_eq!(repair.stale_segments, [wal_filename(9)]);
}

/// Opens a log with three records and damages one of them.
fn damaged_log(which: usize) -> (Log, Lsn) {
    let mut log = Log::open(1024, 100, 1000);
    let lsns: Vec<Lsn> = (1..=3).map(|i| log.append(page_alloc(i)).unwrap()).collect();
    let damaged = lsns[which];
    log.files.get_mut(&0).unwrap()[damaged.0 as usize + 30] ^= 0xff;
    (log, damaged)
}

#[test]
fn damage_before_a_whole_record_is_an_error() {
    for which in 0..2 {
        let (log, damaged) = damaged_log(which);
        match read_tail(&log.image(), Lsn::first()) {
            Err(StorageError::WalCorrupted(at)) => assert_eq!(at, damaged),
            other => panic!("{other:?}"),
        }
        assert!(WalWriter::discover_resume_lsn(&log.image()).is_err());
    }
}

#[test]
fn damage_before_a_whole_record_in_a_later_segment_is_an_error() {
    let mut log = Log::open(64, 100, 1000);
    log.append(page_alloc(1)).unwrap();
    let damaged = log.append(page_alloc(2)).unwrap();
    let last = log.append(page_alloc(3)).unwrap();
    assert_eq!(last.segment_id(64), 1);
    log.files.get_mut(&1).unwrap()[damaged.0 as usize + 30 - 64] ^= 0xff;
    assert!(read_tail(&log.image(), Lsn::first()).is_err());
}

#[test]
fn damage_at_the_end_is_cleared() {
    let (mut log, damaged) = damaged_log(2);
    let tail = read_tail(&log.image(), Lsn::first()).unwrap();
    assert_eq!(tail.end, damaged);
    assert_eq!(tail.records.len(), 2);
    assert!(WalWriter::discover_resume_lsn(&log.image()).is_err());
    let repair = log.resume(tail.end);
    let offset = damaged.0;
    let head = vec![0; WAL_RECORD_HEADER_SIZE];
    let rest = vec![0; 1024 - offset as usize - WAL_RECORD_HEADER_SIZE];
    assert_eq!(
        repair.ops,
        [
            SegmentOp::Write {
                segment_id: 0,
                offset: offset + WAL_RECORD_HEADER_SIZE as u64,
                bytes: rest,
            },
            SegmentOp::Sync(0),
            SegmentOp::Write {
                segment_id: 0,
                offset,
                bytes: head,
            },
            SegmentOp::Sync(0),
        ]
    );
    assert!(log.files[&0][offset as usize..].iter().all(|b| *b == 0));
    assert_eq!(log.records(), tail.records);
    assert_eq!(WalWriter::discover_resume_lsn(&log.image()).unwrap(), damaged);
    assert!(log.resume(tail.end).ops.is_empty());

    let image = WalRecord::full_page_image(PageId(7), vec![0xEE; 200]).unwrap();
    assert_eq!(log.append(image).unwrap(), damaged);
    let records = log.records();
    assert_eq!(records.len(), 3);
    assert_eq!(records[..2], tail.records);
    assert_eq!(records[2].record_type, WalRecordType::FullPageImage);
}

#[test]
fn clearing_can_be_cut_short() {
    let (mut log, damaged) = damaged_log(2);
    let (_, repair) =
        WalWriter::resume(&log.image(), &log.names(), 1, 1, damaged).unwrap();
    for op in &repair.ops {
        log.perform(std::slice::from_ref(op));
        let tail = read_tail(&log.image(), Lsn::first()).unwrap();
        assert_eq!(tail.end, damaged);
        assert_eq!(tail.records.len(), 2);
    }
}

#[test]
fn residue_at_the_edge_of_a_segment_is_cleared() {
    // Fewer bytes than a header are left in the segment.
    let mut log = Log::open(64, 100, 1000);
    let append = log.writer.append(page_alloc(1)).unwrap();
    log.perform(&append.ops);
    log.writer.record_written(0);
    let end = log.writer.current_lsn();
    assert_eq!(end, Lsn(48));
    log.files.get_mut(&0).unwrap()[50] = 7;
    let repair = log.resume(end);
    assert_eq!(
        repair.ops,
        [
            SegmentOp::Write {
                segment_id: 0,
                offset: 48,
                bytes: vec![0; 16],
            },
            SegmentOp::Sync(0),
        ]
    );
    log.append(page_alloc(2)).unwrap();
    assert_eq!(log.records().len(), 2);
}

#[test]
fn records_before_a_bad_one_are_given() {
    let (log, damaged) = damaged_log(1);
    let image = log.image();
    let mut reader = WalReader::open(&image).unwrap();
    let (records, error) = reader.records();
    assert_eq!(records.len(), 1);
    assert_eq!(records[0].lsn, Lsn(8));
    assert!(matches!(error, Some(StorageError::WalCorrupted(at)) if at == damaged));
    assert_eq!(reader.current_lsn(), Lsn(damaged.0 + 40));
    let (behind, error) = reader.records();
    assert!(error.is_none());
    assert_eq!(behind.len(), 1);
}

#[test]
fn records_before_a_hole_are_given() {
    let mut log = Log::open(1024, 100, 1000);
    let first = log.append(page_alloc(1)).unwrap();
    let hole = log.writer.reserve_lsn(32);
    let last = log.append(page_alloc(2)).unwrap();
    let image = log.image();
    let mut reader = WalReader::open(&image).unwrap();
    let (records, error) = reader.records();
    assert_eq!(records.len(), 1);
    assert_eq!(records[0].lsn, first);
    match error {
        Some(StorageError::MetadataCorrupted(message)) => assert_eq!(
            message,
            "WAL hole detected: zero-filled header at Lsn(48) followed by non-zero data at \
             Lsn(80); an unflushed reserved slot truncated the log"
        ),
        other => panic!("{other:?}"),
    }
    assert_eq!((hole, last), (Lsn(48), Lsn(80)));
    assert_eq!(reader.current_lsn(), last);
}
