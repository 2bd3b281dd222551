use std::collections::{BTreeMap, HashMap};

use pg_rust::buffer_pool::{BufferPool, FlushPlan, PinStep};
use pg_rust::checkpoint::{
    snapshot_file_names, BackgroundStep, CheckpointAction, CheckpointCoordinator, CheckpointRun,
    StepOutcome,
};
use pg_rust::clog::{ClogAccessor, NoOpClogAccessor, TxnState};
use pg_rust::config::StorageConfig;
use pg_rust::engine::{RecoveryFiles, StorageEngine};
use pg_rust::error::{Result, StorageError};
use pg_rust::freelist_meta::FreelistMeta;
use pg_rust::oid::OidCounter;
use pg_rust::page::{page_pd_lsn, PageHeader, PAGE_HEADER_SIZE};
use pg_rust::page_allocator::{PageAllocator, DATA_FILE_GROWTH_BYTES};
use pg_rust::recovery::{
    ActiveXactTable, DirtyPageTable, FullPageImageRedoHandler, NoOpRedoHandler,
    PageAllocRedoHandler, RedoContext, RedoHandler, RedoRegistry,
};
use pg_rust::superblock::{Superblock, SUPERBLOCK_SIZE};
use pg_rust::txn::clog_buffer::{ClogBuffer, ClogRead, ClogWrite};
use pg_rust::txn::clog_file::{page_offset_in_segment, segment_id_of_page, CLOG_PAGE_BYTES};
use pg_rust::txn::clog_mem::InMemoryClogAccessor;
use pg_rust::txn::manager::{CommitWal, TxnManager};
use pg_rust::txn::redo::{storage_redo_handlers, txn_redo_handlers, StandardHandler};
use pg_rust::txn_id::TxnIdClock;
use pg_rust::types::{FrameId, Lsn, Oid, PageId, TxnId, PAGE_SIZE};
use pg_rust::wal::image::{SegmentOp, WalImage};
use pg_rust::wal::reader::WalReader;
use pg_rust::wal::record::{
    CheckpointEndRecord, FullPageImageRecord, PageAllocRecord, WalRecord, WalRecordType,
    CHECKPOINT_END_V2_FLAGS,
};
use pg_rust::wal::segment::wal_filename;
use pg_rust::wal::writer::{FlushStep, LogRepair, WalWriter, WorkerStep};

/// The files of a database.
#[derive(Clone, Default)]
struct Disk {
    wal: BTreeMap<u64, Vec<u8>>,
    synced: BTreeMap<u64, Vec<u8>>,
    data: Vec<u8>,
    superblock: Option<Vec<u8>>,
    freelist: Option<Vec<u8>>,
    files: HashMap<String, Vec<u8>>,
}

impl Disk {
    fn with_first_segment(config: &StorageConfig) -> Disk {
        let mut disk = Disk::default();
        disk.perform(&SegmentOp::Create(0), config.wal_segment_size);
        disk
    }

    fn wal_names(&self) -> Vec<String> {
        self.wal.keys().map(|id| wal_filename(*id)).collect()
    }

    fn wal_image(&self, segment_size: u64) -> WalImage {
        let mut image = WalImage::new(segment_size);
        for (id, bytes) in &self.wal {
            assert!(image.load(*id, bytes.clone()));
        }
        image
    }

    fn perform(&mut self, op: &SegmentOp, segment_size: u64) {
        match op {
            SegmentOp::Create(id) => {
                let file = self.wal.entry(*id).or_default();
                file.resize(segment_size as usize, 0);
                self.synced.insert(*id, file.clone());
            }
            SegmentOp::Write {
                segment_id,
                offset,
                bytes,
            } => {
                let file = self.wal.get_mut(segment_id).unwrap();
                let at = *offset as usize;
                file[at..at + bytes.len()].copy_from_slice(bytes);
            }
            SegmentOp::Sync(id) => {
                self.synced.insert(*id, self.wal[id].clone());
            }
        }
    }

    fn delete_segments(&mut self, names: &[String]) {
        self.wal.retain(|id, _| !names.contains(&wal_filename(*id)));
        self.synced.retain(|id, _| !names.contains(&wal_filename(*id)));
    }

    /// Does what an engine needs before it appends to the log.
    fn repair_log(&mut self, repair: &LogRepair, engine: &StorageEngine) {
        self.delete_segments(&repair.stale_segments);
        let size = engine.config.wal_segment_size;
        self.perform(&SegmentOp::Create(engine.wal_writer.current_segment_id()), size);
        for op in &repair.ops {
            self.perform(op, size);
        }
    }

    /// What a crash leaves: of the log only what was made durable.
    fn crashed(&self) -> Disk {
        let mut disk = self.clone();
        disk.wal = disk.synced.clone();
        disk
    }

    fn read_page(&self, page_id: PageId) -> Result<Vec<u8>> {
        let at = (page_id.0 - 1) as usize * PAGE_SIZE;
        if at + PAGE_SIZE > self.data.len() {
            return Err(StorageError::Io(std::io::Error::from(
                std::io::ErrorKind::UnexpectedEof,
            )));
        }
        Ok(self.data[at..at + PAGE_SIZE].to_vec())
    }

    fn write_data(&mut self, offset: u64, bytes: &[u8]) {
        let at = offset as usize;
        if self.data.len() < at + bytes.len() {
            self.data.resize(at + bytes.len(), 0);
        }
        self.data[at..at + bytes.len()].copy_from_slice(bytes);
    }

    fn write_superblock(&mut self, sb: &Superblock) -> Result<()> {
        let writes = sb.write(self.superblock.as_deref())?;
        let file = self
            .superblock
            .get_or_insert_with(|| vec![0u8; 2 * SUPERBLOCK_SIZE]);
        for write in writes {
            file[write.offset..write.offset + write.bytes.len()].copy_from_slice(&write.bytes);
        }
        Ok(())
    }

    fn read_superblock(&self) -> Superblock {
        Superblock::read(self.superblock.as_ref().unwrap())
            .unwrap()
            .superblock
    }

    fn records(&self, segment_size: u64, from: Lsn) -> Vec<WalRecord> {
        let image = self.wal_image(segment_size);
        let mut reader = WalReader::open_at(&image, from).unwrap();
        let (records, error) = reader.records();
        assert!(error.is_none());
        records
    }
}

/// The parts of an open database, with its files.
struct Db {
    disk: Disk,
    config: StorageConfig,
    wal: WalWriter,
    allocator: PageAllocator,
    pool: BufferPool,
    superblock: Superblock,
    checkpoint: CheckpointCoordinator,
    txn_id_clock: TxnIdClock,
    active_xids: Vec<TxnId>,
    next_oid: Oid,
    clog: Option<DiskClog>,
}

impl Db {
    fn from_engine(disk: Disk, engine: StorageEngine) -> Db {
        Db {
            disk,
            next_oid: engine.next_oid(),
            config: engine.config,
            wal: engine.wal_writer,
            allocator: engine.page_allocator,
            pool: engine.buffer_pool,
            superblock: engine.superblock,
            checkpoint: engine.checkpoint,
            txn_id_clock: engine.txn_id_clock,
            active_xids: engine.active_xids,
            clog: None,
        }
    }

    fn files(disk: &Disk, config: &StorageConfig) -> RecoveryFiles {
        let checkpoint_lsn = Superblock::read(disk.superblock.as_ref().unwrap())
            .map_or(Lsn::invalid(), |read| read.superblock.checkpoint_lsn);
        let (att, dpt) = snapshot_file_names(checkpoint_lsn);
        RecoveryFiles {
            att: disk.files.get(&att).cloned(),
            dpt: disk.files.get(&dpt).cloned(),
            superblock: disk.superblock.clone().unwrap(),
            wal: disk.wal_image(config.wal_segment_size),
            wal_names: disk.wal_names(),
            data_file_len: disk.data.len() as u64,
            freelist: disk.freelist.clone(),
        }
    }

    fn open(mut disk: Disk, config: &StorageConfig) -> Db {
        if disk.superblock.is_none() {
            if disk.wal.is_empty() {
                disk.perform(&SegmentOp::Create(0), config.wal_segment_size);
            }
            let image = disk.wal_image(config.wal_segment_size);
            let (engine, file, repair) = StorageEngine::create_new(
                config.clone(),
                0,
                &image,
                &disk.wal_names(),
                disk.data.len() as u64,
            )
            .unwrap();
            disk.superblock = Some(file);
            disk.repair_log(&repair, &engine);
            return Db::from_engine(disk, engine);
        }
        let files = Db::files(&disk, config);
        let recovery = StorageEngine::recover(config.clone(), &files).unwrap();
        Db::recovered(disk, recovery)
    }

    fn recovered(mut disk: Disk, recovery: pg_rust::engine::Recovery) -> Db {
        if let Some(file) = recovery.migrated {
            disk.superblock = Some(file);
        }
        disk.repair_log(&recovery.repair, &recovery.engine);
        let len = recovery.engine.page_allocator.file_len() as usize;
        if disk.data.len() < len {
            disk.data.resize(len, 0);
        }
        for write in &recovery.page_writes {
            disk.write_data(write.offset, &write.content);
        }
        Db::from_engine(disk, recovery.engine)
    }

    fn open_with_redo_and_clog<C: ClogAccessor>(
        disk: Disk,
        config: &StorageConfig,
        clog: C,
    ) -> (Db, C) {
        let mut registry: RedoRegistry<C, StandardHandler> = RedoRegistry::new();
        for handler in storage_redo_handlers() {
            registry.register(handler);
        }
        for handler in txn_redo_handlers() {
            registry.register(handler);
        }
        let files = Db::files(&disk, config);
        let (recovery, clog) =
            StorageEngine::recover_with_redo(config.clone(), &files, &registry, clog).unwrap();
        (Db::recovered(disk, recovery), clog)
    }

    fn perform(&mut self, ops: Vec<SegmentOp>) {
        for op in ops {
            self.disk.perform(&op, self.config.wal_segment_size);
            self.wal.op_done(&op);
        }
    }

    fn append(&mut self, record: WalRecord) -> Result<Lsn> {
        let append = self.wal.append(record)?;
        self.perform(append.ops);
        self.wal.record_written(0);
        Ok(append.lsn)
    }

    fn flush_to(&mut self, lsn: Lsn) -> Result<()> {
        while self.wal.flush_to(lsn)? == FlushStep::Wait {
            self.sync();
        }
        Ok(())
    }

    /// What the worker does when it makes the log durable.
    fn sync(&mut self) {
        let current = self.wal.current_segment_id();
        self.disk
            .perform(&SegmentOp::Sync(current), self.config.wal_segment_size);
        self.wal.sync_succeeded();
    }

    fn alloc_page(&mut self) -> Result<PageId> {
        let plan = self.allocator.alloc_page()?;
        if let Some(len) = plan.grow_to {
            self.disk.data.resize(len as usize, 0);
        }
        self.append(plan.record)?;
        assert_eq!(self.allocator.alloc_logged(), plan.page_id);
        Ok(plan.page_id)
    }

    fn free_page(&mut self, page_id: PageId) -> Result<()> {
        let record = self.allocator.free_page(page_id)?;
        self.append(record)?;
        self.allocator.free_logged(page_id);
        Ok(())
    }

    fn write_out(&mut self, plan: FlushPlan) -> Result<()> {
        let content = loop {
            match self.pool.page_to_write(&plan, &self.wal)? {
                Some(content) => break content.clone(),
                None => self.sync(),
            }
        };
        self.disk.write_data(plan.offset, &content);
        self.pool.frame_flushed(plan.frame_id);
        Ok(())
    }

    fn vacate(&mut self, frame_id: FrameId, flush: Option<FlushPlan>) -> Result<()> {
        if let Some(plan) = flush {
            self.write_out(plan)?;
        }
        self.pool.frame_evicted(frame_id);
        Ok(())
    }

    fn finish_pin(&mut self, page_id: PageId, step: PinStep) -> Result<FrameId> {
        match step {
            PinStep::Pinned(frame_id) => Ok(frame_id),
            PinStep::Load { frame_id, flush } => {
                self.vacate(frame_id, flush)?;
                let content = self.disk.read_page(page_id)?;
                self.pool.page_loaded(frame_id, page_id, content);
                Ok(frame_id)
            }
        }
    }

    fn pin(&mut self, page_id: PageId) -> Result<FrameId> {
        let step = self.pool.pin(page_id)?;
        self.finish_pin(page_id, step)
    }

    fn pin_mut(&mut self, page_id: PageId) -> Result<FrameId> {
        let step = self.pool.pin_mut(page_id)?;
        let frame_id = self.finish_pin(page_id, step)?;
        if let Some(record) = self.pool.full_page_image(frame_id)? {
            let lsn = self.append(record)?;
            self.pool.image_logged(frame_id, lsn);
        }
        Ok(frame_id)
    }

    fn new_page(&mut self) -> Result<FrameId> {
        let page_id = self.alloc_page()?;
        match self.pool.new_page(page_id)? {
            PinStep::Pinned(frame_id) => {
                self.pool.make_new(frame_id);
                Ok(frame_id)
            }
            PinStep::Load { frame_id, flush } => {
                self.vacate(frame_id, flush)?;
                self.pool.page_created(frame_id, page_id);
                Ok(frame_id)
            }
        }
    }

    /// A new page with some bytes written, given up again.
    fn write_new_page(&mut self, at: usize, bytes: &[u8]) -> PageId {
        let frame_id = self.new_page().unwrap();
        self.write(frame_id, at, bytes);
        let page_id = self.pool.page_id(frame_id);
        self.pool.unpin_mut(frame_id);
        page_id
    }

    fn write_page(&mut self, page_id: PageId, at: usize, bytes: &[u8]) {
        let frame_id = self.pin_mut(page_id).unwrap();
        self.write(frame_id, at, bytes);
        self.pool.unpin_mut(frame_id);
    }

    fn read_page(&mut self, page_id: PageId) -> Vec<u8> {
        let frame_id = self.pin(page_id).unwrap();
        let content = self.pool.page(frame_id).clone();
        self.pool.unpin(frame_id);
        content
    }

    fn write(&mut self, frame_id: FrameId, at: usize, bytes: &[u8]) {
        let mut content = self.pool.page(frame_id).clone();
        content[at..at + bytes.len()].copy_from_slice(bytes);
        self.pool.store_page(frame_id, content);
    }

    fn flush(&mut self, page_id: PageId) -> Result<()> {
        if let Some(plan) = self.pool.flush(page_id)? {
            self.write_out(plan)?;
        }
        Ok(())
    }

    fn churn(&mut self, pages: usize) {
        for _ in 0..pages {
            self.write_new_page(0, &[]);
        }
    }

    fn trigger_checkpoint(&mut self) -> Result<Lsn> {
        let run =
            self.checkpoint
                .trigger_checkpoint(&mut self.wal, &mut self.pool, &self.allocator);
        self.finish_checkpoint(run, |_| {})
    }

    /// Goes through the steps of a checkpoint, with `meanwhile` before each of them.
    fn finish_checkpoint(
        &mut self,
        mut run: CheckpointRun,
        mut meanwhile: impl FnMut(&mut Db),
    ) -> Result<Lsn> {
        loop {
            meanwhile(self);
            let outcome = match run.action() {
                CheckpointAction::LogBegin => match run.log_begin(&self.wal) {
                    Ok(ops) => {
                        self.perform(ops);
                        self.wal.record_written(0);
                        StepOutcome::Done
                    }
                    Err(e) => StepOutcome::Failed(e, String::new()),
                },
                CheckpointAction::CollectPages => {
                    run.collect_pages(&self.pool);
                    StepOutcome::Done
                }
                CheckpointAction::FlushPage(page_id) => match self.flush(page_id) {
                    Ok(()) => StepOutcome::Done,
                    Err(e) => StepOutcome::Failed(e, String::new()),
                },
                CheckpointAction::FlushClog => {
                    if let Some(clog) = &mut self.clog {
                        clog.flush_dirty();
                    }
                    StepOutcome::Done
                }
                CheckpointAction::WriteSnapshots => {
                    let (att, dpt) = run.snapshot_files();
                    let (active, dirty) =
                        CheckpointRun::snapshot_tables(&self.active_xids, &self.pool);
                    self.disk.files.insert(att, active);
                    self.disk.files.insert(dpt, dirty);
                    StepOutcome::Done
                }
                CheckpointAction::LogEnd => {
                    match run.log_end(
                        &mut self.wal,
                        &self.allocator,
                        self.checkpoint.next_txn_id_source(),
                        self.checkpoint.next_oid_source(),
                    ) {
                        Ok(append) => {
                            self.perform(append.ops);
                            self.wal.record_written(0);
                            StepOutcome::Done
                        }
                        Err(e) => StepOutcome::Failed(e, String::new()),
                    }
                }
                CheckpointAction::SyncWal(lsn) => match self.flush_to(lsn) {
                    Ok(()) => StepOutcome::Done,
                    Err(e) => StepOutcome::Failed(e, String::new()),
                },
                CheckpointAction::WriteFreelist => {
                    self.disk.freelist = Some(run.freelist_bytes());
                    StepOutcome::Done
                }
                CheckpointAction::WriteSuperblock => {
                    let updated = run.superblock(&self.superblock).unwrap();
                    match self.disk.write_superblock(&updated) {
                        Ok(()) => {
                            self.superblock = updated;
                            StepOutcome::Done
                        }
                        Err(e) => StepOutcome::Failed(e, String::new()),
                    }
                }
                CheckpointAction::RecycleWal(lsn) => {
                    let names = self.disk.wal_names();
                    let removed = self.wal.recycle_before(lsn, &names);
                    self.disk.delete_segments(&removed);
                    StepOutcome::Done
                }
                CheckpointAction::Finish(lsn) => return Ok(lsn),
                CheckpointAction::GiveUp => unreachable!(),
            };
            run.report(outcome)?;
        }
    }

    fn records(&self, from: Lsn) -> Vec<WalRecord> {
        self.disk.records(self.config.wal_segment_size, from)
    }

    fn newest_image(&self, page_id: PageId, from: Lsn) -> Option<Lsn> {
        self.records(from)
            .iter()
            .filter(|r| r.record_type == WalRecordType::FullPageImage)
            .filter(|r| FullPageImageRecord::decode(&r.payload).unwrap().page_id == page_id)
            .map(|r| r.lsn)
            .last()
    }
}

fn sorted(pages: &[PageId]) -> Vec<PageId> {
    let mut pages = pages.to_vec();
    pages.sort();
    pages
}

fn pool_config() -> StorageConfig {
    let mut cfg = StorageConfig::default();
    cfg.buffer_pool_size = 1024 * 1024;
    cfg.buffer_pool_shards = 8;
    cfg.wal_group_commit_timeout_ms = 1;
    cfg.wal_group_commit_batch_size = 1;
    cfg
}

fn new_db(config: &StorageConfig) -> Db {
    Db::open(Disk::default(), config)
}

// The buffer pool.

#[test]
fn open_creates_expected_frame_count() {
    let cfg = pool_config();
    let db = new_db(&cfg);
    assert_eq!(db.pool.frame_count(), cfg.buffer_pool_size / cfg.page_size());
    assert_eq!(db.pool.shard_count(), cfg.buffer_pool_shards);
}

#[test]
fn new_page_returns_zeroed_writable_page() {
    let mut db = new_db(&pool_config());
    let frame = db.new_page().unwrap();
    assert_eq!(db.pool.page(frame).len(), PAGE_SIZE);
    assert!(db.pool.page(frame).iter().all(|&b| b == 0));
}

#[test]
fn pin_read_returns_existing_page() {
    let mut db = new_db(&pool_config());
    let page_id = db.write_new_page(0, &[0xAB]);
    assert_eq!(db.read_page(page_id)[0], 0xAB);
}

#[test]
fn pin_mut_writes_full_page_image() {
    let mut db = new_db(&pool_config());
    let page_id = db.write_new_page(0, &[0xCD]);
    db.pool.set_checkpoint_lsn(Lsn(1_000));
    db.churn(db.pool.frame_count() + 10);
    db.write_page(page_id, 1, &[0xEF]);
    assert!(
        db.newest_image(page_id, Lsn::first()).is_some(),
        "pin_mut should have written a FullPageImage record"
    );
}

#[test]
fn flush_persists_page() {
    let cfg = pool_config();
    let mut db = new_db(&cfg);
    let page_id = db.write_new_page(0, &[1, 2, 3, 4]);
    db.flush(page_id).unwrap();
    let mut db2 = Db::open(db.disk, &cfg);
    assert_eq!(&db2.read_page(page_id)[0..4], &[1, 2, 3, 4]);
}

#[test]
fn wal_before_data_on_evict() {
    let mut cfg = StorageConfig::default();
    cfg.buffer_pool_size = cfg.page_size();
    cfg.buffer_pool_shards = 1;
    cfg.wal_group_commit_timeout_ms = 1_000;
    cfg.wal_group_commit_batch_size = 1_000_000;
    let mut db = new_db(&cfg);

    let victim_id = db.write_new_page(0, &[0xAA]);
    db.sync();
    let other_id = db.write_new_page(0, &[0x11]);
    assert!(
        db.pool.frame_page_lsn(victim_id).is_none(),
        "victim should have been evicted by the second allocation"
    );
    db.pool.set_checkpoint_lsn(db.wal.synced_lsn());

    let fpi_lsn = {
        db.write_page(victim_id, 0, &[0xBB]);
        db.pool
            .frame_page_lsn(victim_id)
            .expect("victim frame must be resident after pin_mut")
    };
    assert!(
        db.wal.synced_lsn() < fpi_lsn,
        "setup: the FPI must not be durable yet: synced={:?}, fpi_lsn={:?}",
        db.wal.synced_lsn(),
        fpi_lsn
    );
    let other = db.pin(other_id).unwrap();
    db.pool.unpin(other);
    assert!(
        db.pool.frame_page_lsn(victim_id).is_none(),
        "victim should have been evicted"
    );
    let post_evict_synced = db.wal.synced_lsn();
    assert!(post_evict_synced >= fpi_lsn);
    assert!(post_evict_synced > fpi_lsn);
    assert_eq!(db.read_page(victim_id)[0], 0xBB);
}

#[test]
fn clock_evicts_unreferenced_pages() {
    let mut db = new_db(&pool_config());
    db.churn(db.pool.frame_count());
    let frame = db.new_page().unwrap();
    assert_eq!(db.pool.page(frame).len(), PAGE_SIZE);
}

#[test]
fn clock_gives_second_chance_to_referenced_pages() {
    let mut db = new_db(&pool_config());
    let frame_count = db.pool.frame_count();
    for i in 0..frame_count {
        db.write_new_page(0, &[i as u8]);
    }
    for i in 0..frame_count / 2 {
        assert_eq!(db.read_page(PageId(i as u64 + 1))[0], i as u8);
    }
    db.churn(frame_count - frame_count / 2);
    for i in 0..frame_count / 2 {
        assert_eq!(db.read_page(PageId(i as u64 + 1))[0], i as u8);
    }
}

#[test]
fn full_scan_does_not_pin_all_pages() {
    let mut db = new_db(&pool_config());
    let frame_count = db.pool.frame_count();
    for i in 0..frame_count {
        db.write_new_page(0, &[i as u8]);
    }
    for i in 0..frame_count {
        assert_eq!(db.read_page(PageId(i as u64 + 1))[0], i as u8);
    }
    db.churn(frame_count);
}

#[test]
fn pin_nonexistent_page_returns_error() {
    let mut db = new_db(&pool_config());
    let result = db.pin(PageId(1000));
    assert!(result.is_err(), "pinning a non-existent page must fail");
}

#[test]
fn pinned_pages_are_not_evicted() {
    let mut db = new_db(&pool_config());
    let frame_count = db.pool.frame_count();
    let pinned = db.new_page().unwrap();
    let page_id = db.pool.page_id(pinned);
    db.churn(frame_count - 1);
    let _extra = db.new_page().unwrap();
    assert_eq!(db.pool.page(pinned).len(), PAGE_SIZE);
    assert_eq!(db.pool.page_id(pinned), page_id);
}

#[test]
fn dirty_page_ids_reflects_modified_pages() {
    let mut db = new_db(&pool_config());
    let mut dirty_ids = Vec::new();
    for _ in 0..3 {
        dirty_ids.push(db.write_new_page(0, &[]));
    }
    let mut reported = db.pool.dirty_page_ids();
    reported.sort();
    assert_eq!(reported, dirty_ids);
    for id in &dirty_ids {
        db.flush(*id).unwrap();
    }
    assert!(db.pool.dirty_page_ids().is_empty());
}

#[test]
fn repeated_pin_unpin_does_not_leak_pin_count() {
    let mut db = new_db(&pool_config());
    let page_id = db.write_new_page(0, &[]);
    for _ in 0..16 {
        assert_eq!(db.read_page(page_id).len(), PAGE_SIZE);
    }
    db.churn(db.pool.frame_count() + 16);
}

#[test]
fn full_pool_refuses_another_page() {
    let mut cfg = pool_config();
    cfg.buffer_pool_size = 2 * cfg.page_size();
    let mut db = new_db(&cfg);
    let first = db.new_page().unwrap();
    let _second = db.new_page().unwrap();
    assert!(matches!(db.new_page(), Err(StorageError::BufferPoolFull)));
    db.pool.unpin_mut(first);
    assert!(db.new_page().is_ok());
}

#[test]
fn evicted_pages_read_back() {
    let mut cfg = pool_config();
    cfg.buffer_pool_size = 4 * cfg.page_size();
    let mut db = new_db(&cfg);
    let pages: Vec<PageId> = (0..20u8).map(|i| db.write_new_page(100, &[i; 50])).collect();
    for (i, page_id) in pages.iter().enumerate() {
        assert_eq!(db.read_page(*page_id)[100..150], [i as u8; 50]);
    }
    for page_id in &pages {
        db.write_page(*page_id, 100, &[0xEE]);
    }
    for (i, page_id) in pages.iter().enumerate() {
        let page = db.read_page(*page_id);
        assert_eq!(page[100], 0xEE);
        assert_eq!(page[101..150], [i as u8; 49]);
    }
}

#[test]
fn pins_are_counted() {
    let mut db = new_db(&pool_config());
    let page_id = db.write_new_page(0, &[1]);
    assert_eq!(db.pool.pin_count(page_id), 0);
    let first = db.pin(page_id).unwrap();
    let second = db.pin(page_id).unwrap();
    assert_eq!(first, second);
    assert_eq!(db.pool.pin_count(page_id), 2);
    db.pool.unpin(first);
    assert_eq!(db.pool.pin_count(page_id), 1);
    assert_eq!(db.pool.pin_count(PageId(99)), 0);
}

#[test]
fn page_zero_is_refused() {
    let mut db = new_db(&pool_config());
    let texts: Vec<String> = [
        db.pool.pin(PageId(0)).err(),
        db.pool.pin_mut(PageId(0)).err(),
        db.pool.flush(PageId(0)).err(),
    ]
    .into_iter()
    .map(|e| match e {
        Some(StorageError::InvalidConfig(message)) => message,
        other => panic!("{other:?}"),
    })
    .collect();
    assert_eq!(
        texts,
        [
            "cannot pin PageId::INVALID",
            "cannot pin_mut PageId::INVALID",
            "cannot flush PageId::INVALID"
        ]
    );
    assert!(matches!(
        db.pool.flush(PageId(7)),
        Err(StorageError::PageNotFound(PageId(7)))
    ));
    assert!(matches!(
        db.pool.pin(PageId(u64::MAX)),
        Err(StorageError::PageNotFound(PageId(u64::MAX)))
    ));
}

#[test]
fn reallocated_page_is_zeroed() {
    let mut db = new_db(&pool_config());
    let page_id = db.write_new_page(0, &[7; 32]);
    db.free_page(page_id).unwrap();
    let frame = db.new_page().unwrap();
    assert_eq!(db.pool.page_id(frame), page_id);
    assert!(db.pool.page(frame).iter().all(|&b| b == 0));
}

#[test]
fn test_pd_lsn_authoritative() {
    let mut cfg = StorageConfig::default();
    cfg.buffer_pool_size = 256 * 1024;
    let mut db = new_db(&cfg);

    let page_id = db.write_new_page(PAGE_HEADER_SIZE, &[0x42]);
    db.flush(page_id).unwrap();
    db.churn(db.pool.frame_count() + 2);

    let now = db.wal.current_lsn();
    db.flush_to(Lsn(now.0 - 8)).unwrap();
    db.pool.set_checkpoint_lsn(db.wal.synced_lsn());

    let frame = db.pin_mut(page_id).unwrap();
    db.write(frame, PAGE_HEADER_SIZE, &[0x43]);
    let pd_in_memory = page_pd_lsn(db.pool.page(frame));
    db.pool.unpin_mut(frame);
    let fpi_lsn = db
        .newest_image(page_id, Lsn::first())
        .expect("pin_mut must have written an FPI for the page");

    assert!(pd_in_memory.is_valid());
    assert_eq!(
        pd_in_memory, fpi_lsn,
        "page[0..8] must carry the FPI record's LSN"
    );
    let content = db.read_page(page_id);
    assert_eq!(PageHeader::read_from(&content).pd_lsn, fpi_lsn);

    db.flush(page_id).unwrap();
    db.churn(db.pool.frame_count() + 2);
    let reloaded = db.read_page(page_id);
    assert_eq!(page_pd_lsn(&reloaded), fpi_lsn);
}

// The page allocator.

fn allocator_config() -> StorageConfig {
    let mut cfg = StorageConfig::default();
    cfg.wal_group_commit_timeout_ms = 1;
    cfg.wal_group_commit_batch_size = 1;
    cfg.wal_segment_size = 1024;
    cfg
}

#[test]
fn alloc_page_returns_monotonic_ids() {
    let mut db = new_db(&allocator_config());
    assert_eq!(db.alloc_page().unwrap(), PageId(1));
    assert_eq!(db.alloc_page().unwrap(), PageId(2));
    assert_eq!(db.alloc_page().unwrap(), PageId(3));
    assert_eq!(db.allocator.next_page_id(), PageId(4));
}

#[test]
fn alloc_page_extends_data_file() {
    let cfg = allocator_config();
    let mut db = new_db(&cfg);
    let count = 10;
    for _ in 0..count {
        db.alloc_page().unwrap();
    }
    let file_len = db.disk.data.len() as u64;
    assert!(file_len >= count as u64 * cfg.page_size() as u64);
    assert_eq!(file_len % DATA_FILE_GROWTH_BYTES, 0);
}

#[test]
fn alloc_page_writes_wal_record() {
    let mut db = new_db(&allocator_config());
    let page_id = db.alloc_page().unwrap();
    let record = &db.records(Lsn::first())[0];
    assert_eq!(record.record_type, WalRecordType::PageAlloc);
    assert_eq!(record.lsn, Lsn(8));
    let decoded = PageAllocRecord::decode(&record.payload).unwrap();
    assert_eq!(decoded.page_id, page_id);
}

#[test]
fn free_page_pushes_to_freelist_and_reuses_on_alloc() {
    let mut db = new_db(&allocator_config());
    let p1 = db.alloc_page().unwrap();
    let p2 = db.alloc_page().unwrap();
    assert_eq!(p1, PageId(1));
    assert_eq!(p2, PageId(2));

    db.free_page(p1).unwrap();
    assert_eq!(db.allocator.freelist(), &[PageId(1)]);

    let p3 = db.alloc_page().unwrap();
    assert_eq!(p3, PageId(1));
    assert!(db.allocator.freelist().is_empty());
    assert_eq!(db.allocator.next_page_id(), PageId(3));
}

#[test]
fn free_page_rejects_invalid_page_ids() {
    let mut db = new_db(&allocator_config());
    let err = db.free_page(PageId::invalid()).unwrap_err();
    assert!(matches!(err, StorageError::InvalidOperation(_)));
    let err = db.free_page(PageId(5)).unwrap_err();
    assert!(matches!(err, StorageError::InvalidOperation(_)));
}

#[test]
fn apply_page_alloc_advances_state() {
    let cfg = allocator_config();
    let mut allocator = PageAllocator::open(&cfg, 0).unwrap();
    let grow_to = allocator.apply_page_alloc(PageId(5)).unwrap();
    assert_eq!(allocator.next_page_id(), PageId(6));
    let file_len = allocator.file_len();
    assert_eq!(grow_to, Some(file_len));
    assert!(file_len >= 5 * cfg.page_size() as u64);
    assert_eq!(file_len % DATA_FILE_GROWTH_BYTES, 0);
}

#[test]
fn replay_record_ignores_non_page_alloc_records() {
    let mut allocator = PageAllocator::open(&allocator_config(), 0).unwrap();
    let fpi = WalRecord::full_page_image(PageId(1), vec![0xAB; 32]).unwrap();
    allocator.replay_record(&fpi).unwrap();
    assert_eq!(allocator.next_page_id(), PageId(1));
    assert!(allocator.freelist().is_empty());

    let end = WalRecord::checkpoint_end(Lsn(64), PageId(42), TxnId(1)).unwrap();
    allocator.replay_record(&end).unwrap();
    assert_eq!(allocator.next_page_id(), PageId(1));
    assert!(allocator.freelist().is_empty());
}

#[test]
fn snapshot_captures_freelist() {
    let allocator = PageAllocator::open(&allocator_config(), 0).unwrap();
    let meta = allocator.snapshot(Lsn(128));
    assert_eq!(meta.checkpoint_lsn, Lsn(128));
    assert!(meta.page_ids.is_empty());
}

#[test]
fn next_page_id_starts_at_one_on_reopen() {
    let cfg = allocator_config();
    let mut db = new_db(&cfg);
    for _ in 0..7 {
        db.alloc_page().unwrap();
    }
    let allocator2 = PageAllocator::open(&cfg, db.disk.data.len() as u64).unwrap();
    assert_eq!(allocator2.next_page_id(), PageId(1));
}

#[test]
fn replay_record_recovers_allocations() {
    let cfg = allocator_config();
    let mut db = new_db(&cfg);
    let count = 5;
    for _ in 0..count {
        db.alloc_page().unwrap();
    }
    let mut recovered = PageAllocator::open(&cfg, 0).unwrap();
    for record in db.records(Lsn::first()) {
        recovered.replay_record(&record).unwrap();
    }
    assert_eq!(recovered.next_page_id(), PageId(count as u64 + 1));
    assert!(recovered.file_len() >= count as u64 * cfg.page_size() as u64);
    assert_eq!(recovered.file_len() % DATA_FILE_GROWTH_BYTES, 0);
}

#[test]
fn replay_handles_overlapping_page_ids() {
    let cfg = allocator_config();
    let mut db = new_db(&cfg);
    for _ in 0..5 {
        db.alloc_page().unwrap();
    }
    db.allocator = PageAllocator::open(&cfg, db.disk.data.len() as u64).unwrap();
    assert_eq!(db.allocator.next_page_id(), PageId(1));
    db.allocator.mark_recovery_complete();
    for _ in 0..3 {
        db.alloc_page().unwrap();
    }
    assert_eq!(db.allocator.next_page_id(), PageId(4));

    let mut allocator = PageAllocator::open(&cfg, db.disk.data.len() as u64).unwrap();
    assert_eq!(allocator.next_page_id(), PageId(1));
    for record in db.records(Lsn::first()) {
        allocator.replay_record(&record).unwrap();
    }
    assert_eq!(allocator.next_page_id(), PageId(6));
    assert!(allocator.file_len() >= 8 * cfg.page_size() as u64);
    assert_eq!(allocator.file_len() % DATA_FILE_GROWTH_BYTES, 0);
}

#[test]
fn data_file_grows_in_1mb_chunks() {
    let cfg = allocator_config();
    let mut db = new_db(&cfg);
    db.alloc_page().unwrap();
    assert_eq!(db.disk.data.len() as u64, DATA_FILE_GROWTH_BYTES);
    let pages_per_mb = DATA_FILE_GROWTH_BYTES / cfg.page_size() as u64;
    for _ in 0..pages_per_mb {
        db.alloc_page().unwrap();
    }
    assert_eq!(db.disk.data.len() as u64, 2 * DATA_FILE_GROWTH_BYTES);
}

#[test]
fn replay_record_across_wal_segments() {
    let mut cfg = allocator_config();
    cfg.wal_segment_size = 256;
    let mut db = new_db(&cfg);
    let count = 40;
    for _ in 0..count {
        db.alloc_page().unwrap();
    }
    assert!(db.disk.wal.len() > 1);
    let mut recovered = PageAllocator::open(&cfg, 0).unwrap();
    for record in db.records(Lsn::first()) {
        recovered.replay_record(&record).unwrap();
    }
    assert_eq!(recovered.next_page_id(), PageId(count as u64 + 1));
}

#[test]
fn alloc_before_replay_is_refused() {
    let cfg = allocator_config();
    let allocator = PageAllocator::open(&cfg, DATA_FILE_GROWTH_BYTES).unwrap();
    match allocator.alloc_page() {
        Err(StorageError::RecoveryRequired(message)) => assert_eq!(
            message,
            "data file is 1048576 bytes but next_page_id is still PageId(1); \
             replay all existing WAL records before alloc_page()"
        ),
        other => panic!("{other:?}"),
    }
}

#[test]
fn ragged_data_file_is_refused() {
    match PageAllocator::open(&allocator_config(), 100) {
        Err(StorageError::MetadataCorrupted(message)) => assert_eq!(
            message,
            "data file size 100 is not a multiple of page size 8192"
        ),
        other => panic!("{other:?}"),
    }
}

#[test]
fn page_beyond_any_file_is_refused() {
    let mut allocator = PageAllocator::open(&allocator_config(), 0).unwrap();
    let record = WalRecord::page_alloc(PageId(u64::MAX)).unwrap();
    match allocator.replay_record(&record) {
        Err(StorageError::InvalidOperation(message)) => {
            assert_eq!(message, "page PageId(18446744073709551615) is out of range")
        }
        other => panic!("{other:?}"),
    }
    assert_eq!(allocator.next_page_id(), PageId(1));
}

#[test]
fn alloc_and_free_are_append_only_and_durable_on_shutdown() {
    let mut cfg = StorageConfig::default();
    cfg.wal_group_commit_batch_size = 1_000_000;
    cfg.wal_group_commit_timeout_ms = 3_600_000;
    let mut db = new_db(&cfg);
    assert_eq!(db.wal.synced_lsn(), Lsn(0));

    const N: u64 = 500;
    let mut ids = Vec::with_capacity(N as usize);
    for _ in 0..N {
        ids.push(db.alloc_page().unwrap());
    }
    assert_eq!(
        db.wal.synced_lsn(),
        Lsn(0),
        "append-only alloc_page must not advance synced_lsn; per-alloc fsync regressed"
    );
    for &id in ids.iter().take((N / 2) as usize) {
        db.free_page(id).unwrap();
    }
    assert_eq!(
        db.wal.synced_lsn(),
        Lsn(0),
        "append-only free_page must not advance synced_lsn; per-free fsync regressed"
    );

    assert!(db.disk.crashed().records(cfg.wal_segment_size, Lsn::first()).len() < 750);
    db.wal.shutdown();
    assert_eq!(db.wal.worker_step(0), WorkerStep::Sync);
    db.sync();
    assert_eq!(db.wal.worker_step(0), WorkerStep::Exit);

    let mut allocs = 0u64;
    let mut frees = 0u64;
    for record in db.disk.crashed().records(cfg.wal_segment_size, Lsn::first()) {
        match record.record_type {
            WalRecordType::PageAlloc => allocs += 1,
            WalRecordType::PageFree => frees += 1,
            _ => {}
        }
    }
    assert_eq!(
        allocs, N,
        "all allocations must be durable after shutdown flush"
    );
    assert_eq!(
        frees,
        N / 2,
        "all frees must be durable after shutdown flush"
    );
}

// Redo handlers.

struct CountingHandler {
    kind: WalRecordType,
    count: std::cell::Cell<usize>,
}

impl RedoHandler<NoOpClogAccessor> for CountingHandler {
    fn record_kind(&self) -> WalRecordType {
        self.kind
    }

    fn redone(
        &self,
        _record: &WalRecord,
        _before: &RedoContext<NoOpClogAccessor>,
        _after: &RedoContext<NoOpClogAccessor>,
        _result: Result<()>,
    ) -> bool {
        true
    }

    fn kind(&self) -> WalRecordType {
        self.kind
    }

    fn apply(
        &self,
        _record: &WalRecord,
        _ctx: &mut RedoContext<NoOpClogAccessor>,
    ) -> Result<()> {
        self.count.set(self.count.get() + 1);
        Ok(())
    }
}

fn redo_context() -> RedoContext<NoOpClogAccessor> {
    RedoContext {
        page_allocator: PageAllocator::open(&StorageConfig::default(), 0).unwrap(),
        clog: NoOpClogAccessor,
        att: ActiveXactTable::new(),
        dpt: DirtyPageTable::new(),
        page_writes: Vec::new(),
    }
}

fn heap_insert() -> WalRecord {
    WalRecord {
        lsn: Lsn(8),
        prev_lsn: Lsn::invalid(),
        txn_id: TxnId::invalid(),
        record_type: WalRecordType::HeapInsert,
        flags: 0,
        payload: Vec::new(),
    }
}

#[test]
fn registry_dispatches_to_registered_handler() {
    let mut registry: RedoRegistry<NoOpClogAccessor, &CountingHandler> = RedoRegistry::new();
    let handler = CountingHandler {
        kind: WalRecordType::HeapInsert,
        count: std::cell::Cell::new(0),
    };
    registry.register(&handler);
    let mut ctx = redo_context();
    registry.apply(&heap_insert(), &mut ctx).unwrap();
    assert_eq!(handler.count.get(), 1);
}

impl RedoHandler<NoOpClogAccessor> for &CountingHandler {
    fn record_kind(&self) -> WalRecordType {
        self.kind
    }

    fn redone(
        &self,
        _record: &WalRecord,
        _before: &RedoContext<NoOpClogAccessor>,
        _after: &RedoContext<NoOpClogAccessor>,
        _result: Result<()>,
    ) -> bool {
        true
    }

    fn kind(&self) -> WalRecordType {
        self.kind
    }

    fn apply(&self, record: &WalRecord, ctx: &mut RedoContext<NoOpClogAccessor>) -> Result<()> {
        (**self).apply(record, ctx)
    }
}

#[test]
fn unregistered_record_is_hard_failure() {
    let registry: RedoRegistry<NoOpClogAccessor, StandardHandler> = RedoRegistry::new();
    let mut ctx = redo_context();
    let err = registry.apply(&heap_insert(), &mut ctx).unwrap_err();
    assert!(matches!(
        err,
        StorageError::UnknownRecord {
            record_type: 1,
            lsn: Lsn(8)
        }
    ));
}

#[test]
fn image_handler_stamps_the_page() {
    let mut registry: RedoRegistry<NoOpClogAccessor, StandardHandler> = RedoRegistry::new();
    registry.register(StandardHandler::FullPageImage(FullPageImageRedoHandler));
    registry.register(StandardHandler::PageAlloc(PageAllocRedoHandler));
    registry.register(StandardHandler::NoOp(NoOpRedoHandler::new(
        WalRecordType::CheckpointBegin,
    )));
    assert!(registry.has_handler(WalRecordType::PageAlloc));
    assert!(!registry.has_handler(WalRecordType::PageFree));
    let mut ctx = redo_context();
    let mut image = WalRecord::full_page_image(PageId(3), vec![0xAB; PAGE_SIZE]).unwrap();
    image.lsn = Lsn(0x1234);
    registry.apply(&image, &mut ctx).unwrap();
    registry
        .apply(&WalRecord::checkpoint_begin(), &mut ctx)
        .unwrap();
    assert_eq!(ctx.page_writes.len(), 1);
    assert_eq!(ctx.page_writes[0].offset, 2 * PAGE_SIZE as u64);
    assert_eq!(page_pd_lsn(&ctx.page_writes[0].content), Lsn(0x1234));
    assert_eq!(ctx.page_writes[0].content[8..], [0xAB; PAGE_SIZE - 8]);

    let mut stray = WalRecord::full_page_image(PageId(0), vec![0; 16]).unwrap();
    stray.lsn = Lsn(64);
    assert!(matches!(
        registry.apply(&stray, &mut ctx),
        Err(StorageError::WalCorrupted(Lsn(64)))
    ));
    let mut short = WalRecord::full_page_image(PageId(1), vec![0; 4]).unwrap();
    short.lsn = Lsn(72);
    assert!(matches!(
        registry.apply(&short, &mut ctx),
        Err(StorageError::WalCorrupted(Lsn(72)))
    ));
    let mut garbled = WalRecord::page_alloc(PageId(1)).unwrap();
    garbled.payload = vec![253, 1];
    assert!(matches!(
        registry.apply(&garbled, &mut ctx),
        Err(StorageError::Serialize(_))
    ));
    assert_eq!(ctx.page_writes.len(), 1);
}

#[test]
fn tables_of_recovery_count_their_entries() {
    let mut att = ActiveXactTable::default();
    assert!(att.is_empty());
    att.add(TxnId(9), Lsn(8));
    att.add(TxnId(4), Lsn(16));
    att.add(TxnId(9), Lsn(24));
    assert_eq!(att.len(), 2);
    assert_eq!(att.xids(), [TxnId(4), TxnId(9)]);
    let bytes = att.encode();
    let numbers: Vec<u64> = bytes
        .chunks(8)
        .map(|c| u64::from_le_bytes(c.try_into().unwrap()))
        .collect();
    assert_eq!(numbers, [4, 16, 9, 24]);
    att.remove(TxnId(9));
    assert_eq!(att.xids(), [TxnId(4)]);

    let mut dpt = DirtyPageTable::default();
    assert!(dpt.is_empty());
    dpt.add(PageId(5), Lsn(40));
    assert_eq!(dpt.get(PageId(5)), Some(Lsn(40)));
    assert_eq!(dpt.get(PageId(6)), None);
    assert_eq!(dpt.len(), 1);
    assert_eq!(dpt.encode().len(), 16);
}

// Checkpoints.

fn checkpoint_config() -> StorageConfig {
    let mut cfg = StorageConfig::default();
    cfg.buffer_pool_size = 8 * 1024 * 1024;
    cfg
}

#[test]
fn trigger_checkpoint_writes_begin_and_end() {
    let mut db = new_db(&checkpoint_config());
    db.write_new_page(PAGE_HEADER_SIZE, &[42]);
    let begin_lsn = db.trigger_checkpoint().unwrap();
    assert!(begin_lsn.is_valid());
    let mut saw_begin = false;
    let mut saw_end = false;
    for rec in db.records(begin_lsn) {
        match rec.record_type {
            WalRecordType::CheckpointBegin => saw_begin = true,
            WalRecordType::CheckpointEnd => {
                let decoded = CheckpointEndRecord::decode(&rec.payload, rec.flags).unwrap();
                assert_eq!(decoded.checkpoint_lsn, begin_lsn);
                saw_end = true;
            }
            _ => {}
        }
    }
    assert!(saw_begin);
    assert!(saw_end);
}

#[test]
fn checkpoint_updates_superblock() {
    let mut db = new_db(&checkpoint_config());
    db.churn(5);
    let begin_lsn = db.trigger_checkpoint().unwrap();
    let sb = db.disk.read_superblock();
    assert_eq!(sb.checkpoint_lsn, begin_lsn);
    assert!(sb.next_page_id.0 > 1);
    assert_eq!(sb.next_oid, Oid::first_user());
}

#[test]
fn checkpoint_persists_next_oid_from_source() {
    let mut db = new_db(&checkpoint_config());
    db.checkpoint
        .set_next_oid_source(OidCounter::new(Oid(20_000)));
    db.trigger_checkpoint().unwrap();
    assert_eq!(db.disk.read_superblock().next_oid, Oid(20_000));

    assert_eq!(
        db.checkpoint.next_oid_source_mut().allocate(),
        Oid(20_000)
    );
    db.trigger_checkpoint().unwrap();
    assert_eq!(db.disk.read_superblock().next_oid, Oid(20_001));
}

#[test]
fn background_clone_observes_source_installed_after_clone() {
    let mut cfg = checkpoint_config();
    cfg.checkpoint_interval_ms = 50;
    let mut db = new_db(&cfg);
    let mut background = db
        .checkpoint
        .start_background_checkpointing()
        .unwrap()
        .unwrap();
    db.checkpoint
        .set_next_oid_source(OidCounter::new(Oid(30_000)));
    while background.tick(db.checkpoint.is_shutdown()) != BackgroundStep::Checkpoint {
        assert_eq!(db.disk.read_superblock().next_oid, Oid::first_user());
    }
    db.trigger_checkpoint().unwrap();
    assert_eq!(db.disk.read_superblock().next_oid, Oid(30_000));
}

#[test]
fn restart_goes_on_past_checkpointed_counters() {
    let config = checkpoint_config();
    let mut db = new_db(&config);
    let mut given = Vec::new();
    for _ in 0..5 {
        given.push(db.checkpoint.next_txn_id_source_mut().allocate());
        db.checkpoint.next_oid_source_mut().allocate();
    }
    db.trigger_checkpoint().unwrap();
    let db = Db::open(db.disk.crashed(), &config);
    assert!(given.iter().all(|xid| xid.0 < db.txn_id_clock.current().0));
    assert_eq!(db.txn_id_clock.current(), TxnId(6));
    assert_eq!(db.next_oid, Oid(16384 + 5));
    assert_eq!(db.checkpoint.next_oid_source().current(), Oid(16384 + 5));
}

#[test]
fn transactions_in_progress_at_the_checkpoint_are_found_unfinished() {
    let config = checkpoint_config();
    let mut db = new_db(&config);
    db.active_xids = vec![TxnId(3), TxnId(4), TxnId(9)];
    db.trigger_checkpoint().unwrap();
    db.append(WalRecord::txn_commit(TxnId(4)).unwrap()).unwrap();
    let mut disk = db.disk.clone();
    let db = Db::open(disk.clone(), &config);
    assert_eq!(db.active_xids, [TxnId(3), TxnId(9)]);
    disk.files.clear();
    let db = Db::open(disk, &config);
    assert!(db.active_xids.is_empty());
}

#[test]
fn damaged_snapshot_file_is_ignored() {
    let mut table = ActiveXactTable::new();
    table.add(TxnId(7), Lsn(48));
    let bytes = table.encode();
    assert_eq!(bytes.len(), 16);
    let read = ActiveXactTable::from_snapshot(&Some(bytes.clone()));
    assert_eq!(read.xids(), [TxnId(7)]);
    assert!(ActiveXactTable::from_snapshot(&Some(bytes[..15].to_vec())).is_empty());
    assert!(ActiveXactTable::from_snapshot(&None).is_empty());
    let mut dirty = DirtyPageTable::new();
    dirty.add(PageId(2), Lsn(88));
    let read = DirtyPageTable::from_snapshot(&Some(dirty.encode()));
    assert_eq!(read.get(PageId(2)), Some(Lsn(88)));
    assert!(DirtyPageTable::from_snapshot(&Some(vec![1])).is_empty());
}

#[test]
fn page_waits_for_the_log() {
    let mut cfg = StorageConfig::default();
    cfg.buffer_pool_size = cfg.page_size();
    cfg.buffer_pool_shards = 1;
    cfg.wal_group_commit_batch_size = 1_000_000;
    let mut db = new_db(&cfg);
    let page_id = db.write_new_page(0, &[0xAA]);
    db.sync();
    db.write_new_page(0, &[0x11]);
    db.pool.set_checkpoint_lsn(db.wal.synced_lsn());
    let image_lsn = db.wal.current_lsn();
    db.write_page(page_id, 100, &[2]);
    let plan = db.pool.flush(page_id).unwrap().unwrap();
    assert_eq!(plan.wal_lsn, Some(image_lsn));
    assert!(db.pool.page_to_write(&plan, &db.wal).unwrap().is_none());
    db.sync();
    let content = db.pool.page_to_write(&plan, &db.wal).unwrap().unwrap();
    assert_eq!(content[100], 2);
    db.wal.sync_failed("gone");
    assert!(db.pool.page_to_write(&plan, &db.wal).is_err());
}

#[test]
fn checkpoint_lsn_controls_fpi_in_next_cycle() {
    let mut db = new_db(&checkpoint_config());
    let page_id = db.write_new_page(PAGE_HEADER_SIZE, &[1]);
    db.flush(page_id).unwrap();
    let first_lsn = db.trigger_checkpoint().unwrap();
    db.churn(db.pool.frame_count() + 10);
    db.write_page(page_id, PAGE_HEADER_SIZE, &[2]);
    assert!(
        db.newest_image(page_id, first_lsn).is_some(),
        "expected FPI after checkpoint for page modified before checkpoint"
    );
}

#[test]
fn checkpoint_fpi_race_window_is_eliminated() {
    let mut db = new_db(&checkpoint_config());
    let page_id = db.write_new_page(PAGE_HEADER_SIZE, &[0xAA]);
    let begin_lsn = db.trigger_checkpoint().unwrap();
    assert_eq!(db.pool.checkpoint_lsn(), begin_lsn);

    let first_rec = &db.records(begin_lsn)[0];
    assert_eq!(first_rec.record_type, WalRecordType::CheckpointBegin);
    assert_eq!(first_rec.lsn, begin_lsn);

    db.flush(page_id).unwrap();
    db.churn(db.pool.frame_count() + 10);
    db.write_page(page_id, PAGE_HEADER_SIZE, &[0xBB]);
    assert!(
        db.newest_image(page_id, begin_lsn).is_some(),
        "pin_mut after checkpoint must write FPI (checkpoint_lsn was visible)"
    );
}

#[test]
fn checkpoint_succeeds_with_concurrent_wal_appends() {
    let mut db = new_db(&checkpoint_config());
    db.write_new_page(PAGE_HEADER_SIZE, &[0x5A]);
    let mut appended = 0u64;
    for _ in 0..20 {
        let run = db
            .checkpoint
            .trigger_checkpoint(&mut db.wal, &mut db.pool, &db.allocator);
        let begin_lsn = db
            .finish_checkpoint(run, |db| {
                db.append(WalRecord::page_alloc(PageId(1_000_000 + appended)).unwrap())
                    .unwrap();
                appended += 1;
            })
            .unwrap();
        assert_eq!(db.disk.read_superblock().checkpoint_lsn, begin_lsn);
        let first = &db.disk.crashed().records(db.config.wal_segment_size, begin_lsn)[0];
        assert_eq!(first.record_type, WalRecordType::CheckpointBegin);
    }
    assert!(appended > 0, "appender made no progress");
}

#[test]
fn background_checkpointer_sleeps_in_naps() {
    let mut cfg = checkpoint_config();
    cfg.checkpoint_interval_ms = 250;
    let mut db = new_db(&cfg);
    let mut timer = db
        .checkpoint
        .start_background_checkpointing()
        .unwrap()
        .unwrap();
    let steps: Vec<BackgroundStep> = (0..5).map(|_| timer.tick(false)).collect();
    assert_eq!(
        steps,
        [
            BackgroundStep::Sleep(100),
            BackgroundStep::Sleep(100),
            BackgroundStep::Sleep(50),
            BackgroundStep::Checkpoint,
            BackgroundStep::Sleep(100),
        ]
    );
    match db.checkpoint.start_background_checkpointing() {
        Err(StorageError::InvalidConfig(message)) => {
            assert_eq!(message, "background checkpointing already started")
        }
        other => panic!("{other:?}"),
    }
    assert!(!db.checkpoint.is_shutdown());
    assert!(db.checkpoint.shutdown());
    assert!(db.checkpoint.is_shutdown());
    assert!(!db.checkpoint.shutdown());
    assert_eq!(timer.tick(true), BackgroundStep::Stop);

    cfg.checkpoint_interval_ms = 0;
    let mut quiet = new_db(&cfg);
    assert!(quiet
        .checkpoint
        .start_background_checkpointing()
        .unwrap()
        .is_none());
}

#[test]
fn failed_flush_leaves_the_superblock_alone() {
    let mut db = new_db(&checkpoint_config());
    let page_id = db.write_new_page(0, &[1]);
    let mut run = db
        .checkpoint
        .trigger_checkpoint(&mut db.wal, &mut db.pool, &db.allocator);
    assert_eq!(run.action(), CheckpointAction::LogBegin);
    run.report(StepOutcome::Done).unwrap();
    assert_eq!(run.action(), CheckpointAction::CollectPages);
    run.collect_pages(&db.pool);
    run.report(StepOutcome::Done).unwrap();
    assert_eq!(run.action(), CheckpointAction::FlushPage(page_id));
    let error = run
        .report(StepOutcome::Failed(
            StorageError::BufferPoolFull,
            "buffer pool is full".to_string(),
        ))
        .unwrap_err();
    match error {
        StorageError::CheckpointFailed(message) => assert_eq!(
            message,
            "failed to flush page PageId(1) during checkpoint: buffer pool is full"
        ),
        other => panic!("{other:?}"),
    }
    assert_eq!(run.action(), CheckpointAction::GiveUp);
    assert!(run.superblock(&db.superblock).is_none());
}

#[test]
fn evicted_page_and_lost_freelist_do_not_stop_a_checkpoint() {
    let mut db = new_db(&checkpoint_config());
    let page_id = db.write_new_page(0, &[1]);
    let mut run = db
        .checkpoint
        .trigger_checkpoint(&mut db.wal, &mut db.pool, &db.allocator);
    let gone = StepOutcome::Failed(StorageError::PageNotFound(page_id), String::new());
    run.report(StepOutcome::Done).unwrap();
    run.collect_pages(&db.pool);
    run.report(StepOutcome::Done).unwrap();
    run.report(gone).unwrap();
    assert_eq!(run.action(), CheckpointAction::FlushClog);
    run.report(StepOutcome::Done).unwrap();
    assert_eq!(run.action(), CheckpointAction::WriteSnapshots);
    assert_eq!(
        run.snapshot_files(),
        ("meta/att-48.snap".to_string(), "meta/dpt-48.snap".to_string())
    );
    run.report(StepOutcome::Done).unwrap();
    assert_eq!(run.action(), CheckpointAction::LogEnd);
    let append = run
        .log_end(
            &mut db.wal,
            &db.allocator,
            &TxnIdClock::new(TxnId(7)),
            &OidCounter::new(Oid(20_000)),
        )
        .unwrap();
    run.report(StepOutcome::Done).unwrap();
    assert_eq!(run.action(), CheckpointAction::SyncWal(append.lsn));
    assert!(run.superblock(&db.superblock).is_none());
    run.report(StepOutcome::Done).unwrap();
    assert_eq!(run.action(), CheckpointAction::WriteFreelist);
    run.report(StepOutcome::Failed(
        StorageError::BufferPoolFull,
        String::new(),
    ))
    .unwrap();
    assert_eq!(run.action(), CheckpointAction::WriteSuperblock);
    let sb = run.superblock(&db.superblock).unwrap();
    assert_eq!(sb.checkpoint_lsn, Lsn(48));
    assert_eq!(sb.next_page_id, db.allocator.next_page_id());
    assert_eq!(sb.next_txn_id, TxnId(7));
    assert_eq!(sb.next_oid, Oid(20_000));
    run.report(StepOutcome::Done).unwrap();
    assert_eq!(run.action(), CheckpointAction::RecycleWal(Lsn(48)));
    run.report(StepOutcome::Done).unwrap();
    assert_eq!(run.action(), CheckpointAction::Finish(Lsn(48)));
}

// The engine.

#[test]
fn create_and_recover_empty_engine() {
    let config = StorageConfig::default();
    let mut db = new_db(&config);
    db.trigger_checkpoint().unwrap();
    let db = Db::open(db.disk, &config);
    assert!(db.superblock.checkpoint_lsn.is_valid());
}

#[test]
fn write_and_recover_data_after_checkpoint() {
    let config = StorageConfig::default();
    let mut db = new_db(&config);
    let page_id = db.write_new_page(0, &[1, 2, 3, 4]);
    db.trigger_checkpoint().unwrap();
    let mut db = Db::open(db.disk, &config);
    assert_eq!(&db.read_page(page_id)[0..4], &[1, 2, 3, 4]);
}

#[test]
fn recover_without_checkpoint_replays_page_allocs() {
    let config = StorageConfig::default();
    let mut db = new_db(&config);
    let page_id = db.write_new_page(0, &[]);
    let mut db = Db::open(db.disk, &config);
    let next = db.write_new_page(0, &[]);
    assert_ne!(next, page_id, "PageAlloc WAL was not replayed");
    assert!(next.0 > page_id.0);
}

#[test]
fn checkpoint_recycles_old_wal_segments() {
    let mut config = StorageConfig::default();
    config.wal_segment_size = 1024;
    let mut db = new_db(&config);
    for _ in 0..64 {
        db.write_new_page(0, &[0xAB]);
    }
    let segments_before = db.disk.wal.len();
    assert!(
        segments_before > 1,
        "test precondition failed: expected multiple WAL segments, got {segments_before}"
    );
    db.trigger_checkpoint().unwrap();
    let segments_after = db.disk.wal.len();
    assert!(
        segments_after < segments_before,
        "old WAL segments were not recycled: before={segments_before}, after={segments_after}"
    );
}

#[test]
fn recover_repairs_torn_page_after_checkpoint() {
    let mut config = StorageConfig::default();
    config.buffer_pool_size = 256 * 1024;
    let mut db = new_db(&config);
    let page_id = db.write_new_page(0, &[0xCD; PAGE_SIZE]);
    db.trigger_checkpoint().unwrap();
    db.churn(db.pool.frame_count() + 4);
    db.write_page(page_id, 0, &[0xCD; PAGE_SIZE]);

    let mut disk = db.disk;
    let offset = (page_id.0 - 1) * PAGE_SIZE as u64;
    disk.write_data(offset, &[0xFF; PAGE_SIZE / 2]);

    let mut db = Db::open(disk, &config);
    assert!(
        db.read_page(page_id).iter().all(|&b| b == 0xCD),
        "FPI did not repair the torn page"
    );
}

#[test]
fn multiple_checkpoints_keep_data_consistent() {
    let mut config = StorageConfig::default();
    config.wal_segment_size = 4096;
    config.wal_group_commit_timeout_ms = 1;
    config.wal_group_commit_batch_size = 1;
    let mut db = new_db(&config);
    let mut ids = Vec::new();
    for i in 0..16u8 {
        ids.push(db.write_new_page(0, &[i]));
    }
    db.trigger_checkpoint().unwrap();
    for (idx, id) in ids.iter().enumerate() {
        if idx % 2 == 0 {
            db.write_page(*id, 1, &[0xCC]);
        }
    }
    db.trigger_checkpoint().unwrap();

    let mut db = Db::open(db.disk, &config);
    for (idx, id) in ids.iter().enumerate() {
        let page = db.read_page(*id);
        assert_eq!(page[0], idx as u8);
        if idx % 2 == 0 {
            assert_eq!(page[1], 0xCC);
        }
    }
}

#[test]
fn recovery_needs_readable_files() {
    let config = StorageConfig::default();
    let db = new_db(&config);

    let mut damaged = db.disk.clone();
    damaged.superblock = Some(vec![0u8; 2 * SUPERBLOCK_SIZE]);
    match StorageEngine::recover(config.clone(), &Db::files(&damaged, &config)) {
        Err(StorageError::MetadataCorrupted(message)) => {
            assert!(message.starts_with("both copies are corrupted: copy A: "))
        }
        other => panic!("{:?}", other.err()),
    }

    let mut without_log = db.disk.clone();
    without_log.wal.clear();
    assert!(matches!(
        StorageEngine::recover(config.clone(), &Db::files(&without_log, &config)),
        Err(StorageError::Io(_))
    ));

    let mut ragged = db.disk.clone();
    ragged.data = vec![0; 100];
    assert!(matches!(
        StorageEngine::recover(config.clone(), &Db::files(&ragged, &config)),
        Err(StorageError::MetadataCorrupted(_))
    ));

    let mut invalid = config.clone();
    invalid.buffer_pool_shards = 0;
    assert!(matches!(
        StorageEngine::recover(invalid, &Db::files(&db.disk, &config)),
        Err(StorageError::InvalidConfig(_))
    ));
}

#[test]
fn damaged_last_record_ends_the_log() {
    let config = StorageConfig::default();
    let mut db = new_db(&config);
    let first = db.alloc_page().unwrap();
    let second_at = db.wal.current_lsn();
    db.alloc_page().unwrap();
    db.disk.wal.get_mut(&0).unwrap()[second_at.0 as usize + 32] ^= 0xff;
    let mut db = Db::open(db.disk, &config);
    assert_eq!(db.allocator.next_page_id(), PageId(first.0 + 1));
    assert_eq!(db.wal.current_lsn(), second_at);
    let again = db.alloc_page().unwrap();
    assert_eq!(again, PageId(2));
    assert_eq!(db.records(Lsn::first()).len(), 2);
}

#[test]
fn hole_in_the_log_stops_recovery() {
    let config = StorageConfig::default();
    let mut db = new_db(&config);
    db.alloc_page().unwrap();
    let hole = db.wal.reserve_lsn(32);
    db.alloc_page().unwrap();
    match StorageEngine::recover(config.clone(), &Db::files(&db.disk, &config)) {
        Err(StorageError::MetadataCorrupted(message)) => {
            assert!(message.contains(&hole.to_text()))
        }
        other => panic!("{:?}", other.err()),
    }
}

#[test]
fn stale_freelist_snapshot_is_left_aside() {
    let config = StorageConfig::default();
    let mut db = new_db(&config);
    let p1 = db.alloc_page().unwrap();
    db.free_page(p1).unwrap();
    db.trigger_checkpoint().unwrap();
    let stale = db.disk.freelist.clone();
    assert_eq!(db.alloc_page().unwrap(), p1);
    db.trigger_checkpoint().unwrap();
    db.disk.freelist = stale;
    let db = Db::open(db.disk, &config);
    assert!(db.allocator.freelist().is_empty());
    assert_eq!(db.allocator.next_page_id(), PageId(2));
}

#[test]
fn newer_freelist_snapshot_gives_the_same_pages() {
    let config = StorageConfig::default();
    let mut db = new_db(&config);
    let pages: Vec<PageId> = (0..5).map(|_| db.alloc_page().unwrap()).collect();
    db.free_page(pages[0]).unwrap();
    db.trigger_checkpoint().unwrap();
    let old_freelist = db.disk.freelist.clone();
    let old_superblock = db.disk.superblock.clone();
    assert_eq!(db.alloc_page().unwrap(), pages[0]);
    db.free_page(pages[3]).unwrap();
    db.free_page(pages[1]).unwrap();
    db.alloc_page().unwrap();
    db.free_page(pages[2]).unwrap();
    db.alloc_page().unwrap();
    db.free_page(pages[4]).unwrap();
    let seen = db.allocator.freelist().to_vec();

    let run = db
        .checkpoint
        .trigger_checkpoint(&mut db.wal, &mut db.pool, &db.allocator);
    db.free_page(pages[2]).unwrap();
    assert_eq!(db.alloc_page().unwrap(), pages[2]);
    assert_eq!(db.alloc_page().unwrap(), pages[4]);
    db.free_page(pages[1]).unwrap();
    let mut crashed = None;
    db.finish_checkpoint(run, |db| {
        if crashed.is_none() && db.disk.freelist != old_freelist {
            assert!(db.disk.superblock == old_superblock);
            crashed = Some(db.disk.crashed());
        }
    })
    .unwrap();
    let crashed = crashed.unwrap();
    let snapshot = FreelistMeta::decode(crashed.freelist.as_ref().unwrap()).unwrap();
    assert_eq!(snapshot.page_ids, seen);
    assert_ne!(sorted(&seen), sorted(db.allocator.freelist()));

    let recovered = Db::open(crashed, &config);
    assert_eq!(
        sorted(recovered.allocator.freelist()),
        sorted(db.allocator.freelist())
    );
    assert_eq!(
        recovered.allocator.next_page_id(),
        db.allocator.next_page_id()
    );
}

#[test]
fn log_with_another_segment_size_is_refused() {
    let config = StorageConfig::default();
    let db = new_db(&config);
    let mut other = config.clone();
    other.wal_segment_size = config.wal_segment_size / 2;
    let files = Db::files(&db.disk, &config);
    let message = format!(
        "wal_segment_size {} does not match segments of {} bytes",
        other.wal_segment_size, config.wal_segment_size
    );
    match StorageEngine::recover(other.clone(), &files) {
        Err(StorageError::InvalidConfig(text)) => assert_eq!(text, message),
        other => panic!("{other:?}"),
    }
    let registry: RedoRegistry<InMemoryClogAccessor, StandardHandler> = RedoRegistry::new();
    let clog = InMemoryClogAccessor::new();
    match StorageEngine::recover_with_redo(other.clone(), &files, &registry, clog) {
        Err(StorageError::InvalidConfig(text)) => assert_eq!(text, message),
        _ => panic!("a log of another size was taken"),
    }
    match StorageEngine::create_new(other, 0, &files.wal, &files.wal_names, 0) {
        Err(StorageError::InvalidConfig(text)) => assert_eq!(text, message),
        other => panic!("{other:?}"),
    }
}

#[test]
fn damaged_log_is_recovered_only_at_its_end() {
    let config = StorageConfig::default();
    let mut db = new_db(&config);
    let pages: Vec<PageId> = (0..3).map(|_| db.alloc_page().unwrap()).collect();
    let lsns: Vec<Lsn> = db.records(Lsn::first()).iter().map(|r| r.lsn).collect();
    let damage = |which: usize| {
        let mut disk = db.disk.clone();
        disk.wal.get_mut(&0).unwrap()[lsns[which].0 as usize + 30] ^= 0xff;
        disk
    };
    let middle = Db::files(&damage(1), &config);
    match StorageEngine::recover(config.clone(), &middle) {
        Err(StorageError::WalCorrupted(at)) => assert_eq!(at, lsns[1]),
        other => panic!("{other:?}"),
    }
    let mut recovered = Db::open(damage(2), &config);
    assert_eq!(recovered.wal.current_lsn(), lsns[2]);
    assert_eq!(recovered.alloc_page().unwrap(), pages[2]);
    assert_eq!(recovered.records(Lsn::first()), db.records(Lsn::first()));
}

#[test]
fn unfinished_transactions_are_found() {
    let config = StorageConfig::default();
    let mut db = new_db(&config);
    for (xid, lsn) in [(7u64, 8u64), (9, 40), (7, 72)] {
        let mut record = heap_insert();
        record.txn_id = TxnId(xid);
        assert_eq!(db.append(record).unwrap(), Lsn(lsn));
    }
    db.append(WalRecord::txn_commit(TxnId(9)).unwrap()).unwrap();
    db.append(WalRecord::txn_abort(TxnId(12)).unwrap()).unwrap();
    let db = Db::open(db.disk, &config);
    assert_eq!(db.active_xids, [TxnId(7)]);
    assert_eq!(db.txn_id_clock.current(), TxnId(13));
}

#[test]
fn test_checkpoint_v1_v2_migration() {
    let mut config = StorageConfig::default();
    config.wal_group_commit_timeout_ms = 1;
    config.wal_group_commit_batch_size = 1;
    let mut db = new_db(&config);
    let page_id = db.write_new_page(PAGE_HEADER_SIZE, &[0x77]);
    db.flush(page_id).unwrap();

    let begin_lsn = db.append(WalRecord::checkpoint_begin()).unwrap();
    let v1_end = WalRecord::checkpoint_end(
        begin_lsn,
        db.allocator.next_page_id(),
        db.superblock.next_txn_id,
    )
    .unwrap();
    assert_eq!(v1_end.flags, 0);
    let end_lsn = db.append(v1_end).unwrap();
    db.flush_to(end_lsn).unwrap();
    let mut sb = db.superblock;
    sb.checkpoint_lsn = begin_lsn;
    sb.next_page_id = db.allocator.next_page_id();
    db.disk.write_superblock(&sb).unwrap();
    let v1_checkpoint_lsn = begin_lsn;

    let mut db = Db::open(db.disk, &config);
    assert_eq!(db.read_page(page_id)[PAGE_HEADER_SIZE], 0x77);
    assert!(db.active_xids.is_empty());
    assert_eq!(db.next_oid, Oid::first_user());

    let ends = |db: &Db| -> Vec<WalRecord> {
        db.records(Lsn::first())
            .into_iter()
            .filter(|r| r.record_type == WalRecordType::CheckpointEnd)
            .collect()
    };
    let found = ends(&db);
    assert_eq!(found.len(), 1, "exactly one CheckpointEnd so far");
    assert_eq!(found[0].flags, 0, "recovery must not rewrite v1 CheckpointEnd");
    let decoded = CheckpointEndRecord::decode(&found[0].payload, found[0].flags).unwrap();
    assert_eq!(decoded.checkpoint_lsn, v1_checkpoint_lsn);
    assert_eq!(decoded.next_oid, Oid::first_user().0);
    assert!(decoded.att_file.is_empty());
    assert!(decoded.dpt_file.is_empty());

    let begin2 = db.trigger_checkpoint().unwrap();
    assert!(begin2 > v1_checkpoint_lsn);
    let found = ends(&db);
    assert_eq!(found.len(), 2);
    assert_eq!(found[0].flags, 0, "the old record stays v1");
    assert_eq!(found[1].flags, CHECKPOINT_END_V2_FLAGS);
    let decoded = CheckpointEndRecord::decode(&found[1].payload, found[1].flags).unwrap();
    assert_eq!(decoded.checkpoint_lsn, begin2);
    assert_eq!(decoded.next_oid, Oid::first_user().0);
    assert!(!decoded.att_file.is_empty());
    assert!(!decoded.dpt_file.is_empty());
    assert!(
        db.disk.files.contains_key(&decoded.att_file),
        "ATT snapshot file must exist: {}",
        decoded.att_file
    );
    assert!(
        db.disk.files.contains_key(&decoded.dpt_file),
        "DPT snapshot file must exist: {}",
        decoded.dpt_file
    );

    let mut db = Db::open(db.disk, &config);
    assert_eq!(db.read_page(page_id)[PAGE_HEADER_SIZE], 0x77);
}

// The freelist snapshot.

fn db_with_freed_pages(config: &StorageConfig, n: u32, k: u32) -> (Db, Vec<PageId>, Vec<PageId>) {
    let mut db = new_db(config);
    let allocated: Vec<PageId> = (0..n).map(|_| db.alloc_page().unwrap()).collect();
    db.trigger_checkpoint().unwrap();
    let freed: Vec<PageId> = allocated[..k as usize].to_vec();
    for &pid in &freed {
        db.free_page(pid).unwrap();
    }
    (db, allocated, freed)
}

#[test]
fn test_freelist_corrupted_returns_hard_error() {
    let meta = FreelistMeta {
        checkpoint_lsn: Lsn(512),
        page_ids: vec![PageId(1), PageId(2), PageId(3)],
    };
    let mut corrupted = meta.encode();
    assert!(corrupted.len() > 4);
    corrupted[10] ^= 0xFF;
    let err = FreelistMeta::decode(&corrupted).unwrap_err();
    assert!(
        matches!(err, StorageError::MetadataCorrupted(ref msg) if msg.contains("CRC")),
        "expected CRC mismatch error, got {err:?}"
    );
}

#[test]
fn test_freelist_rebuild_from_wal() {
    let config = StorageConfig::default();
    let (db, allocated, freed) = db_with_freed_pages(&config, 5, 3);
    let mut disk = db.disk;
    if let Some(file) = &mut disk.freelist {
        file[10] ^= 0xFF;
    }
    let db = Db::open(disk, &config);
    assert_eq!(
        sorted(db.allocator.freelist()),
        sorted(&freed),
        "freelist after WAL rebuild must match freed pages"
    );
    let last = allocated.last().unwrap();
    assert_eq!(db.allocator.next_page_id(), PageId(last.0 + 1));
}

#[test]
fn test_freelist_snapshot_accelerates_recovery() {
    let config = StorageConfig::default();
    let mut db = new_db(&config);
    let p1 = db.alloc_page().unwrap();
    let p2 = db.alloc_page().unwrap();
    let _p3 = db.alloc_page().unwrap();
    db.free_page(p1).unwrap();
    db.free_page(p2).unwrap();
    db.trigger_checkpoint().unwrap();
    let snap = FreelistMeta::decode(db.disk.freelist.as_ref().unwrap()).unwrap();
    assert_eq!(
        snap.page_ids.len(),
        2,
        "snapshot must contain 2 freed pages"
    );
    let db = Db::open(db.disk, &config);
    assert_eq!(
        sorted(db.allocator.freelist()),
        sorted(&snap.page_ids),
        "recovered freelist must match snapshot"
    );
}

#[test]
fn test_freed_page_is_reusable_after_recovery() {
    let config = StorageConfig::default();
    let mut db = new_db(&config);
    let p1 = db.alloc_page().unwrap();
    let p2 = db.alloc_page().unwrap();
    let p3 = db.alloc_page().unwrap();
    assert_eq!((p1, p2, p3), (PageId(1), PageId(2), PageId(3)));
    db.free_page(p2).unwrap();
    db.trigger_checkpoint().unwrap();

    let mut db = Db::open(db.disk, &config);
    let reused = db.alloc_page().unwrap();
    assert_eq!(
        reused,
        PageId(2),
        "freed page must be reused after recovery"
    );
    assert_eq!(
        db.allocator.next_page_id(),
        PageId(4),
        "next_page_id must stay at 4"
    );
}

#[test]
fn test_page_free_wal_record_replays_correctly() {
    let cfg = StorageConfig::default();
    let mut db = new_db(&cfg);
    let pages: Vec<PageId> = (0..5).map(|_| db.alloc_page().unwrap()).collect();
    db.free_page(pages[1]).unwrap();
    db.free_page(pages[3]).unwrap();
    let expected = vec![pages[1], pages[3]];

    let mut recovered =
        PageAllocator::open_at(&cfg, db.disk.data.len() as u64, PageId(1)).unwrap();
    for record in db.records(Lsn::first()) {
        recovered.replay_record(&record).unwrap();
    }
    recovered.mark_recovery_complete();
    assert_eq!(
        sorted(recovered.freelist()),
        sorted(&expected),
        "WAL replay must rebuild freelist"
    );
    assert_eq!(recovered.next_page_id(), PageId(6));
}

#[test]
fn test_concurrent_free_during_checkpoint_no_duplicates() {
    let config = StorageConfig::default();
    let mut db = new_db(&config);
    let pages: Vec<PageId> = (0..50).map(|_| db.alloc_page().unwrap()).collect();
    for &pid in &pages {
        db.write_page(pid, 0, &[1]);
    }
    let to_free: Vec<PageId> = pages.iter().copied().take(20).collect();
    let mut left = to_free.clone();
    for pid in left.drain(..5) {
        db.free_page(pid).unwrap();
    }
    let run = db
        .checkpoint
        .trigger_checkpoint(&mut db.wal, &mut db.pool, &db.allocator);
    db.finish_checkpoint(run, |db| {
        if let Some(pid) = left.pop() {
            db.free_page(pid).unwrap();
        }
    })
    .unwrap();
    assert!(left.is_empty());

    let db = Db::open(db.disk, &config);
    let recovered = db.allocator.freelist().to_vec();
    for (i, pid) in recovered.iter().enumerate() {
        assert!(
            !recovered[..i].contains(pid),
            "duplicate page {pid:?} in recovered freelist: {recovered:?}"
        );
    }
    assert_eq!(
        sorted(&recovered),
        sorted(&to_free),
        "recovered freelist must match freed pages exactly"
    );
}

#[test]
fn test_free_page_rejects_double_free() {
    let mut db = new_db(&StorageConfig::default());
    let pid = db.alloc_page().unwrap();
    db.free_page(pid).unwrap();
    let err = db.free_page(pid).unwrap_err();
    assert!(
        matches!(err, StorageError::InvalidOperation(ref msg) if msg.contains("double-free")),
        "expected InvalidOperation double-free error, got {err:?}"
    );
    let count = db.allocator.freelist().iter().filter(|&&p| p == pid).count();
    assert_eq!(count, 1);
}

#[test]
fn test_free_page_rejects_invalid_and_unallocated() {
    let mut db = new_db(&StorageConfig::default());
    let err = db.free_page(PageId::invalid()).unwrap_err();
    assert!(
        matches!(err, StorageError::InvalidOperation(_)),
        "expected InvalidOperation for PageId::INVALID, got {err:?}"
    );
    let err = db.free_page(PageId(999)).unwrap_err();
    assert!(
        matches!(err, StorageError::InvalidOperation(ref msg) if msg.contains("never allocated")),
        "expected InvalidOperation for unallocated page, got {err:?}"
    );
}

// The commit log on disk.

/// A commit log with its segment files, by page.
struct DiskClog {
    buffer: std::cell::RefCell<ClogBuffer>,
    pages: std::cell::RefCell<HashMap<(u64, u64), Vec<u8>>>,
}

impl DiskClog {
    fn open(frames: usize) -> DiskClog {
        DiskClog::over(frames, HashMap::new())
    }

    fn over(frames: usize, pages: HashMap<(u64, u64), Vec<u8>>) -> DiskClog {
        DiskClog {
            buffer: std::cell::RefCell::new(ClogBuffer::open(frames)),
            pages: std::cell::RefCell::new(pages),
        }
    }

    fn place(page_no: u64) -> (u64, u64) {
        (segment_id_of_page(page_no), page_offset_in_segment(page_no))
    }

    fn write_frame(&self, frame: usize) {
        let mut buffer = self.buffer.borrow_mut();
        let place = DiskClog::place(buffer.page_no(frame));
        let data = buffer.page(frame).clone();
        self.pages.borrow_mut().insert(place, data);
        buffer.frame_written(frame);
    }

    fn load(&self, load: pg_rust::txn::clog_buffer::ClogLoad) {
        if load.writeback.is_some() {
            self.write_frame(load.victim);
        }
        let data = self
            .pages
            .borrow()
            .get(&DiskClog::place(load.page_no))
            .cloned()
            .unwrap_or_else(|| vec![0; CLOG_PAGE_BYTES as usize]);
        self.buffer.borrow_mut().finish_load(&load, data);
    }

    fn read(&self, xid: TxnId) -> TxnState {
        let mut read = self.buffer.borrow_mut().get_state(xid);
        if let ClogRead::Missing(load) = read {
            self.load(load);
            read = self.buffer.borrow().state_in(load.victim, xid);
        }
        match read {
            ClogRead::State(state) => state,
            other => panic!("{other:?}"),
        }
    }

    fn record(&self, xid: TxnId, state: TxnState) {
        let write = self.buffer.borrow_mut().set_state(xid, state);
        if let ClogWrite::Missing(load) = write {
            self.load(load);
            self.buffer
                .borrow_mut()
                .set_state_in(load.victim, xid, state);
        }
    }

    fn flush_dirty(&mut self) {
        let frames = self.buffer.borrow().flush_dirty();
        for frame in frames {
            self.write_frame(frame);
        }
        let segments = self.buffer.borrow().unsynced_segments();
        for segment in segments {
            self.buffer.borrow_mut().segment_synced(segment);
        }
    }

    fn byte(&self, segment: u64, offset: u64) -> u8 {
        let page = offset / CLOG_PAGE_BYTES * CLOG_PAGE_BYTES;
        match self.pages.borrow().get(&(segment, page)) {
            Some(data) => data[(offset - page) as usize],
            None => 0,
        }
    }
}

impl ClogAccessor for DiskClog {
    fn state_of(&self, xid: TxnId) -> TxnState {
        self.read(xid)
    }

    fn recorded(_before: &Self, _xid: TxnId, _state: TxnState, _after: &Self) -> bool {
        true
    }

    fn get_state(&self, xid: TxnId) -> TxnState {
        self.read(xid)
    }

    fn set_state(&mut self, xid: TxnId, state: TxnState) {
        self.record(xid, state)
    }
}

const XIDS_PER_CLOG_PAGE: u64 = pg_rust::txn::clog_file::XIDS_PER_CLOG_PAGE;
const XIDS_PER_SEGMENT: u64 = pg_rust::txn::clog_file::XIDS_PER_SEGMENT;

#[test]
fn bit_order_high_nibble_even_xid_low_nibble_odd_xid() {
    let mut clog = DiskClog::open(4);
    clog.record(TxnId(2), TxnState::Committed);
    clog.record(TxnId(3), TxnState::Aborted);
    clog.flush_dirty();
    assert_eq!(clog.byte(0, 1), 0x12);

    clog.record(TxnId(2), TxnState::Aborted);
    clog.record(TxnId(3), TxnState::Committed);
    clog.flush_dirty();
    assert_eq!(clog.byte(0, 1), 0x21);
    assert_eq!(clog.read(TxnId(2)), TxnState::Aborted);
    assert_eq!(clog.read(TxnId(3)), TxnState::Committed);

    clog.record(TxnId(4), TxnState::Committed);
    clog.record(TxnId(5), TxnState::Aborted);
    clog.flush_dirty();
    assert_eq!(clog.byte(0, 2), 0x12);
    assert_eq!(clog.byte(0, 1), 0x21);
}

#[test]
fn boundary_xids_land_in_expected_segment_and_page() {
    let mut clog = DiskClog::open(8);
    clog.record(TxnId(XIDS_PER_CLOG_PAGE - 1), TxnState::Aborted);
    clog.record(TxnId(XIDS_PER_CLOG_PAGE), TxnState::Committed);
    clog.record(TxnId(XIDS_PER_SEGMENT - 1), TxnState::Aborted);
    clog.record(TxnId(XIDS_PER_SEGMENT), TxnState::Committed);
    clog.flush_dirty();

    assert_eq!(clog.byte(0, 8191), 0x02);
    assert_eq!(clog.byte(0, 8192), 0x10);
    assert_eq!(clog.byte(0, 128 * 1024 * 1024 - 1), 0x02);
    assert_eq!(clog.byte(1, 0), 0x10);

    assert_eq!(clog.read(TxnId(XIDS_PER_CLOG_PAGE - 1)), TxnState::Aborted);
    assert_eq!(clog.read(TxnId(XIDS_PER_CLOG_PAGE)), TxnState::Committed);
    assert_eq!(clog.read(TxnId(XIDS_PER_SEGMENT - 1)), TxnState::Aborted);
    assert_eq!(clog.read(TxnId(XIDS_PER_SEGMENT)), TxnState::Committed);
}

#[test]
fn clog_buffer_unknown_xid_reads_in_progress() {
    let clog = DiskClog::open(4);
    for xid in [0u64, 1, 16384, XIDS_PER_SEGMENT, u64::MAX - 1] {
        assert_eq!(
            clog.get_state(TxnId(xid)),
            TxnState::InProgress,
            "xid {xid} must read InProgress before any set_state"
        );
    }
}

#[test]
fn clog_buffer_set_then_get_round_trips() {
    let mut clog = DiskClog::open(4);
    clog.set_state(TxnId(5), TxnState::Committed);
    clog.set_state(TxnId(6), TxnState::Aborted);
    clog.set_state(TxnId(700_000), TxnState::Committed);
    assert_eq!(clog.get_state(TxnId(5)), TxnState::Committed);
    assert_eq!(clog.get_state(TxnId(6)), TxnState::Aborted);
    assert_eq!(clog.get_state(TxnId(700_000)), TxnState::Committed);
    assert_eq!(clog.get_state(TxnId(7)), TxnState::InProgress);
}

#[test]
fn invalid_xid_is_always_in_progress_and_ignores_writes() {
    let mut clog = DiskClog::open(pg_rust::txn::clog_buffer::MIN_FRAMES);
    clog.set_state(TxnId::invalid(), TxnState::Committed);
    assert_eq!(clog.get_state(TxnId::invalid()), TxnState::InProgress);
}

#[test]
fn miss_loads_page_from_segment_file() {
    let mut clog = DiskClog::open(4);
    clog.set_state(TxnId(42), TxnState::Committed);
    clog.flush_dirty();
    let clog = DiskClog::over(4, clog.pages.into_inner());
    assert_eq!(clog.get_state(TxnId(42)), TxnState::Committed);
    assert_eq!(clog.buffer.borrow().misses(), 1);
    assert_eq!(clog.buffer.borrow().hits(), 0);
    assert_eq!(clog.get_state(TxnId(42)), TxnState::Committed);
    assert_eq!(clog.buffer.borrow().hits(), 1);
}

#[test]
fn clock_sweep_evicts_unreferenced_frames_first() {
    let clog = DiskClog::open(4);
    let xid_in = |page: u64| TxnId(page * XIDS_PER_CLOG_PAGE + 1);
    for page in 0..4 {
        assert_eq!(clog.get_state(xid_in(page)), TxnState::InProgress);
    }
    assert_eq!(clog.buffer.borrow().misses(), 4);
    clog.get_state(xid_in(0));
    clog.get_state(xid_in(1));

    clog.get_state(xid_in(4));
    assert_eq!(clog.buffer.borrow().misses(), 5);
    let (hits, misses) = (clog.buffer.borrow().hits(), clog.buffer.borrow().misses());

    clog.get_state(xid_in(1));
    clog.get_state(xid_in(3));
    assert_eq!(
        clog.buffer.borrow().hits(),
        hits + 2,
        "pages 1 and 3 must still be resident"
    );
    clog.get_state(xid_in(0));
    assert_eq!(
        clog.buffer.borrow().misses(),
        misses + 1,
        "page 0 was evicted by the sweep"
    );
}

#[test]
fn dirty_frame_is_written_back_before_eviction() {
    let mut clog = DiskClog::open(4);
    for page in 0..4u64 {
        clog.set_state(TxnId(page * XIDS_PER_CLOG_PAGE + 1), TxnState::Committed);
    }
    assert_eq!(clog.byte(0, 0), 0x00);
    clog.set_state(TxnId(4 * XIDS_PER_CLOG_PAGE + 1), TxnState::Committed);
    assert_eq!(
        clog.byte(0, 0),
        0x01,
        "evicted dirty page 0 must have been written back (xid 1 = low nibble Committed)"
    );
    assert_eq!(clog.get_state(TxnId(1)), TxnState::Committed);
}

#[test]
fn set_state_is_not_on_disk_until_flush_dirty() {
    let mut clog = DiskClog::open(4);
    clog.set_state(TxnId(7), TxnState::Committed);
    assert_eq!(
        clog.byte(0, 3),
        0x00,
        "commit path must not write the CLOG page"
    );
    clog.flush_dirty();
    assert_eq!(
        clog.byte(0, 3),
        0x01,
        "flush_dirty must persist the dirty frame"
    );
}

#[test]
fn checkpoint_persisted_state_survives_reopen_without_wal() {
    let mut clog = DiskClog::open(4);
    clog.set_state(TxnId(11), TxnState::Committed);
    clog.set_state(TxnId(12), TxnState::Aborted);
    clog.flush_dirty();
    let clog = DiskClog::over(4, clog.pages.into_inner());
    assert_eq!(clog.get_state(TxnId(11)), TxnState::Committed);
    assert_eq!(clog.get_state(TxnId(12)), TxnState::Aborted);
    assert_eq!(clog.get_state(TxnId(13)), TxnState::InProgress);
}

#[test]
fn flush_dirty_fsyncs_segments_from_evicted_writebacks() {
    let mut clog = DiskClog::open(4);
    for page in 0..4u64 {
        clog.set_state(TxnId(page * 16384 + 1), TxnState::Committed);
    }
    for page in 4..8u64 {
        let _ = clog.get_state(TxnId(page * 16384 + 1));
    }
    assert!(
        clog.buffer.borrow().unsynced_segment_count() > 0,
        "eviction writebacks must be tracked as unsynced"
    );
    clog.flush_dirty();
    assert_eq!(
        clog.buffer.borrow().unsynced_segment_count(),
        0,
        "flush_dirty must fsync segments written by eviction writebacks, \
         not just segments of currently dirty frames"
    );
}

// Transactions over a log.

struct DbWal(Db);

impl CommitWal for DbWal {
    fn holds(&self, _lsn: Lsn, _record: &WalRecord) -> bool {
        true
    }

    fn is_durable(&self, _lsn: Lsn) -> bool {
        true
    }

    fn appended(
        _before: &Self,
        _record: &WalRecord,
        _result: &Result<Lsn>,
        _after: &Self,
    ) -> bool {
        true
    }

    fn flushed(_before: &Self, _lsn: Lsn, _result: &Result<()>, _after: &Self) -> bool {
        true
    }

    fn append(&mut self, record: WalRecord) -> Result<Lsn> {
        self.0.append(record)
    }

    fn flush_to(&mut self, lsn: Lsn) -> Result<()> {
        self.0.flush_to(lsn)
    }
}

/// Access to a database and a commit log that others use, too.
struct Shared<T>(std::rc::Rc<std::cell::RefCell<T>>);

impl<T> Shared<T> {
    fn new(value: T) -> Shared<T> {
        Shared(std::rc::Rc::new(std::cell::RefCell::new(value)))
    }

    fn share(&self) -> Shared<T> {
        Shared(self.0.clone())
    }
}

impl CommitWal for Shared<Db> {
    fn holds(&self, _lsn: Lsn, _record: &WalRecord) -> bool {
        true
    }

    fn is_durable(&self, _lsn: Lsn) -> bool {
        true
    }

    fn appended(
        _before: &Self,
        _record: &WalRecord,
        _result: &Result<Lsn>,
        _after: &Self,
    ) -> bool {
        true
    }

    fn flushed(_before: &Self, _lsn: Lsn, _result: &Result<()>, _after: &Self) -> bool {
        true
    }

    fn append(&mut self, record: WalRecord) -> Result<Lsn> {
        self.0.borrow_mut().append(record)
    }

    fn flush_to(&mut self, lsn: Lsn) -> Result<()> {
        self.0.borrow_mut().flush_to(lsn)
    }
}

impl<C: ClogAccessor> ClogAccessor for Shared<C> {
    fn state_of(&self, xid: TxnId) -> TxnState {
        self.get_state(xid)
    }

    fn recorded(_before: &Self, _xid: TxnId, _state: TxnState, _after: &Self) -> bool {
        true
    }

    fn get_state(&self, xid: TxnId) -> TxnState {
        self.0.borrow().get_state(xid)
    }

    fn set_state(&mut self, xid: TxnId, state: TxnState) {
        self.0.borrow_mut().set_state(xid, state)
    }
}

/// Ten transactions, every other one committed, and one left open.
fn run_transactions<C: ClogAccessor>(
    mgr: &mut TxnManager<Shared<Db>, C>,
) -> (Vec<TxnId>, Vec<TxnId>, TxnId) {
    let mut committed = Vec::new();
    let mut aborted = Vec::new();
    for i in 0..10 {
        let xid = mgr.begin_txn();
        if i % 2 == 0 {
            mgr.commit_txn(xid).unwrap();
            committed.push(xid);
        } else {
            mgr.abort_txn(xid).unwrap();
            aborted.push(xid);
        }
    }
    (committed, aborted, mgr.begin_txn())
}

fn into_disk(db: Shared<Db>) -> Disk {
    db.0.borrow().disk.crashed()
}

#[test]
fn checkpoint_flushes_clog_between_begin_and_end() {
    let mut db = new_db(&StorageConfig::default());
    db.clog = Some(DiskClog::open(8));
    let db = Shared::new(db);
    let xid = {
        let mut mgr = TxnManager::new(
            TxnIdClock::new(TxnId::first()),
            db.share(),
            ClogOf(db.share()),
        );
        let xid = mgr.begin_txn();
        mgr.commit_txn(xid).unwrap();
        xid
    };
    let mut inner = db.0.borrow_mut();
    assert_eq!(
        inner.clog.as_ref().unwrap().get_state(xid),
        TxnState::Committed
    );
    assert_eq!(
        inner.clog.as_ref().unwrap().byte(0, 0),
        0x00,
        "commit must not flush the CLOG"
    );
    inner.trigger_checkpoint().unwrap();
    assert_eq!(
        inner.clog.as_ref().unwrap().byte(0, 0),
        0x01,
        "checkpoint must flush dirty CLOG frames to disk"
    );
}

/// The commit log that a database carries.
struct ClogOf(Shared<Db>);

impl ClogAccessor for ClogOf {
    fn state_of(&self, xid: TxnId) -> TxnState {
        self.get_state(xid)
    }

    fn recorded(_before: &Self, _xid: TxnId, _state: TxnState, _after: &Self) -> bool {
        true
    }

    fn get_state(&self, xid: TxnId) -> TxnState {
        self.0 .0.borrow().clog.as_ref().unwrap().get_state(xid)
    }

    fn set_state(&mut self, xid: TxnId, state: TxnState) {
        self.0
             .0
            .borrow_mut()
            .clog
            .as_mut()
            .unwrap()
            .set_state(xid, state)
    }
}

#[test]
fn txn_redo_rebuilds_disk_clog_after_crash() {
    let config = StorageConfig::default();
    let db = Shared::new(new_db(&config));
    let clog = Shared::new(DiskClog::open(8));
    let mut mgr = TxnManager::new(TxnIdClock::new(TxnId::first()), db.share(), clog);
    let (committed, aborted, open) = run_transactions(&mut mgr);
    let disk = into_disk(db);

    let (mut db, clog) = Db::open_with_redo_and_clog(disk, &config, DiskClog::open(8));
    for xid in &committed {
        assert_eq!(clog.get_state(*xid), TxnState::Committed, "xid {xid:?}");
    }
    for xid in &aborted {
        assert_eq!(clog.get_state(*xid), TxnState::Aborted, "xid {xid:?}");
    }
    assert_eq!(clog.get_state(open), TxnState::InProgress);

    db.clog = Some(clog);
    db.trigger_checkpoint().unwrap();
    let pages = db.clog.take().unwrap().pages.into_inner();

    let (_db, clog) = Db::open_with_redo_and_clog(db.disk, &config, DiskClog::over(8, pages));
    for xid in &committed {
        assert_eq!(clog.get_state(*xid), TxnState::Committed, "xid {xid:?}");
    }
    for xid in &aborted {
        assert_eq!(clog.get_state(*xid), TxnState::Aborted, "xid {xid:?}");
    }
    assert_eq!(clog.get_state(open), TxnState::InProgress);
}

#[test]
fn clog_is_rebuilt_from_wal_after_restart() {
    let config = StorageConfig::default();
    let db = Shared::new(new_db(&config));
    let clog = InMemoryClogAccessor::new();
    let mut mgr = TxnManager::new(TxnIdClock::new(TxnId::first()), db.share(), clog);
    let (committed, aborted, _) = run_transactions(&mut mgr);
    let disk = into_disk(db);

    let (mut db, clog) =
        Db::open_with_redo_and_clog(disk, &config, InMemoryClogAccessor::new());
    for xid in &committed {
        assert_eq!(
            clog.get_state(*xid),
            TxnState::Committed,
            "xid {xid:?} should replay as committed"
        );
    }
    for xid in &aborted {
        assert_eq!(
            clog.get_state(*xid),
            TxnState::Aborted,
            "xid {xid:?} should replay as aborted"
        );
    }
    let max_used = committed
        .iter()
        .chain(&aborted)
        .max()
        .copied()
        .expect("some XIDs were allocated");
    let next = db.txn_id_clock.allocate();
    assert!(
        next > max_used,
        "clock handed out {next:?} which is not past the recovered high-water {max_used:?}"
    );
}

#[test]
fn clog_is_rebuilt_from_wal_after_crash() {
    let config = StorageConfig::default();
    let db = Shared::new(new_db(&config));
    let clog = InMemoryClogAccessor::new();
    let mut mgr = TxnManager::new(TxnIdClock::new(TxnId::first()), db.share(), clog);
    let (committed, aborted, open) = run_transactions(&mut mgr);
    let disk = into_disk(db);

    let (db, clog) = Db::open_with_redo_and_clog(disk, &config, InMemoryClogAccessor::new());
    for xid in &committed {
        assert_eq!(clog.get_state(*xid), TxnState::Committed);
    }
    for xid in &aborted {
        assert_eq!(clog.get_state(*xid), TxnState::Aborted);
    }
    assert_eq!(
        clog.get_state(open),
        TxnState::InProgress,
        "a transaction that never reached commit must stay in-progress"
    );
    let max_terminal = committed.iter().chain(&aborted).max().copied().unwrap();
    assert!(db.txn_id_clock.current() > max_terminal);
}

#[test]
fn recovery_with_handlers_refuses_unknown_records() {
    let config = StorageConfig::default();
    let mut db = new_db(&config);
    db.append(heap_insert()).unwrap();
    let mut registry: RedoRegistry<NoOpClogAccessor, StandardHandler> = RedoRegistry::new();
    for handler in storage_redo_handlers() {
        registry.register(handler);
    }
    let files = Db::files(&db.disk, &config);
    let result = StorageEngine::recover_with_redo(config, &files, &registry, NoOpClogAccessor);
    assert!(matches!(
        result.err(),
        Some(StorageError::UnknownRecord {
            record_type: 1,
            lsn: Lsn(8)
        })
    ));
}

#[test]
fn commit_goes_through_a_log_of_its_own() {
    let db = new_db(&StorageConfig::default());
    let mut mgr = TxnManager::new(
        TxnIdClock::new(TxnId::first()),
        DbWal(db),
        InMemoryClogAccessor::new(),
    );
    let xid = mgr.begin_txn();
    mgr.commit_txn(xid).unwrap();
    assert!(mgr.active_xids().is_empty());
}
