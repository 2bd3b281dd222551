//! Crash recovery.
//!
//! Recovery replays the log. A [`RedoRegistry`] hands each record to the one
//! [`RedoHandler`] for its type. A record that no handler takes is an error: nothing
//! is ever skipped.

use std::collections::HashMap;
use std::marker::PhantomData;

use vstd::bytes::*;
use vstd::prelude::*;

use crate::clog::ClogAccessor;
use crate::codec::{le_u64, push_u64, read_u64};
use crate::error::{Result, StorageError};
use crate::keys::{lists, sorted_keys};
use crate::page::{pd_lsn_reads_back, set_page_pd_lsn, with_pd_lsn};
use crate::page_allocator::{replay_refused, replayed, PageAllocator};
use crate::types::{Lsn, PageId, TxnId, PAGE_SIZE};
use crate::wal::record::{
    image_payload_reads_back, is_serialize_error, stored_image, type_byte, FullPageImageRecord,
    RecordView, WalRecord, WalRecordType,
};
use crate::wire::{blob, varint};

verus! {

/// `xids` lists the transactions of `active`, ascending.
pub open spec fn lists_xids(xids: Seq<TxnId>, active: Set<u64>) -> bool {
    lists(Seq::new(xids.len(), |i: int| xids[i].0), active)
}

/// Knows which transactions are in progress; a checkpoint records them.
pub trait AttProvider {
    /// `xid` is in progress.
    spec fn in_progress(&self, xid: TxnId) -> bool;

    /// The transactions in progress, ascending.
    fn active_xids(&self) -> (xids: Vec<TxnId>)
        ensures
            lists_xids(xids@, Set::new(|xid: u64| self.in_progress(TxnId(xid)))),
    ;
}

/// A table of LSNs as bytes: key and LSN, eight bytes each (little-endian), for each
/// key in order.
pub open spec fn table_bytes(keys: Seq<u64>, table: Map<u64, Lsn>) -> Seq<u8>
    decreases keys.len(),
{
    if keys.len() == 0 {
        Seq::empty()
    } else {
        table_bytes(keys.drop_last(), table) + spec_u64_to_le_bytes(keys.last())
            + spec_u64_to_le_bytes(table[keys.last()].0)
    }
}

/// `bytes` holds the table, by ascending key.
pub open spec fn holds_table(bytes: Seq<u8>, table: Map<u64, Lsn>) -> bool {
    exists|keys: Seq<u64>| #[trigger]
        lists(keys, table.dom()) && bytes == table_bytes(keys, table)
}

/// The first `n` entries of a table.
pub open spec fn table_entries(bytes: Seq<u8>, n: nat) -> Map<u64, Lsn>
    decreases n,
{
    if n == 0 {
        Map::empty()
    } else {
        table_entries(bytes, (n - 1) as nat).insert(
            le_u64(bytes, 16 * (n - 1)),
            Lsn(le_u64(bytes, 16 * (n - 1) + 8)),
        )
    }
}

/// The table that `bytes` hold; `None` for bytes that are not made of whole entries.
pub open spec fn stored_table(bytes: Seq<u8>) -> Option<Map<u64, Lsn>> {
    if bytes.len() % 16 == 0 {
        Some(table_entries(bytes, bytes.len() / 16))
    } else {
        None
    }
}

/// A table reads back from its bytes.
pub proof fn table_reads_back(bytes: Seq<u8>, table: Map<u64, Lsn>)
    requires
        holds_table(bytes, table),
    ensures
        stored_table(bytes) == Some(table),
{
    let keys = choose|keys: Seq<u64>| #[trigger]
        lists(keys, table.dom()) && bytes == table_bytes(keys, table);
    entries_read_back(keys, table, Seq::empty());
    assert(bytes + Seq::<u8>::empty() =~= bytes);
    assert(table_entries(bytes, keys.len()) =~= table) by {
        assert forall|k: u64| table.contains_key(k) implies keys.contains(k) by {
            assert(table.dom().contains(k));
        }
    }
}

proof fn entries_read_back(keys: Seq<u64>, table: Map<u64, Lsn>, rest: Seq<u8>)
    ensures
        table_bytes(keys, table).len() == 16 * keys.len(),
        forall|k: u64| #[trigger]
            table_entries(table_bytes(keys, table) + rest, keys.len()).contains_key(k)
                <==> keys.contains(k),
        forall|k: u64|
            keys.contains(k) ==> #[trigger] table_entries(
                table_bytes(keys, table) + rest,
                keys.len(),
            )[k] == table[k],
    decreases keys.len(),
{
    lemma_auto_spec_u64_to_from_le_bytes();
    if keys.len() > 0 {
        let front = keys.drop_last();
        let key = spec_u64_to_le_bytes(keys.last());
        let lsn = spec_u64_to_le_bytes(table[keys.last()].0);
        let tail = key + lsn + rest;
        entries_read_back(front, table, tail);
        let n = 16 * front.len() as int;
        let bytes = table_bytes(keys, table) + rest;
        assert(bytes =~= table_bytes(front, table) + tail);
        assert(bytes.subrange(n, n + 8) =~= key);
        assert(bytes.subrange(n + 8, n + 16) =~= lsn);
        let before = table_entries(bytes, front.len());
        let after = table_entries(bytes, keys.len());
        assert(after == before.insert(keys.last(), table[keys.last()]));
        assert forall|k: u64| #[trigger] after.contains_key(k) <==> keys.contains(k) by {
            assert(before.contains_key(k) <==> front.contains(k));
            if keys.contains(k) {
                let i = choose|i: int| 0 <= i < keys.len() && keys[i] == k;
                if i < front.len() {
                    assert(front[i] == k);
                }
            }
            if front.contains(k) {
                let i = choose|i: int| 0 <= i < front.len() && front[i] == k;
                assert(keys[i] == k);
            }
            if k == keys.last() {
                assert(keys[keys.len() - 1] == k);
            }
        }
        assert forall|k: u64| keys.contains(k) implies #[trigger] after[k] == table[k] by {
            if k != keys.last() {
                let i = choose|i: int| 0 <= i < keys.len() && keys[i] == k;
                assert(front[i] == k);
                assert(before[k] == table[k]);
            }
        }
    }
}

fn decode_table(bytes: &[u8]) -> (table: Option<HashMap<u64, Lsn>>)
    ensures
        match stored_table(bytes@) {
            Some(stored) => table matches Some(read) && read@ == stored,
            None => table is None,
        },
{
    broadcast use vstd::std_specs::hash::group_hash_axioms;

    if bytes.len() % 16 != 0 {
        return None;
    }
    let mut table: HashMap<u64, Lsn> = HashMap::new();
    let n: usize = bytes.len() / 16;
    let mut i: usize = 0;
    while i < n
        invariant
            i <= n,
            16 * n == bytes.len(),
            table@ == table_entries(bytes@, i as nat),
        decreases n - i,
    {
        broadcast use vstd::std_specs::hash::group_hash_axioms;

        let key: u64 = read_u64(bytes, 16 * i);
        let lsn: u64 = read_u64(bytes, 16 * i + 8);
        table.insert(key, Lsn(lsn));
        i += 1;
    }
    Some(table)
}

fn encode_table(table: &HashMap<u64, Lsn>) -> (bytes: Vec<u8>)
    ensures
        holds_table(bytes@, table@),
{
    broadcast use vstd::std_specs::hash::group_hash_axioms;

    let keys = sorted_keys(table);
    let mut bytes: Vec<u8> = Vec::new();
    let mut i: usize = 0;
    while i < keys.len()
        invariant
            i <= keys.len(),
            lists(keys@, table@.dom()),
            bytes@ == table_bytes(keys@.take(i as int), table@),
        decreases keys.len() - i,
    {
        broadcast use vstd::std_specs::hash::group_hash_axioms;

        let key: u64 = keys[i];
        assert(keys@.contains(key));
        assert(keys@.take(i + 1).drop_last() =~= keys@.take(i as int));
        assert(keys@.take(i + 1).last() == key);
        if let Some(lsn) = table.get(&key) {
            push_u64(&mut bytes, key);
            push_u64(&mut bytes, lsn.0);
        }
        i += 1;
    }
    assert(keys@.take(i as int) =~= keys@);
    bytes
}

/// The table that a snapshot file holds; empty if there is none or it does not hold one.
pub open spec fn snapshot_table(file: Option<Vec<u8>>) -> Map<u64, Lsn> {
    match file {
        Some(bytes) => match stored_table(bytes@) {
            Some(table) => table,
            None => Map::empty(),
        },
        None => Map::empty(),
    }
}

fn snapshot(file: &Option<Vec<u8>>) -> (table: Option<HashMap<u64, Lsn>>)
    ensures
        match table {
            Some(read) => read@ == snapshot_table(*file),
            None => snapshot_table(*file) == Map::<u64, Lsn>::empty(),
        },
{
    match file {
        Some(bytes) => decode_table(bytes.as_slice()),
        None => None,
    }
}

/// The transactions that were in progress, each with its last record.
#[derive(Debug)]
pub struct ActiveXactTable {
    last_lsn: HashMap<u64, Lsn>,
}

impl View for ActiveXactTable {
    type V = Map<u64, Lsn>;

    closed spec fn view(&self) -> Map<u64, Lsn> {
        self.last_lsn@
    }
}

/// These transactions, without a record.
pub open spec fn unrecorded(xids: Seq<TxnId>) -> Map<u64, Lsn>
    decreases xids.len(),
{
    if xids.len() == 0 {
        Map::empty()
    } else {
        unrecorded(xids.drop_last()).insert(xids.last().0, Lsn(0))
    }
}

impl ActiveXactTable {
    /// An empty table.
    pub fn new() -> (table: Self)
        ensures
            table@ == Map::<u64, Lsn>::empty(),
    {
        ActiveXactTable { last_lsn: HashMap::new() }
    }

    /// The table in the snapshot file of a checkpoint; an empty one if the file is missing
    /// or not made of whole entries, so that the log alone says what is in progress.
    pub fn from_snapshot(file: &Option<Vec<u8>>) -> (table: Self)
        ensures
            table@ == snapshot_table(*file),
    {
        match snapshot(file) {
            Some(last_lsn) => ActiveXactTable { last_lsn },
            None => ActiveXactTable::new(),
        }
    }

    /// A table of these transactions, of which no record is known.
    pub fn of_xids(xids: &Vec<TxnId>) -> (table: Self)
        ensures
            table@ == unrecorded(xids@),
    {
        let mut table = ActiveXactTable::new();
        let mut i: usize = 0;
        assert(xids@.take(0) =~= Seq::empty());
        while i < xids.len()
            invariant
                i <= xids.len(),
                table@ == unrecorded(xids@.take(i as int)),
            decreases xids.len() - i,
        {
            assert(xids@.take(i + 1).drop_last() =~= xids@.take(i as int));
            table.add(xids[i], Lsn::invalid());
            i += 1;
        }
        assert(xids@.take(i as int) =~= xids@);
        table
    }

    /// Notes the last record of a transaction.
    pub fn add(&mut self, txn_id: TxnId, lsn: Lsn)
        ensures
            final(self)@ == old(self)@.insert(txn_id.0, lsn),
    {
        broadcast use vstd::std_specs::hash::group_hash_axioms;

        self.last_lsn.insert(txn_id.0, lsn);
    }

    /// Forgets a transaction that ended.
    pub fn remove(&mut self, txn_id: TxnId)
        ensures
            final(self)@ == old(self)@.remove(txn_id.0),
    {
        broadcast use vstd::std_specs::hash::group_hash_axioms;

        self.last_lsn.remove(&txn_id.0);
    }

    /// The number of transactions.
    pub fn len(&self) -> (len: usize)
        ensures
            len == self@.len(),
    {
        broadcast use vstd::std_specs::hash::group_hash_axioms;

        self.last_lsn.len()
    }

    /// Whether there are none.
    pub fn is_empty(&self) -> (empty: bool)
        ensures
            empty <==> self@.len() == 0,
    {
        self.len() == 0
    }

    /// The table as bytes, for the snapshot file of a checkpoint.
    pub fn encode(&self) -> (bytes: Vec<u8>)
        ensures
            holds_table(bytes@, self@),
    {
        encode_table(&self.last_lsn)
    }

    /// The transactions, ascending.
    pub fn xids(&self) -> (xids: Vec<TxnId>)
        ensures
            lists_xids(xids@, self@.dom()),
    {
        let keys = sorted_keys(&self.last_lsn);
        let mut xids: Vec<TxnId> = Vec::new();
        let mut i: usize = 0;
        while i < keys.len()
            invariant
                i <= keys.len(),
                xids@.len() == i,
                forall|k: int| 0 <= k < i ==> (#[trigger] xids@[k]).0 == keys@[k],
            decreases keys.len() - i,
        {
            xids.push(TxnId(keys[i]));
            i += 1;
        }
        assert(Seq::new(xids@.len(), |k: int| xids@[k].0) =~= keys@);
        xids
    }
}

impl Default for ActiveXactTable {
    fn default() -> (table: Self)
        ensures
            table@ == Map::<u64, Lsn>::empty(),
    {
        ActiveXactTable::new()
    }
}

/// The dirty pages, each with the oldest record that may have to be replayed for it.
#[derive(Debug)]
pub struct DirtyPageTable {
    rec_lsn: HashMap<u64, Lsn>,
}

impl View for DirtyPageTable {
    type V = Map<u64, Lsn>;

    closed spec fn view(&self) -> Map<u64, Lsn> {
        self.rec_lsn@
    }
}

impl DirtyPageTable {
    /// An empty table.
    pub fn new() -> (table: Self)
        ensures
            table@ == Map::<u64, Lsn>::empty(),
    {
        DirtyPageTable { rec_lsn: HashMap::new() }
    }

    /// The table in the snapshot file of a checkpoint; an empty one if the file is missing
    /// or not made of whole entries.
    pub fn from_snapshot(file: &Option<Vec<u8>>) -> (table: Self)
        ensures
            table@ == snapshot_table(*file),
    {
        match snapshot(file) {
            Some(rec_lsn) => DirtyPageTable { rec_lsn },
            None => DirtyPageTable::new(),
        }
    }

    /// Notes that a page is dirty since `rec_lsn`.
    pub fn add(&mut self, page_id: PageId, rec_lsn: Lsn)
        ensures
            final(self)@ == old(self)@.insert(page_id.0, rec_lsn),
    {
        broadcast use vstd::std_specs::hash::group_hash_axioms;

        self.rec_lsn.insert(page_id.0, rec_lsn);
    }

    /// Since when a page is dirty; `None` if it is not.
    pub fn get(&self, page_id: PageId) -> (lsn: Option<Lsn>)
        ensures
            lsn == if self@.contains_key(page_id.0) {
                Some(self@[page_id.0])
            } else {
                None
            },
    {
        broadcast use vstd::std_specs::hash::group_hash_axioms;

        match self.rec_lsn.get(&page_id.0) {
            Some(lsn) => Some(*lsn),
            None => None,
        }
    }

    /// The number of pages.
    pub fn len(&self) -> (len: usize)
        ensures
            len == self@.len(),
    {
        broadcast use vstd::std_specs::hash::group_hash_axioms;

        self.rec_lsn.len()
    }

    /// Whether there are none.
    pub fn is_empty(&self) -> (empty: bool)
        ensures
            empty <==> self@.len() == 0,
    {
        self.len() == 0
    }
}

impl DirtyPageTable {
    /// The table as bytes, for the snapshot file of a checkpoint.
    pub fn encode(&self) -> (bytes: Vec<u8>)
        ensures
            holds_table(bytes@, self@),
    {
        encode_table(&self.rec_lsn)
    }
}

impl Default for DirtyPageTable {
    fn default() -> (table: Self)
        ensures
            table@ == Map::<u64, Lsn>::empty(),
    {
        DirtyPageTable::new()
    }
}

/// A write to the data file.
#[derive(Debug, Clone, PartialEq, Eq)]
pub struct PageWrite {
    /// Where the bytes go.
    pub offset: u64,
    /// The bytes.
    pub content: Vec<u8>,
}

/// What a write to the data file comes to: where, and which bytes.
pub open spec fn write_views(writes: Seq<PageWrite>) -> Seq<(u64, Seq<u8>)> {
    writes.map_values(|write: PageWrite| (write.offset, write.content@))
}

/// What replaying works on. The writes are for the data file, which its caller holds.
pub struct RedoContext<C: ClogAccessor> {
    /// The page allocator.
    pub page_allocator: PageAllocator,
    /// The commit log.
    pub clog: C,
    /// The transactions in progress.
    pub att: ActiveXactTable,
    /// The dirty pages.
    pub dpt: DirtyPageTable,
    /// What to write to the data file, in this order.
    pub page_writes: Vec<PageWrite>,
}

impl<C: ClogAccessor> RedoContext<C> {
    /// Only the page allocator differs from `before`.
    pub open spec fn same_but_allocator(&self, before: &Self) -> bool {
        &&& self.clog == before.clog
        &&& self.att == before.att
        &&& self.dpt == before.dpt
        &&& self.page_writes == before.page_writes
    }

    /// Only the commit log differs from `before`.
    pub open spec fn same_but_clog(&self, before: &Self) -> bool {
        &&& self.page_allocator == before.page_allocator
        &&& self.att == before.att
        &&& self.dpt == before.dpt
        &&& self.page_writes == before.page_writes
    }

    /// Only what is to be written differs from `before`.
    pub open spec fn same_but_writes(&self, before: &Self) -> bool {
        &&& self.page_allocator == before.page_allocator
        &&& self.clog == before.clog
        &&& self.att == before.att
        &&& self.dpt == before.dpt
    }
}

/// Replays the records of one type.
pub trait RedoHandler<C: ClogAccessor> {
    /// The type of the records.
    spec fn record_kind(&self) -> WalRecordType;

    /// Replaying `record` takes `before` to `after`, with this result.
    spec fn redone(
        &self,
        record: &WalRecord,
        before: &RedoContext<C>,
        after: &RedoContext<C>,
        result: Result<()>,
    ) -> bool;

    /// The type of the records.
    fn kind(&self) -> (kind: WalRecordType)
        ensures
            kind == self.record_kind(),
    ;

    /// Replays a record.
    fn apply(&self, record: &WalRecord, ctx: &mut RedoContext<C>) -> (result: Result<()>)
        ensures
            self.redone(record, old(ctx), final(ctx), result),
    ;
}

/// The handlers, one for each type of record.
pub struct RedoRegistry<C: ClogAccessor, H: RedoHandler<C>> {
    handlers: Vec<H>,
    clog: PhantomData<C>,
}

impl<C: ClogAccessor, H: RedoHandler<C>> RedoRegistry<C, H> {
    /// The handlers, in the order of their registration.
    pub closed spec fn handlers(&self) -> Seq<H> {
        self.handlers@
    }

    /// No handlers.
    pub fn new() -> (registry: Self)
        ensures
            registry.wf(),
            registry.handlers().len() == 0,
    {
        RedoRegistry { handlers: Vec::new(), clog: PhantomData }
    }

    /// There is a handler for the type.
    pub open spec fn handles(&self, kind: WalRecordType) -> bool {
        exists|i: int|
            0 <= i < self.handlers().len() && (#[trigger] self.handlers()[i]).record_kind() == kind
    }

    /// No type has two handlers.
    pub open spec fn wf(&self) -> bool {
        forall|i: int, j: int|
            0 <= i < j < self.handlers().len() ==> (#[trigger] self.handlers()[i]).record_kind()
                != (#[trigger] self.handlers()[j]).record_kind()
    }

    /// Replaying `record` takes `before` to `after` with this result: the handler for
    /// its type did it, or there is none.
    pub open spec fn applied(
        &self,
        record: &WalRecord,
        before: &RedoContext<C>,
        after: &RedoContext<C>,
        result: Result<()>,
    ) -> bool {
        if self.handles(record.record_type) {
            exists|i: int|
                0 <= i < self.handlers().len() && (#[trigger] self.handlers()[i]).record_kind()
                    == record.record_type && self.handlers()[i].redone(
                    record,
                    before,
                    after,
                    result,
                )
        } else {
            &&& after == before
            &&& result matches Err(StorageError::UnknownRecord { record_type, lsn })
            &&& record_type == type_byte(record.record_type)
            &&& lsn == record.lsn
        }
    }

    /// Adds a handler for a type that has none yet.
    pub fn register(&mut self, handler: H)
        requires
            old(self).wf(),
            !old(self).handles(handler.record_kind()),
        ensures
            final(self).wf(),
            final(self).handlers() == old(self).handlers().push(handler),
    {
        let ghost before = self.handlers();
        self.handlers.push(handler);
        assert(self.handlers() =~= before.push(handler));
        assert forall|i: int, j: int| 0 <= i < j < self.handlers().len() implies (
        #[trigger] self.handlers()[i]).record_kind() != (
        #[trigger] self.handlers()[j]).record_kind() by {
            assert(self.handlers()[i] == before[i]);
            if j < before.len() {
                assert(self.handlers()[j] == before[j]);
            }
        }
    }

    /// Whether there is a handler for the type.
    pub fn has_handler(&self, kind: WalRecordType) -> (yes: bool)
        ensures
            yes <==> self.handles(kind),
    {
        let mut i: usize = 0;
        while i < self.handlers.len()
            invariant
                i <= self.handlers.len(),
                forall|k: int|
                    0 <= k < i ==> (#[trigger] self.handlers()[k]).record_kind() != kind,
            decreases self.handlers.len() - i,
        {
            if self.handlers[i].kind() == kind {
                assert(self.handlers()[i as int].record_kind() == kind);
                return true;
            }
            i += 1;
        }
        false
    }

    /// Hands a record to the handler for its type.
    pub fn apply(&self, record: &WalRecord, ctx: &mut RedoContext<C>) -> (result: Result<()>)
        ensures
            self.applied(record, old(ctx), final(ctx), result),
    {
        let mut i: usize = 0;
        while i < self.handlers.len()
            invariant
                i <= self.handlers.len(),
                *ctx == *old(ctx),
                forall|k: int|
                    0 <= k < i ==> (#[trigger] self.handlers()[k]).record_kind()
                        != record.record_type,
            decreases self.handlers.len() - i,
        {
            if self.handlers[i].kind() == record.record_type {
                let result = self.handlers[i].apply(record, ctx);
                assert(self.handlers()[i as int].record_kind() == record.record_type);
                return result;
            }
            i += 1;
        }
        Err(
            StorageError::UnknownRecord {
                record_type: record.record_type.to_u8(),
                lsn: record.lsn,
            },
        )
    }
}

/// Nothing is ever skipped: a record for whose type there is no handler is refused, with its
/// type and its place, and changes nothing.
pub proof fn unknown_records_are_refused<C: ClogAccessor, H: RedoHandler<C>>(
    registry: &RedoRegistry<C, H>,
    record: &WalRecord,
    before: &RedoContext<C>,
    after: &RedoContext<C>,
    result: Result<()>,
)
    requires
        registry.applied(record, before, after, result),
        forall|i: int|
            0 <= i < registry.handlers().len() ==> (
            #[trigger] registry.handlers()[i]).record_kind() != record.record_type,
    ensures
        result matches Err(StorageError::UnknownRecord { record_type, lsn }) && record_type
            == type_byte(record.record_type) && lsn == record.lsn,
        after == before,
{
}

/// A record is replayed by the handler for its type, and by no other.
pub proof fn record_goes_to_its_handler<C: ClogAccessor, H: RedoHandler<C>>(
    registry: &RedoRegistry<C, H>,
    record: &WalRecord,
    before: &RedoContext<C>,
    after: &RedoContext<C>,
    result: Result<()>,
    i: int,
)
    requires
        registry.wf(),
        registry.applied(record, before, after, result),
        0 <= i < registry.handlers().len(),
        registry.handlers()[i].record_kind() == record.record_type,
    ensures
        registry.handlers()[i].redone(record, before, after, result),
{
    let handlers = registry.handlers();
    let j = choose|j: int|
        0 <= j < handlers.len() && (#[trigger] handlers[j]).record_kind() == record.record_type
            && handlers[j].redone(record, before, after, result);
    if i < j {
        assert(handlers[i].record_kind() != handlers[j].record_kind());
    } else if j < i {
        assert(handlers[j].record_kind() != handlers[i].record_kind());
    }
}

/// Replaying a page image adds one write and changes nothing else: the image, to the place of
/// its page, with the LSN of the record in its first eight bytes.
pub proof fn image_handler_writes_the_page<C: ClogAccessor>(
    handler: FullPageImageRedoHandler,
    record: &WalRecord,
    before: &RedoContext<C>,
    after: &RedoContext<C>,
    result: Result<()>,
    page_id: PageId,
    image: Seq<u8>,
)
    requires
        handler.redone(record, before, after, result),
        record.payload@ == varint(page_id.0) + blob(image),
        8 <= image.len() <= usize::MAX,
        page_id.0 > 0,
        (page_id.0 - 1) * 8192 <= u64::MAX,
    ensures
        result is Ok,
        ({
            let n = before.page_writes@.len() as int;
            let writes = after.page_writes@;
            &&& writes.len() == n + 1
            &&& forall|i: int|
                0 <= i < n ==> (#[trigger] writes[i]).offset == before.page_writes@[i].offset
                    && writes[i].content@ == before.page_writes@[i].content@
            &&& writes[n].offset == (page_id.0 - 1) * 8192
            &&& writes[n].content@.len() == image.len()
            &&& writes[n].content@.skip(8) == image.skip(8)
            &&& le_u64(writes[n].content@, 0) == record.lsn.0
        }),
        after.page_allocator == before.page_allocator,
        after.clog == before.clog,
        after.att == before.att,
        after.dpt == before.dpt,
{
    image_payload_reads_back(page_id, image);
    pd_lsn_reads_back(image, record.lsn);
    let n = before.page_writes@.len() as int;
    let old_views = write_views(before.page_writes@);
    let views = write_views(after.page_writes@);
    assert(views.len() == after.page_writes@.len());
    assert(views[n] == (((page_id.0 - 1) * 8192) as u64, with_pd_lsn(image, record.lsn)));
    assert(after.page_writes@[n].content@ == views[n].1);
    assert(after.page_writes@[n].content@.skip(8) =~= image.skip(8));
    assert forall|i: int| 0 <= i < n implies (#[trigger] after.page_writes@[i]).offset
        == before.page_writes@[i].offset && after.page_writes@[i].content@
        == before.page_writes@[i].content@ by {
        assert(views[i] == old_views[i]);
    }
}

/// The table of some transactions names exactly these.
pub proof fn table_names_the_transactions(xids: Seq<TxnId>, xid: u64)
    ensures
        unrecorded(xids).contains_key(xid) <==> exists|i: int|
            0 <= i < xids.len() && (#[trigger] xids[i]).0 == xid,
    decreases xids.len(),
{
    if xids.len() > 0 {
        let front = xids.drop_last();
        table_names_the_transactions(front, xid);
        if exists|i: int| 0 <= i < front.len() && (#[trigger] front[i]).0 == xid {
            let i = choose|i: int| 0 <= i < front.len() && (#[trigger] front[i]).0 == xid;
            assert(xids[i].0 == xid);
        }
        if exists|i: int| 0 <= i < xids.len() && (#[trigger] xids[i]).0 == xid {
            let i = choose|i: int| 0 <= i < xids.len() && (#[trigger] xids[i]).0 == xid;
            if i < front.len() {
                assert(front[i].0 == xid);
            }
        }
        assert(xids[xids.len() - 1] == xids.last());
    }
}

/// What a checkpoint records of the transactions in progress is what recovery takes from it:
/// exactly these transactions.
pub proof fn checkpointed_transactions_are_read_back(
    file: Vec<u8>,
    xids: Seq<TxnId>,
    xid: u64,
)
    requires
        holds_table(file@, unrecorded(xids)),
    ensures
        snapshot_table(Some(file)) == unrecorded(xids),
        snapshot_table(Some(file)).contains_key(xid) <==> exists|i: int|
            0 <= i < xids.len() && (#[trigger] xids[i]).0 == xid,
        snapshot_table(None) == Map::<u64, Lsn>::empty(),
{
    table_reads_back(file@, unrecorded(xids));
    table_names_the_transactions(xids, xid);
}

/// Replaying an allocation or a release does to the page allocator what the record
/// says, and nothing else; a record that cannot be read changes nothing.
pub open spec fn allocator_redone<C: ClogAccessor>(
    record: RecordView,
    before: &RedoContext<C>,
    after: &RedoContext<C>,
    result: Result<()>,
) -> bool {
    &&& result is Ok <==> replayed(before.page_allocator@, record) is Some
    &&& result is Ok ==> after.page_allocator@ == replayed(before.page_allocator@, record)->0
    &&& result is Err ==> after.page_allocator == before.page_allocator && replay_refused(
        record,
        result,
    )
    &&& after.same_but_allocator(before)
}

/// Replays `PageAlloc` records.
pub struct PageAllocRedoHandler;

impl<C: ClogAccessor> RedoHandler<C> for PageAllocRedoHandler {
    open spec fn record_kind(&self) -> WalRecordType {
        WalRecordType::PageAlloc
    }

    open spec fn redone(
        &self,
        record: &WalRecord,
        before: &RedoContext<C>,
        after: &RedoContext<C>,
        result: Result<()>,
    ) -> bool {
        allocator_redone(record@, before, after, result)
    }

    fn kind(&self) -> (kind: WalRecordType) {
        WalRecordType::PageAlloc
    }

    fn apply(&self, record: &WalRecord, ctx: &mut RedoContext<C>) -> (result: Result<()>) {
        ctx.page_allocator.replay_record(record)
    }
}

/// Replays `PageFree` records.
pub struct PageFreeRedoHandler;

impl<C: ClogAccessor> RedoHandler<C> for PageFreeRedoHandler {
    open spec fn record_kind(&self) -> WalRecordType {
        WalRecordType::PageFree
    }

    open spec fn redone(
        &self,
        record: &WalRecord,
        before: &RedoContext<C>,
        after: &RedoContext<C>,
        result: Result<()>,
    ) -> bool {
        allocator_redone(record@, before, after, result)
    }

    fn kind(&self) -> (kind: WalRecordType) {
        WalRecordType::PageFree
    }

    fn apply(&self, record: &WalRecord, ctx: &mut RedoContext<C>) -> (result: Result<()>) {
        ctx.page_allocator.replay_record(record)
    }
}

/// Where a page is in the data file.
pub open spec fn page_offset(page_id: PageId) -> int {
    (page_id.0 - 1) * PAGE_SIZE
}

/// A page has a place in the data file.
pub open spec fn has_offset(page_id: PageId) -> bool {
    page_id.0 > 0 && page_offset(page_id) <= u64::MAX
}

/// Where a page is in the data file; `None` for page 0, and for pages beyond what a
/// file can hold.
pub fn offset_of(page_id: PageId) -> (offset: Option<u64>)
    ensures
        offset is Some <==> has_offset(page_id),
        offset matches Some(offset) ==> offset == page_offset(page_id),
{
    if page_id.0 == 0 {
        return None;
    }
    (page_id.0 - 1).checked_mul(PAGE_SIZE as u64)
}

/// What a page image writes to the data file: the image, with the LSN of the record
/// as the `pd_lsn` of the page.
pub open spec fn image_redone<C: ClogAccessor>(
    record: &WalRecord,
    before: &RedoContext<C>,
    after: &RedoContext<C>,
    result: Result<()>,
) -> bool {
    &&& after.same_but_writes(before)
    &&& match stored_image(record@.payload) {
        Some((page_id, image)) => {
            &&& result is Ok <==> has_offset(page_id) && image.len() >= 8
            &&& result matches Err(e) ==> e == StorageError::WalCorrupted(record.lsn)
            &&& result is Ok ==> write_views(after.page_writes@) == write_views(
                before.page_writes@,
            ).push((page_offset(page_id) as u64, with_pd_lsn(image, record.lsn)))
        },
        None => is_serialize_error(result),
    }
    &&& result is Err ==> after.page_writes == before.page_writes
}

/// Replays `FullPageImage` records: the image goes to the data file, and the page
/// bears the LSN of the record.
pub struct FullPageImageRedoHandler;

impl<C: ClogAccessor> RedoHandler<C> for FullPageImageRedoHandler {
    open spec fn record_kind(&self) -> WalRecordType {
        WalRecordType::FullPageImage
    }

    open spec fn redone(
        &self,
        record: &WalRecord,
        before: &RedoContext<C>,
        after: &RedoContext<C>,
        result: Result<()>,
    ) -> bool {
        image_redone(record, before, after, result)
    }

    fn kind(&self) -> (kind: WalRecordType) {
        WalRecordType::FullPageImage
    }

    fn apply(&self, record: &WalRecord, ctx: &mut RedoContext<C>) -> (result: Result<()>) {
        let decoded = FullPageImageRecord::decode(record.payload.as_slice())?;
        let offset: u64 = match offset_of(decoded.page_id) {
            Some(offset) => offset,
            None => {
                return Err(StorageError::WalCorrupted(record.lsn));
            },
        };
        let mut content = decoded.image;
        if content.len() < 8 {
            return Err(StorageError::WalCorrupted(record.lsn));
        }
        set_page_pd_lsn(&mut content, record.lsn);
        ctx.page_writes.push(PageWrite { offset, content });
        assert(write_views(ctx.page_writes@) =~= write_views(old(ctx).page_writes@).push(
            (offset, content@),
        ));
        Ok(())
    }
}

/// Takes records that need no replay.
pub struct NoOpRedoHandler {
    /// The type of the records.
    pub kind: WalRecordType,
}

impl NoOpRedoHandler {
    /// A handler for records of a type.
    pub fn new(kind: WalRecordType) -> (handler: Self)
        ensures
            handler.kind == kind,
    {
        NoOpRedoHandler { kind }
    }
}

impl<C: ClogAccessor> RedoHandler<C> for NoOpRedoHandler {
    open spec fn record_kind(&self) -> WalRecordType {
        self.kind
    }

    open spec fn redone(
        &self,
        record: &WalRecord,
        before: &RedoContext<C>,
        after: &RedoContext<C>,
        result: Result<()>,
    ) -> bool {
        result is Ok && after == before
    }

    fn kind(&self) -> (kind: WalRecordType) {
        self.kind
    }

    fn apply(&self, _record: &WalRecord, _ctx: &mut RedoContext<C>) -> (result: Result<()>) {
        Ok(())
    }
}

/// The transactions of a set are listed each once and in ascending order, and no others.
pub proof fn listed_xids_are_the_members(xids: Seq<TxnId>, active: Set<u64>, xid: u64)
    requires
        lists_xids(xids, active),
    ensures
        active.contains(xid) <==> exists|i: int|
            0 <= i < xids.len() && (#[trigger] xids[i]).0 == xid,
        forall|i: int, j: int|
            0 <= i < j < xids.len() ==> (#[trigger] xids[i]).0 < (#[trigger] xids[j]).0,
{
    let plain = Seq::new(xids.len(), |i: int| xids[i].0);
    assert(plain.contains(xid) <==> active.contains(xid));
    if active.contains(xid) {
        let i = choose|i: int| 0 <= i < plain.len() && plain[i] == xid;
        assert(xids[i].0 == xid);
    }
    if exists|i: int| 0 <= i < xids.len() && (#[trigger] xids[i]).0 == xid {
        let i = choose|i: int| 0 <= i < xids.len() && (#[trigger] xids[i]).0 == xid;
        assert(plain[i] == xid);
    }
    assert forall|i: int, j: int| 0 <= i < j < xids.len() implies (#[trigger] xids[i]).0
        < (#[trigger] xids[j]).0 by {
        assert(plain[i] < plain[j]);
    }
}

/// Page 1 is at the start of the data file, and each page follows the one before; page 0 is
/// nowhere.
pub proof fn pages_follow_each_other(page_id: PageId)
    ensures
        page_offset(PageId(1)) == 0,
        page_id.0 < u64::MAX ==> page_offset(PageId((page_id.0 + 1) as u64)) == page_offset(page_id)
            + 8192,
        has_offset(page_id) <==> 0 < page_id.0 && (page_id.0 - 1) * 8192 <= 0xffff_ffff_ffff_ffff,
{
}

/// Replaying an allocation or a release changes nothing but the page allocator, and not even
/// that if the record cannot be replayed.
pub proof fn allocation_handlers_change_the_allocator<C: ClogAccessor>(
    record: &WalRecord,
    before: &RedoContext<C>,
    after: &RedoContext<C>,
    result: Result<()>,
)
    requires
        PageAllocRedoHandler.redone(record, before, after, result) || PageFreeRedoHandler.redone(
            record,
            before,
            after,
            result,
        ),
    ensures
        after.clog == before.clog,
        after.att == before.att,
        after.dpt == before.dpt,
        after.page_writes == before.page_writes,
        result is Ok ==> replayed(before.page_allocator@, record@) == Some(after.page_allocator@),
        result is Err ==> replayed(before.page_allocator@, record@) is None
            && after.page_allocator == before.page_allocator,
{
}

/// Records that need no replay change nothing and are never refused.
pub proof fn records_without_replay_change_nothing<C: ClogAccessor>(
    handler: NoOpRedoHandler,
    record: &WalRecord,
    before: &RedoContext<C>,
    after: &RedoContext<C>,
    result: Result<()>,
)
    requires
        handler.redone(record, before, after, result),
    ensures
        result is Ok,
        after == before,
{
}

} // verus!
