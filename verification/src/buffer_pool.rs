//! The buffer pool: data pages in memory.
//!
//! A fixed number of frames hold pages; a table in shards says which page is where.
//! A page that is not there takes the place of another, chosen by the CLOCK
//! algorithm. A dirty page is written to the data file first, and before that the
//! log is flushed up to the last record that changed it.
//!
//! The pool decides; its caller does the I/O and reports back:
//!
//! - [`BufferPool::pin`], [`BufferPool::pin_mut`] and [`BufferPool::new_page`] either
//!   find the page or name a frame to be emptied. The caller writes that frame's page
//!   out if it has to ([`BufferPool::page_to_write`], which waits for the log, and
//!   [`BufferPool::frame_flushed`]), empties the frame
//!   ([`BufferPool::frame_evicted`]), and fills it ([`BufferPool::page_loaded`],
//!   [`BufferPool::page_created`]).
//! - Before a page is first changed after a checkpoint,
//!   [`BufferPool::full_page_image`] gives the record to log;
//!   [`BufferPool::image_logged`] takes note of it.

use std::collections::HashMap;

use vstd::prelude::*;

use crate::codec::{le_u64, patched, zeros};
use crate::config::{rejects_config, StorageConfig};
use crate::error::{Result, StorageError};
use crate::page::{pd_lsn_reads_back, set_page_pd_lsn, with_pd_lsn};
use crate::recovery::DirtyPageTable;
use crate::types::{FrameId, Lsn, PageId};
use crate::wal::durable::{durable_records_survive, is_history, LogState, LogStep};
use crate::wal::log::{reaches, records_until};
use crate::wal::reader::log_records;
use crate::wal::record::{unplaced, WalRecord, WalRecordType};
use crate::wal::writer::{write_failed, FlushStep, WalWriter, WriterView};
use crate::wire::{blob, varint};

verus! {

/// A frame.
#[verifier::ext_equal]
pub struct FrameView {
    /// The page in the frame, or 0.
    pub page_id: PageId,
    /// How many hold the page.
    pub pin_count: u32,
    /// Whether the page was changed since it was last on disk.
    pub dirty: bool,
    /// Whether the page was used since the clock hand last came by.
    pub reference: bool,
    /// The last record that changed the page, as far as known.
    pub page_lsn: Lsn,
    /// Whether the page was not logged as a whole since it was loaded.
    pub needs_fpi: bool,
    /// Whether the page is on its way out.
    pub evicting: bool,
    /// The bytes of the page.
    pub content: Seq<u8>,
}

impl FrameView {
    /// The page can be taken out.
    pub open spec fn is_evictable(self) -> bool {
        self.pin_count == 0 && !self.evicting
    }
}

/// A frame without a page.
pub open spec fn empty_frame(page_size: nat) -> FrameView {
    FrameView {
        page_id: PageId(0),
        pin_count: 0,
        dirty: false,
        reference: false,
        page_lsn: Lsn(0),
        needs_fpi: false,
        evicting: false,
        content: zeros(page_size),
    }
}

/// Where the clock hand goes next.
pub open spec fn next_hand(hand: int, n: nat) -> int {
    if hand + 1 >= n {
        0
    } else {
        hand + 1
    }
}

/// How far the clock hand has to go to reach frame `i`.
pub open spec fn distance(hand: int, i: int, n: nat) -> int {
    if i >= hand {
        i - hand
    } else {
        i - hand + n
    }
}

/// The outcome of moving the clock hand.
pub struct Sweep {
    /// The frames.
    pub frames: Seq<FrameView>,
    /// The clock hand.
    pub hand: int,
    /// The frame chosen.
    pub victim: Option<int>,
}

/// Moves the clock hand by at most `steps` frames: it passes pinned frames, takes
/// their reference bit from frames that were used, and stops at the first frame
/// without.
pub open spec fn sweep(frames: Seq<FrameView>, hand: int, steps: nat) -> Sweep
    decreases steps,
{
    if steps == 0 {
        Sweep { frames, hand, victim: None }
    } else {
        let next = next_hand(hand, frames.len());
        let rest = (steps - 1) as nat;
        if !frames[hand].is_evictable() {
            sweep(frames, next, rest)
        } else if frames[hand].reference {
            sweep(
                frames.update(hand, FrameView { reference: false, ..frames[hand] }),
                next,
                rest,
            )
        } else {
            Sweep { frames, hand: next, victim: Some(hand) }
        }
    }
}

/// The clock hand only takes reference bits, and chooses a frame that is neither
/// pinned nor on its way out.
pub proof fn sweep_spares_pinned(frames: Seq<FrameView>, hand: int, steps: nat)
    requires
        0 <= hand < frames.len(),
    ensures
        sweep(frames, hand, steps).frames.len() == frames.len(),
        0 <= sweep(frames, hand, steps).hand < frames.len(),
        forall|i: int|
            0 <= i < frames.len() ==> (#[trigger] sweep(frames, hand, steps).frames[i]
                == frames[i] || sweep(frames, hand, steps).frames[i] == (FrameView {
                reference: false,
                ..frames[i]
            })),
        sweep(frames, hand, steps).victim matches Some(v) ==> 0 <= v < frames.len()
            && frames[v].is_evictable() && !sweep(frames, hand, steps).frames[v].reference,
    decreases steps,
{
    if steps > 0 {
        let next = next_hand(hand, frames.len());
        let rest = (steps - 1) as nat;
        if !frames[hand].is_evictable() {
            sweep_spares_pinned(frames, next, rest);
        } else if frames[hand].reference {
            let cleared = frames.update(hand, FrameView { reference: false, ..frames[hand] });
            sweep_spares_pinned(cleared, next, rest);
            assert forall|i: int| 0 <= i < frames.len() implies (#[trigger] sweep(
                frames,
                hand,
                steps,
            ).frames[i] == frames[i] || sweep(frames, hand, steps).frames[i] == (FrameView {
                reference: false,
                ..frames[i]
            })) by {
                assert(sweep(cleared, next, rest).frames[i] == cleared[i] || sweep(
                    cleared,
                    next,
                    rest,
                ).frames[i] == (FrameView { reference: false, ..cleared[i] }));
            }
        }
    }
}

proof fn sweep_reaches(frames: Seq<FrameView>, hand: int, steps: nat, i: int)
    requires
        0 <= hand < frames.len(),
        0 <= i < frames.len(),
        frames[i].is_evictable(),
        steps > distance(hand, i, frames.len()) + (if frames[i].reference {
            frames.len() as int
        } else {
            0
        }),
    ensures
        sweep(frames, hand, steps).victim is Some,
    decreases steps,
{
    let next = next_hand(hand, frames.len());
    let rest = (steps - 1) as nat;
    if !frames[hand].is_evictable() {
        sweep_reaches(frames, next, rest, i);
    } else if frames[hand].reference {
        let cleared = frames.update(hand, FrameView { reference: false, ..frames[hand] });
        sweep_reaches(cleared, next, rest, i);
    }
}

/// Two rounds of the clock hand find a frame, if there is one that is neither pinned
/// nor on its way out.
pub proof fn two_rounds_are_enough(frames: Seq<FrameView>, hand: int, i: int)
    requires
        0 <= hand < frames.len(),
        0 <= i < frames.len(),
        frames[i].is_evictable(),
    ensures
        sweep(frames, hand, 2 * frames.len()).victim is Some,
{
    sweep_reaches(frames, hand, 2 * frames.len(), i);
}

/// A second chance: a page that was used since the clock hand last came by stays,
/// if any page that was not used can go.
pub proof fn used_pages_get_a_second_chance(
    frames: Seq<FrameView>,
    hand: int,
    steps: nat,
    unused: int,
)
    requires
        0 <= hand < frames.len(),
        0 <= unused < frames.len(),
        frames[unused].is_evictable(),
        !frames[unused].reference,
    ensures
        sweep(frames, hand, steps).victim matches Some(v) ==> 0 <= v < frames.len()
            && !frames[v].reference && distance(hand, v, frames.len()) <= distance(
            hand,
            unused,
            frames.len(),
        ),
    decreases steps,
{
    if steps > 0 {
        let next = next_hand(hand, frames.len());
        let rest = (steps - 1) as nat;
        if !frames[hand].is_evictable() {
            used_pages_get_a_second_chance(frames, next, rest, unused);
        } else if frames[hand].reference {
            let cleared = frames.update(hand, FrameView { reference: false, ..frames[hand] });
            used_pages_get_a_second_chance(cleared, next, rest, unused);
        }
    }
}

/// The clock hand takes the first page, from where it stands, that can go and was not used
/// since it last came by. The pages that it passes lose their reference bit if they can go,
/// and nothing else changes; it comes to stand behind the page that it took.
pub proof fn hand_takes_the_first_unused_page(
    frames: Seq<FrameView>,
    hand: int,
    steps: nat,
    v: int,
)
    requires
        0 <= hand < frames.len(),
        0 <= v < frames.len(),
        frames[v].pin_count == 0 && !frames[v].evicting && !frames[v].reference,
        forall|j: int|
            0 <= j < frames.len() && distance(hand, j, frames.len()) < distance(
                hand,
                v,
                frames.len(),
            ) ==> (#[trigger] frames[j]).pin_count > 0 || frames[j].evicting
                || frames[j].reference,
        steps > distance(hand, v, frames.len()),
    ensures
        ({
            let after = sweep(frames, hand, steps);
            &&& after.victim == Some(v)
            &&& after.hand == if v + 1 == frames.len() {
                0
            } else {
                v + 1
            }
            &&& after.frames.len() == frames.len()
            &&& forall|j: int|
                0 <= j < frames.len() ==> #[trigger] after.frames[j] == if distance(
                    hand,
                    j,
                    frames.len(),
                ) < distance(hand, v, frames.len()) && frames[j].pin_count == 0
                    && !frames[j].evicting {
                    FrameView { reference: false, ..frames[j] }
                } else {
                    frames[j]
                }
        }),
    decreases steps,
{
    let n = frames.len();
    let next = next_hand(hand, n);
    let rest = (steps - 1) as nat;
    if hand != v {
        assert forall|j: int| 0 <= j < n implies #[trigger] distance(next, j, n) == (if j == hand {
            n - 1
        } else {
            distance(hand, j, n) - 1
        }) by {}
        let passed = if frames[hand].is_evictable() {
            frames.update(hand, FrameView { reference: false, ..frames[hand] })
        } else {
            frames
        };
        assert(distance(hand, hand, n) == 0);
        assert(frames[hand].is_evictable() ==> frames[hand].reference);
        assert forall|j: int|
            0 <= j < n && distance(next, j, n) < distance(next, v, n) implies (
        #[trigger] passed[j]).pin_count > 0 || passed[j].evicting || passed[j].reference by {
            assert(j != hand);
            assert(passed[j] == frames[j]);
        }
        hand_takes_the_first_unused_page(passed, next, rest, v);
        let after = sweep(frames, hand, steps);
        assert(after == sweep(passed, next, rest));
        assert forall|j: int| 0 <= j < n implies #[trigger] after.frames[j] == if distance(
            hand,
            j,
            n,
        ) < distance(hand, v, n) && frames[j].pin_count == 0 && !frames[j].evicting {
            FrameView { reference: false, ..frames[j] }
        } else {
            frames[j]
        } by {
            assert(distance(next, j, n) == (if j == hand {
                n - 1
            } else {
                distance(hand, j, n) - 1
            }));
        }
    }
}

proof fn sweep_passes_pinned(frames: Seq<FrameView>, hand: int, steps: nat, v: int)
    requires
        0 <= hand < frames.len(),
        0 <= v < frames.len(),
        forall|j: int|
            0 <= j < frames.len() && distance(hand, j, frames.len()) < distance(
                hand,
                v,
                frames.len(),
            ) ==> !(#[trigger] frames[j]).is_evictable(),
        steps >= distance(hand, v, frames.len()),
    ensures
        sweep(frames, hand, steps) == sweep(
            frames,
            v,
            (steps - distance(hand, v, frames.len())) as nat,
        ),
    decreases steps,
{
    let n = frames.len();
    if hand != v {
        let next = next_hand(hand, n);
        assert(distance(hand, hand, n) == 0);
        assert(!frames[hand].is_evictable());
        assert forall|j: int|
            0 <= j < n && distance(next, j, n) < distance(next, v, n) implies !(
        #[trigger] frames[j]).is_evictable() by {
            assert(distance(hand, j, n) < distance(hand, v, n));
        }
        sweep_passes_pinned(frames, next, (steps - 1) as nat, v);
    }
}

/// If every page that can go was used since the clock hand last came by, two rounds take the
/// first of them from where the hand stands; all others that can go lose their reference
/// bit, too, and nothing else changes.
pub proof fn hand_takes_the_first_page_in_the_second_round(
    frames: Seq<FrameView>,
    hand: int,
    v: int,
)
    requires
        0 <= hand < frames.len(),
        0 <= v < frames.len(),
        frames[v].pin_count == 0 && !frames[v].evicting,
        forall|j: int|
            0 <= j < frames.len() && (#[trigger] frames[j]).pin_count == 0 && !frames[j].evicting
                ==> frames[j].reference && distance(hand, j, frames.len()) >= distance(
                hand,
                v,
                frames.len(),
            ),
    ensures
        ({
            let after = sweep(frames, hand, 2 * frames.len());
            &&& after.victim == Some(v)
            &&& after.hand == if v + 1 == frames.len() {
                0
            } else {
                v + 1
            }
            &&& after.frames.len() == frames.len()
            &&& forall|j: int|
                0 <= j < frames.len() ==> #[trigger] after.frames[j] == if frames[j].pin_count == 0
                    && !frames[j].evicting {
                    FrameView { reference: false, ..frames[j] }
                } else {
                    frames[j]
                }
        }),
{
    let n = frames.len();
    let d = distance(hand, v, n);
    let steps = (2 * n - d) as nat;
    sweep_passes_pinned(frames, hand, 2 * n, v);
    assert(frames[v].is_evictable() && frames[v].reference);
    let passed = frames.update(v, FrameView { reference: false, ..frames[v] });
    let next = next_hand(v, n);
    let rest = (steps - 1) as nat;
    assert(sweep(frames, v, steps) == sweep(passed, next, rest));
    assert forall|j: int| 0 <= j < n implies #[trigger] distance(next, j, n) <= n - 1 && (
    distance(next, j, n) == n - 1 <==> j == v) by {}
    assert(distance(next, v, n) == n - 1);
    assert forall|j: int|
        0 <= j < n && distance(next, j, n) < distance(next, v, n) implies (
    #[trigger] passed[j]).pin_count > 0 || passed[j].evicting || passed[j].reference by {
        assert(passed[j] == frames[j]);
    }
    hand_takes_the_first_unused_page(passed, next, rest, v);
    let after = sweep(frames, hand, 2 * n);
    assert forall|j: int| 0 <= j < n implies #[trigger] after.frames[j] == if frames[j].pin_count
        == 0 && !frames[j].evicting {
        FrameView { reference: false, ..frames[j] }
    } else {
        frames[j]
    } by {
        assert(distance(next, j, n) <= n - 1);
    }
}

/// The state of a pool.
#[verifier::ext_equal]
pub struct PoolView {
    /// The frames.
    pub frames: Seq<FrameView>,
    /// In which frame each page is.
    pub table: Map<u64, usize>,
    /// The clock hand.
    pub hand: int,
    /// Where the latest checkpoint began.
    pub checkpoint_lsn: Lsn,
    /// The page size.
    pub page_size: nat,
}

impl PoolView {
    /// A page has a place in the data file.
    pub open spec fn is_addressable(self, page_id: PageId) -> bool {
        page_id.0 * self.page_size <= u64::MAX
    }

    /// The table and the frames agree, and only pages that are there are pinned.
    pub open spec fn wf(self) -> bool {
        &&& self.frames.len() > 0
        &&& self.page_size >= 8
        &&& 0 <= self.hand < self.frames.len()
        &&& forall|i: int|
            0 <= i < self.frames.len() ==> (#[trigger] self.frames[i]).content.len()
                == self.page_size && self.is_addressable(self.frames[i].page_id) && (
            self.frames[i].pin_count > 0 ==> self.frames[i].page_id.0 != 0
                && !self.frames[i].evicting)
        &&& forall|page: u64| #[trigger]
            self.table.contains_key(page) ==> page != 0 && self.table[page] < self.frames.len()
                && self.frames[self.table[page] as int].page_id.0 == page
                && !self.frames[self.table[page] as int].evicting
        &&& forall|i: int|
            0 <= i < self.frames.len() && (#[trigger] self.frames[i]).page_id.0 != 0
                && !self.frames[i].evicting ==> self.table.contains_key(self.frames[i].page_id.0)
                && self.table[self.frames[i].page_id.0] == i
    }

    /// Another content of frame `i`.
    pub open spec fn with_frame(self, i: int, frame: FrameView) -> PoolView {
        PoolView { frames: self.frames.update(i, frame), ..self }
    }

    /// The state after a page that is there is pinned once more.
    pub open spec fn pinned(self, page_id: PageId) -> PoolView {
        let i = self.table[page_id.0] as int;
        self.with_frame(
            i,
            FrameView {
                pin_count: (self.frames[i].pin_count + 1) as u32,
                reference: true,
                ..self.frames[i]
            },
        )
    }

    /// Two rounds of the clock hand.
    pub open spec fn search(self) -> Sweep {
        sweep(self.frames, self.hand, 2 * self.frames.len())
    }

    /// The state after the clock hand found no frame.
    pub open spec fn searched(self) -> PoolView {
        PoolView { frames: self.search().frames, hand: self.search().hand, ..self }
    }

    /// The state after the clock hand chose frame `v`: its page is on its way out and
    /// can no longer be found.
    pub open spec fn evicting(self, v: int) -> PoolView {
        let after = self.searched();
        PoolView {
            frames: after.frames.update(v, FrameView { evicting: true, ..after.frames[v] }),
            table: self.table.remove(self.frames[v].page_id.0),
            ..after
        }
    }

    /// The state after a page was put into the empty frame `i`, and pinned.
    pub open spec fn filled(self, i: int, page_id: PageId, content: Seq<u8>) -> PoolView {
        PoolView {
            frames: self.frames.update(
                i,
                FrameView {
                    page_id,
                    pin_count: 1,
                    dirty: false,
                    reference: true,
                    page_lsn: Lsn(0),
                    needs_fpi: true,
                    evicting: false,
                    content,
                },
            ),
            table: self.table.insert(page_id.0, i as usize),
            ..self
        }
    }

    /// The state after the page in frame `i` was made new: all zeros, dirty, and not
    /// to be logged as a whole, for there is nothing on disk to protect.
    pub open spec fn made_new(self, i: int) -> PoolView {
        self.with_frame(
            i,
            FrameView {
                dirty: true,
                needs_fpi: false,
                content: zeros(self.page_size),
                ..self.frames[i]
            },
        )
    }

    /// The page in frame `i` has to be logged as a whole before it is changed: it was
    /// not since it was loaded, and was last changed before the latest checkpoint
    /// began. Before the first checkpoint nothing has.
    pub open spec fn wants_image(self, i: int) -> bool {
        self.frames[i].needs_fpi && self.checkpoint_lsn.0 != 0 && self.frames[i].page_lsn.0
            < self.checkpoint_lsn.0
    }

    /// The state after the page in frame `i` was logged as a whole.
    pub open spec fn imaged(self, i: int, lsn: Lsn) -> PoolView {
        self.with_frame(
            i,
            FrameView {
                needs_fpi: false,
                page_lsn: lsn,
                dirty: true,
                content: with_pd_lsn(self.frames[i].content, lsn),
                ..self.frames[i]
            },
        )
    }

    /// The page in frame `i` has to be written to the data file.
    pub open spec fn wants_flush(self, i: int) -> bool {
        self.frames[i].dirty && self.frames[i].page_id.0 != 0
    }

    /// The dirty pages in frames before `n`, by frame.
    pub open spec fn dirty_pages(self, n: nat) -> Seq<PageId>
        decreases n,
    {
        if n == 0 {
            Seq::empty()
        } else if self.wants_flush(n - 1) {
            self.dirty_pages((n - 1) as nat).push(self.frames[n - 1].page_id)
        } else {
            self.dirty_pages((n - 1) as nat)
        }
    }

    /// The dirty pages among the first `n` frames, each with the last record that changed
    /// it, as far as known.
    pub open spec fn dirty_table(self, n: nat) -> Map<u64, Lsn>
        decreases n,
    {
        if n == 0 {
            Map::empty()
        } else if self.wants_flush(n - 1) {
            self.dirty_table((n - 1) as nat).insert(
                self.frames[n - 1].page_id.0,
                self.frames[n - 1].page_lsn,
            )
        } else {
            self.dirty_table((n - 1) as nat)
        }
    }
}

/// Changing a frame that keeps its page keeps the table right.
proof fn update_keeps_wf(pool: PoolView, i: int, frame: FrameView)
    requires
        pool.wf(),
        0 <= i < pool.frames.len(),
        frame.page_id == pool.frames[i].page_id,
        frame.evicting == pool.frames[i].evicting,
        frame.content.len() == pool.page_size,
        frame.pin_count > 0 ==> frame.page_id.0 != 0 && !frame.evicting,
    ensures
        pool.with_frame(i, frame).wf(),
{
    let after = pool.with_frame(i, frame);
    assert forall|j: int| 0 <= j < after.frames.len() implies (
    #[trigger] after.frames[j]).content.len() == after.page_size && after.is_addressable(
        after.frames[j].page_id,
    ) && (after.frames[j].pin_count > 0 ==> after.frames[j].page_id.0 != 0
        && !after.frames[j].evicting) by {
        assert(pool.frames[j].content.len() == pool.page_size);
    }
    assert forall|page: u64| #[trigger] after.table.contains_key(page) implies page != 0
        && after.table[page] < after.frames.len() && after.frames[after.table[page] as int].page_id.0
        == page && !after.frames[after.table[page] as int].evicting by {
        assert(pool.table.contains_key(page));
    }
    assert forall|j: int|
        0 <= j < after.frames.len() && (#[trigger] after.frames[j]).page_id.0 != 0
            && !after.frames[j].evicting implies after.table.contains_key(after.frames[j].page_id.0)
        && after.table[after.frames[j].page_id.0] == j by {
        assert(pool.frames[j].page_id == after.frames[j].page_id);
    }
}

/// Moving the clock hand keeps the table right.
proof fn search_keeps_wf(pool: PoolView)
    requires
        pool.wf(),
    ensures
        pool.searched().wf(),
        pool.search().victim matches Some(v) ==> 0 <= v < pool.frames.len()
            && pool.frames[v].is_evictable() && pool.evicting(v).wf(),
{
    let after = pool.searched();
    sweep_spares_pinned(pool.frames, pool.hand, 2 * pool.frames.len());
    assert forall|j: int| 0 <= j < after.frames.len() implies (
    #[trigger] after.frames[j]).content.len() == after.page_size && after.is_addressable(
        after.frames[j].page_id,
    ) && (after.frames[j].pin_count > 0 ==> after.frames[j].page_id.0 != 0
        && !after.frames[j].evicting) by {
        assert(pool.frames[j].content.len() == pool.page_size);
    }
    assert forall|page: u64| #[trigger] after.table.contains_key(page) implies page != 0
        && after.table[page] < after.frames.len() && after.frames[after.table[page] as int].page_id.0
        == page && !after.frames[after.table[page] as int].evicting by {
        assert(pool.table.contains_key(page));
        let j = pool.table[page] as int;
        assert(after.frames[j] == pool.frames[j] || after.frames[j] == (FrameView {
            reference: false,
            ..pool.frames[j]
        }));
    }
    assert forall|j: int|
        0 <= j < after.frames.len() && (#[trigger] after.frames[j]).page_id.0 != 0
            && !after.frames[j].evicting implies after.table.contains_key(after.frames[j].page_id.0)
        && after.table[after.frames[j].page_id.0] == j by {
        assert(pool.frames[j].page_id == after.frames[j].page_id);
    }
    if let Some(v) = pool.search().victim {
        let out = pool.evicting(v);
        assert(after.frames[v].page_id == pool.frames[v].page_id);
        assert forall|j: int| 0 <= j < out.frames.len() implies (
        #[trigger] out.frames[j]).content.len() == out.page_size && out.is_addressable(
            out.frames[j].page_id,
        ) && (out.frames[j].pin_count > 0 ==> out.frames[j].page_id.0 != 0
            && !out.frames[j].evicting) by {
            assert(after.frames[j].content.len() == after.page_size);
        }
        assert forall|page: u64| #[trigger] out.table.contains_key(page) implies page != 0
            && out.table[page] < out.frames.len() && out.frames[out.table[page] as int].page_id.0
            == page && !out.frames[out.table[page] as int].evicting by {
            assert(after.table.contains_key(page));
        }
        assert forall|j: int|
            0 <= j < out.frames.len() && (#[trigger] out.frames[j]).page_id.0 != 0
                && !out.frames[j].evicting implies out.table.contains_key(out.frames[j].page_id.0)
            && out.table[out.frames[j].page_id.0] == j by {
            assert(j != v);
            assert(after.frames[j].page_id == out.frames[j].page_id);
            if out.frames[j].page_id == pool.frames[v].page_id {
                assert(after.frames[v].page_id.0 != 0 && !after.frames[v].evicting);
            }
        }
    }
}

/// Emptying a frame whose page is on its way out keeps the table right.
proof fn emptying_keeps_wf(pool: PoolView, i: int)
    requires
        pool.wf(),
        0 <= i < pool.frames.len(),
        pool.frames[i].evicting,
    ensures
        pool.with_frame(i, empty_frame(pool.page_size)).wf(),
{
    let after = pool.with_frame(i, empty_frame(pool.page_size));
    assert forall|j: int| 0 <= j < after.frames.len() implies (
    #[trigger] after.frames[j]).content.len() == after.page_size && after.is_addressable(
        after.frames[j].page_id,
    ) && (after.frames[j].pin_count > 0 ==> after.frames[j].page_id.0 != 0
        && !after.frames[j].evicting) by {
        assert(pool.frames[j].content.len() == pool.page_size);
        assert(0 * pool.page_size == 0) by (nonlinear_arith);
    }
    assert forall|page: u64| #[trigger] after.table.contains_key(page) implies page != 0
        && after.table[page] < after.frames.len() && after.frames[after.table[page] as int].page_id.0
        == page && !after.frames[after.table[page] as int].evicting by {
        assert(pool.table.contains_key(page));
    }
    assert forall|j: int|
        0 <= j < after.frames.len() && (#[trigger] after.frames[j]).page_id.0 != 0
            && !after.frames[j].evicting implies after.table.contains_key(after.frames[j].page_id.0)
        && after.table[after.frames[j].page_id.0] == j by {
        assert(pool.frames[j].page_id == after.frames[j].page_id);
    }
}

/// Filling an empty frame with a page that is nowhere else keeps the table right.
proof fn filling_keeps_wf(pool: PoolView, i: int, page_id: PageId, content: Seq<u8>)
    requires
        pool.wf(),
        0 <= i < pool.frames.len() <= usize::MAX,
        pool.frames[i].page_id.0 == 0,
        !pool.frames[i].evicting,
        !pool.table.contains_key(page_id.0),
        page_id.0 != 0,
        pool.is_addressable(page_id),
        content.len() == pool.page_size,
    ensures
        pool.filled(i, page_id, content).wf(),
{
    let after = pool.filled(i, page_id, content);
    assert forall|j: int| 0 <= j < after.frames.len() implies (
    #[trigger] after.frames[j]).content.len() == after.page_size && after.is_addressable(
        after.frames[j].page_id,
    ) && (after.frames[j].pin_count > 0 ==> after.frames[j].page_id.0 != 0
        && !after.frames[j].evicting) by {
        assert(pool.frames[j].content.len() == pool.page_size);
    }
    assert forall|page: u64| #[trigger] after.table.contains_key(page) implies page != 0
        && after.table[page] < after.frames.len() && after.frames[after.table[page] as int].page_id.0
        == page && !after.frames[after.table[page] as int].evicting by {
        if page != page_id.0 {
            assert(pool.table.contains_key(page));
        }
    }
    assert forall|j: int|
        0 <= j < after.frames.len() && (#[trigger] after.frames[j]).page_id.0 != 0
            && !after.frames[j].evicting implies after.table.contains_key(after.frames[j].page_id.0)
        && after.table[after.frames[j].page_id.0] == j by {
        if j != i {
            assert(pool.frames[j].page_id == after.frames[j].page_id);
        }
    }
}

/// Where a page stands in the data file.
pub open spec fn page_place(page: u64, page_size: nat) -> int {
    (page - 1) * page_size
}

/// What the data file holds of a page.
pub open spec fn on_disk(file: Seq<u8>, page: u64, page_size: nat) -> Seq<u8> {
    file.subrange(page_place(page, page_size), page_place(page, page_size) + page_size)
}

impl PoolView {
    /// What a page reads as: what is in the pool, or else what is on disk.
    pub open spec fn reads_as(self, file: Seq<u8>, page: u64) -> Seq<u8> {
        if self.table.contains_key(page) {
            self.frames[self.table[page] as int].content
        } else {
            on_disk(file, page, self.page_size)
        }
    }

    /// Every page in the pool has its place in the data file, and a page that is not
    /// dirty is on disk as it is in the pool.
    pub open spec fn in_step(self, file: Seq<u8>) -> bool {
        forall|i: int|
            0 <= i < self.frames.len() && (#[trigger] self.frames[i]).page_id.0 != 0
                && !self.frames[i].evicting ==> self.frames[i].page_id.0 * self.page_size
                <= file.len() && (self.frames[i].dirty || self.frames[i].content == on_disk(
                file,
                self.frames[i].page_id.0,
                self.page_size,
            ))
    }

    /// The data file after the page in frame `i` was written out, if it has to be.
    pub open spec fn file_flushed(self, file: Seq<u8>, i: int) -> Seq<u8> {
        if self.wants_flush(i) {
            patched(
                file,
                page_place(self.frames[i].page_id.0, self.page_size),
                self.frames[i].content,
            )
        } else {
            file
        }
    }

    /// Every page reads the same in both.
    pub open spec fn reads_like(
        self,
        file: Seq<u8>,
        before: PoolView,
        file_before: Seq<u8>,
    ) -> bool {
        forall|page: u64|
            page != 0 && page * self.page_size <= file.len() ==> #[trigger] self.reads_as(
                file,
                page,
            ) == before.reads_as(file_before, page)
    }
}

proof fn places_are_apart(a: u64, b: u64, page_size: nat, len: nat)
    requires
        a != 0,
        b != 0,
        a * page_size <= len,
        b * page_size <= len,
    ensures
        0 <= page_place(a, page_size) <= page_place(a, page_size) + page_size <= len,
        0 <= page_place(b, page_size) <= page_place(b, page_size) + page_size <= len,
        a < b ==> page_place(a, page_size) + page_size <= page_place(b, page_size),
        b < a ==> page_place(b, page_size) + page_size <= page_place(a, page_size),
{
    assert((a - 1) * page_size + page_size == a * page_size) by (nonlinear_arith);
    assert((b - 1) * page_size + page_size == b * page_size) by (nonlinear_arith);
    assert((a - 1) * page_size >= 0) by (nonlinear_arith)
        requires
            a >= 1,
    ;
    assert((b - 1) * page_size >= 0) by (nonlinear_arith)
        requires
            b >= 1,
    ;
    if a < b {
        assert(a * page_size <= (b - 1) * page_size) by (nonlinear_arith)
            requires
                a <= b - 1,
        ;
    } else if b < a {
        assert(b * page_size <= (a - 1) * page_size) by (nonlinear_arith)
            requires
                b <= a - 1,
        ;
    }
}

/// Writing a page to its place in the data file changes that page and no other.
pub proof fn page_write_stays_in_place(
    file: Seq<u8>,
    page: u64,
    content: Seq<u8>,
    page_size: nat,
    other: u64,
)
    requires
        page != 0,
        page * page_size <= file.len(),
        content.len() == page_size,
        other != 0,
        other * page_size <= file.len(),
    ensures
        patched(file, page_place(page, page_size), content).len() == file.len(),
        on_disk(patched(file, page_place(page, page_size), content), other, page_size) == if other
            == page {
            content
        } else {
            on_disk(file, other, page_size)
        },
{
    places_are_apart(page, other, page_size, file.len());
    let after = patched(file, page_place(page, page_size), content);
    assert(after.len() == file.len());
    if other == page {
        assert(on_disk(after, other, page_size) =~= content);
    } else {
        assert(on_disk(after, other, page_size) =~= on_disk(file, other, page_size));
    }
}

/// Writing a page out changes nothing that is read, in the pool or on disk.
pub proof fn flush_loses_nothing(pool: PoolView, file: Seq<u8>, i: int)
    requires
        pool.wf(),
        pool.in_step(file),
        0 <= i < pool.frames.len(),
        !pool.frames[i].evicting,
    ensures
        ({
            let flushed = pool.file_flushed(file, i);
            let after = pool.with_frame(i, FrameView { dirty: false, ..pool.frames[i] });
            &&& flushed.len() == file.len()
            &&& after.in_step(flushed)
            &&& after.reads_like(flushed, pool, file)
            &&& pool.frames[i].page_id.0 != 0 ==> on_disk(
                flushed,
                pool.frames[i].page_id.0,
                pool.page_size,
            ) == pool.frames[i].content
        }),
{
    let flushed = pool.file_flushed(file, i);
    let after = pool.with_frame(i, FrameView { dirty: false, ..pool.frames[i] });
    let page = pool.frames[i].page_id.0;
    if page != 0 {
        assert(pool.frames[i].content.len() == pool.page_size);
        page_write_stays_in_place(file, page, pool.frames[i].content, pool.page_size, page);
    }
    assert forall|j: int|
        0 <= j < after.frames.len() && (#[trigger] after.frames[j]).page_id.0 != 0
            && !after.frames[j].evicting implies after.frames[j].page_id.0 * after.page_size
        <= flushed.len() && (after.frames[j].dirty || after.frames[j].content == on_disk(
        flushed,
        after.frames[j].page_id.0,
        after.page_size,
    )) by {
        let other = pool.frames[j].page_id.0;
        assert(other == after.frames[j].page_id.0);
        if j != i && page != 0 {
            assert(pool.table[other] == j);
            assert(pool.table[page] == i);
            page_write_stays_in_place(file, page, pool.frames[i].content, pool.page_size, other);
        }
    }
    assert forall|p: u64|
        p != 0 && p * after.page_size <= flushed.len() implies #[trigger] after.reads_as(
        flushed,
        p,
    ) == pool.reads_as(file, p) by {
        if page != 0 {
            page_write_stays_in_place(file, page, pool.frames[i].content, pool.page_size, p);
            assert(pool.table.contains_key(page));
        }
    }
}

/// Taking a page out changes nothing that is read: the page is on disk as it was in
/// the pool.
pub proof fn eviction_loses_nothing(pool: PoolView, file: Seq<u8>, v: int)
    requires
        pool.wf(),
        pool.in_step(file),
        pool.search().victim == Some(v),
    ensures
        ({
            let flushed = pool.file_flushed(file, v);
            let after = pool.evicting(v).with_frame(v, empty_frame(pool.page_size));
            &&& flushed.len() == file.len()
            &&& after.wf()
            &&& after.in_step(flushed)
            &&& after.reads_like(flushed, pool, file)
        }),
{
    search_keeps_wf(pool);
    sweep_spares_pinned(pool.frames, pool.hand, 2 * pool.frames.len());
    flush_loses_nothing(pool, file, v);
    let flushed = pool.file_flushed(file, v);
    let clean = pool.with_frame(v, FrameView { dirty: false, ..pool.frames[v] });
    let out = pool.evicting(v);
    let after = out.with_frame(v, empty_frame(pool.page_size));
    let page = pool.frames[v].page_id.0;
    emptying_keeps_wf(out, v);
    assert forall|j: int| 0 <= j < pool.frames.len() && j != v implies #[trigger] after.frames[j]
        == pool.frames[j] || after.frames[j] == (FrameView {
        reference: false,
        ..pool.frames[j]
    }) by {
        assert(pool.searched().frames[j] == pool.frames[j] || pool.searched().frames[j] == (
        FrameView { reference: false, ..pool.frames[j] }));
    }
    assert forall|j: int|
        0 <= j < after.frames.len() && (#[trigger] after.frames[j]).page_id.0 != 0
            && !after.frames[j].evicting implies after.frames[j].page_id.0 * after.page_size
        <= flushed.len() && (after.frames[j].dirty || after.frames[j].content == on_disk(
        flushed,
        after.frames[j].page_id.0,
        after.page_size,
    )) by {
        assert(clean.frames[j] == pool.frames[j]);
    }
    assert forall|p: u64|
        p != 0 && p * after.page_size <= flushed.len() implies #[trigger] after.reads_as(
        flushed,
        p,
    ) == pool.reads_as(file, p) by {
        assert(clean.reads_as(flushed, p) == pool.reads_as(file, p));
        if p == page {
            assert(pool.table[page] == v);
        } else if pool.table.contains_key(p) {
            let j = pool.table[p] as int;
            assert(pool.frames[j].page_id.0 == p);
            assert(j != v);
            assert(after.frames[j].content == pool.frames[j].content);
        }
    }
}

/// Loading a page changes nothing that is read.
pub proof fn loading_changes_nothing(pool: PoolView, file: Seq<u8>, i: int, page_id: PageId)
    requires
        pool.wf(),
        pool.in_step(file),
        0 <= i < pool.frames.len() <= usize::MAX,
        pool.frames[i].page_id.0 == 0,
        !pool.frames[i].evicting,
        page_id.0 != 0,
        page_id.0 * pool.page_size <= file.len(),
        !pool.table.contains_key(page_id.0),
    ensures
        ({
            let after = pool.filled(i, page_id, on_disk(file, page_id.0, pool.page_size));
            &&& after.in_step(file)
            &&& after.reads_like(file, pool, file)
        }),
{
    let after = pool.filled(i, page_id, on_disk(file, page_id.0, pool.page_size));
    assert forall|j: int|
        0 <= j < after.frames.len() && (#[trigger] after.frames[j]).page_id.0 != 0
            && !after.frames[j].evicting implies after.frames[j].page_id.0 * after.page_size
        <= file.len() && (after.frames[j].dirty || after.frames[j].content == on_disk(
        file,
        after.frames[j].page_id.0,
        after.page_size,
    )) by {
        if j != i {
            assert(pool.frames[j] == after.frames[j]);
        }
    }
    assert forall|p: u64|
        p != 0 && p * after.page_size <= file.len() implies #[trigger] after.reads_as(
        file,
        p,
    ) == pool.reads_as(file, p) by {
        if p != page_id.0 && pool.table.contains_key(p) {
            assert(pool.frames[pool.table[p] as int].page_id.0 == p);
        }
    }
}

/// What is written to a page is what it reads as from then on, and no other page
/// reads otherwise than before.
pub proof fn page_reads_back(pool: PoolView, file: Seq<u8>, i: int, content: Seq<u8>)
    requires
        pool.wf(),
        pool.in_step(file),
        0 <= i < pool.frames.len(),
        pool.frames[i].pin_count > 0,
    ensures
        ({
            let after = pool.with_frame(i, FrameView { content, dirty: true, ..pool.frames[i] });
            &&& after.in_step(file)
            &&& after.reads_as(file, pool.frames[i].page_id.0) == content
            &&& forall|page: u64|
                page != pool.frames[i].page_id.0 ==> #[trigger] after.reads_as(file, page)
                    == pool.reads_as(file, page)
        }),
{
    let after = pool.with_frame(i, FrameView { content, dirty: true, ..pool.frames[i] });
    let own = pool.frames[i].page_id.0;
    assert(pool.table.contains_key(own) && pool.table[own] == i);
    assert forall|page: u64| page != own implies #[trigger] after.reads_as(file, page)
        == pool.reads_as(file, page) by {
        if pool.table.contains_key(page) {
            assert(pool.frames[pool.table[page] as int].page_id.0 == page);
        }
    }
    assert forall|j: int|
        0 <= j < after.frames.len() && (#[trigger] after.frames[j]).page_id.0 != 0
            && !after.frames[j].evicting implies after.frames[j].page_id.0 * after.page_size
        <= file.len() && (after.frames[j].dirty || after.frames[j].content == on_disk(
        file,
        after.frames[j].page_id.0,
        after.page_size,
    )) by {
        assert(pool.frames[j].page_id == after.frames[j].page_id);
    }
}

/// From the moment a checkpoint begins, the first change of a page that was loaded
/// before asks for an image of the whole page, and no later change does until the page
/// is loaded anew.
pub proof fn first_change_asks_for_image(
    pool: PoolView,
    begin: Lsn,
    i: int,
    logged: Lsn,
    later: Lsn,
)
    requires
        0 <= i < pool.frames.len(),
        pool.frames[i].needs_fpi,
        pool.frames[i].page_lsn.0 < begin.0,
    ensures
        ({
            let begun = PoolView { checkpoint_lsn: begin, ..pool };
            let changed = PoolView { checkpoint_lsn: later, ..begun.imaged(i, logged) };
            begun.wants_image(i) && !changed.wants_image(i)
        }),
{
}

/// A page that was just loaded asks for an image as soon as a checkpoint has begun,
/// whatever the checkpoint LSN was when it was loaded, and however often it was pinned and
/// given up since: the first change of the page after that is preceded by an image of all
/// of it. `later` is any state in which the frame was neither changed nor loaded anew.
pub proof fn loaded_page_asks_for_image(
    pool: PoolView,
    i: int,
    page_id: PageId,
    content: Seq<u8>,
    later: PoolView,
    begin: Lsn,
)
    requires
        0 <= i < pool.frames.len(),
        i < later.frames.len(),
        later.frames[i].needs_fpi == pool.filled(i, page_id, content).frames[i].needs_fpi,
        later.frames[i].page_lsn == pool.filled(i, page_id, content).frames[i].page_lsn,
        begin.0 > 0,
    ensures
        (PoolView { checkpoint_lsn: begin, ..later }).wants_image(i),
        (PoolView { checkpoint_lsn: begin, ..pool.filled(i, page_id, content) }).wants_image(i),
{
}

/// A page asks for an image exactly when it was not logged as a whole since it was loaded
/// and a checkpoint has begun since its last change; a page that was just created, or
/// logged as a whole, does not.
pub proof fn image_is_asked_for_once(pool: PoolView, i: int, lsn: Lsn)
    requires
        0 <= i < pool.frames.len(),
    ensures
        pool.wants_image(i) ==> pool.frames[i].needs_fpi && pool.frames[i].page_lsn.0
            < pool.checkpoint_lsn.0,
        pool.frames[i].needs_fpi && pool.frames[i].page_lsn.0 < pool.checkpoint_lsn.0
            ==> pool.wants_image(i),
        !pool.made_new(i).wants_image(i),
        !pool.imaged(i, lsn).wants_image(i),
{
}

/// Loading a page pins it once in its frame, clean and as it was read, and changes nothing
/// else.
pub proof fn loaded_page_is_pinned(pool: PoolView, i: int, page_id: PageId, content: Seq<u8>)
    requires
        0 <= i < pool.frames.len() <= usize::MAX,
    ensures
        ({
            let after = pool.filled(i, page_id, content);
            &&& after.frames.len() == pool.frames.len()
            &&& after.frames[i].page_id == page_id
            &&& after.frames[i].pin_count == 1
            &&& !after.frames[i].dirty
            &&& !after.frames[i].evicting
            &&& after.frames[i].reference
            &&& after.frames[i].content == content
            &&& after.table.contains_key(page_id.0) && after.table[page_id.0] == i
            &&& forall|j: int|
                0 <= j < pool.frames.len() && j != i ==> #[trigger] after.frames[j]
                    == pool.frames[j]
            &&& forall|page: u64|
                page != page_id.0 ==> (#[trigger] after.table.contains_key(page)
                    == pool.table.contains_key(page)) && after.table[page] == pool.table[page]
            &&& after.checkpoint_lsn == pool.checkpoint_lsn
            &&& after.hand == pool.hand
            &&& after.page_size == pool.page_size
        }),
{
}

/// A new page is all zeros, is to be written to disk, and stays pinned as it was; nothing
/// else changes.
pub proof fn new_page_is_zeroed_and_dirty(pool: PoolView, i: int)
    requires
        0 <= i < pool.frames.len(),
    ensures
        ({
            let after = pool.made_new(i);
            &&& after == (PoolView { frames: after.frames, ..pool })
            &&& after.frames.len() == pool.frames.len()
            &&& after.frames[i].content.len() == pool.page_size
            &&& forall|k: int|
                0 <= k < pool.page_size ==> #[trigger] after.frames[i].content[k] == 0
            &&& after.frames[i].dirty
            &&& after.frames[i].page_id == pool.frames[i].page_id
            &&& after.frames[i].pin_count == pool.frames[i].pin_count
            &&& after.frames[i].page_lsn == pool.frames[i].page_lsn
            &&& after.frames[i].evicting == pool.frames[i].evicting
            &&& forall|j: int|
                0 <= j < pool.frames.len() && j != i ==> #[trigger] after.frames[j]
                    == pool.frames[j]
        }),
{
}

/// Once a page was logged as a whole it is to be written to disk, and only after that
/// record: the record's LSN is the page's own. Of the bytes of the page only the first
/// eight change, to that LSN; nothing else changes.
pub proof fn logged_image_is_noted(pool: PoolView, i: int, lsn: Lsn)
    requires
        0 <= i < pool.frames.len(),
        pool.frames[i].content.len() >= 8,
    ensures
        ({
            let after = pool.imaged(i, lsn);
            &&& after == (PoolView { frames: after.frames, ..pool })
            &&& after.frames.len() == pool.frames.len()
            &&& after.frames[i].dirty
            &&& after.frames[i].page_lsn == lsn
            &&& after.frames[i].page_id == pool.frames[i].page_id
            &&& after.frames[i].pin_count == pool.frames[i].pin_count
            &&& after.frames[i].content.len() == pool.frames[i].content.len()
            &&& after.frames[i].content.skip(8) == pool.frames[i].content.skip(8)
            &&& le_u64(after.frames[i].content, 0) == lsn.0
            &&& forall|j: int|
                0 <= j < pool.frames.len() && j != i ==> #[trigger] after.frames[j]
                    == pool.frames[j]
        }),
{
    pd_lsn_reads_back(pool.frames[i].content, lsn);
    assert(pool.imaged(i, lsn).frames[i].content.skip(8) =~= pool.frames[i].content.skip(8));
}

proof fn dirty_pages_filter(pool: PoolView, n: nat)
    requires
        n <= pool.frames.len(),
    ensures
        pool.dirty_pages(n) == pool.frames.take(n as int).filter(
            |f: FrameView| f.dirty && f.page_id.0 != 0,
        ).map_values(|f: FrameView| f.page_id),
    decreases n,
{
    reveal(Seq::filter);
    let is_dirty = |f: FrameView| f.dirty && f.page_id.0 != 0;
    let name = |f: FrameView| f.page_id;
    let part = pool.frames.take(n as int);
    if n == 0 {
        assert(part.filter(is_dirty).map_values(name) =~= Seq::empty());
    } else {
        dirty_pages_filter(pool, (n - 1) as nat);
        assert(part.drop_last() =~= pool.frames.take(n - 1));
        assert(part.last() == pool.frames[n - 1]);
        assert(part.filter(is_dirty).map_values(name) =~= pool.dirty_pages(n));
    }
}

/// The pages that a checkpoint collects are all pages that are dirty then: a page is listed
/// exactly if some frame holds it and is dirty, whether it is pinned, in use, on its way out
/// or not. They are listed by frame, one for each such frame.
pub proof fn every_dirty_page_is_listed(pool: PoolView, page_id: PageId)
    ensures
        pool.dirty_pages(pool.frames.len()) == pool.frames.filter(
            |f: FrameView| f.dirty && f.page_id.0 != 0,
        ).map_values(|f: FrameView| f.page_id),
        pool.dirty_pages(pool.frames.len()).contains(page_id) <==> page_id.0 != 0 && exists|i: int|
            0 <= i < pool.frames.len() && (#[trigger] pool.frames[i]).page_id == page_id
                && pool.frames[i].dirty,
{
    let is_dirty = |f: FrameView| f.dirty && f.page_id.0 != 0;
    let name = |f: FrameView| f.page_id;
    dirty_pages_filter(pool, pool.frames.len());
    assert(pool.frames.take(pool.frames.len() as int) =~= pool.frames);
    let dirty = pool.frames.filter(is_dirty);
    let pages = pool.dirty_pages(pool.frames.len());
    if exists|i: int|
        0 <= i < pool.frames.len() && (#[trigger] pool.frames[i]).page_id == page_id
            && pool.frames[i].dirty && page_id.0 != 0 {
        let i = choose|i: int|
            0 <= i < pool.frames.len() && (#[trigger] pool.frames[i]).page_id == page_id
                && pool.frames[i].dirty;
        pool.frames.lemma_filter_contains(is_dirty, i);
        let k = choose|k: int| 0 <= k < dirty.len() && dirty[k] == pool.frames[i];
        assert(pages[k] == page_id);
    }
    if pages.contains(page_id) {
        let k = choose|k: int| 0 <= k < pages.len() && pages[k] == page_id;
        pool.frames.lemma_filter_pred(is_dirty, k);
        filtered_frames_are_frames(pool.frames, k);
        let i = choose|i: int| 0 <= i < pool.frames.len() && pool.frames[i] == dirty[k];
        assert(pool.frames[i].page_id == page_id && pool.frames[i].dirty);
    }
}

proof fn filtered_frames_are_frames(frames: Seq<FrameView>, k: int)
    requires
        0 <= k < frames.filter(|f: FrameView| f.dirty && f.page_id.0 != 0).len(),
    ensures
        frames.contains(frames.filter(|f: FrameView| f.dirty && f.page_id.0 != 0)[k]),
    decreases frames.len(),
{
    reveal(Seq::filter);
    let front = frames.drop_last();
    let earlier = front.filter(|f: FrameView| f.dirty && f.page_id.0 != 0);
    if k < earlier.len() {
        filtered_frames_are_frames(front, k);
        let i = choose|i: int| 0 <= i < front.len() && front[i] == earlier[k];
        assert(frames[i] == earlier[k]);
    } else {
        assert(frames[frames.len() - 1] == frames.last());
    }
}

/// The table of dirty pages names the same pages, each with the last record that is known to
/// have changed it: that of the last frame that holds the page and is dirty.
pub proof fn dirty_table_names_every_dirty_page(pool: PoolView, page_id: PageId, i: int)
    requires
        0 <= i < pool.frames.len(),
        page_id.0 != 0,
        pool.frames[i].page_id == page_id,
        pool.frames[i].dirty,
        forall|j: int|
            i < j < pool.frames.len() ==> (#[trigger] pool.frames[j]).page_id != page_id
                || !pool.frames[j].dirty,
    ensures
        pool.dirty_table(pool.frames.len()).contains_key(page_id.0),
        pool.dirty_table(pool.frames.len())[page_id.0] == pool.frames[i].page_lsn,
{
    dirty_table_upto(pool, page_id, i, pool.frames.len());
}

proof fn dirty_table_upto(pool: PoolView, page_id: PageId, i: int, n: nat)
    requires
        0 <= i < n <= pool.frames.len(),
        page_id.0 != 0,
        pool.frames[i].page_id == page_id,
        pool.frames[i].dirty,
        forall|j: int|
            i < j < n ==> (#[trigger] pool.frames[j]).page_id != page_id || !pool.frames[j].dirty,
    ensures
        pool.dirty_table(n).contains_key(page_id.0),
        pool.dirty_table(n)[page_id.0] == pool.frames[i].page_lsn,
    decreases n,
{
    if i < n - 1 {
        assert(pool.frames[n - 1].page_id != page_id || !pool.frames[n - 1].dirty);
        dirty_table_upto(pool, page_id, i, (n - 1) as nat);
    }
}

/// The table of dirty pages names no other page.
pub proof fn dirty_table_names_only_dirty_pages(pool: PoolView, n: nat, page: u64)
    requires
        n <= pool.frames.len(),
        pool.dirty_table(n).contains_key(page),
    ensures
        page != 0,
        exists|i: int|
            0 <= i < n && (#[trigger] pool.frames[i]).page_id.0 == page && pool.frames[i].dirty,
    decreases n,
{
    if n > 0 {
        if pool.frames[n - 1].page_id.0 == page && pool.frames[n - 1].dirty && page != 0 {
        } else {
            dirty_table_names_only_dirty_pages(pool, (n - 1) as nat, page);
        }
    }
}

#[derive(Debug)]
struct Frame {
    page_id: PageId,
    pin_count: u32,
    dirty: bool,
    reference: bool,
    page_lsn: Lsn,
    needs_fpi: bool,
    evicting: bool,
    content: Vec<u8>,
}

impl View for Frame {
    type V = FrameView;

    closed spec fn view(&self) -> FrameView {
        FrameView {
            page_id: self.page_id,
            pin_count: self.pin_count,
            dirty: self.dirty,
            reference: self.reference,
            page_lsn: self.page_lsn,
            needs_fpi: self.needs_fpi,
            evicting: self.evicting,
            content: self.content@,
        }
    }
}

impl Frame {
    fn empty(page_size: usize) -> (frame: Self)
        ensures
            frame@ == empty_frame(page_size as nat),
    {
        let mut content: Vec<u8> = Vec::new();
        content.resize(page_size, 0);
        assert(content@ =~= zeros(page_size as nat));
        Frame {
            page_id: PageId::invalid(),
            pin_count: 0,
            dirty: false,
            reference: false,
            page_lsn: Lsn::invalid(),
            needs_fpi: false,
            evicting: false,
            content,
        }
    }
}

/// How to write a page to the data file.
#[derive(Debug, Clone, Copy, PartialEq, Eq, Structural)]
pub struct FlushPlan {
    /// The frame that holds the page.
    pub frame_id: FrameId,
    /// The page.
    pub page_id: PageId,
    /// Where the page goes in the data file.
    pub offset: u64,
    /// How far the log has to be flushed first; see [`BufferPool::page_to_write`].
    pub wal_lsn: Option<Lsn>,
}

impl FlushPlan {
    /// The plan writes the page in frame `i` to its place, after the last record that
    /// changed it.
    pub open spec fn flushes(self, pool: PoolView, i: int) -> bool {
        &&& self.frame_id.0 == i
        &&& self.page_id == pool.frames[i].page_id
        &&& self.offset == (self.page_id.0 - 1) * pool.page_size
        &&& self.wal_lsn == if pool.frames[i].page_lsn.0 != 0 {
            Some(pool.frames[i].page_lsn)
        } else {
            None
        }
    }

    /// The page may be written: the last record that changed it is durable.
    pub open spec fn may_write(self, wal: WriterView) -> bool {
        self.wal_lsn matches Some(lsn) ==> wal.is_durable(lsn)
    }
}

/// A page is written out exactly if it is dirty, as a whole, at its own place, and not before
/// the last record that is known to have changed it is durable.
pub proof fn flush_writes_the_page_behind_its_log(
    pool: PoolView,
    i: int,
    plan: FlushPlan,
    wal: WriterView,
)
    requires
        0 <= i < pool.frames.len(),
        plan.flushes(pool, i),
        plan.may_write(wal),
    ensures
        pool.wants_flush(i) <==> pool.frames[i].dirty && pool.frames[i].page_id.0 != 0,
        plan.frame_id.0 == i,
        plan.page_id == pool.frames[i].page_id,
        plan.offset == (pool.frames[i].page_id.0 - 1) * pool.page_size,
        pool.frames[i].page_lsn.0 != 0 ==> wal.is_durable(pool.frames[i].page_lsn),
{
}

/// The log comes before the data: when a page may be written, the last record that
/// changed it, which got its place in step `i` of the history of the log, is on disk, and
/// so is the log before it. A crash leaves a log that gives them all.
pub proof fn log_comes_before_data(
    pool: PoolView,
    frame: int,
    plan: FlushPlan,
    states: Seq<LogState>,
    steps: Seq<LogStep>,
    i: int,
    j: int,
    start: int,
)
    requires
        plan.flushes(pool, frame),
        pool.frames[frame].page_lsn.0 != 0,
        is_history(states, steps),
        states[0].is_kept(),
        0 <= i < j < states.len(),
        states[i].writer.now == pool.frames[frame].page_lsn,
        states[i].writer.now.0 < states[i + 1].writer.now.0,
        plan.may_write(states[j].writer),
        0 <= start,
        reaches(
            states[j].disk.files,
            states[j].writer.segment_size,
            start,
            states[i + 1].writer.now.0 as int,
        ),
    ensures
        ({
            let s = states[j];
            let size = s.writer.segment_size;
            let end = states[i + 1].writer.now.0 as int;
            let records = records_until(s.disk.files, size, start, end);
            &&& s.writer.is_durable(pool.frames[frame].page_lsn)
            &&& reaches(s.disk.durable, size, start, end)
            &&& records_until(s.disk.durable, size, start, end) == records
            &&& records.is_prefix_of(log_records(s.disk.durable, size, start))
        }),
{
    durable_records_survive(states, steps, i, j, start);
}

/// What became of a request for a page.
#[derive(Debug, Clone, Copy, PartialEq, Eq, Structural)]
pub enum PinStep {
    /// The page is in this frame and is pinned.
    Pinned(FrameId),
    /// The page has to be put into this frame.
    Load {
        /// The frame, which has to be emptied first.
        frame_id: FrameId,
        /// How to write out the page in it, if it is dirty.
        flush: Option<FlushPlan>,
    },
}

/// How a request for a page that is not page 0 ends: pinned where it is, or with a
/// frame chosen for it, or without one.
pub open spec fn requested(
    before: PoolView,
    page_id: PageId,
    after: PoolView,
    result: Result<PinStep>,
) -> bool {
    if before.table.contains_key(page_id.0) {
        &&& result == Ok::<PinStep, StorageError>(
            PinStep::Pinned(FrameId(before.table[page_id.0])),
        )
        &&& after == before.pinned(page_id)
    } else if !before.is_addressable(page_id) {
        &&& result matches Err(StorageError::PageNotFound(page)) && page == page_id
        &&& after == before
    } else {
        match before.search().victim {
            Some(v) => {
                &&& result matches Ok(PinStep::Load { frame_id, flush })
                &&& frame_id.0 == v
                &&& after == before.evicting(v)
                &&& flush is Some <==> before.wants_flush(v)
                &&& flush matches Some(plan) ==> plan.flushes(before, v)
            },
            None => {
                &&& result matches Err(StorageError::BufferPoolFull)
                &&& after == before.searched()
            },
        }
    }
}

/// How a request for a page ends. A page that is in the pool is pinned once more in the
/// frame that holds it, and nothing else changes. For any other a frame is chosen that is
/// neither pinned nor on its way out, wherever there is one. The page in that frame can no
/// longer be found; if it is dirty it has to be written out, at its place and after the last
/// record that changed it. Every other page stays where it is and as it is.
pub proof fn request_pins_or_makes_room(
    before: PoolView,
    page_id: PageId,
    after: PoolView,
    result: Result<PinStep>,
)
    requires
        before.wf(),
        requested(before, page_id, after, result),
        before.table.contains_key(page_id.0) ==> before.frames[before.table[page_id.0] as int].pin_count
            < u32::MAX,
    ensures
        result matches Ok(PinStep::Pinned(frame)) ==> {
            let i = frame.0 as int;
            &&& before.table.contains_key(page_id.0) && before.table[page_id.0] == i
            &&& 0 <= i < before.frames.len() && before.frames[i].page_id == page_id
            &&& after.frames[i] == (FrameView {
                pin_count: (before.frames[i].pin_count + 1) as u32,
                reference: true,
                ..before.frames[i]
            })
            &&& after.frames[i].pin_count > 0
            &&& after.frames.len() == before.frames.len()
            &&& forall|j: int|
                0 <= j < before.frames.len() && j != i ==> #[trigger] after.frames[j]
                    == before.frames[j]
            &&& after == (PoolView { frames: after.frames, ..before })
        },
        before.table.contains_key(page_id.0) ==> result matches Ok(PinStep::Pinned(_)),
        result matches Err(_) ==> !before.table.contains_key(page_id.0) && (
        page_id.0 * before.page_size > u64::MAX || forall|i: int|
            0 <= i < before.frames.len() ==> (#[trigger] before.frames[i]).pin_count > 0
                || before.frames[i].evicting),
        result matches Err(e) ==> {
            &&& page_id.0 * before.page_size > u64::MAX ==> e == StorageError::PageNotFound(page_id)
                && after == before
            &&& page_id.0 * before.page_size <= u64::MAX ==> e == StorageError::BufferPoolFull
            &&& after.frames.len() == before.frames.len()
            &&& forall|j: int|
                0 <= j < before.frames.len() ==> (FrameView {
                    reference: before.frames[j].reference,
                    ..#[trigger] after.frames[j]
                }) == before.frames[j]
            &&& after.table == before.table
            &&& after.checkpoint_lsn == before.checkpoint_lsn
            &&& after.page_size == before.page_size
        },
        result matches Ok(PinStep::Load { frame_id, flush }) ==> {
            let v = frame_id.0 as int;
            &&& 0 <= v < before.frames.len()
            &&& before.frames[v].pin_count == 0 && !before.frames[v].evicting
            &&& after.frames.len() == before.frames.len()
            &&& after.frames[v].evicting
            &&& !after.table.contains_key(before.frames[v].page_id.0)
            &&& forall|page: u64|
                page != before.frames[v].page_id.0 ==> (#[trigger] after.table.contains_key(page)
                    == before.table.contains_key(page)) && after.table[page] == before.table[page]
            &&& forall|j: int|
                0 <= j < before.frames.len() ==> (FrameView {
                    reference: before.frames[j].reference,
                    evicting: before.frames[j].evicting,
                    ..#[trigger] after.frames[j]
                }) == before.frames[j] && (j != v ==> after.frames[j].evicting
                    == before.frames[j].evicting)
            &&& flush is Some <==> before.frames[v].dirty && before.frames[v].page_id.0 != 0
            &&& flush matches Some(plan) ==> {
                &&& plan.frame_id == frame_id
                &&& plan.page_id == before.frames[v].page_id
                &&& plan.offset == (before.frames[v].page_id.0 - 1) * before.page_size
                &&& before.frames[v].page_lsn.0 != 0 ==> plan.wal_lsn == Some(
                    before.frames[v].page_lsn,
                )
            }
            &&& after.checkpoint_lsn == before.checkpoint_lsn
            &&& after.page_size == before.page_size
        },
{
    sweep_spares_pinned(before.frames, before.hand, 2 * before.frames.len());
    if before.search().victim is None {
        assert forall|i: int| 0 <= i < before.frames.len() implies (
        #[trigger] before.frames[i]).pin_count > 0 || before.frames[i].evicting by {
            if before.frames[i].is_evictable() {
                two_rounds_are_enough(before.frames, before.hand, i);
            }
        }
    } else {
        let v = before.search().victim->0;
        let found = before.searched();
        assert forall|j: int| 0 <= j < before.frames.len() implies (FrameView {
            reference: before.frames[j].reference,
            evicting: before.frames[j].evicting,
            ..#[trigger] before.evicting(v).frames[j]
        }) == before.frames[j] && (j != v ==> before.evicting(v).frames[j].evicting
            == before.frames[j].evicting) by {
            assert(found.frames[j] == before.frames[j] || found.frames[j] == (FrameView {
                reference: false,
                ..before.frames[j]
            }));
        }
    }
}

/// Which frame a request for a page that is not in the pool chooses: the first, from where
/// the clock hand stands, that can go and was not used since the hand last came by; if all
/// that can go were used, the first of them. The hand goes on behind it.
pub proof fn request_chooses_by_clock(
    before: PoolView,
    page_id: PageId,
    after: PoolView,
    result: Result<PinStep>,
    frame_id: FrameId,
    flush: Option<FlushPlan>,
    i: int,
)
    requires
        before.wf(),
        requested(before, page_id, after, result),
        result == Ok::<PinStep, StorageError>(PinStep::Load { frame_id, flush }),
        0 <= i < before.frames.len(),
        before.frames[i].pin_count == 0 && !before.frames[i].evicting,
    ensures
        ({
            let n = before.frames.len();
            let v = frame_id.0 as int;
            &&& !before.frames[i].reference ==> !before.frames[v].reference && distance(
                before.hand,
                v,
                n,
            ) <= distance(before.hand, i, n)
            &&& before.frames[v].reference ==> distance(before.hand, v, n) <= distance(
                before.hand,
                i,
                n,
            )
            &&& after.hand == (if v + 1 == n {
                0
            } else {
                v + 1
            })
            &&& i != v && (before.frames[v].reference || distance(before.hand, i, n) < distance(
                before.hand,
                v,
                n,
            )) ==> !after.frames[i].reference
            &&& i != v && !before.frames[v].reference && distance(before.hand, i, n) > distance(
                before.hand,
                v,
                n,
            ) ==> after.frames[i].reference == before.frames[i].reference
        }),
{
    let n = before.frames.len();
    let v = frame_id.0 as int;
    sweep_spares_pinned(before.frames, before.hand, 2 * n);
    let some_unused = exists|j: int|
        0 <= j < n && (#[trigger] before.frames[j]).is_evictable() && !before.frames[j].reference;
    if some_unused {
        let j = choose|j: int|
            0 <= j < n && (#[trigger] before.frames[j]).is_evictable()
                && !before.frames[j].reference;
        used_pages_get_a_second_chance(before.frames, before.hand, 2 * n, j);
        assert forall|k: int|
            0 <= k < n && distance(before.hand, k, n) < distance(before.hand, v, n) implies (
        #[trigger] before.frames[k]).pin_count > 0 || before.frames[k].evicting
            || before.frames[k].reference by {
            if before.frames[k].is_evictable() && !before.frames[k].reference {
                used_pages_get_a_second_chance(before.frames, before.hand, 2 * n, k);
            }
        }
        hand_takes_the_first_unused_page(before.frames, before.hand, 2 * n, v);
        if !before.frames[i].reference {
            used_pages_get_a_second_chance(before.frames, before.hand, 2 * n, i);
        }
    } else {
        let first = first_evictable(before.frames, before.hand, i);
        hand_takes_the_first_page_in_the_second_round(before.frames, before.hand, first);
    }
}

proof fn first_evictable(frames: Seq<FrameView>, hand: int, i: int) -> (first: int)
    requires
        0 <= hand < frames.len(),
        0 <= i < frames.len(),
        frames[i].is_evictable(),
    ensures
        0 <= first < frames.len(),
        frames[first].is_evictable(),
        forall|j: int|
            0 <= j < frames.len() && (#[trigger] frames[j]).is_evictable() ==> distance(
                hand,
                j,
                frames.len(),
            ) >= distance(hand, first, frames.len()),
    decreases distance(hand, i, frames.len()),
{
    if exists|j: int|
        0 <= j < frames.len() && (#[trigger] frames[j]).is_evictable() && distance(
            hand,
            j,
            frames.len(),
        ) < distance(hand, i, frames.len()) {
        let j = choose|j: int|
            0 <= j < frames.len() && (#[trigger] frames[j]).is_evictable() && distance(
                hand,
                j,
                frames.len(),
            ) < distance(hand, i, frames.len());
        first_evictable(frames, hand, j)
    } else {
        i
    }
}

/// Data pages in memory.
#[derive(Debug)]
pub struct BufferPool {
    frames: Vec<Frame>,
    page_table: Vec<HashMap<u64, usize>>,
    clock_hand: usize,
    checkpoint_lsn: Lsn,
    page_size: usize,
}

impl View for BufferPool {
    type V = PoolView;

    closed spec fn view(&self) -> PoolView {
        PoolView {
            frames: Seq::new(self.frames@.len(), |i: int| self.frames@[i]@),
            table: Map::new(
                |page: u64|
                    self.page_table@[page as int % self.page_table@.len() as int]@.contains_key(
                        page,
                    ),
                |page: u64| self.page_table@[page as int % self.page_table@.len() as int]@[page],
            ),
            hand: self.clock_hand as int,
            checkpoint_lsn: self.checkpoint_lsn,
            page_size: self.page_size as nat,
        }
    }
}

impl BufferPool {
    /// The table and the frames agree, and there is a shard.
    pub closed spec fn wf(&self) -> bool {
        self@.wf() && self.page_table@.len() > 0
    }

    /// The number of shards of the page table.
    pub closed spec fn shards(&self) -> nat {
        self.page_table@.len()
    }

    /// What a pool that is in order guarantees.
    pub proof fn wf_facts(&self)
        requires
            self.wf(),
        ensures
            self@.wf(),
            self@.frames.len() <= usize::MAX,
    {
        assert(self.frames.len() <= usize::MAX);
    }

    /// A pool without pages, of the size that the configuration gives.
    pub fn open(config: &StorageConfig) -> (result: Result<Self>)
        ensures
            result is Ok <==> config.is_valid(),
            result is Err ==> rejects_config(result, config.complaint()),
            result matches Ok(pool) ==> {
                &&& pool.wf()
                &&& pool.shards() == config.buffer_pool_shards
                &&& pool@.frames.len() == config.buffer_pool_size / config.page_size
                &&& forall|i: int|
                    0 <= i < pool@.frames.len() ==> #[trigger] pool@.frames[i] == empty_frame(
                        config.page_size as nat,
                    )
                &&& pool@.table == Map::<u64, usize>::empty()
                &&& pool@.hand == 0
                &&& pool@.checkpoint_lsn == Lsn(0)
                &&& pool@.page_size == config.page_size
            },
    {
        broadcast use vstd::std_specs::hash::group_hash_axioms;

        config.validate()?;
        let page_size: usize = config.page_size();
        let frame_count: usize = config.buffer_pool_size / page_size;
        let mut frames: Vec<Frame> = Vec::new();
        while frames.len() < frame_count
            invariant
                frames.len() <= frame_count,
                forall|i: int|
                    0 <= i < frames@.len() ==> (#[trigger] frames@[i])@ == empty_frame(
                        page_size as nat,
                    ),
            decreases frame_count - frames.len(),
        {
            frames.push(Frame::empty(page_size));
        }
        let shards: usize = config.buffer_pool_shards;
        let mut page_table: Vec<HashMap<u64, usize>> = Vec::new();
        while page_table.len() < shards
            invariant
                page_table.len() <= shards,
                forall|i: int|
                    0 <= i < page_table@.len() ==> (#[trigger] page_table@[i])@ == Map::<
                        u64,
                        usize,
                    >::empty(),
            decreases shards - page_table.len(),
        {
            page_table.push(HashMap::new());
        }
        let pool = BufferPool {
            frames,
            page_table,
            clock_hand: 0,
            checkpoint_lsn: Lsn::invalid(),
            page_size,
        };
        assert(pool@.table =~= Map::empty()) by {
            assert forall|page: u64| !pool@.table.contains_key(page) by {
                let shard = page as int % page_table@.len() as int;
                assert(0 <= shard < page_table@.len());
                assert(page_table@[shard]@ == Map::<u64, usize>::empty());
            }
        }
        assert(pool@.wf()) by {
            assert(0 * pool@.page_size == 0) by (nonlinear_arith);
        }
        Ok(pool)
    }

    /// Takes note that a checkpoint begins at `lsn`.
    pub fn set_checkpoint_lsn(&mut self, lsn: Lsn)
        requires
            old(self).wf(),
        ensures
            final(self).wf(),
            final(self).shards() == old(self).shards(),
            final(self)@ == (PoolView { checkpoint_lsn: lsn, ..old(self)@ }),
    {
        self.checkpoint_lsn = lsn;
        assert(self@.frames =~= old(self)@.frames);
        assert(self@.table =~= old(self)@.table);
    }

    /// Where the latest checkpoint began; 0 if there was none.
    pub fn checkpoint_lsn(&self) -> (lsn: Lsn)
        ensures
            lsn == self@.checkpoint_lsn,
    {
        self.checkpoint_lsn
    }

    /// The number of frames.
    pub fn frame_count(&self) -> (count: usize)
        ensures
            count == self@.frames.len(),
    {
        self.frames.len()
    }

    /// The number of shards of the page table.
    pub fn shard_count(&self) -> (count: usize)
        ensures
            count == self.shards(),
    {
        self.page_table.len()
    }

    fn shard_index(&self, page_id: PageId) -> (index: usize)
        requires
            self.page_table@.len() > 0,
        ensures
            index < self.page_table@.len(),
            index == page_id.0 as int % self.page_table@.len() as int,
    {
        (page_id.0 % self.page_table.len() as u64) as usize
    }

    fn find(&self, page_id: PageId) -> (found: Option<usize>)
        requires
            self.page_table@.len() > 0,
        ensures
            found is Some <==> self@.table.contains_key(page_id.0),
            found matches Some(i) ==> i == self@.table[page_id.0],
    {
        broadcast use vstd::std_specs::hash::group_hash_axioms;

        let shard: usize = self.shard_index(page_id);
        match self.page_table[shard].get(&page_id.0) {
            Some(i) => Some(*i),
            None => None,
        }
    }

    fn map_page(&mut self, page_id: PageId, frame: usize)
        requires
            old(self).page_table@.len() > 0,
        ensures
            final(self).page_table@.len() == old(self).page_table@.len(),
            final(self)@ == (PoolView {
                table: old(self)@.table.insert(page_id.0, frame),
                ..old(self)@
            }),
    {
        broadcast use vstd::std_specs::hash::group_hash_axioms;

        let shard: usize = self.shard_index(page_id);
        self.page_table[shard].insert(page_id.0, frame);
        assert(self@.frames =~= old(self)@.frames);
        assert(self@.table =~= old(self)@.table.insert(page_id.0, frame));
    }

    fn unmap_page(&mut self, page_id: PageId)
        requires
            old(self).page_table@.len() > 0,
        ensures
            final(self).page_table@.len() == old(self).page_table@.len(),
            final(self)@ == (PoolView { table: old(self)@.table.remove(page_id.0), ..old(self)@ }),
    {
        broadcast use vstd::std_specs::hash::group_hash_axioms;

        let shard: usize = self.shard_index(page_id);
        self.page_table[shard].remove(&page_id.0);
        assert(self@.frames =~= old(self)@.frames);
        assert(self@.table =~= old(self)@.table.remove(page_id.0));
    }

    /// Moves the clock hand, at most twice around.
    fn search(&mut self) -> (victim: Option<usize>)
        requires
            old(self)@.wf(),
        ensures
            final(self).page_table@ == old(self).page_table@,
            final(self)@ == old(self)@.searched(),
            victim is Some <==> old(self)@.search().victim is Some,
            victim matches Some(v) ==> v == old(self)@.search().victim->0,
    {
        let ghost before = self@;
        let n: usize = self.frames.len();
        let mut left: u128 = 2 * n as u128;
        while left > 0
            invariant
                n == self.frames@.len() == before.frames.len(),
                n > 0,
                self.clock_hand < n,
                left <= 2 * n,
                before == old(self)@,
                self.page_table@ == old(self).page_table@,
                self.checkpoint_lsn == old(self).checkpoint_lsn,
                self.page_size == old(self).page_size,
                sweep(self@.frames, self.clock_hand as int, left as nat) == before.search(),
            decreases left,
        {
            let hand: usize = self.clock_hand;
            let ghost frames = self@.frames;
            left = left - 1;
            self.clock_hand = if hand + 1 >= n {
                0
            } else {
                hand + 1
            };
            assert(self@.frames =~= frames);
            if self.frames[hand].pin_count > 0 || self.frames[hand].evicting {
                continue;
            }
            if self.frames[hand].reference {
                self.frames[hand].reference = false;
                assert(self@.frames =~= frames.update(
                    hand as int,
                    FrameView { reference: false, ..frames[hand as int] },
                ));
                continue;
            }
            assert(self@.table =~= before.table);
            return Some(hand);
        }
        assert(self@.table =~= before.table);
        None
    }

    fn flush_plan(&self, frame: usize) -> (plan: Option<FlushPlan>)
        requires
            self@.wf(),
            frame < self@.frames.len(),
        ensures
            plan is Some <==> self@.wants_flush(frame as int),
            plan matches Some(plan) ==> plan.flushes(self@, frame as int),
    {
        let page_id = self.frames[frame].page_id;
        if !self.frames[frame].dirty || page_id == PageId::invalid() {
            return None;
        }
        let page_lsn = self.frames[frame].page_lsn;
        let wal_lsn = if page_lsn.is_valid() {
            Some(page_lsn)
        } else {
            None
        };
        let page_size: u64 = self.page_size as u64;
        assert(self@.frames[frame as int].page_id == page_id);
        assert(0 <= (page_id.0 - 1) * page_size <= page_id.0 * page_size) by (nonlinear_arith)
            requires
                page_id.0 >= 1,
                page_size >= 0,
        ;
        let offset: u64 = (page_id.0 - 1) * page_size;
        Some(FlushPlan { frame_id: FrameId(frame), page_id, offset, wal_lsn })
    }

    fn is_addressable(&self, page_id: PageId) -> (yes: bool)
        ensures
            yes <==> self@.is_addressable(page_id),
    {
        let page_size: u64 = self.page_size as u64;
        match page_id.0.checked_mul(page_size) {
            Some(_) => true,
            None => false,
        }
    }

    fn request(&mut self, page_id: PageId) -> (result: Result<PinStep>)
        requires
            old(self).wf(),
            page_id.0 != 0,
            old(self)@.table.contains_key(page_id.0) ==> old(self)@.frames[old(
                self,
            )@.table[page_id.0] as int].pin_count < u32::MAX,
        ensures
            final(self).wf(),
            final(self).shards() == old(self).shards(),
            requested(old(self)@, page_id, final(self)@, result),
    {
        let ghost before = self@;
        if let Some(frame) = self.find(page_id) {
            self.frames[frame].pin_count = self.frames[frame].pin_count + 1;
            self.frames[frame].reference = true;
            assert(self@.table =~= before.table);
            assert(self@.frames =~= before.pinned(page_id).frames);
            proof {
                update_keeps_wf(before, frame as int, before.pinned(page_id).frames[frame as int]);
                assert(self@ == before.pinned(page_id));
            }
            return Ok(PinStep::Pinned(FrameId(frame)));
        }
        if !self.is_addressable(page_id) {
            return Err(StorageError::PageNotFound(page_id));
        }
        proof {
            search_keeps_wf(before);
            sweep_spares_pinned(before.frames, before.hand, 2 * before.frames.len());
        }
        let frame: usize = match self.search() {
            Some(frame) => frame,
            None => {
                return Err(StorageError::BufferPoolFull);
            },
        };
        let ghost found = self@;
        let flush = self.flush_plan(frame);
        let old_page_id = self.frames[frame].page_id;
        assert(found.frames[frame as int].page_id == old_page_id);
        self.frames[frame].evicting = true;
        assert(self@.table =~= found.table);
        assert(self@.frames =~= found.frames.update(
            frame as int,
            FrameView { evicting: true, ..found.frames[frame as int] },
        ));
        self.unmap_page(old_page_id);
        assert(self@ == before.evicting(frame as int));
        Ok(PinStep::Load { frame_id: FrameId(frame), flush })
    }

    /// Asks for a page to read it.
    ///
    /// A page that is in the pool is pinned where it is. For any other, a frame is
    /// chosen; its caller empties it and loads the page.
    pub fn pin(&mut self, page_id: PageId) -> (result: Result<PinStep>)
        requires
            old(self).wf(),
            old(self)@.table.contains_key(page_id.0) ==> old(self)@.frames[old(
                self,
            )@.table[page_id.0] as int].pin_count < u32::MAX,
        ensures
            final(self).wf(),
            final(self).shards() == old(self).shards(),
            page_id.0 == 0 ==> *final(self) == *old(self) && rejects_config(
                result,
                "cannot pin PageId::INVALID"@,
            ),
            page_id.0 != 0 ==> requested(old(self)@, page_id, final(self)@, result),
    {
        if page_id == PageId::invalid() {
            return Err(StorageError::InvalidConfig("cannot pin PageId::INVALID".to_owned()));
        }
        self.request(page_id)
    }

    /// Asks for a page to change it. Once it is pinned,
    /// [`BufferPool::full_page_image`] says what has to be logged before it is
    /// changed.
    pub fn pin_mut(&mut self, page_id: PageId) -> (result: Result<PinStep>)
        requires
            old(self).wf(),
            old(self)@.table.contains_key(page_id.0) ==> old(self)@.frames[old(
                self,
            )@.table[page_id.0] as int].pin_count < u32::MAX,
        ensures
            final(self).wf(),
            final(self).shards() == old(self).shards(),
            page_id.0 == 0 ==> *final(self) == *old(self) && rejects_config(
                result,
                "cannot pin_mut PageId::INVALID"@,
            ),
            page_id.0 != 0 ==> requested(old(self)@, page_id, final(self)@, result),
    {
        if page_id == PageId::invalid() {
            return Err(StorageError::InvalidConfig("cannot pin_mut PageId::INVALID".to_owned()));
        }
        self.request(page_id)
    }

    /// Asks for a frame for a page that was just allocated. A page that is in the pool
    /// is made new by [`BufferPool::make_new`], an emptied frame is filled by
    /// [`BufferPool::page_created`].
    pub fn new_page(&mut self, page_id: PageId) -> (result: Result<PinStep>)
        requires
            old(self).wf(),
            page_id.0 != 0,
            old(self)@.table.contains_key(page_id.0) ==> old(self)@.frames[old(
                self,
            )@.table[page_id.0] as int].pin_count < u32::MAX,
        ensures
            final(self).wf(),
            final(self).shards() == old(self).shards(),
            requested(old(self)@, page_id, final(self)@, result),
    {
        self.request(page_id)
    }

    /// Takes note that the page in a frame was written to the data file.
    pub fn frame_flushed(&mut self, frame_id: FrameId)
        requires
            old(self).wf(),
            frame_id.0 < old(self)@.frames.len(),
        ensures
            final(self).wf(),
            final(self).shards() == old(self).shards(),
            final(self)@ == old(self)@.with_frame(
                frame_id.0 as int,
                FrameView { dirty: false, ..old(self)@.frames[frame_id.0 as int] },
            ),
    {
        let ghost before = self@;
        self.frames[frame_id.0].dirty = false;
        proof {
            let frame = FrameView { dirty: false, ..before.frames[frame_id.0 as int] };
            update_keeps_wf(before, frame_id.0 as int, frame);
            assert(self@.table =~= before.table);
            assert(self@.frames =~= before.with_frame(frame_id.0 as int, frame).frames);
            assert(self@ == before.with_frame(frame_id.0 as int, frame));
        }
    }

    /// Empties a frame that was chosen for another page, once its own is on disk.
    pub fn frame_evicted(&mut self, frame_id: FrameId)
        requires
            old(self).wf(),
            frame_id.0 < old(self)@.frames.len(),
            old(self)@.frames[frame_id.0 as int].evicting,
            !old(self)@.wants_flush(frame_id.0 as int),
        ensures
            final(self).wf(),
            final(self).shards() == old(self).shards(),
            final(self)@ == old(self)@.with_frame(
                frame_id.0 as int,
                empty_frame(old(self)@.page_size),
            ),
    {
        let ghost before = self@;
        let page_size: usize = self.page_size;
        self.frames[frame_id.0] = Frame::empty(page_size);
        proof {
            emptying_keeps_wf(before, frame_id.0 as int);
            let after = before.with_frame(frame_id.0 as int, empty_frame(before.page_size));
            assert(self@.table =~= before.table);
            assert(self@.frames =~= after.frames);
            assert(self@ == after);
        }
    }

    /// Puts a page, as it was read from the data file, into an empty frame, and pins
    /// it.
    pub fn page_loaded(&mut self, frame_id: FrameId, page_id: PageId, content: Vec<u8>)
        requires
            old(self).wf(),
            frame_id.0 < old(self)@.frames.len(),
            old(self)@.frames[frame_id.0 as int].page_id.0 == 0,
            !old(self)@.frames[frame_id.0 as int].evicting,
            page_id.0 != 0,
            old(self)@.is_addressable(page_id),
            !old(self)@.table.contains_key(page_id.0),
            content@.len() == old(self)@.page_size,
        ensures
            final(self).wf(),
            final(self).shards() == old(self).shards(),
            final(self)@ == old(self)@.filled(frame_id.0 as int, page_id, content@),
    {
        let ghost before = self@;
        let ghost bytes = content@;
        let frame: usize = frame_id.0;
        proof {
            assert(self.frames.len() <= usize::MAX);
            filling_keeps_wf(before, frame as int, page_id, bytes);
        }
        self.frames[frame] = Frame {
            page_id,
            pin_count: 1,
            dirty: false,
            reference: true,
            page_lsn: Lsn::invalid(),
            needs_fpi: true,
            evicting: false,
            content,
        };
        assert(self@.table =~= before.table);
        assert(self@.frames =~= before.filled(frame as int, page_id, bytes).frames);
        self.map_page(page_id, frame);
        assert(self@ == before.filled(frame as int, page_id, bytes));
    }

    /// Puts a page that was just allocated into an empty frame: pinned, all zeros and
    /// dirty.
    pub fn page_created(&mut self, frame_id: FrameId, page_id: PageId)
        requires
            old(self).wf(),
            frame_id.0 < old(self)@.frames.len(),
            old(self)@.frames[frame_id.0 as int].page_id.0 == 0,
            !old(self)@.frames[frame_id.0 as int].evicting,
            page_id.0 != 0,
            old(self)@.is_addressable(page_id),
            !old(self)@.table.contains_key(page_id.0),
        ensures
            final(self).wf(),
            final(self).shards() == old(self).shards(),
            final(self)@ == old(self)@.filled(
                frame_id.0 as int,
                page_id,
                zeros(old(self)@.page_size),
            ).made_new(frame_id.0 as int),
    {
        let mut content: Vec<u8> = Vec::new();
        content.resize(self.page_size, 0);
        assert(content@ =~= zeros(self@.page_size));
        self.page_loaded(frame_id, page_id, content);
        self.make_new(frame_id);
    }

    /// Makes a pinned page new: all zeros and dirty.
    pub fn make_new(&mut self, frame_id: FrameId)
        requires
            old(self).wf(),
            frame_id.0 < old(self)@.frames.len(),
            old(self)@.frames[frame_id.0 as int].pin_count > 0,
        ensures
            final(self).wf(),
            final(self).shards() == old(self).shards(),
            final(self)@ == old(self)@.made_new(frame_id.0 as int),
    {
        let ghost before = self@;
        let frame: usize = frame_id.0;
        let mut content: Vec<u8> = Vec::new();
        content.resize(self.page_size, 0);
        self.frames[frame].needs_fpi = false;
        self.frames[frame].dirty = true;
        self.frames[frame].content = content;
        proof {
            let after = before.made_new(frame as int);
            assert(content@ =~= zeros(before.page_size));
            update_keeps_wf(before, frame as int, after.frames[frame as int]);
            assert(self@.table =~= before.table);
            assert(self@.frames =~= after.frames);
            assert(self@ == after);
        }
    }

    /// The record to log before a pinned page is changed: an image of the whole page,
    /// if it was last changed before the latest checkpoint began, so that a torn
    /// write can be repaired.
    pub fn full_page_image(&self, frame_id: FrameId) -> (result: Result<Option<WalRecord>>)
        requires
            self.wf(),
            frame_id.0 < self@.frames.len(),
        ensures
            result is Ok,
            result->Ok_0 is Some <==> self@.wants_image(frame_id.0 as int),
            result->Ok_0 matches Some(record) ==> record@ == unplaced(
                WalRecordType::FullPageImage,
                0,
                varint(self@.frames[frame_id.0 as int].page_id.0) + blob(
                    self@.frames[frame_id.0 as int].content,
                ),
            ),
    {
        let frame: &Frame = &self.frames[frame_id.0];
        assert(self@.frames[frame_id.0 as int] == frame@);
        if frame.needs_fpi && self.checkpoint_lsn.is_valid() && frame.page_lsn.0
            < self.checkpoint_lsn.0 {
            let image = vstd::slice::slice_to_vec(frame.content.as_slice());
            let record = WalRecord::full_page_image(frame.page_id, image)?;
            Ok(Some(record))
        } else {
            Ok(None)
        }
    }

    /// Takes note that a pinned page was logged as a whole at `lsn`, which becomes its
    /// `pd_lsn`.
    pub fn image_logged(&mut self, frame_id: FrameId, lsn: Lsn)
        requires
            old(self).wf(),
            frame_id.0 < old(self)@.frames.len(),
            old(self)@.frames[frame_id.0 as int].pin_count > 0,
        ensures
            final(self).wf(),
            final(self).shards() == old(self).shards(),
            final(self)@ == old(self)@.imaged(frame_id.0 as int, lsn),
            !final(self)@.wants_image(frame_id.0 as int),
    {
        let ghost before = self@;
        let frame: usize = frame_id.0;
        assert(before.frames[frame as int].content == self.frames@[frame as int].content@);
        self.frames[frame].needs_fpi = false;
        self.frames[frame].page_lsn = lsn;
        self.frames[frame].dirty = true;
        set_page_pd_lsn(&mut self.frames[frame].content, lsn);
        proof {
            let after = before.imaged(frame as int, lsn);
            crate::page::pd_lsn_reads_back(before.frames[frame as int].content, lsn);
            update_keeps_wf(before, frame as int, after.frames[frame as int]);
            assert(self@.table =~= before.table);
            assert(self@.frames =~= after.frames);
            assert(self@ == after);
        }
    }

    /// The bytes of the page in a frame.
    pub fn page(&self, frame_id: FrameId) -> (content: &Vec<u8>)
        requires
            frame_id.0 < self@.frames.len(),
        ensures
            content@ == self@.frames[frame_id.0 as int].content,
    {
        &self.frames[frame_id.0].content
    }

    /// The bytes to write to the data file, once the log is durable up to the last record
    /// that changed the page; `None` as long as it is not, so that the log is to be
    /// flushed first. The error that keeps the log from becoming durable is returned.
    pub fn page_to_write(&self, plan: &FlushPlan, wal: &WalWriter) -> (result: Result<
        Option<&Vec<u8>>,
    >)
        requires
            plan.frame_id.0 < self@.frames.len(),
            wal.wf(),
        ensures
            result matches Ok(Some(content)) ==> plan.may_write(wal@) && content@
                == self@.frames[plan.frame_id.0 as int].content,
            match plan.wal_lsn {
                None => result matches Ok(Some(_)),
                Some(lsn) => match wal@.error {
                    Some(text) => write_failed(result, text),
                    None => if lsn.0 > wal@.now.0 {
                        result matches Err(StorageError::LsnNotAvailable(at)) && at == lsn
                    } else if wal@.is_durable(lsn) {
                        result matches Ok(Some(_))
                    } else if wal@.shutdown {
                        write_failed(result, "wal writer shut down"@)
                    } else {
                        result matches Ok(None)
                    },
                },
            },
    {
        if let Some(lsn) = plan.wal_lsn {
            match wal.flush_to(lsn) {
                Ok(FlushStep::Done) => {},
                Ok(FlushStep::Wait) => return Ok(None),
                Err(error) => return Err(error),
            }
        }
        Ok(Some(self.page(plan.frame_id)))
    }

    /// The page in a frame.
    pub fn page_id(&self, frame_id: FrameId) -> (page_id: PageId)
        requires
            frame_id.0 < self@.frames.len(),
        ensures
            page_id == self@.frames[frame_id.0 as int].page_id,
    {
        self.frames[frame_id.0].page_id
    }

    /// Changes the bytes of a pinned page.
    pub fn store_page(&mut self, frame_id: FrameId, content: Vec<u8>)
        requires
            old(self).wf(),
            frame_id.0 < old(self)@.frames.len(),
            old(self)@.frames[frame_id.0 as int].pin_count > 0,
            content@.len() == old(self)@.page_size,
        ensures
            final(self).wf(),
            final(self).shards() == old(self).shards(),
            final(self)@ == old(self)@.with_frame(
                frame_id.0 as int,
                FrameView { content: content@, ..old(self)@.frames[frame_id.0 as int] },
            ),
    {
        let ghost before = self@;
        let ghost bytes = content@;
        let frame: usize = frame_id.0;
        self.frames[frame].content = content;
        proof {
            let changed = FrameView { content: bytes, ..before.frames[frame as int] };
            update_keeps_wf(before, frame as int, changed);
            assert(self@.table =~= before.table);
            assert(self@.frames =~= before.with_frame(frame as int, changed).frames);
            assert(self@ == before.with_frame(frame as int, changed));
        }
    }

    /// How to write a page to the data file; `None` if it is not dirty.
    pub fn flush(&self, page_id: PageId) -> (result: Result<Option<FlushPlan>>)
        requires
            self.wf(),
        ensures
            page_id.0 == 0 ==> rejects_config(result, "cannot flush PageId::INVALID"@),
            page_id.0 != 0 && !self@.table.contains_key(page_id.0) ==> (result matches Err(
                StorageError::PageNotFound(page),
            ) && page == page_id),
            page_id.0 != 0 && self@.table.contains_key(page_id.0) ==> {
                &&& result matches Ok(plan)
                &&& plan is Some <==> self@.wants_flush(self@.table[page_id.0] as int)
                &&& plan matches Some(plan) ==> plan.flushes(
                    self@,
                    self@.table[page_id.0] as int,
                )
            },
    {
        if page_id == PageId::invalid() {
            return Err(StorageError::InvalidConfig("cannot flush PageId::INVALID".to_owned()));
        }
        match self.find(page_id) {
            Some(frame) => Ok(self.flush_plan(frame)),
            None => Err(StorageError::PageNotFound(page_id)),
        }
    }

    /// Gives up a page that was pinned to read it.
    pub fn unpin(&mut self, frame_id: FrameId)
        requires
            old(self).wf(),
            frame_id.0 < old(self)@.frames.len(),
            old(self)@.frames[frame_id.0 as int].pin_count > 0,
        ensures
            final(self).wf(),
            final(self).shards() == old(self).shards(),
            final(self)@ == old(self)@.with_frame(
                frame_id.0 as int,
                FrameView {
                    pin_count: (old(self)@.frames[frame_id.0 as int].pin_count - 1) as u32,
                    ..old(self)@.frames[frame_id.0 as int]
                },
            ),
    {
        let ghost before = self@;
        let frame: usize = frame_id.0;
        self.frames[frame].pin_count = self.frames[frame].pin_count - 1;
        proof {
            let changed = FrameView {
                pin_count: (before.frames[frame as int].pin_count - 1) as u32,
                ..before.frames[frame as int]
            };
            update_keeps_wf(before, frame as int, changed);
            assert(self@.table =~= before.table);
            assert(self@.frames =~= before.with_frame(frame as int, changed).frames);
            assert(self@ == before.with_frame(frame as int, changed));
        }
    }

    /// Gives up a page that was pinned to change it: the page is dirty from then on.
    pub fn unpin_mut(&mut self, frame_id: FrameId)
        requires
            old(self).wf(),
            frame_id.0 < old(self)@.frames.len(),
            old(self)@.frames[frame_id.0 as int].pin_count > 0,
        ensures
            final(self).wf(),
            final(self).shards() == old(self).shards(),
            final(self)@ == old(self)@.with_frame(
                frame_id.0 as int,
                FrameView {
                    pin_count: (old(self)@.frames[frame_id.0 as int].pin_count - 1) as u32,
                    dirty: true,
                    ..old(self)@.frames[frame_id.0 as int]
                },
            ),
    {
        let ghost before = self@;
        let frame: usize = frame_id.0;
        self.frames[frame].pin_count = self.frames[frame].pin_count - 1;
        self.frames[frame].dirty = true;
        proof {
            let changed = FrameView {
                pin_count: (before.frames[frame as int].pin_count - 1) as u32,
                dirty: true,
                ..before.frames[frame as int]
            };
            update_keeps_wf(before, frame as int, changed);
            assert(self@.table =~= before.table);
            assert(self@.frames =~= before.with_frame(frame as int, changed).frames);
            assert(self@ == before.with_frame(frame as int, changed));
        }
    }

    /// How many hold a page; 0 if it is not in the pool.
    pub fn pin_count(&self, page_id: PageId) -> (count: u32)
        requires
            self.wf(),
        ensures
            count == if self@.table.contains_key(page_id.0) {
                self@.frames[self@.table[page_id.0] as int].pin_count
            } else {
                0
            },
    {
        match self.find(page_id) {
            Some(frame) => self.frames[frame].pin_count,
            None => 0,
        }
    }

    /// The last record that changed a page in the pool, as far as known; `None` if the
    /// page is not there.
    pub fn frame_page_lsn(&self, page_id: PageId) -> (lsn: Option<Lsn>)
        requires
            self.wf(),
        ensures
            lsn is Some <==> self@.table.contains_key(page_id.0),
            lsn matches Some(lsn) ==> lsn == self@.frames[self@.table[page_id.0] as int].page_lsn,
    {
        match self.find(page_id) {
            Some(frame) => Some(self.frames[frame].page_lsn),
            None => None,
        }
    }

    /// The dirty pages, each with the last record that changed it, as far as known.
    pub fn dirty_page_table(&self) -> (table: DirtyPageTable)
        ensures
            table@ == self@.dirty_table(self@.frames.len()),
    {
        let mut table = DirtyPageTable::new();
        let mut i: usize = 0;
        while i < self.frames.len()
            invariant
                i <= self.frames.len(),
                table@ == self@.dirty_table(i as nat),
            decreases self.frames.len() - i,
        {
            assert(self@.frames[i as int] == self.frames@[i as int]@);
            if self.frames[i].dirty && self.frames[i].page_id != PageId::invalid() {
                table.add(self.frames[i].page_id, self.frames[i].page_lsn);
            }
            i += 1;
        }
        table
    }

    /// The dirty pages, by frame.
    pub fn dirty_page_ids(&self) -> (pages: Vec<PageId>)
        ensures
            pages@ == self@.dirty_pages(self@.frames.len()),
    {
        let mut pages: Vec<PageId> = Vec::new();
        let mut i: usize = 0;
        while i < self.frames.len()
            invariant
                i <= self.frames.len(),
                pages@ == self@.dirty_pages(i as nat),
            decreases self.frames.len() - i,
        {
            assert(self@.frames[i as int] == self.frames@[i as int]@);
            if self.frames[i].dirty && self.frames[i].page_id != PageId::invalid() {
                pages.push(self.frames[i].page_id);
            }
            i += 1;
        }
        pages
    }
}

/// An empty frame holds no page and nothing that could be lost: it is clean and not in use, and
/// its bytes are zero.
pub proof fn empty_frame_holds_nothing(page_size: nat, i: int)
    ensures
        ({
            let frame = empty_frame(page_size);
            &&& frame.page_id.0 == 0
            &&& frame.pin_count == 0
            &&& !frame.dirty
            &&& !frame.reference
            &&& !frame.needs_fpi
            &&& !frame.evicting
            &&& frame.page_lsn.0 == 0
            &&& frame.content.len() == page_size
            &&& 0 <= i < page_size ==> frame.content[i] == 0
        }),
{
}

/// A page may be written exactly if the log is durable behind the last record that changed it,
/// or up to its end, or if no record is known to have.
pub proof fn page_waits_for_its_record(plan: FlushPlan, wal: WriterView)
    ensures
        plan.wal_lsn is None ==> plan.may_write(wal),
        plan.wal_lsn matches Some(lsn) ==> (plan.may_write(wal) <==> wal.opened.0 > lsn.0
            || wal.synced.0 > lsn.0 || (wal.opened.0 >= wal.synced.0 && wal.opened == wal.now) || (
        wal.synced.0 >= wal.opened.0 && wal.synced == wal.now)),
{
}

} // verus!
