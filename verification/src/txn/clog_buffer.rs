//! Cache of CLOG pages.
//!
//! A fixed number of frames, each for one page, replaced by a clock sweep. A
//! change of state is made in memory only. A changed page is written to its
//! segment file when its frame is needed for another page, and by the flush that
//! a checkpoint does; only the flush makes the segment files durable. What a
//! crash loses is rebuilt from the WAL.
//!
//! The cache does no I/O itself: where a page is missing it says what to write
//! and what to read ([`ClogLoad`]), and is told when that has been done.

use std::collections::HashMap;

use vstd::prelude::*;

use crate::clog::{state_number, TxnState};
use crate::codec::zeros;
use crate::keys::lists;
use crate::txn::clog_file::{
    byte_in_page_of_xid, get_nibble, nibble, nibbles_are_independent, page_no_of_xid,
    segment_id_of_page, set_nibble, state_of_nibble, txn_state_from_nibble, with_nibble,
    ClogSegmentStore, CLOG_PAGE_BYTES,
};
use crate::types::TxnId;

verus! {

/// The page number of a frame that holds no page.
pub const INVALID_PAGE_NO: u64 = 0xffff_ffff_ffff_ffff;

/// Least number of frames.
pub const MIN_FRAMES: usize = 4;

/// Greatest number of frames.
pub const MAX_FRAMES: usize = 1024;

#[derive(Debug)]
struct ClogFrame {
    page_no: u64,
    data: Vec<u8>,
    dirty: bool,
    referenced: bool,
}

/// A frame of the cache.
pub struct ClogFrameView {
    /// The page, or [`INVALID_PAGE_NO`].
    pub page_no: u64,
    /// The bytes of the page.
    pub data: Seq<u8>,
    /// The page was changed since it was last written.
    pub dirty: bool,
    /// The page was used since the clock hand last came by.
    pub referenced: bool,
}

impl View for ClogFrame {
    type V = ClogFrameView;

    closed spec fn view(&self) -> ClogFrameView {
        ClogFrameView {
            page_no: self.page_no,
            data: self.data@,
            dirty: self.dirty,
            referenced: self.referenced,
        }
    }
}

/// The state of the cache.
pub struct ClogBufferView {
    /// The frames.
    pub frames: Seq<ClogFrameView>,
    /// Where the clock hand stands.
    pub hand: int,
    /// Number of accesses to a page that was there.
    pub hits: u64,
    /// Number of accesses to a page that was not there.
    pub misses: u64,
    /// Segments with writes that are not durable yet.
    pub unsynced: Set<u64>,
}

/// A page that has to be loaded.
#[derive(Debug, Clone, Copy, PartialEq, Eq, Structural)]
pub struct ClogLoad {
    /// The page.
    pub page_no: u64,
    /// The frame it goes to.
    pub victim: usize,
    /// The page in that frame, if it has to be written first.
    pub writeback: Option<u64>,
}

/// Where a page is.
#[derive(Debug, Clone, Copy, PartialEq, Eq, Structural)]
pub enum Located {
    /// In this frame.
    Frame(usize),
    /// Not in the cache.
    Missing(ClogLoad),
}

/// What reading a state gives.
#[derive(Debug, Clone, Copy, PartialEq, Eq, Structural)]
pub enum ClogRead {
    /// The state.
    State(TxnState),
    /// The bits on disk stand for no state.
    Corrupt,
    /// The page has to be loaded first.
    Missing(ClogLoad),
}

/// What recording a state gives.
#[derive(Debug, Clone, Copy, PartialEq, Eq, Structural)]
pub enum ClogWrite {
    /// The state is recorded.
    Done,
    /// The page has to be loaded first.
    Missing(ClogLoad),
}

/// The clock hand takes this frame when it comes by: it is free, or its page was
/// neither used nor changed lately.
pub open spec fn takes(frame: ClogFrameView) -> bool {
    frame.page_no == INVALID_PAGE_NO || (!frame.referenced && !frame.dirty)
}

/// The frame that the hand reaches after `k` steps.
pub open spec fn clock_at(n: nat, hand: int, k: int) -> int {
    if hand + k < n {
        hand + k
    } else {
        hand + k - n
    }
}

/// The steps from `hand` to frame `i`.
pub open spec fn clock_distance(n: nat, hand: int, i: int) -> int {
    if i >= hand {
        i - hand
    } else {
        i - hand + n
    }
}

/// How many frames the hand passes, from step `k` on, before it takes one. After a
/// whole revolution without one it takes the frame it started from, even if that
/// was changed.
pub open spec fn passes(frames: Seq<ClogFrameView>, hand: int, k: int) -> int
    decreases frames.len() - k,
{
    if k >= frames.len() {
        frames.len() as int
    } else if takes(frames[clock_at(frames.len(), hand, k)]) {
        k
    } else {
        passes(frames, hand, k + 1)
    }
}

/// The frames after the hand has passed `k` of them: they count as not used.
pub open spec fn passed(frames: Seq<ClogFrameView>, hand: int, k: int) -> Seq<ClogFrameView> {
    Seq::new(
        frames.len(),
        |i: int|
            if clock_distance(frames.len(), hand, i) < k {
                ClogFrameView { referenced: false, ..frames[i] }
            } else {
                frames[i]
            },
    )
}

/// The frame that the clock sweep picks.
pub open spec fn swept_frame(frames: Seq<ClogFrameView>, hand: int) -> int {
    let k = passes(frames, hand, 0);
    if k >= frames.len() {
        hand
    } else {
        clock_at(frames.len(), hand, k)
    }
}

/// The frames after the clock sweep.
pub open spec fn swept(frames: Seq<ClogFrameView>, hand: int) -> Seq<ClogFrameView> {
    passed(frames, hand, passes(frames, hand, 0))
}

/// The hand after the clock sweep: right behind the frame that was picked.
pub open spec fn swept_hand(frames: Seq<ClogFrameView>, hand: int) -> int {
    clock_at(frames.len(), swept_frame(frames, hand), 1)
}

/// Frame `i` holds page `p`.
pub open spec fn holds(frames: Seq<ClogFrameView>, i: int, p: u64) -> bool {
    0 <= i < frames.len() && frames[i].page_no == p && p != INVALID_PAGE_NO
}

/// Some frame holds page `p`.
pub open spec fn resident(frames: Seq<ClogFrameView>, p: u64) -> bool {
    exists|i: int| holds(frames, i, p)
}

/// A page that is to be loaded into the frame that the clock sweep picks.
pub open spec fn load_of(frames: Seq<ClogFrameView>, hand: int, p: u64) -> ClogLoad {
    let victim = swept_frame(frames, hand);
    ClogLoad {
        page_no: p,
        victim: victim as usize,
        writeback: if frames[victim].page_no != INVALID_PAGE_NO && frames[victim].dirty {
            Some(frames[victim].page_no)
        } else {
            None
        },
    }
}

impl ClogBufferView {
    /// The cache after looking for page `p`, which is in frame `i`.
    pub open spec fn hit(self, i: int) -> ClogBufferView {
        ClogBufferView {
            frames: self.frames.update(
                i,
                ClogFrameView { referenced: true, ..self.frames[i] },
            ),
            hits: self.hits.wrapping_add(1),
            ..self
        }
    }

    /// The cache after looking for a page that is not there.
    pub open spec fn missed(self) -> ClogBufferView {
        ClogBufferView {
            frames: swept(self.frames, self.hand),
            hand: swept_hand(self.frames, self.hand),
            misses: self.misses.wrapping_add(1),
            ..self
        }
    }

    /// The cache after the page in frame `i` was written to its segment file.
    pub open spec fn written(self, i: int) -> ClogBufferView {
        ClogBufferView {
            frames: self.frames.update(i, ClogFrameView { dirty: false, ..self.frames[i] }),
            unsynced: self.unsynced.insert(segment_id_of_page(self.frames[i].page_no)),
            ..self
        }
    }

    /// The cache with the state of `xid` recorded in frame `i`.
    pub open spec fn with_state(self, i: int, xid: TxnId, state: TxnState) -> ClogBufferView {
        let at = byte_in_page_of_xid(xid) as int;
        let data = self.frames[i].data;
        ClogBufferView {
            frames: self.frames.update(
                i,
                ClogFrameView {
                    data: data.update(at, with_nibble(data[at], xid, state_number(state))),
                    dirty: true,
                    ..self.frames[i]
                },
            ),
            ..self
        }
    }
}

/// What the bits of `xid` in a page stand for.
pub open spec fn read_in(data: Seq<u8>, xid: TxnId) -> ClogRead {
    match state_of_nibble(nibble(data[byte_in_page_of_xid(xid) as int], xid)) {
        Some(state) => ClogRead::State(state),
        None => ClogRead::Corrupt,
    }
}

/// Cache of CLOG pages.
#[derive(Debug)]
pub struct ClogBuffer {
    frames: Vec<ClogFrame>,
    page_table: HashMap<u64, usize>,
    clock_hand: usize,
    hits: u64,
    misses: u64,
    store: ClogSegmentStore,
}

impl View for ClogBuffer {
    type V = ClogBufferView;

    closed spec fn view(&self) -> ClogBufferView {
        ClogBufferView {
            frames: Seq::new(self.frames@.len(), |i: int| self.frames@[i]@),
            hand: self.clock_hand as int,
            hits: self.hits,
            misses: self.misses,
            unsynced: self.store@,
        }
    }
}

impl ClogBuffer {
    /// The page table names exactly the pages in the frames, so that no page is
    /// in two frames; the hand stands at a frame; frames have the page size, and one
    /// that holds no page has nothing to write.
    pub closed spec fn wf(&self) -> bool {
        &&& MIN_FRAMES <= self.frames.len() <= MAX_FRAMES
        &&& self.clock_hand < self.frames.len()
        &&& forall|i: int|
            0 <= i < self.frames.len() ==> (#[trigger] self.frames@[i]).data.len()
                == CLOG_PAGE_BYTES && (self.frames@[i].page_no == INVALID_PAGE_NO
                ==> !self.frames@[i].dirty)
        &&& forall|p: u64| #[trigger]
            self.page_table@.contains_key(p) ==> holds(self@.frames, self.page_table@[p] as int, p)
        &&& forall|i: int|
            0 <= i < self.frames.len() && (#[trigger] self.frames@[i]).page_no != INVALID_PAGE_NO
                ==> self.page_table@.contains_key(self.frames@[i].page_no)
                && self.page_table@[self.frames@[i].page_no] == i
    }

    /// What `wf` says of the state: no page is in two frames, and a frame without a page
    /// has nothing to write.
    pub proof fn wf_facts(&self)
        requires
            self.wf(),
        ensures
            MIN_FRAMES <= self@.frames.len() <= MAX_FRAMES,
            0 <= self@.hand < self@.frames.len(),
            forall|i: int|
                0 <= i < self@.frames.len() ==> (#[trigger] self@.frames[i]).data.len()
                    == CLOG_PAGE_BYTES,
            forall|i: int|
                0 <= i < self@.frames.len() && (#[trigger] self@.frames[i]).page_no
                    == INVALID_PAGE_NO ==> !self@.frames[i].dirty,
            forall|i: int, j: int, p: u64|
                holds(self@.frames, i, p) && holds(self@.frames, j, p) ==> i == j,
    {
        assert forall|i: int| 0 <= i < self@.frames.len() implies (#[trigger] self@.frames[i]).data.len()
            == CLOG_PAGE_BYTES by {
            assert(self.frames@[i].data.len() == CLOG_PAGE_BYTES);
        }
        assert forall|i: int|
            0 <= i < self@.frames.len() && (#[trigger] self@.frames[i]).page_no
                == INVALID_PAGE_NO implies !self@.frames[i].dirty by {
            assert(self.frames@[i].page_no == INVALID_PAGE_NO);
        }
        assert forall|i: int, j: int, p: u64|
            holds(self@.frames, i, p) && holds(self@.frames, j, p) implies i == j by {
            assert(self.frames@[i].page_no == p);
            assert(self.frames@[j].page_no == p);
        }
    }

    /// An empty cache with `frames` frames, a number from [`MIN_FRAMES`] to
    /// [`MAX_FRAMES`].
    pub fn open(frames: usize) -> (buffer: Self)
        requires
            MIN_FRAMES <= frames <= MAX_FRAMES,
        ensures
            buffer.wf(),
            buffer@ == (ClogBufferView {
                frames: Seq::new(
                    frames as nat,
                    |i: int|
                        ClogFrameView {
                            page_no: INVALID_PAGE_NO,
                            data: zeros(CLOG_PAGE_BYTES as nat),
                            dirty: false,
                            referenced: false,
                        },
                ),
                hand: 0,
                hits: 0,
                misses: 0,
                unsynced: Set::empty(),
            }),
    {
        let mut list: Vec<ClogFrame> = Vec::new();
        let mut i: usize = 0;
        while i < frames
            invariant
                i <= frames,
                list.len() == i,
                forall|k: int|
                    0 <= k < i ==> (#[trigger] list@[k]).page_no == INVALID_PAGE_NO
                        && list@[k].data@ == zeros(CLOG_PAGE_BYTES as nat) && !list@[k].dirty
                        && !list@[k].referenced,
            decreases frames - i,
        {
            let mut data: Vec<u8> = Vec::new();
            crate::codec::push_zeros(&mut data, CLOG_PAGE_BYTES as usize);
            assert(data@ =~= zeros(CLOG_PAGE_BYTES as nat));
            list.push(
                ClogFrame { page_no: INVALID_PAGE_NO, data, dirty: false, referenced: false },
            );
            i += 1;
        }
        let buffer = ClogBuffer {
            frames: list,
            page_table: HashMap::new(),
            clock_hand: 0,
            hits: 0,
            misses: 0,
            store: ClogSegmentStore::new(),
        };
        assert(buffer@.frames =~= Seq::new(
            frames as nat,
            |i: int|
                ClogFrameView {
                    page_no: INVALID_PAGE_NO,
                    data: zeros(CLOG_PAGE_BYTES as nat),
                    dirty: false,
                    referenced: false,
                },
        ));
        buffer
    }

    /// The number of frames.
    pub fn frame_count(&self) -> (count: usize)
        ensures
            count == self@.frames.len(),
    {
        self.frames.len()
    }

    /// Number of accesses to a page that was there.
    pub fn hits(&self) -> (hits: u64)
        ensures
            hits == self@.hits,
    {
        self.hits
    }

    /// Number of accesses to a page that was not there.
    pub fn misses(&self) -> (misses: u64)
        ensures
            misses == self@.misses,
    {
        self.misses
    }

    /// The number of segments with writes that are not durable yet.
    pub fn unsynced_segment_count(&self) -> (count: usize)
        ensures
            count == self@.unsynced.len(),
    {
        self.store.unsynced_segment_count()
    }

    /// The segments with writes that are not durable yet; the flush makes all of
    /// them durable.
    pub fn unsynced_segments(&self) -> (segments: Vec<u64>)
        ensures
            lists(segments@, self@.unsynced),
    {
        self.store.unsynced_segments()
    }

    /// Reports a segment as durable.
    pub fn segment_synced(&mut self, segment_id: u64)
        requires
            old(self).wf(),
        ensures
            final(self).wf(),
            final(self)@ == (ClogBufferView {
                unsynced: old(self)@.unsynced.remove(segment_id),
                ..old(self)@
            }),
    {
        self.store.segment_synced(segment_id);
        assert(self@.frames =~= old(self)@.frames);
    }

    /// The page in a frame.
    pub fn page_no(&self, frame: usize) -> (page_no: u64)
        requires
            frame < self@.frames.len(),
        ensures
            page_no == self@.frames[frame as int].page_no,
    {
        self.frames[frame].page_no
    }

    /// The bytes of the page in a frame.
    pub fn page(&self, frame: usize) -> (data: &Vec<u8>)
        requires
            frame < self@.frames.len(),
        ensures
            data@ == self@.frames[frame as int].data,
    {
        &self.frames[frame].data
    }

    /// Picks the frame for another page: the clock hand walks on and takes the
    /// first frame that is free, or whose page was neither used since the hand
    /// last came by nor changed. If a whole revolution gives none, it takes the
    /// frame it started from.
    fn find_victim(&mut self) -> (victim: usize)
        requires
            old(self).wf(),
        ensures
            final(self).wf(),
            victim == swept_frame(old(self)@.frames, old(self)@.hand),
            victim < old(self)@.frames.len(),
            final(self)@ == (ClogBufferView {
                frames: swept(old(self)@.frames, old(self)@.hand),
                hand: swept_hand(old(self)@.frames, old(self)@.hand),
                ..old(self)@
            }),
            final(self).page_table == old(self).page_table,
    {
        let n: usize = self.frames.len();
        let ghost before = self@.frames;
        let ghost start = self@.hand;
        let mut k: usize = 0;
        assert(self@.frames =~= passed(before, start, 0));
        loop
            invariant
                old(self).wf(),
                self.wf(),
                n == self.frames.len() == before.len(),
                before == old(self)@.frames,
                start == old(self)@.hand,
                0 <= start < n,
                k <= n,
                self.clock_hand == (if k < n {
                    clock_at(n as nat, start, k as int)
                } else {
                    start
                }),
                self@.frames == passed(before, start, k as int),
                passes(before, start, 0) == passes(before, start, k as int),
                self.page_table == old(self).page_table,
                self.hits == old(self).hits,
                self.misses == old(self).misses,
                self.store == old(self).store,
            decreases n + 1 - k,
        {
            let idx: usize = self.clock_hand;
            self.clock_hand = if idx + 1 == n {
                0
            } else {
                idx + 1
            };
            let ghost now = self@.frames;
            assert(now == passed(before, start, k as int));
            assert(self.frames@[idx as int]@ == now[idx as int]);
            assert(k < n ==> clock_distance(n as nat, start, idx as int) == k);
            if self.frames[idx].page_no == INVALID_PAGE_NO {
                assert(takes(before[idx as int]));
                return idx;
            }
            if self.frames[idx].referenced {
                self.frames[idx].referenced = false;
                proof {
                    assert(k < n);
                    assert(now[idx as int] == before[idx as int]);
                    assert(!takes(before[idx as int]));
                    let next = passed(before, start, k + 1);
                    assert(self@.frames[idx as int] == next[idx as int]);
                    assert forall|i: int| 0 <= i < n implies self@.frames[i] == next[i] by {
                        if i != idx {
                            assert(self@.frames[i] == now[i]);
                            assert(clock_distance(n as nat, start, i) != k);
                        }
                    }
                    assert(self@.frames =~= next);
                    assert forall|p: u64| #[trigger] self.page_table@.contains_key(p) implies holds(
                        self@.frames,
                        self.page_table@[p] as int,
                        p,
                    ) by {
                        assert(holds(now, self.page_table@[p] as int, p));
                    }
                }
                k += 1;
                continue;
            }
            if self.frames[idx].dirty && k < n {
                proof {
                    assert(now[idx as int] == before[idx as int]);
                    assert(!takes(before[idx as int]));
                    let next = passed(before, start, k + 1);
                    assert(next[idx as int] == now[idx as int]);
                    assert(self@.frames =~= next);
                }
                k += 1;
                continue;
            }
            return idx;
        }
    }

    /// Looks for a page: the frame that holds it, or what has to be done to load
    /// it.
    pub fn locate_frame(&mut self, page_no: u64) -> (located: Located)
        requires
            old(self).wf(),
            page_no != INVALID_PAGE_NO,
        ensures
            final(self).wf(),
            match located {
                Located::Frame(i) => holds(old(self)@.frames, i as int, page_no) && final(self)@
                    == old(self)@.hit(i as int),
                Located::Missing(load) => !resident(old(self)@.frames, page_no) && final(self)@
                    == old(self)@.missed() && load == load_of(
                    old(self)@.frames,
                    old(self)@.hand,
                    page_no,
                ) && load.victim < old(self)@.frames.len(),
            },
    {
        broadcast use vstd::std_specs::hash::group_hash_axioms;

        let ghost before = self@.frames;
        let found: Option<usize> = match self.page_table.get(&page_no) {
            Some(i) => Some(*i),
            None => None,
        };
        match found {
            Some(i) => {
                assert(holds(before, i as int, page_no));
                self.hits = self.hits.wrapping_add(1);
                self.frames[i].referenced = true;
                proof {
                    assert(self@.frames =~= old(self)@.hit(i as int).frames);
                    assert forall|p: u64| #[trigger] self.page_table@.contains_key(p) implies holds(
                        self@.frames,
                        self.page_table@[p] as int,
                        p,
                    ) by {
                        assert(holds(before, self.page_table@[p] as int, p));
                    }
                }
                Located::Frame(i)
            },
            None => {
                assert(!resident(before, page_no)) by {
                    if resident(before, page_no) {
                        let i = choose|i: int| holds(before, i, page_no);
                        assert(self.frames@[i].page_no == page_no);
                    }
                }
                self.misses = self.misses.wrapping_add(1);
                assert(self@.frames =~= before);
                let victim = self.find_victim();
                assert(self@.frames.len() == before.len());
                assert(self.frames@[victim as int]@ == self@.frames[victim as int]);
                let frame = &self.frames[victim];
                let writeback: Option<u64> = if frame.page_no != INVALID_PAGE_NO && frame.dirty {
                    Some(frame.page_no)
                } else {
                    None
                };
                Located::Missing(ClogLoad { page_no, victim, writeback })
            },
        }
    }

    /// Reports the page in a frame as written to its segment file.
    pub fn frame_written(&mut self, frame: usize)
        requires
            old(self).wf(),
            frame < old(self)@.frames.len(),
            old(self)@.frames[frame as int].page_no != INVALID_PAGE_NO,
        ensures
            final(self).wf(),
            final(self)@ == (ClogBufferView {
                frames: old(self)@.frames.update(
                    frame as int,
                    ClogFrameView { dirty: false, ..old(self)@.frames[frame as int] },
                ),
                unsynced: old(self)@.unsynced.insert(
                    segment_id_of_page(old(self)@.frames[frame as int].page_no),
                ),
                ..old(self)@
            }),
            final(self)@ == old(self)@.written(frame as int),
    {
        let ghost before = self@.frames;
        let page_no: u64 = self.frames[frame].page_no;
        self.frames[frame].dirty = false;
        self.store.page_written(page_no);
        proof {
            assert(self@.frames =~= before.update(
                frame as int,
                ClogFrameView { dirty: false, ..before[frame as int] },
            ));
            assert forall|p: u64| #[trigger] self.page_table@.contains_key(p) implies holds(
                self@.frames,
                self.page_table@[p] as int,
                p,
            ) by {
                assert(holds(before, self.page_table@[p] as int, p));
            }
        }
    }

    /// Puts a page that was read into the frame that was picked for it. The page
    /// that was there has to have been written, if it was changed.
    pub fn finish_load(&mut self, load: &ClogLoad, data: Vec<u8>)
        requires
            old(self).wf(),
            load.victim < old(self)@.frames.len(),
            load.page_no != INVALID_PAGE_NO,
            !resident(old(self)@.frames, load.page_no),
            !old(self)@.frames[load.victim as int].dirty,
            data@.len() == CLOG_PAGE_BYTES,
        ensures
            final(self).wf(),
            final(self)@ == (ClogBufferView {
                frames: old(self)@.frames.update(
                    load.victim as int,
                    ClogFrameView {
                        page_no: load.page_no,
                        data: data@,
                        dirty: false,
                        referenced: true,
                    },
                ),
                ..old(self)@
            }),
    {
        broadcast use vstd::std_specs::hash::group_hash_axioms;

        let ghost before = self@.frames;
        let ghost table = self.page_table@;
        let victim: usize = load.victim;
        let ghost old_page = self.frames@[victim as int].page_no;
        let page_no: u64 = self.frames[victim].page_no;
        if page_no != INVALID_PAGE_NO {
            self.page_table.remove(&page_no);
        }
        self.frames[victim].page_no = load.page_no;
        self.frames[victim].data = data;
        self.frames[victim].dirty = false;
        self.frames[victim].referenced = true;
        proof {
            if table.contains_key(load.page_no) {
                assert(holds(before, table[load.page_no] as int, load.page_no));
            }
        }
        self.page_table.insert(load.page_no, victim);
        proof {
            assert(self@.frames =~= before.update(
                victim as int,
                ClogFrameView {
                    page_no: load.page_no,
                    data: data@,
                    dirty: false,
                    referenced: true,
                },
            ));
            assert forall|p: u64| #[trigger] self.page_table@.contains_key(p) implies holds(
                self@.frames,
                self.page_table@[p] as int,
                p,
            ) by {
                if p != load.page_no {
                    assert(table.contains_key(p));
                    assert(holds(before, table[p] as int, p));
                }
            }
            assert forall|i: int|
                0 <= i < self.frames.len() && (#[trigger] self.frames@[i]).page_no
                    != INVALID_PAGE_NO implies self.page_table@.contains_key(self.frames@[i].page_no)
                && self.page_table@[self.frames@[i].page_no] == i by {
                if i != victim {
                    assert(self.frames@[i]@ == before[i]);
                    assert(old(self).frames@[i].page_no == self.frames@[i].page_no);
                    assert(holds(before, i, self.frames@[i].page_no));
                    assert(resident(before, self.frames@[i].page_no));
                }
            }
        }
    }

    /// The state of `xid` in the frame that holds its page.
    pub fn state_in(&self, frame: usize, xid: TxnId) -> (read: ClogRead)
        requires
            self.wf(),
            holds(self@.frames, frame as int, page_no_of_xid(xid)),
        ensures
            read == read_in(self@.frames[frame as int].data, xid),
    {
        proof {
            self.wf_facts();
        }
        let byte: u8 = self.frames[frame].data[byte_in_page_of_xid(xid)];
        let bits: u8 = get_nibble(byte, xid);
        if bits <= 3 {
            ClogRead::State(txn_state_from_nibble(bits))
        } else {
            ClogRead::Corrupt
        }
    }

    /// Records the state of `xid` in the frame that holds its page.
    pub fn set_state_in(&mut self, frame: usize, xid: TxnId, state: TxnState)
        requires
            old(self).wf(),
            holds(old(self)@.frames, frame as int, page_no_of_xid(xid)),
        ensures
            final(self).wf(),
            final(self)@ == old(self)@.with_state(frame as int, xid, state),
    {
        proof {
            self.wf_facts();
        }
        let ghost before = self@.frames;
        let at: usize = byte_in_page_of_xid(xid);
        let byte: u8 = self.frames[frame].data[at];
        self.frames[frame].data[at] = set_nibble(byte, xid, state.to_u8());
        self.frames[frame].dirty = true;
        proof {
            assert(self@.frames =~= old(self)@.with_state(frame as int, xid, state).frames);
            assert forall|p: u64| #[trigger] self.page_table@.contains_key(p) implies holds(
                self@.frames,
                self.page_table@[p] as int,
                p,
            ) by {
                assert(holds(before, self.page_table@[p] as int, p));
            }
        }
    }

    /// Reads the state of a transaction. The invalid XID is always in progress.
    ///
    /// Where the page has to be loaded, [`state_in`](Self::state_in) gives the
    /// state afterwards.
    pub fn get_state(&mut self, xid: TxnId) -> (read: ClogRead)
        requires
            old(self).wf(),
        ensures
            final(self).wf(),
            xid == TxnId::invalid() ==> read == ClogRead::State(TxnState::InProgress)
                && final(self)@ == old(self)@,
            xid != TxnId::invalid() ==> match read {
                ClogRead::Missing(load) => !resident(old(self)@.frames, page_no_of_xid(xid))
                    && final(self)@ == old(self)@.missed() && load == load_of(
                    old(self)@.frames,
                    old(self)@.hand,
                    page_no_of_xid(xid),
                ) && load.victim < old(self)@.frames.len(),
                _ => exists|i: int| #[trigger]
                    holds(old(self)@.frames, i, page_no_of_xid(xid)) && final(self)@ == old(
                        self,
                    )@.hit(i) && read == read_in(old(self)@.frames[i].data, xid),
            },
    {
        if xid == TxnId::invalid() {
            return ClogRead::State(TxnState::InProgress);
        }
        let ghost before = self@;
        match self.locate_frame(page_no_of_xid(xid)) {
            Located::Frame(i) => {
                assert(holds(before.frames, i as int, page_no_of_xid(xid)));
                self.state_in(i, xid)
            },
            Located::Missing(load) => ClogRead::Missing(load),
        }
    }

    /// Records the state of a transaction, in memory only. A write to the invalid
    /// XID is ignored.
    ///
    /// Where the page has to be loaded, [`set_state_in`](Self::set_state_in)
    /// records the state afterwards.
    pub fn set_state(&mut self, xid: TxnId, state: TxnState) -> (write: ClogWrite)
        requires
            old(self).wf(),
        ensures
            final(self).wf(),
            xid == TxnId::invalid() ==> write == ClogWrite::Done && final(self)@ == old(self)@,
            xid != TxnId::invalid() ==> match write {
                ClogWrite::Missing(load) => !resident(old(self)@.frames, page_no_of_xid(xid))
                    && final(self)@ == old(self)@.missed() && load == load_of(
                    old(self)@.frames,
                    old(self)@.hand,
                    page_no_of_xid(xid),
                ) && load.victim < old(self)@.frames.len(),
                ClogWrite::Done => exists|i: int| #[trigger]
                    holds(old(self)@.frames, i, page_no_of_xid(xid)) && final(self)@ == old(
                        self,
                    )@.hit(i).with_state(i, xid, state),
            },
    {
        if xid == TxnId::invalid() {
            return ClogWrite::Done;
        }
        let ghost before = self@;
        match self.locate_frame(page_no_of_xid(xid)) {
            Located::Frame(i) => {
                assert(holds(before.frames, i as int, page_no_of_xid(xid)));
                self.set_state_in(i, xid, state);
                ClogWrite::Done
            },
            Located::Missing(load) => ClogWrite::Missing(load),
        }
    }

    /// The frames with a page that was changed since it was last written. The
    /// flush of a checkpoint writes them and then makes every segment durable
    /// that [`unsynced_segments`](Self::unsynced_segments) names.
    pub fn flush_dirty(&self) -> (frames: Vec<usize>)
        requires
            self.wf(),
        ensures
            forall|i: int, j: int| 0 <= i < j < frames@.len() ==> frames@[i] < frames@[j],
            forall|i: usize| #[trigger]
                frames@.contains(i) <==> i < self@.frames.len() && self@.frames[i as int].page_no
                    != INVALID_PAGE_NO && self@.frames[i as int].dirty,
    {
        let mut list: Vec<usize> = Vec::new();
        let mut i: usize = 0;
        while i < self.frames.len()
            invariant
                i <= self.frames.len(),
                forall|a: int, b: int| 0 <= a < b < list@.len() ==> list@[a] < list@[b],
                forall|a: int| 0 <= a < list@.len() ==> list@[a] < i,
                forall|k: usize| #[trigger]
                    list@.contains(k) <==> k < i && self@.frames[k as int].page_no
                        != INVALID_PAGE_NO && self@.frames[k as int].dirty,
            decreases self.frames.len() - i,
        {
            let ghost earlier = list@;
            assert(self@.frames[i as int] == self.frames@[i as int]@);
            if self.frames[i].page_no != INVALID_PAGE_NO && self.frames[i].dirty {
                list.push(i);
                proof {
                    assert forall|k: usize| #[trigger] list@.contains(k) <==> (earlier.contains(k)
                        || k == i) by {
                        if earlier.contains(k) {
                            let a = choose|a: int| 0 <= a < earlier.len() && earlier[a] == k;
                            assert(list@[a] == k);
                        }
                        if k == i {
                            assert(list@[earlier.len() as int] == k);
                        }
                    }
                }
            }
            i += 1;
        }
        list
    }
}

/// A page on disk; what was never written reads as zeros.
pub open spec fn disk_page(disk: Map<u64, Seq<u8>>, p: u64) -> Seq<u8> {
    if disk.contains_key(p) {
        disk[p]
    } else {
        zeros(CLOG_PAGE_BYTES as nat)
    }
}

/// The page as a reader gets it: from its frame, or else from disk.
pub open spec fn page_contents(
    frames: Seq<ClogFrameView>,
    disk: Map<u64, Seq<u8>>,
    p: u64,
) -> Seq<u8> {
    if resident(frames, p) {
        frames[choose|i: int| holds(frames, i, p)].data
    } else {
        disk_page(disk, p)
    }
}

/// No page is in two frames, and a page that was not changed is in its frame as it
/// is on disk.
pub open spec fn coherent(frames: Seq<ClogFrameView>, disk: Map<u64, Seq<u8>>) -> bool {
    &&& forall|i: int, j: int, p: u64| holds(frames, i, p) && holds(frames, j, p) ==> i == j
    &&& forall|i: int, p: u64| #[trigger]
        holds(frames, i, p) && !frames[i].dirty ==> frames[i].data == disk_page(disk, p)
}

proof fn contents_in_frame(frames: Seq<ClogFrameView>, disk: Map<u64, Seq<u8>>, i: int, p: u64)
    requires
        coherent(frames, disk),
        holds(frames, i, p),
    ensures
        page_contents(frames, disk, p) == frames[i].data,
{
}

/// The clock sweep changes no page.
pub proof fn sweep_keeps_contents(
    frames: Seq<ClogFrameView>,
    disk: Map<u64, Seq<u8>>,
    hand: int,
    p: u64,
)
    requires
        coherent(frames, disk),
    ensures
        coherent(swept(frames, hand), disk),
        page_contents(swept(frames, hand), disk, p) == page_contents(frames, disk, p),
{
    let after = swept(frames, hand);
    assert forall|i: int, q: u64| #[trigger] holds(after, i, q) <==> holds(frames, i, q) by {}
    if resident(frames, p) {
        let i = choose|i: int| holds(frames, i, p);
        assert(holds(after, i, p));
        contents_in_frame(frames, disk, i, p);
        contents_in_frame(after, disk, i, p);
    } else if resident(after, p) {
        let i = choose|i: int| holds(after, i, p);
        assert(holds(frames, i, p));
    }
}

/// Writing a page to disk changes no page, and leaves the frame as it is on disk.
pub proof fn writing_keeps_contents(
    frames: Seq<ClogFrameView>,
    disk: Map<u64, Seq<u8>>,
    i: int,
    p: u64,
)
    requires
        coherent(frames, disk),
        0 <= i < frames.len(),
        frames[i].page_no != INVALID_PAGE_NO,
    ensures
        ({
            let after = frames.update(i, ClogFrameView { dirty: false, ..frames[i] });
            let written = disk.insert(frames[i].page_no, frames[i].data);
            coherent(after, written) && page_contents(after, written, p) == page_contents(
                frames,
                disk,
                p,
            )
        }),
{
    let after = frames.update(i, ClogFrameView { dirty: false, ..frames[i] });
    let written = disk.insert(frames[i].page_no, frames[i].data);
    assert forall|k: int, q: u64| #[trigger] holds(after, k, q) <==> holds(frames, k, q) by {}
    assert(holds(frames, i, frames[i].page_no));
    assert(coherent(after, written)) by {
        assert forall|k: int, q: u64| #[trigger] holds(after, k, q) && !after[k].dirty implies after[k].data
            == disk_page(written, q) by {
            assert(holds(frames, k, q));
        }
    }
    if resident(frames, p) {
        let k = choose|k: int| holds(frames, k, p);
        assert(holds(after, k, p));
        contents_in_frame(frames, disk, k, p);
        contents_in_frame(after, written, k, p);
    } else {
        if resident(after, p) {
            let k = choose|k: int| holds(after, k, p);
            assert(holds(frames, k, p));
        }
        assert(p != frames[i].page_no);
    }
}

/// Putting a page from disk into a frame whose own page is on disk changes no
/// page.
pub proof fn loading_keeps_contents(
    frames: Seq<ClogFrameView>,
    disk: Map<u64, Seq<u8>>,
    victim: int,
    page_no: u64,
    p: u64,
)
    requires
        coherent(frames, disk),
        0 <= victim < frames.len(),
        !frames[victim].dirty,
        page_no != INVALID_PAGE_NO,
        p != INVALID_PAGE_NO,
        !resident(frames, page_no),
    ensures
        ({
            let after = frames.update(
                victim,
                ClogFrameView {
                    page_no,
                    data: disk_page(disk, page_no),
                    dirty: false,
                    referenced: true,
                },
            );
            coherent(after, disk) && page_contents(after, disk, p) == page_contents(
                frames,
                disk,
                p,
            )
        }),
{
    let after = frames.update(
        victim,
        ClogFrameView { page_no, data: disk_page(disk, page_no), dirty: false, referenced: true },
    );
    assert forall|k: int, q: u64|
        k != victim implies (#[trigger] holds(after, k, q) <==> holds(frames, k, q)) by {}
    assert(coherent(after, disk)) by {
        assert forall|a: int, b: int, q: u64| holds(after, a, q) && holds(after, b, q) implies a
            == b by {
            if a != victim {
                assert(holds(frames, a, q));
            }
            if b != victim {
                assert(holds(frames, b, q));
            }
        }
    }
    if resident(after, p) {
        let k = choose|k: int| holds(after, k, p);
        contents_in_frame(after, disk, k, p);
        if k != victim {
            assert(holds(frames, k, p));
            contents_in_frame(frames, disk, k, p);
        }
    } else if resident(frames, p) {
        let k = choose|k: int| holds(frames, k, p);
        contents_in_frame(frames, disk, k, p);
        if k != victim {
            assert(holds(after, k, p));
        }
    }
}

/// What is recorded reads back, and the states of all other transactions are left
/// alone.
pub proof fn recorded_state_reads_back(
    view: ClogBufferView,
    disk: Map<u64, Seq<u8>>,
    i: int,
    xid: TxnId,
    state: TxnState,
    other: TxnId,
)
    requires
        coherent(view.frames, disk),
        holds(view.frames, i, page_no_of_xid(xid)),
        view.frames[i].data.len() == CLOG_PAGE_BYTES,
        other != xid,
    ensures
        ({
            let after = view.with_state(i, xid, state).frames;
            &&& coherent(after, disk)
            &&& read_in(page_contents(after, disk, page_no_of_xid(xid)), xid) == ClogRead::State(
                state,
            )
            &&& read_in(page_contents(after, disk, page_no_of_xid(other)), other) == read_in(
                page_contents(view.frames, disk, page_no_of_xid(other)),
                other,
            )
        }),
{
    let frames = view.frames;
    let after = view.with_state(i, xid, state).frames;
    let p = page_no_of_xid(xid);
    let q = page_no_of_xid(other);
    let at = byte_in_page_of_xid(xid) as int;
    assert forall|k: int, r: u64| #[trigger] holds(after, k, r) <==> holds(frames, k, r) by {}
    assert(holds(after, i, p));
    contents_in_frame(frames, disk, i, p);
    contents_in_frame(after, disk, i, p);
    if q == p {
        if byte_in_page_of_xid(other) == byte_in_page_of_xid(xid) {
            nibbles_are_independent(frames[i].data[at], xid, other, state_number(state));
        }
    } else {
        if resident(frames, q) {
            let k = choose|k: int| holds(frames, k, q);
            assert(holds(after, k, q));
            contents_in_frame(frames, disk, k, q);
            contents_in_frame(after, disk, k, q);
        } else if resident(after, q) {
            let k = choose|k: int| holds(after, k, q);
            assert(holds(frames, k, q));
        }
    }
}

/// A cache and the pages on disk.
pub struct CachedClog {
    /// The cache.
    pub view: ClogBufferView,
    /// The pages on disk.
    pub disk: Map<u64, Seq<u8>>,
}

/// What happens to a cache.
pub enum CacheStep {
    /// A page is found in this frame.
    Hit(int),
    /// A page is not found, and a frame is picked for it.
    Miss,
    /// The page in this frame is written to disk.
    Write(int),
    /// A page is read from disk into a frame.
    Load(ClogLoad),
    /// A state is recorded in the frame that holds its page.
    Record(int, TxnId, TxnState),
    /// A segment is made durable.
    Sync(u64),
}

impl CachedClog {
    /// Frames and pages have their size; no page is in two frames, and a page that was
    /// not changed is in its frame as it is on disk.
    pub open spec fn is_coherent(self) -> bool {
        &&& coherent(self.view.frames, self.disk)
        &&& 0 <= self.view.hand < self.view.frames.len()
        &&& forall|i: int|
            0 <= i < self.view.frames.len() ==> (#[trigger] self.view.frames[i]).data.len()
                == CLOG_PAGE_BYTES
        &&& forall|p: u64| #[trigger]
            self.disk.contains_key(p) ==> self.disk[p].len() == CLOG_PAGE_BYTES
    }

    /// What reading the state of `xid` gives, wherever its page is. The invalid XID is
    /// always in progress.
    pub open spec fn reads(self, xid: TxnId) -> ClogRead {
        if xid == TxnId::invalid() {
            ClogRead::State(TxnState::InProgress)
        } else {
            read_in(page_contents(self.view.frames, self.disk, page_no_of_xid(xid)), xid)
        }
    }
}

/// A step leads from one state of the cache to the next.
pub open spec fn cache_takes(before: CachedClog, step: CacheStep, after: CachedClog) -> bool {
    let view = before.view;
    match step {
        CacheStep::Hit(i) => {
            &&& 0 <= i < view.frames.len()
            &&& after == (CachedClog { view: view.hit(i), ..before })
        },
        CacheStep::Miss => after == (CachedClog { view: view.missed(), ..before }),
        CacheStep::Write(i) => {
            &&& 0 <= i < view.frames.len()
            &&& view.frames[i].page_no != INVALID_PAGE_NO
            &&& after.view.frames == view.frames.update(
                i,
                ClogFrameView { dirty: false, ..view.frames[i] },
            )
            &&& after.view.hand == view.hand
            &&& after.disk == before.disk.insert(view.frames[i].page_no, view.frames[i].data)
        },
        CacheStep::Load(load) => {
            &&& load.victim < view.frames.len()
            &&& load.page_no != INVALID_PAGE_NO
            &&& !resident(view.frames, load.page_no)
            &&& !view.frames[load.victim as int].dirty
            &&& after == (CachedClog {
                view: ClogBufferView {
                    frames: view.frames.update(
                        load.victim as int,
                        ClogFrameView {
                            page_no: load.page_no,
                            data: disk_page(before.disk, load.page_no),
                            dirty: false,
                            referenced: true,
                        },
                    ),
                    ..view
                },
                ..before
            })
        },
        CacheStep::Record(i, xid, state) => {
            &&& xid != TxnId::invalid()
            &&& holds(view.frames, i, page_no_of_xid(xid))
            &&& after == (CachedClog { view: view.with_state(i, xid, state), ..before })
        },
        CacheStep::Sync(id) => after == (CachedClog {
            view: ClogBufferView { unsynced: view.unsynced.remove(id), ..view },
            ..before
        }),
    }
}

/// What has to be done to load a page can be done: the frame that is picked either has
/// nothing to write or holds the page that is to be written first, and the page is still
/// not in the cache.
pub proof fn picked_frame_can_be_emptied(buffer: &ClogBuffer, p: u64)
    requires
        buffer.wf(),
        !resident(buffer@.frames, p),
    ensures
        ({
            let load = load_of(buffer@.frames, buffer@.hand, p);
            let frame = buffer@.missed().frames[load.victim as int];
            &&& load.victim < buffer@.missed().frames.len()
            &&& !resident(buffer@.missed().frames, p)
            &&& match load.writeback {
                Some(q) => frame.page_no == q && q != INVALID_PAGE_NO && frame.dirty,
                None => !frame.dirty,
            }
        }),
{
    buffer.wf_facts();
    let frames = buffer@.frames;
    let after = buffer@.missed().frames;
    passes_bound(frames, buffer@.hand, 0);
    assert(after.len() == frames.len());
    assert forall|i: int, q: u64| #[trigger] holds(after, i, q) implies holds(frames, i, q) by {}
    if resident(after, p) {
        let i = choose|i: int| holds(after, i, p);
        assert(holds(frames, i, p));
    }
}

/// The page in a frame is what reading its states goes by.
pub proof fn held_page_is_read(clog: CachedClog, i: int, xid: TxnId)
    requires
        clog.is_coherent(),
        xid != TxnId::invalid(),
        holds(clog.view.frames, i, page_no_of_xid(xid)),
    ensures
        read_in(clog.view.frames[i].data, xid) == clog.reads(xid),
{
    contents_in_frame(clog.view.frames, clog.disk, i, page_no_of_xid(xid));
}

/// A step changes the state that is recorded in it, and no other, whatever pages come
/// and go.
pub proof fn step_records_one_state(
    before: CachedClog,
    step: CacheStep,
    after: CachedClog,
    xid: TxnId,
)
    requires
        before.is_coherent(),
        cache_takes(before, step, after),
    ensures
        after.is_coherent(),
        after.reads(xid) == match step {
            CacheStep::Record(_, changed, state) => if changed == xid {
                ClogRead::State(state)
            } else {
                before.reads(xid)
            },
            _ => before.reads(xid),
        },
{
    let frames = before.view.frames;
    let p = page_no_of_xid(xid);
    match step {
        CacheStep::Hit(i) => {
            let now = after.view.frames;
            assert forall|k: int, q: u64| #[trigger] holds(now, k, q) <==> holds(
                frames,
                k,
                q,
            ) by {}
            if resident(frames, p) {
                let k = choose|k: int| holds(frames, k, p);
                assert(holds(now, k, p));
                contents_in_frame(frames, before.disk, k, p);
                contents_in_frame(now, before.disk, k, p);
            } else if resident(now, p) {
                let k = choose|k: int| holds(now, k, p);
                assert(holds(frames, k, p));
            }
        },
        CacheStep::Miss => {
            sweep_keeps_contents(frames, before.disk, before.view.hand, p);
            passes_bound(frames, before.view.hand, 0);
        },
        CacheStep::Write(i) => {
            writing_keeps_contents(frames, before.disk, i, p);
        },
        CacheStep::Load(load) => {
            loading_keeps_contents(frames, before.disk, load.victim as int, load.page_no, p);
        },
        CacheStep::Record(i, changed, state) => {
            let other = if xid != changed {
                xid
            } else {
                TxnId((changed.0 - 1) as u64)
            };
            recorded_state_reads_back(before.view, before.disk, i, changed, state, other);
        },
        CacheStep::Sync(id) => {},
    }
}

proof fn passes_bound(frames: Seq<ClogFrameView>, hand: int, k: int)
    requires
        0 <= k <= frames.len(),
        0 <= hand < frames.len(),
    ensures
        k <= passes(frames, hand, k) <= frames.len(),
    decreases frames.len() - k,
{
    if k < frames.len() && !takes(frames[clock_at(frames.len(), hand, k)]) {
        passes_bound(frames, hand, k + 1);
    }
}

/// `steps` lead from each of the states to the next.
pub open spec fn is_cache_history(states: Seq<CachedClog>, steps: Seq<CacheStep>) -> bool {
    &&& states.len() == steps.len() + 1
    &&& forall|k: int|
        0 <= k < steps.len() ==> #[trigger] cache_takes(states[k], steps[k], states[k + 1])
}

/// The state of `xid` that the first `k` steps recorded last; `None` if they recorded
/// none.
pub open spec fn last_recorded(steps: Seq<CacheStep>, k: int, xid: TxnId) -> Option<TxnState>
    decreases k,
{
    if k <= 0 {
        None
    } else {
        match steps[k - 1] {
            CacheStep::Record(_, changed, state) => if changed == xid {
                Some(state)
            } else {
                last_recorded(steps, k - 1, xid)
            },
            _ => last_recorded(steps, k - 1, xid),
        }
    }
}

/// A recorded state reads back until another is recorded for the same transaction,
/// however many pages are evicted and loaded in between; and where none was recorded,
/// what was read before is read still.
pub proof fn last_recorded_state_reads_back(
    states: Seq<CachedClog>,
    steps: Seq<CacheStep>,
    k: int,
    xid: TxnId,
)
    requires
        is_cache_history(states, steps),
        states[0].is_coherent(),
        0 <= k < states.len(),
    ensures
        states[k].is_coherent(),
        states[k].reads(xid) == match last_recorded(steps, k, xid) {
            Some(state) => ClogRead::State(state),
            None => states[0].reads(xid),
        },
    decreases k,
{
    if k > 0 {
        last_recorded_state_reads_back(states, steps, k - 1, xid);
        assert(cache_takes(states[k - 1], steps[k - 1], states[k - 1 + 1]));
        step_records_one_state(states[k - 1], steps[k - 1], states[k], xid);
    }
}

proof fn passes_stops(frames: Seq<ClogFrameView>, hand: int, k: int)
    requires
        0 <= k <= frames.len(),
        0 <= hand < frames.len(),
    ensures
        ({
            let stop = passes(frames, hand, k);
            &&& k <= stop <= frames.len()
            &&& stop < frames.len() ==> takes(frames[clock_at(frames.len(), hand, stop)])
            &&& forall|j: int|
                k <= j < stop ==> !takes(frames[#[trigger] clock_at(frames.len(), hand, j)])
        }),
    decreases frames.len() - k,
{
    if k < frames.len() && !takes(frames[clock_at(frames.len(), hand, k)]) {
        passes_stops(frames, hand, k + 1);
    }
}

/// Which frame a missing page goes to: the first, from where the clock hand stands, that holds
/// no page, or one that was neither used since the hand last came by nor changed; and the
/// frame where the hand stands if there is none. A changed page in it is written back first.
/// The frames that the hand passes count as not used, and nothing else changes; the hand goes
/// on behind the frame.
pub proof fn missing_page_goes_by_clock(clog: ClogBufferView, p: u64, i: int)
    requires
        0 <= clog.hand < clog.frames.len() <= usize::MAX,
        0 <= i < clog.frames.len(),
    ensures
        ({
            let n = clog.frames.len();
            let load = load_of(clog.frames, clog.hand, p);
            let v = load.victim as int;
            let after = clog.missed();
            let free = |f: ClogFrameView|
                f.page_no == INVALID_PAGE_NO || !f.referenced && !f.dirty;
            &&& load.page_no == p
            &&& 0 <= v < n
            &&& free(clog.frames[i]) ==> free(clog.frames[v]) && clock_distance(n, clog.hand, v)
                <= clock_distance(n, clog.hand, i)
            &&& free(clog.frames[v]) || v == clog.hand
            &&& load.writeback == (if clog.frames[v].page_no != INVALID_PAGE_NO
                && clog.frames[v].dirty {
                Some(clog.frames[v].page_no)
            } else {
                None
            })
            &&& after.hand == (if v + 1 == n {
                0
            } else {
                v + 1
            })
            &&& after.frames.len() == n
            &&& after.frames[i] == (if !free(clog.frames[v]) || clock_distance(n, clog.hand, i)
                < clock_distance(n, clog.hand, v) {
                ClogFrameView { referenced: false, ..clog.frames[i] }
            } else {
                clog.frames[i]
            })
            &&& after.misses == clog.misses.wrapping_add(1)
            &&& after.hits == clog.hits
            &&& after.unsynced == clog.unsynced
        }),
{
    let n = clog.frames.len();
    passes_stops(clog.frames, clog.hand, 0);
    let stop = passes(clog.frames, clog.hand, 0);
    let d = clock_distance(n, clog.hand, i);
    assert(clock_at(n, clog.hand, d) == i);
    let v = swept_frame(clog.frames, clog.hand);
    if stop >= n {
        assert(!takes(clog.frames[clock_at(n, clog.hand, 0)]));
    } else {
        assert(clock_distance(n, clog.hand, v) == stop);
    }
    if d < stop {
        assert(!takes(clog.frames[clock_at(n, clog.hand, d)]));
    }
}

/// Using a page that is in the cache marks it as used and counts as a hit, and changes nothing
/// else.
pub proof fn hit_marks_the_page_as_used(clog: ClogBufferView, i: int)
    requires
        0 <= i < clog.frames.len(),
    ensures
        ({
            let after = clog.hit(i);
            &&& after.frames.len() == clog.frames.len()
            &&& after.frames[i] == (ClogFrameView { referenced: true, ..clog.frames[i] })
            &&& forall|j: int|
                0 <= j < clog.frames.len() && j != i ==> #[trigger] after.frames[j]
                    == clog.frames[j]
            &&& after.hits == clog.hits.wrapping_add(1)
            &&& after.misses == clog.misses
            &&& after.hand == clog.hand
            &&& after.unsynced == clog.unsynced
        }),
{
}

/// Recording a state changes the page to be written, in the one byte that holds the state, and
/// nothing else.
pub proof fn recorded_state_is_to_be_written(
    clog: ClogBufferView,
    i: int,
    xid: TxnId,
    state: TxnState,
)
    requires
        0 <= i < clog.frames.len(),
        clog.frames[i].data.len() == 8192,
    ensures
        ({
            let after = clog.with_state(i, xid, state);
            let at = (xid.0 % 16_384) as int / 2;
            &&& after.frames.len() == clog.frames.len()
            &&& after.frames[i].dirty
            &&& after.frames[i].page_no == clog.frames[i].page_no
            &&& after.frames[i].data.len() == clog.frames[i].data.len()
            &&& read_in(after.frames[i].data, xid) == ClogRead::State(state)
            &&& forall|k: int|
                0 <= k < 8192 && k != at ==> #[trigger] after.frames[i].data[k]
                    == clog.frames[i].data[k]
            &&& forall|j: int|
                0 <= j < clog.frames.len() && j != i ==> #[trigger] after.frames[j]
                    == clog.frames[j]
        }),
{
    let at = (xid.0 % 16_384) as int / 2;
    let other = TxnId(
        if xid.0 % 2 == 0 {
            1
        } else {
            0
        },
    );
    nibbles_are_independent(clog.frames[i].data[at], xid, other, state_number(state));
}

/// A page that was written is no longer to be written, and its segment is to be made durable;
/// nothing else changes.
pub proof fn written_page_waits_for_its_sync(clog: ClogBufferView, i: int)
    requires
        0 <= i < clog.frames.len(),
    ensures
        ({
            let after = clog.written(i);
            &&& after.unsynced.contains((clog.frames[i].page_no / 16_384) as u64)
            &&& forall|id: u64|
                id != clog.frames[i].page_no / 16_384 ==> #[trigger] after.unsynced.contains(id)
                    == clog.unsynced.contains(id)
            &&& after.frames.len() == clog.frames.len()
            &&& after.frames[i] == (ClogFrameView { dirty: false, ..clog.frames[i] })
            &&& forall|j: int|
                0 <= j < clog.frames.len() && j != i ==> #[trigger] after.frames[j]
                    == clog.frames[j]
            &&& after.hand == clog.hand
            &&& after.hits == clog.hits
            &&& after.misses == clog.misses
        }),
{
}

} // verus!
