use std::collections::HashMap;

use vstd::prelude::*;

use crate::buffer::lru_k_replacer::{
    lemma_access_effect, lemma_access_keeps_wf, lemma_evict_count, lemma_remove_effect,
    lemma_set_evictable_count, lemma_set_evictable_effect, FrameId, LruKReplacer,
    ReplacerView,
};
use crate::buffer::AccessType;
use crate::constants::{NUM_NEW_PAGES, PAGE_SIZE};
use crate::storage::page::page_guard::{ReadPageGuard, WritePageGuard};

verus! {

/// The page id of a frame that holds no page.
pub const INVALID_PAGE_ID: usize = usize::MAX;

/// A page of zero bytes.
pub open spec fn zero_page() -> Seq<u8> {
    Seq::new(PAGE_SIZE as nat, |i: int| 0u8)
}

/// A zero page holds `PAGE_SIZE` bytes, all zero.
pub proof fn lemma_zero_page(i: int)
    requires
        0 <= i < PAGE_SIZE,
    ensures
        zero_page().len() == PAGE_SIZE,
        zero_page()[i] == 0u8,
{
}

/// One frame of the buffer pool: the page it holds, how many users pin it,
/// whether it was modified, and its bytes.
pub struct FrameHeader {
    pub frame_id: usize,
    pub page_id: usize,
    pub pin_count: usize,
    pub is_dirty: bool,
    pub data: [u8; PAGE_SIZE],
}

impl FrameHeader {
    /// An empty frame: no page, unpinned, clean, zero bytes.
    pub fn new(frame_id: usize) -> (frame: Self)
        ensures
            frame.frame_id == frame_id,
            frame.page_id == INVALID_PAGE_ID,
            frame.pin_count == 0,
            !frame.is_dirty,
            frame.data@ == zero_page(),
    {
        let frame = Self {
            frame_id,
            page_id: INVALID_PAGE_ID,
            pin_count: 0,
            is_dirty: false,
            data: [0u8; PAGE_SIZE],
        };
        assert(frame.data@ =~= zero_page());
        frame
    }

    /// The frame's bytes, for reading.
    pub fn get_data(&self) -> (data: &[u8; PAGE_SIZE])
        ensures
            *data == self.data,
    {
        &self.data
    }

    /// The frame's bytes, for writing; the frame's other fields are left as
    /// they are.
    pub fn get_mut_data(&mut self) -> (data: &mut [u8; PAGE_SIZE])
        ensures
            *data == old(self).data,
            *final(self) == (FrameHeader { data: *final(data), ..*old(self) }),
    {
        &mut self.data
    }

    /// Zeroes the bytes, unpins and cleans the frame; its ids are kept.
    pub fn reset(&mut self)
        ensures
            final(self).frame_id == old(self).frame_id,
            final(self).page_id == old(self).page_id,
            final(self).pin_count == 0,
            !final(self).is_dirty,
            final(self).data@ == zero_page(),
    {
        self.data = [0u8; PAGE_SIZE];
        self.pin_count = 0;
        self.is_dirty = false;
        assert(self.data@ =~= zero_page());
    }
}

broadcast use vstd::std_specs::hash::group_hash_axioms;

/// Pages are named by their number in the database file.
pub type PageId = usize;

/// A pin count after one more pin; the counter wraps around.
pub open spec fn pin_inc(c: usize) -> usize {
    if c == usize::MAX {
        0
    } else {
        (c + 1) as usize
    }
}

/// A pin count after one pin is released; the counter wraps around.
pub open spec fn pin_dec(c: usize) -> usize {
    if c == 0 {
        usize::MAX
    } else {
        (c - 1) as usize
    }
}

/// The abstract state of a buffer pool.
pub struct BpmView {
    pub num_frames: nat,
    pub next_page_id: usize,
    pub frames: Seq<FrameHeader>,
    pub page_table: Map<PageId, FrameId>,
    pub free_frames: Seq<FrameId>,
    pub replacer: ReplacerView,
}

impl BpmView {
    /// Frame `f` holds a page and the page table points that page at `f`.
    pub open spec fn resident(self, f: FrameId) -> bool {
        &&& f < self.frames.len()
        &&& self.page_table.contains_key(self.frames[f as int].page_id)
        &&& self.page_table[self.frames[f as int].page_id] == f
    }

    /// The invariant of every reachable buffer pool.
    pub open spec fn wf(self) -> bool {
        &&& self.frames.len() == self.num_frames
        &&& forall|i: int| 0 <= i < self.frames.len() ==> (#[trigger] self.frames[i]).frame_id == i
        &&& self.replacer.wf()
        &&& forall|p: PageId| #[trigger]
            self.page_table.contains_key(p) ==> self.page_table[p] < self.num_frames
                && self.frames[self.page_table[p] as int].page_id == p
        &&& self.free_frames.no_duplicates()
        &&& forall|i: int|
            0 <= i < self.free_frames.len() ==> #[trigger] self.free_frames[i] < self.num_frames
                && !self.resident(self.free_frames[i])
        &&& forall|f: FrameId| #[trigger]
            self.replacer.entries.contains_key(f) ==> f < self.num_frames && self.resident(f)
        &&& forall|f: FrameId| #![trigger self.resident(f)]
            f < self.num_frames ==> (self.resident(f) ==> self.replacer.entries.contains_key(f))
                && (self.resident(f) || self.free_frames.contains(f))
    }

    /// What releasing a pin of frame `f` requires beyond the invariant: `f`
    /// is a frame of the pool and, when it holds its last pin, it lies in the
    /// replacer's range.
    pub open spec fn can_unpin(self, f: FrameId) -> bool {
        &&& f < self.num_frames
        &&& self.frames[f as int].pin_count == 1 ==> f < self.replacer.capacity
    }

    /// The state after releasing one pin of frame `f`: its count goes down
    /// (wrapping around), and a frame whose last pin goes becomes evictable.
    pub open spec fn after_unpin(self, f: FrameId) -> BpmView {
        let c = self.frames[f as int].pin_count;
        BpmView {
            frames: self.frames.update(f as int, FrameHeader { pin_count: pin_dec(c), ..self.frames[f as int] }),
            replacer: if c == 1 {
                self.replacer.after_set_evictable(f, true)
            } else {
                self.replacer
            },
            ..self
        }
    }

    /// The state with the bytes of frame `f` replaced by `d`.
    pub open spec fn with_frame_data(self, f: FrameId, d: [u8; PAGE_SIZE]) -> BpmView {
        BpmView {
            frames: self.frames.update(f as int, FrameHeader { data: d, ..self.frames[f as int] }),
            ..self
        }
    }

    /// The state after pinning frame `f` and recording an access to it.
    pub open spec fn pin_and_register(self, f: FrameId, access: AccessType) -> BpmView {
        BpmView {
            frames: self.frames.update(
                f as int,
                FrameHeader { pin_count: pin_inc(self.frames[f as int].pin_count), ..self.frames[f as int] },
            ),
            replacer: self.replacer.after_access(f, access).after_set_evictable(f, false),
            ..self
        }
    }

    /// The state after giving frame `f` to page `p`: the frame is marked
    /// clean (its bytes are left for the caller to fill) and the page table
    /// points `p` at `f`.
    pub open spec fn assign_frame(self, f: FrameId, p: PageId) -> BpmView {
        BpmView {
            frames: self.frames.update(
                f as int,
                FrameHeader { page_id: p, is_dirty: false, ..self.frames[f as int] },
            ),
            page_table: self.page_table.insert(p, f),
            ..self
        }
    }

    /// The state after taking the last free frame off the free list.
    pub open spec fn pop_free(self) -> BpmView {
        BpmView { free_frames: self.free_frames.drop_last(), ..self }
    }

    /// The state after the replacer evicted `f` and the page it held left
    /// the page table (its bytes are not written back).
    pub open spec fn evict_frame(self, f: FrameId) -> BpmView {
        BpmView {
            replacer: self.replacer.after_evict(f),
            page_table: self.page_table.remove(self.frames[f as int].page_id),
            ..self
        }
    }

    /// What fetching page `p` requires beyond the invariant: the
    /// replacer's clock can advance, and a free frame about to be used lies
    /// within the replacer's range.
    pub open spec fn can_fetch(self, p: PageId) -> bool {
        &&& self.replacer.timestamp < usize::MAX
        &&& !self.page_table.contains_key(p) && self.free_frames.len() > 0 ==> self.free_frames.last()
            < self.replacer.capacity
    }

    /// Fetching page `p` gives frame `f`, with `load` telling whether the
    /// page's bytes must be read from disk into the frame, and leads to `post`.
    pub open spec fn fetch(self, p: PageId, access: AccessType, f: FrameId, load: bool, post: BpmView) -> bool {
        if self.page_table.contains_key(p) {
            &&& f == self.page_table[p]
            &&& !load
            &&& post == self.pin_and_register(f, access)
        } else if self.free_frames.len() > 0 {
            &&& f == self.free_frames.last()
            &&& load
            &&& post == self.pop_free().assign_frame(f, p).pin_and_register(f, access)
        } else {
            &&& self.replacer.is_victim(f)
            &&& load
            &&& post == self.evict_frame(f).assign_frame(f, p).pin_and_register(f, access)
        }
    }

    /// No page can be fetched: it is not resident, no frame is free and no
    /// frame is evictable.
    pub open spec fn fetch_fails(self, p: PageId) -> bool {
        &&& !self.page_table.contains_key(p)
        &&& self.free_frames.len() == 0
        &&& self.replacer.num_evictable() == 0
    }
}

/// Recording an access to `f` and pinning it keeps the replacer invariant
/// and makes `f` tracked (and not evictable); other frames keep their entries.
proof fn lemma_register(r: ReplacerView, f: FrameId, access: AccessType)
    requires
        r.wf(),
        f < r.capacity,
        r.access_ticks(f, access) ==> r.timestamp < usize::MAX,
    ensures
        r.after_access(f, access).after_set_evictable(f, false).wf(),
        r.after_access(f, access).after_set_evictable(f, false).entries.dom() == r.entries.dom().insert(f),
        !r.after_access(f, access).after_set_evictable(f, false).entries[f].evictable,
        forall|g: FrameId| g != f ==> #[trigger] r.after_access(f, access).after_set_evictable(f, false).entries.get(g)
            == r.entries.get(g),
{
    lemma_access_keeps_wf(r, f, access);
    let r1 = r.after_access(f, access);
    lemma_set_evictable_count(r1, f, false);
    let r2 = r1.after_set_evictable(f, false);
    assert(r2.entries.dom() =~= r.entries.dom().insert(f));
}

/// A hit keeps the pool's invariant.
proof fn lemma_fetch_hit_wf(v: BpmView, p: PageId, access: AccessType)
    requires
        v.wf(),
        v.can_fetch(p),
        v.page_table.contains_key(p),
    ensures
        v.pin_and_register(v.page_table[p], access).wf(),
{
    let f = v.page_table[p];
    let w = v.pin_and_register(f, access);
    assert(v.resident(f));
    lemma_register(v.replacer, f, access);
    assert forall|g: FrameId| #![trigger w.resident(g)] g < w.frames.len() implies w.resident(g)
        == v.resident(g) by {
        assert(w.frames[g as int].page_id == v.frames[g as int].page_id);
    }
    assert forall|i: int| 0 <= i < w.frames.len() implies (#[trigger] w.frames[i]).frame_id == i by {
        assert(v.frames[i].frame_id == i);
    }
    assert forall|i: int| 0 <= i < w.free_frames.len() implies #[trigger] w.free_frames[i] < w.num_frames
        && !w.resident(w.free_frames[i]) by {
        assert(!v.resident(v.free_frames[i]));
        assert(w.resident(w.free_frames[i]) == v.resident(v.free_frames[i]));
    }
    assert forall|g: FrameId| #[trigger] w.replacer.entries.contains_key(g) implies g < w.num_frames
        && w.resident(g) by {
        if g != f {
            assert(w.replacer.entries.get(g) == v.replacer.entries.get(g));
        }
        assert(w.resident(g) == v.resident(g));
    }
    assert forall|g: FrameId| #![trigger w.resident(g)] g < w.num_frames implies (w.resident(g)
        ==> w.replacer.entries.contains_key(g)) && (w.resident(g) || w.free_frames.contains(g)) by {
        assert(w.resident(g) == v.resident(g));
        if g != f {
            assert(w.replacer.entries.get(g) == v.replacer.entries.get(g));
        }
    }
}

/// Giving a frame that no page points at to a page not in the table, and
/// then pinning and registering it, keeps the pool's invariant.
proof fn lemma_assign_wf(v: BpmView, u: BpmView, p: PageId, f: FrameId, access: AccessType)
    requires
        // `u` is `v` with `f` released from its old role
        u.frames == v.frames,
        u.num_frames == v.num_frames,
        u.frames.len() == u.num_frames,
        forall|i: int| 0 <= i < u.frames.len() ==> (#[trigger] u.frames[i]).frame_id == i,
        u.replacer.wf(),
        f < u.num_frames,
        f < u.replacer.capacity,
        u.replacer.timestamp < usize::MAX,
        !u.page_table.contains_key(p),
        !u.resident(f),
        !u.replacer.entries.contains_key(f),
        !u.free_frames.contains(f),
        forall|q: PageId| #[trigger]
            u.page_table.contains_key(q) ==> u.page_table[q] < u.num_frames
                && u.frames[u.page_table[q] as int].page_id == q,
        u.free_frames.no_duplicates(),
        forall|i: int|
            0 <= i < u.free_frames.len() ==> #[trigger] u.free_frames[i] < u.num_frames
                && !u.resident(u.free_frames[i]),
        forall|g: FrameId| #[trigger]
            u.replacer.entries.contains_key(g) ==> g < u.num_frames && u.resident(g),
        forall|g: FrameId| #![trigger u.resident(g)]
            g < u.num_frames && g != f ==> (u.resident(g) ==> u.replacer.entries.contains_key(g))
                && (u.resident(g) || u.free_frames.contains(g)),
    ensures
        u.assign_frame(f, p).pin_and_register(f, access).wf(),
{
    let a = u.assign_frame(f, p);
    let w = a.pin_and_register(f, access);
    lemma_register(u.replacer, f, access);
    assert(w.resident(f));
    // frames other than `f` keep their standing
    assert forall|g: FrameId| #![trigger w.resident(g)] g < w.frames.len() && g != f implies w.resident(g)
        == u.resident(g) by {
        let q = u.frames[g as int].page_id;
        assert(w.frames[g as int].page_id == q);
        if q == p {
            assert(!u.resident(g));
        }
    }
    assert forall|i: int| 0 <= i < w.frames.len() implies (#[trigger] w.frames[i]).frame_id == i by {
        assert(u.frames[i].frame_id == i);
    }
    assert forall|q: PageId| #[trigger] w.page_table.contains_key(q) implies w.page_table[q] < w.num_frames
        && w.frames[w.page_table[q] as int].page_id == q by {
        if q != p {
            let g = u.page_table[q];
            assert(u.frames[g as int].page_id == q);
            if g == f {
                assert(u.resident(f));
            }
        }
    }
    assert forall|i: int| 0 <= i < w.free_frames.len() implies #[trigger] w.free_frames[i] < w.num_frames
        && !w.resident(w.free_frames[i]) by {
        let g = u.free_frames[i];
        assert(!u.resident(g));
        assert(g != f);
        assert(w.resident(g) == u.resident(g));
    }
    assert forall|g: FrameId| #[trigger] w.replacer.entries.contains_key(g) implies g < w.num_frames
        && w.resident(g) by {
        if g != f {
            assert(w.replacer.entries.get(g) == u.replacer.entries.get(g));
            assert(u.replacer.entries.contains_key(g));
            assert(w.resident(g) == u.resident(g));
        }
    }
    assert forall|g: FrameId| #![trigger w.resident(g)] g < w.num_frames implies (w.resident(g)
        ==> w.replacer.entries.contains_key(g)) && (w.resident(g) || w.free_frames.contains(g)) by {
        if g != f {
            assert(w.resident(g) == u.resident(g));
            assert(w.replacer.entries.get(g) == u.replacer.entries.get(g));
        }
    }
}

/// Taking the last free frame for a missing page keeps the pool's invariant.
proof fn lemma_fetch_free_wf(v: BpmView, p: PageId, access: AccessType)
    requires
        v.wf(),
        v.can_fetch(p),
        !v.page_table.contains_key(p),
        v.free_frames.len() > 0,
    ensures
        v.pop_free().assign_frame(v.free_frames.last(), p).pin_and_register(v.free_frames.last(), access).wf(),
{
    let f = v.free_frames.last();
    let u = v.pop_free();
    let n = v.free_frames.len() - 1;
    assert(v.free_frames[n] == f);
    assert(!v.resident(f));
    assert(!u.free_frames.contains(f)) by {
        if u.free_frames.contains(f) {
            let i = choose|i: int| 0 <= i < u.free_frames.len() && u.free_frames[i] == f;
            assert(v.free_frames[i] == v.free_frames[n]);
        }
    }
    assert forall|g: FrameId| #![trigger u.resident(g)] g < u.num_frames && g != f implies (u.resident(g)
        ==> u.replacer.entries.contains_key(g)) && (u.resident(g) || u.free_frames.contains(g)) by {
        assert(v.resident(g) || v.free_frames.contains(g));
        if !v.resident(g) {
            let i = choose|i: int| 0 <= i < v.free_frames.len() && v.free_frames[i] == g;
            assert(i != n);
            assert(u.free_frames[i] == g);
        }
    }
    assert forall|i: int| 0 <= i < u.free_frames.len() implies #[trigger] u.free_frames[i] < u.num_frames
        && !u.resident(u.free_frames[i]) by {
        assert(u.free_frames[i] == v.free_frames[i]);
    }
    assert(u.free_frames.no_duplicates()) by {
        assert forall|i: int, j: int| 0 <= i < u.free_frames.len() && 0 <= j < u.free_frames.len() && i != j
            implies u.free_frames[i] != u.free_frames[j] by {
            assert(u.free_frames[i] == v.free_frames[i] && u.free_frames[j] == v.free_frames[j]);
        }
    }
    lemma_assign_wf(v, u, p, f, access);
}

/// Reusing an evicted frame for a missing page keeps the pool's invariant.
proof fn lemma_fetch_evict_wf(v: BpmView, p: PageId, f: FrameId, access: AccessType)
    requires
        v.wf(),
        v.can_fetch(p),
        !v.page_table.contains_key(p),
        v.free_frames.len() == 0,
        v.replacer.is_victim(f),
    ensures
        v.evict_frame(f).assign_frame(f, p).pin_and_register(f, access).wf(),
{
    let u = v.evict_frame(f);
    assert(v.resident(f));
    lemma_evict_count(v.replacer, f);
    let q = v.frames[f as int].page_id;
    assert(!u.resident(f));
    assert forall|g: FrameId| #![trigger u.resident(g)] g < u.frames.len() && g != f implies u.resident(g)
        == v.resident(g) by {
        if v.frames[g as int].page_id == q {
            assert(!v.resident(g));
        }
    }
    assert forall|r: PageId| #[trigger] u.page_table.contains_key(r) implies u.page_table[r] < u.num_frames
        && u.frames[u.page_table[r] as int].page_id == r by {
        assert(v.page_table.contains_key(r));
    }
    assert forall|g: FrameId| #[trigger] u.replacer.entries.contains_key(g) implies g < u.num_frames
        && u.resident(g) by {
        assert(v.replacer.entries.contains_key(g));
        assert(v.resident(g));
    }
    assert forall|g: FrameId| #![trigger u.resident(g)] g < u.num_frames && g != f implies (u.resident(g)
        ==> u.replacer.entries.contains_key(g)) && (u.resident(g) || u.free_frames.contains(g)) by {
        assert(v.resident(g) || v.free_frames.contains(g));
    }
    lemma_assign_wf(v, u, p, f, access);
}

/// Changing the bytes of a frame keeps the pool's invariant.
proof fn lemma_data_update_wf(v: BpmView, f: FrameId, d: [u8; PAGE_SIZE])
    requires
        v.wf(),
        f < v.frames.len(),
    ensures
        v.with_frame_data(f, d).wf(),
{
    let w = BpmView {
        frames: v.frames.update(f as int, FrameHeader { data: d, ..v.frames[f as int] }),
        ..v
    };
    assert forall|g: FrameId| #![trigger w.resident(g)] g < w.frames.len() implies w.resident(g)
        == v.resident(g) by {
        assert(w.frames[g as int].page_id == v.frames[g as int].page_id);
    }
    assert forall|i: int| 0 <= i < w.frames.len() implies (#[trigger] w.frames[i]).frame_id == i by {
        assert(v.frames[i].frame_id == i);
    }
    assert forall|i: int| 0 <= i < w.free_frames.len() implies #[trigger] w.free_frames[i] < w.num_frames
        && !w.resident(w.free_frames[i]) by {
        assert(!v.resident(v.free_frames[i]));
    }
    assert forall|g: FrameId| #[trigger] w.replacer.entries.contains_key(g) implies g < w.num_frames
        && w.resident(g) by {
        assert(v.replacer.entries.contains_key(g));
    }
    assert forall|g: FrameId| #![trigger w.resident(g)] g < w.num_frames implies (w.resident(g)
        ==> w.replacer.entries.contains_key(g)) && (w.resident(g) || w.free_frames.contains(g)) by {
        assert(v.resident(g) ==> v.replacer.entries.contains_key(g));
    }
}

/// The page counter plays no part in the pool's invariant.
proof fn lemma_wf_ignores_page_counter(v: BpmView, w: BpmView)
    requires
        v.wf(),
        w == (BpmView { next_page_id: w.next_page_id, ..v }),
    ensures
        w.wf(),
{
    assert forall|g: FrameId| #![trigger w.resident(g)] g < w.frames.len() implies w.resident(g)
        == v.resident(g) by {
    }
    assert forall|i: int| 0 <= i < w.free_frames.len() implies #[trigger] w.free_frames[i] < w.num_frames
        && !w.resident(w.free_frames[i]) by {
        assert(!v.resident(v.free_frames[i]));
    }
    assert forall|g: FrameId| #[trigger] w.replacer.entries.contains_key(g) implies g < w.num_frames
        && w.resident(g) by {
        assert(v.replacer.entries.contains_key(g));
    }
    assert forall|g: FrameId| #![trigger w.resident(g)] g < w.num_frames implies (w.resident(g)
        ==> w.replacer.entries.contains_key(g)) && (w.resident(g) || w.free_frames.contains(g)) by {
        assert(v.resident(g) ==> v.replacer.entries.contains_key(g));
    }
}

/// The buffer pool manager: a fixed set of frames caching pages of the
/// database file, with a page table, a free list, and an LRU-K replacer.
pub struct BufferPoolManager {
    num_frames: usize,
    next_page_id: usize,
    frames: Vec<FrameHeader>,
    page_table: HashMap<PageId, FrameId>,
    free_frames: Vec<FrameId>,
    replacer: LruKReplacer,
}

impl View for BufferPoolManager {
    type V = BpmView;

    closed spec fn view(&self) -> BpmView {
        BpmView {
            num_frames: self.num_frames as nat,
            next_page_id: self.next_page_id,
            frames: self.frames@,
            page_table: self.page_table@,
            free_frames: self.free_frames@,
            replacer: self.replacer@,
        }
    }
}

impl BufferPoolManager {
    /// The manager's invariant: its abstract state is well-formed, and so is
    /// its replacer.
    pub open spec fn wf(&self) -> bool {
        &&& self@.wf()
        &&& self.replacer_wf()
    }

    /// The manager's replacer is well-formed.
    pub closed spec fn replacer_wf(&self) -> bool {
        self.replacer.wf()
    }

    /// A pool of `num_frames` empty frames, all free, with page numbering
    /// starting at zero. Its replacer is created with `k = num_frames` over
    /// `NUM_NEW_PAGES` frame ids.
    pub fn new(num_frames: usize) -> (bpm: Self)
        ensures
            bpm.wf(),
            bpm@.num_frames == num_frames,
            bpm@.next_page_id == 0,
            bpm@.page_table == Map::<PageId, FrameId>::empty(),
            bpm@.free_frames == Seq::new(num_frames as nat, |i: int| i as usize),
            forall|i: int|
                0 <= i < num_frames ==> (#[trigger] bpm@.frames[i]).page_id == INVALID_PAGE_ID
                    && bpm@.frames[i].pin_count == 0 && !bpm@.frames[i].is_dirty
                    && bpm@.frames[i].data@ == zero_page(),
            bpm@.replacer == (ReplacerView {
                capacity: NUM_NEW_PAGES as nat,
                k: num_frames as nat,
                entries: Map::empty(),
                size: 0,
                timestamp: 0,
            }),
    {
        let mut frames: Vec<FrameHeader> = Vec::with_capacity(num_frames);
        let mut free_frames: Vec<FrameId> = Vec::with_capacity(num_frames);
        let mut i: usize = 0;
        while i < num_frames
            invariant
                i <= num_frames,
                frames@.len() == i,
                free_frames@ == Seq::new(i as nat, |j: int| j as usize),
                forall|j: int|
                    0 <= j < i ==> (#[trigger] frames@[j]).frame_id == j && frames@[j].page_id
                        == INVALID_PAGE_ID && frames@[j].pin_count == 0 && !frames@[j].is_dirty
                        && frames@[j].data@ == zero_page(),
            decreases num_frames - i,
        {
            frames.push(FrameHeader::new(i));
            free_frames.push(i);
            i = i + 1;
            assert(free_frames@ =~= Seq::new(i as nat, |j: int| j as usize));
        }
        let replacer = LruKReplacer::new(num_frames, NUM_NEW_PAGES);
        let bpm = Self {
            num_frames,
            next_page_id: 0,
            frames,
            page_table: HashMap::new(),
            free_frames,
            replacer,
        };
        proof {
            bpm.replacer.lemma_view_wf();
            let v = bpm@;
            assert(v.page_table =~= Map::empty());
            assert forall|f: FrameId| #![trigger v.resident(f)] f < v.num_frames implies (v.resident(f)
                ==> v.replacer.entries.contains_key(f)) && (v.resident(f) || v.free_frames.contains(f)) by {
                assert(v.free_frames[f as int] == f);
            }
            assert(v.free_frames.no_duplicates());
        }
        bpm
    }

    /// The number of frames in the pool.
    pub fn size(self) -> (n: usize)
        ensures
            n == self@.num_frames,
    {
        self.num_frames
    }

    /// The number of frames in the pool.
    pub fn num_frames(&self) -> (n: usize)
        ensures
            n == self@.num_frames,
    {
        self.num_frames
    }

    /// Hands out a fresh page number; the counter wraps around.
    pub fn new_page(&mut self) -> (page_id: PageId)
        requires
            old(self).wf(),
        ensures
            final(self).wf(),
            page_id == old(self)@.next_page_id,
            final(self)@ == (BpmView { next_page_id: page_id.wrapping_add(1), ..old(self)@ }),
            final(self)@ == after_new_pages(old(self)@, 1),
    {
        let page_id = self.next_page_id;
        self.next_page_id = page_id.wrapping_add(1);
        proof {
            lemma_wf_ignores_page_counter(old(self)@, self@);
            assert(after_new_pages(old(self)@, 0) == old(self)@);
        }
        page_id
    }

    /// The pin count of the frame holding `page_id`, or `None` if the page
    /// is not in the pool.
    pub fn get_pin_count(&self, page_id: PageId) -> (r: Option<usize>)
        requires
            self.wf(),
        ensures
            match r {
                Some(c) => self@.page_table.contains_key(page_id) && c
                    == self@.frames[self@.page_table[page_id] as int].pin_count,
                None => !self@.page_table.contains_key(page_id),
            },
    {
        match self.page_table.get(&page_id) {
            Some(fid) => {
                assert(self@.page_table.contains_key(page_id));
                Some(self.frames[*fid].pin_count)
            },
            None => None,
        }
    }

    /// Whether `page_id` is held in a frame.
    pub fn is_resident(&self, page_id: PageId) -> (r: bool)
        ensures
            r == self@.page_table.contains_key(page_id),
    {
        self.page_table.contains_key(&page_id)
    }

    /// Whether fetching `page_id` meets its precondition (see `can_fetch`).
    pub fn can_fetch(&self, page_id: PageId) -> (r: bool)
        requires
            self.wf(),
        ensures
            r == self@.can_fetch(page_id),
    {
        if self.replacer.current_timestamp() == usize::MAX {
            return false;
        }
        if !self.page_table.contains_key(&page_id) && self.free_frames.len() > 0 {
            let last = self.free_frames[self.free_frames.len() - 1];
            return last < self.replacer.replacer_size();
        }
        true
    }

    /// Fetches `page_id` for reading: pins its frame (see `fetch_frame`) and
    /// returns a guard on it together with whether the page's bytes must
    /// still be loaded from disk into the frame (see `fill_frame`).
    pub fn checked_read_page(&mut self, page_id: PageId) -> (r: Option<(ReadPageGuard, bool)>)
        requires
            old(self).wf(),
            old(self)@.can_fetch(page_id),
        ensures
            final(self).wf(),
            match r {
                Some((guard, load)) => {
                    &&& guard == (ReadPageGuard { page_id, frame_id: guard.frame_id, is_valid: false })
                    &&& old(self)@.fetch(page_id, AccessType::Lookup, guard.frame_id, load, final(self)@)
                },
                None => old(self)@.fetch_fails(page_id) && final(self)@ == old(self)@,
            },
    {
        match self.fetch_frame(page_id, AccessType::Lookup) {
            Some((frame_id, load)) => Some((ReadPageGuard::new(page_id, frame_id), load)),
            None => None,
        }
    }

    /// Fetches `page_id` for writing: pins its frame (see `fetch_frame`) and
    /// returns a guard on it together with whether the page's bytes must
    /// still be loaded from disk into the frame (see `fill_frame`).
    pub fn checked_write_page(&mut self, page_id: PageId) -> (r: Option<(WritePageGuard, bool)>)
        requires
            old(self).wf(),
            old(self)@.can_fetch(page_id),
        ensures
            final(self).wf(),
            match r {
                Some((guard, load)) => {
                    &&& guard == (WritePageGuard { page_id, frame_id: guard.frame_id, is_valid: false })
                    &&& old(self)@.fetch(page_id, AccessType::Write, guard.frame_id, load, final(self)@)
                },
                None => old(self)@.fetch_fails(page_id) && final(self)@ == old(self)@,
            },
    {
        match self.fetch_frame(page_id, AccessType::Write) {
            Some((frame_id, load)) => Some((WritePageGuard::new(page_id, frame_id), load)),
            None => None,
        }
    }

    /// Stores the bytes read from disk into frame `frame_id`.
    pub fn fill_frame(&mut self, frame_id: FrameId, data: &[u8])
        requires
            old(self).wf(),
            frame_id < old(self)@.num_frames,
            data@.len() == PAGE_SIZE,
        ensures
            final(self).wf(),
            final(self)@.frames[frame_id as int].data@ == data@,
            final(self)@ == old(self)@.with_frame_data(frame_id, final(self)@.frames[frame_id as int].data),
    {
        let ghost pre = self@;
        let mut page: [u8; PAGE_SIZE] = [0u8; PAGE_SIZE];
        let mut i: usize = 0;
        while i < PAGE_SIZE
            invariant
                i <= PAGE_SIZE,
                data@.len() == PAGE_SIZE,
                page@.len() == PAGE_SIZE,
                forall|j: int| 0 <= j < i ==> page@[j] == data@[j],
            decreases PAGE_SIZE - i,
        {
            page[i] = data[i];
            i = i + 1;
        }
        assert(page@ =~= data@);
        proof {
            lemma_data_update_wf(pre, frame_id, page);
        }
        self.frames[frame_id].data = page;
        proof {
            self.replacer.lemma_view_wf();
            assert(self@.frames =~= pre.frames.update(
                frame_id as int,
                FrameHeader { data: page, ..pre.frames[frame_id as int] },
            ));
        }
    }

    /// The frame `frame_id`.
    pub fn frame(&self, frame_id: FrameId) -> (frame: &FrameHeader)
        requires
            frame_id < self@.frames.len(),
        ensures
            *frame == self@.frames[frame_id as int],
    {
        &self.frames[frame_id]
    }

    /// The bytes of frame `frame_id`, for writing; nothing else changes.
    pub fn frame_data_mut(&mut self, frame_id: FrameId) -> (data: &mut [u8; PAGE_SIZE])
        requires
            old(self).wf(),
            frame_id < old(self)@.frames.len(),
        ensures
            *data == old(self)@.frames[frame_id as int].data,
            final(self)@ == old(self)@.with_frame_data(frame_id, *final(data)),
            old(self)@.with_frame_data(frame_id, *final(data)).wf() && final(self).wf(),
    {
        proof {
            assert forall|d: [u8; PAGE_SIZE]| #[trigger] self@.with_frame_data(frame_id, d).wf() by {
                lemma_data_update_wf(self@, frame_id, d);
            }
        }
        &mut self.frames[frame_id].data
    }

    /// Releases one pin of frame `frame_id` (the count wraps around); when
    /// the last pin goes, the frame becomes evictable. Returns the pin count
    /// before the release.
    pub fn unpin_frame(&mut self, frame_id: FrameId) -> (old_pin: usize)
        requires
            old(self).wf(),
            frame_id < old(self)@.num_frames,
            old(self)@.can_unpin(frame_id),
        ensures
            final(self).wf(),
            old_pin == old(self)@.frames[frame_id as int].pin_count,
            final(self)@ == old(self)@.after_unpin(frame_id),
    {
        let ghost pre = self@;
        let old_pin = self.frames[frame_id].pin_count;
        self.frames[frame_id].pin_count = old_pin.wrapping_sub(1);
        if old_pin == 1 {
            self.replacer.set_evictable(frame_id, true);
        }
        proof {
            self.replacer.lemma_view_wf();
            let v = self@;
            assert(v.frames =~= pre.after_unpin(frame_id).frames);
            assert forall|g: FrameId| #![trigger v.resident(g)] g < v.frames.len() implies v.resident(g)
                == pre.resident(g) by {
                assert(v.frames[g as int].page_id == pre.frames[g as int].page_id);
            }
            assert forall|i: int| 0 <= i < v.frames.len() implies (#[trigger] v.frames[i]).frame_id == i by {
                assert(pre.frames[i].frame_id == i);
            }
            assert forall|i: int| 0 <= i < v.free_frames.len() implies #[trigger] v.free_frames[i] < v.num_frames
                && !v.resident(v.free_frames[i]) by {
                assert(!pre.resident(pre.free_frames[i]));
            }
            assert forall|g: FrameId| #[trigger] v.replacer.entries.contains_key(g) implies g < v.num_frames
                && v.resident(g) by {
                assert(pre.replacer.entries.contains_key(g));
            }
            assert forall|g: FrameId| #![trigger v.resident(g)] g < v.num_frames implies (v.resident(g)
                ==> v.replacer.entries.contains_key(g)) && (v.resident(g) || v.free_frames.contains(g)) by {
                assert(pre.resident(g) ==> pre.replacer.entries.contains_key(g));
            }
        }
        old_pin
    }

    /// Pins frame `frame_id` one more time (the pin count wraps around).
    fn pin_frame(&mut self, frame_id: FrameId)
        requires
            frame_id < old(self).frames@.len(),
        ensures
            final(self).frames@ == old(self).frames@.update(
                frame_id as int,
                FrameHeader {
                    pin_count: pin_inc(old(self).frames@[frame_id as int].pin_count),
                    ..old(self).frames@[frame_id as int]
                },
            ),
            *final(self) == (BufferPoolManager { frames: final(self).frames, ..*old(self) }),
    {
        let pin_count = self.frames[frame_id].pin_count;
        self.frames[frame_id].pin_count = pin_count.wrapping_add(1);
        proof {
            assert(self.frames@ =~= old(self).frames@.update(
                frame_id as int,
                FrameHeader {
                    pin_count: pin_inc(old(self).frames@[frame_id as int].pin_count),
                    ..old(self).frames@[frame_id as int]
                },
            ));
        }
    }

    /// Records an access to `frame_id` with the replacer and marks it not
    /// evictable.
    fn register_with_replacer(&mut self, frame_id: FrameId, access_type: AccessType)
        requires
            old(self).replacer.wf(),
            frame_id < old(self).replacer@.capacity,
            old(self).replacer@.access_ticks(frame_id, access_type) ==> old(self).replacer@.timestamp
                < usize::MAX,
        ensures
            final(self).replacer.wf(),
            final(self).replacer@ == old(self).replacer@.after_access(frame_id, access_type).after_set_evictable(
                frame_id,
                false,
            ),
            *final(self) == (BufferPoolManager { replacer: final(self).replacer, ..*old(self) }),
    {
        self.replacer.record_access(frame_id, access_type);
        self.replacer.set_evictable(frame_id, false);
    }

    /// Gives frame `frame_id` to page `page_id` and marks it clean.
    fn reset_frame(&mut self, frame_id: FrameId, page_id: PageId)
        requires
            frame_id < old(self).frames@.len(),
        ensures
            final(self).frames@ == old(self).frames@.update(
                frame_id as int,
                FrameHeader { page_id, is_dirty: false, ..old(self).frames@[frame_id as int] },
            ),
            *final(self) == (BufferPoolManager { frames: final(self).frames, ..*old(self) }),
    {
        self.frames[frame_id].page_id = page_id;
        self.frames[frame_id].is_dirty = false;
        proof {
            assert(self.frames@ =~= old(self).frames@.update(
                frame_id as int,
                FrameHeader { page_id, is_dirty: false, ..old(self).frames@[frame_id as int] },
            ));
        }
    }

    /// Brings page `page_id` into a frame and pins it: the frame already
    /// holding it, else the last free frame, else a frame evicted by the
    /// replacer (a dirty victim is not written back). Returns the frame and
    /// whether its bytes must be loaded from disk; `None` when no frame can
    /// be had.
    fn fetch_frame(&mut self, page_id: PageId, access_type: AccessType) -> (r: Option<(FrameId, bool)>)
        requires
            old(self).wf(),
            old(self)@.can_fetch(page_id),
        ensures
            final(self).wf(),
            match r {
                Some((f, load)) => old(self)@.fetch(page_id, access_type, f, load, final(self)@),
                None => old(self)@.fetch_fails(page_id) && final(self)@ == old(self)@,
            },
    {
        let ghost pre = self@;
        proof {
            self.replacer.lemma_view_wf();
        }
        match self.page_table.get(&page_id) {
            Some(fid) => {
                let frame_id = *fid;
                proof {
                    assert(pre.resident(frame_id));
                    lemma_fetch_hit_wf(pre, page_id, access_type);
                }
                self.pin_frame(frame_id);
                self.register_with_replacer(frame_id, access_type);
                proof {
                    assert(self@ == pre.pin_and_register(frame_id, access_type));
                }
                return Some((frame_id, false));
            },
            None => {},
        }
        match self.free_frames.pop() {
            Some(frame_id) => {
                proof {
                    lemma_fetch_free_wf(pre, page_id, access_type);
                }
                self.pin_frame(frame_id);
                self.reset_frame(frame_id, page_id);
                self.page_table.insert(page_id, frame_id);
                self.register_with_replacer(frame_id, access_type);
                proof {
                    assert(self@.frames =~= pre.pop_free().assign_frame(frame_id, page_id).pin_and_register(
                        frame_id,
                        access_type,
                    ).frames);
                }
                return Some((frame_id, true));
            },
            None => {},
        }
        match self.replacer.evict() {
            Some(frame_id) => {
                proof {
                    lemma_fetch_evict_wf(pre, page_id, frame_id, access_type);
                }
                self.pin_frame(frame_id);
                let old_page_id = self.frames[frame_id].page_id;
                self.page_table.remove(&old_page_id);
                self.reset_frame(frame_id, page_id);
                self.page_table.insert(page_id, frame_id);
                self.register_with_replacer(frame_id, access_type);
                proof {
                    assert(self@.frames =~= pre.evict_frame(frame_id).assign_frame(frame_id, page_id).pin_and_register(
                        frame_id,
                        access_type,
                    ).frames);
                }
                Some((frame_id, true))
            },
            None => None,
        }
    }
}

// ---------------------------------------------------------------------
// Laws of the buffer pool
// ---------------------------------------------------------------------

/// No two pages share a frame.
pub proof fn lemma_page_table_injective(v: BpmView, p: PageId, q: PageId)
    requires
        v.wf(),
        v.page_table.contains_key(p),
        v.page_table.contains_key(q),
        v.page_table[p] == v.page_table[q],
    ensures
        p == q,
{
}

/// A successful fetch leaves the page resident in the frame it returned,
/// that frame holds the page, is pinned once more, and is tracked by the
/// replacer as not evictable.
pub proof fn lemma_fetch_makes_resident(
    v: BpmView,
    p: PageId,
    access: AccessType,
    f: FrameId,
    load: bool,
    w: BpmView,
)
    requires
        v.wf(),
        v.can_fetch(p),
        v.fetch(p, access, f, load, w),
    ensures
        w.page_table.contains_key(p),
        w.page_table[p] == f,
        f < w.num_frames,
        w.frames[f as int].page_id == p,
        w.frames[f as int].pin_count == pin_inc(v.frames[f as int].pin_count),
        w.replacer.entries.contains_key(f),
        !w.replacer.entries[f].evictable,
        w.resident(f),
{
    if v.page_table.contains_key(p) {
        assert(v.resident(f));
        assert(v.replacer.entries.contains_key(f));
        lemma_register(v.replacer, f, access);
    } else if v.free_frames.len() > 0 {
        let u = v.pop_free().assign_frame(f, p);
        assert(v.free_frames[v.free_frames.len() - 1] == f);
        lemma_register(u.replacer, f, access);
    } else {
        lemma_evict_count(v.replacer, f);
        let u = v.evict_frame(f).assign_frame(f, p);
        lemma_register(u.replacer, f, access);
    }
}

/// Pinning protects a page: while the frame holding page `p` is not
/// evictable, fetching any page leaves `p` in the same frame with the same
/// bytes.
pub proof fn lemma_unevictable_page_stays(
    v: BpmView,
    p: PageId,
    q: PageId,
    access: AccessType,
    f: FrameId,
    load: bool,
    w: BpmView,
)
    requires
        v.wf(),
        v.can_fetch(q),
        v.page_table.contains_key(p),
        !v.replacer.entries[v.page_table[p]].evictable,
        v.fetch(q, access, f, load, w),
    ensures
        w.page_table.contains_key(p),
        w.page_table[p] == v.page_table[p],
        w.frames[v.page_table[p] as int].data == v.frames[v.page_table[p] as int].data,
        w.frames[v.page_table[p] as int].page_id == p,
{
    let g = v.page_table[p];
    assert(v.resident(g));
    if v.page_table.contains_key(q) {
    } else if v.free_frames.len() > 0 {
        let n = v.free_frames.len() - 1;
        assert(v.free_frames[n] == f);
        assert(!v.resident(v.free_frames[n]));
        assert(f != g);
        assert(p != q);
    } else {
        assert(v.replacer.entries[f].evictable);
        assert(f != g);
        assert(v.frames[f as int].page_id != p);
    }
}

/// Fetching a page keeps the pool's invariant.
pub proof fn lemma_fetch_keeps_wf(v: BpmView, p: PageId, access: AccessType, f: FrameId, load: bool, w: BpmView)
    requires
        v.wf(),
        v.can_fetch(p),
        v.fetch(p, access, f, load, w),
    ensures
        w.wf(),
{
    if v.page_table.contains_key(p) {
        lemma_fetch_hit_wf(v, p, access);
    } else if v.free_frames.len() > 0 {
        lemma_fetch_free_wf(v, p, access);
    } else {
        lemma_fetch_evict_wf(v, p, f, access);
    }
}

/// Fetching page `p` changes no other page's mapping, except that the page
/// held by an evicted frame leaves the page table.
pub proof fn lemma_fetch_other_mappings(
    v: BpmView,
    p: PageId,
    access: AccessType,
    f: FrameId,
    load: bool,
    w: BpmView,
    q: PageId,
)
    requires
        v.wf(),
        v.can_fetch(p),
        v.fetch(p, access, f, load, w),
        q != p,
    ensures
        w.page_table.contains_key(q) <==> v.page_table.contains_key(q) && !(load
            && v.page_table[q] == f),
        w.page_table.contains_key(q) ==> w.page_table[q] == v.page_table[q],
        load && v.page_table.contains_key(q) && v.page_table[q] == f ==> v.free_frames.len() == 0
            && v.frames[f as int].page_id == q,
{
    if v.page_table.contains_key(p) {
    } else if v.free_frames.len() > 0 {
        let n = v.free_frames.len() - 1;
        assert(v.free_frames[n] == f);
        assert(!v.resident(v.free_frames[n]));
        if v.page_table.contains_key(q) && v.page_table[q] == f {
            assert(v.resident(f));
        }
    } else {
        assert(v.replacer.entries.contains_key(f));
        assert(v.resident(f));
    }
}

/// A successful fetch pins the returned frame exactly once more (its count
/// wraps to zero only from `usize::MAX`), holds page `p` in it, and changes
/// no other frame's pin count, page or bytes. A hit also keeps the frame's
/// bytes; a fetch that must load marks the frame clean.
pub proof fn lemma_fetch_pins_once(
    v: BpmView,
    p: PageId,
    access: AccessType,
    f: FrameId,
    load: bool,
    w: BpmView,
    g: int,
)
    requires
        v.wf(),
        v.can_fetch(p),
        v.fetch(p, access, f, load, w),
    ensures
        f < v.frames.len(),
        w.frames.len() == v.frames.len(),
        v.frames[f as int].pin_count < usize::MAX ==> w.frames[f as int].pin_count == v.frames[f as int].pin_count
            + 1,
        v.frames[f as int].pin_count == usize::MAX ==> w.frames[f as int].pin_count == 0,
        w.frames[f as int].page_id == p,
        w.frames[f as int].frame_id == f,
        w.frames[f as int].data == v.frames[f as int].data,
        load ==> !w.frames[f as int].is_dirty,
        !load ==> w.frames[f as int].is_dirty == v.frames[f as int].is_dirty,
        0 <= g < v.frames.len() && g != f ==> w.frames[g] == v.frames[g],
{
    if v.page_table.contains_key(p) {
    } else if v.free_frames.len() > 0 {
        assert(v.free_frames[v.free_frames.len() - 1] == f);
    } else {
        assert(v.replacer.entries.contains_key(f));
    }
}

/// Which frame a fetch takes: the frame already holding the page (and then
/// nothing is loaded), else the last free frame, which leaves the free list,
/// else an evictable frame the replacer ranks first, whose old page leaves
/// the page table; in the last two cases the bytes must be loaded. After the
/// fetch the replacer tracks the frame as not evictable, with the access
/// recorded.
pub proof fn lemma_fetch_choice(v: BpmView, p: PageId, access: AccessType, f: FrameId, load: bool, w: BpmView)
    requires
        v.wf(),
        v.can_fetch(p),
        v.fetch(p, access, f, load, w),
    ensures
        v.page_table.contains_key(p) ==> f == v.page_table[p] && !load && w.free_frames == v.free_frames
            && w.page_table == v.page_table,
        !v.page_table.contains_key(p) && v.free_frames.len() > 0 ==> f == v.free_frames[v.free_frames.len() - 1]
            && load && w.free_frames == v.free_frames.subrange(0, v.free_frames.len() - 1),
        !v.page_table.contains_key(p) && v.free_frames.len() == 0 ==> load && v.replacer.is_victim(f)
            && v.replacer.entries[f].evictable && !w.page_table.contains_key(v.frames[f as int].page_id)
            && w.free_frames == v.free_frames,
        w.replacer.entries.contains_key(f),
        !w.replacer.entries[f].evictable,
        w.replacer.timestamp == v.replacer.timestamp + 1 || access == AccessType::Scan,
        access != AccessType::Scan ==> w.replacer.timestamp == v.replacer.timestamp + 1
            && w.replacer.entries[f].history.len() > 0 && w.replacer.entries[f].history[w.replacer.entries[f].history.len()
            - 1] == v.replacer.timestamp,
        w.replacer.size + (if v.replacer.entries.contains_key(f) && v.replacer.entries[f].evictable {
            1int
        } else {
            0int
        }) == v.replacer.size,
        forall|g: FrameId| g != f ==> (#[trigger] w.replacer.entries.contains_key(g) == v.replacer.entries.contains_key(g))
            && (v.replacer.entries.contains_key(g) ==> w.replacer.entries[g] == v.replacer.entries[g]),
        w.page_table.contains_key(p) && w.page_table[p] == f,
{
    lemma_fetch_makes_resident(v, p, access, f, load, w);
    let r = v.replacer;
    if v.page_table.contains_key(p) {
        assert(v.resident(f));
        assert(r.entries.contains_key(f));
        lemma_fetch_replacer(r, f, access);
    } else if v.free_frames.len() > 0 {
        let n = v.free_frames.len() - 1;
        assert(v.free_frames[n] == f);
        assert(!v.resident(f));
        assert(!r.entries.contains_key(f));
        lemma_fetch_replacer(r, f, access);
    } else {
        let q = v.frames[f as int].page_id;
        assert(v.resident(f));
        assert(q != p);
        lemma_evict_count(r, f);
        lemma_remove_effect(r, f, f);
        lemma_fetch_replacer(r.after_evict(f), f, access);
        assert forall|g: FrameId| g != f implies (#[trigger] w.replacer.entries.contains_key(g)
            == r.entries.contains_key(g)) && (r.entries.contains_key(g) ==> w.replacer.entries[g]
            == r.entries[g]) by {
            lemma_remove_effect(r, f, g);
            lemma_access_keeps_wf(r.after_evict(f), f, access);
            lemma_access_effect(r.after_evict(f), f, access, g);
            lemma_set_evictable_effect(r.after_evict(f).after_access(f, access), f, false, g);
        }
    }
}

/// Recording an access to `f` and marking it not evictable, on the replacer.
proof fn lemma_fetch_replacer(r: ReplacerView, f: FrameId, access: AccessType)
    requires
        r.wf(),
        f < r.capacity,
        r.timestamp < usize::MAX,
    ensures
        ({
            let w = r.after_access(f, access).after_set_evictable(f, false);
            &&& access != AccessType::Scan ==> w.timestamp == r.timestamp + 1 && w.entries[f].history.len() > 0
                && w.entries[f].history[w.entries[f].history.len() - 1] == r.timestamp
            &&& w.size + (if r.entries.contains_key(f) && r.entries[f].evictable {
                1int
            } else {
                0int
            }) == r.size
            &&& forall|g: FrameId| g != f ==> (#[trigger] w.entries.contains_key(g) == r.entries.contains_key(g))
                && (r.entries.contains_key(g) ==> w.entries[g] == r.entries[g])
        }),
{
    let u = r.after_access(f, access);
    lemma_access_keeps_wf(r, f, access);
    lemma_access_effect(r, f, access, f);
    lemma_set_evictable_effect(u, f, false, f);
    assert forall|g: FrameId| g != f implies (#[trigger] u.after_set_evictable(f, false).entries.contains_key(g)
        == r.entries.contains_key(g)) && (r.entries.contains_key(g) ==> u.after_set_evictable(f, false).entries[g]
        == r.entries[g]) by {
        lemma_access_effect(r, f, access, g);
        lemma_set_evictable_effect(u, f, false, g);
    }
}

/// Releasing one pin: the frame's count goes down by one (wrapping from zero
/// to `usize::MAX`); only when the released pin was the last one (the count
/// was one) does the frame become evictable in the replacer, its history kept
/// and the replacer's counter up by one if it was not evictable before.
/// Otherwise the replacer is untouched. Pages, free frames and the other
/// frames never change.
pub proof fn lemma_unpin_effect(v: BpmView, f: FrameId, g: int)
    requires
        v.wf(),
        v.can_unpin(f),
    ensures
        ({
            let w = v.after_unpin(f);
            let c = v.frames[f as int].pin_count;
            &&& c > 0 ==> w.frames[f as int].pin_count == c - 1
            &&& c == 0 ==> w.frames[f as int].pin_count == usize::MAX
            &&& w.frames[f as int].page_id == v.frames[f as int].page_id
            &&& w.frames[f as int].data == v.frames[f as int].data
            &&& (0 <= g < v.frames.len() && g != f ==> w.frames[g] == v.frames[g])
            &&& w.page_table == v.page_table && w.free_frames == v.free_frames
            &&& (c != 1 ==> w.replacer == v.replacer)
            &&& (c == 1 && v.replacer.entries.contains_key(f) ==> {
                &&& w.replacer.entries[f].evictable
                &&& w.replacer.entries[f].history == v.replacer.entries[f].history
                &&& w.replacer.entries.dom() == v.replacer.entries.dom()
                &&& (!v.replacer.entries[f].evictable ==> w.replacer.size == v.replacer.size + 1)
                &&& (v.replacer.entries[f].evictable ==> w.replacer.size == v.replacer.size)
            })
        }),
{
    let c = v.frames[f as int].pin_count;
    if c == 1 {
        lemma_set_evictable_effect(v.replacer, f, true, f);
    }
}

/// Writing a frame's bytes changes those bytes and nothing else.
pub proof fn lemma_frame_data_effect(v: BpmView, f: FrameId, d: [u8; PAGE_SIZE], g: int)
    requires
        f < v.frames.len(),
    ensures
        v.with_frame_data(f, d).frames[f as int].data == d,
        v.with_frame_data(f, d).frames[f as int].page_id == v.frames[f as int].page_id,
        v.with_frame_data(f, d).frames[f as int].pin_count == v.frames[f as int].pin_count,
        v.with_frame_data(f, d).frames[f as int].is_dirty == v.frames[f as int].is_dirty,
        0 <= g < v.frames.len() && g != f ==> v.with_frame_data(f, d).frames[g] == v.frames[g],
        v.with_frame_data(f, d).page_table == v.page_table,
        v.with_frame_data(f, d).replacer == v.replacer,
        v.with_frame_data(f, d).free_frames == v.free_frames,
{
}

/// The state after `m` page numbers were handed out by `new_page`.
pub open spec fn after_new_pages(v: BpmView, m: nat) -> BpmView
    decreases m,
{
    if m == 0 {
        v
    } else {
        let u = after_new_pages(v, (m - 1) as nat);
        BpmView { next_page_id: u.next_page_id.wrapping_add(1), ..u }
    }
}

/// Page numbers are handed out in sequence: after `m` calls of `new_page`
/// the counter has moved on by `m` (while it does not wrap), so the call
/// after `i` earlier ones returned `next_page_id + i`, and nothing else in
/// the pool changed.
pub proof fn lemma_new_page_sequence(v: BpmView, m: nat)
    requires
        v.next_page_id + m <= usize::MAX,
    ensures
        after_new_pages(v, m) == (BpmView { next_page_id: (v.next_page_id + m) as usize, ..v }),
        forall|i: nat| i <= m ==> #[trigger] after_new_pages(v, i).next_page_id == v.next_page_id + i,
    decreases m,
{
    if m == 0 {
        assert(after_new_pages(v, 0) == v);
    } else {
        lemma_new_page_sequence(v, (m - 1) as nat);
        let u = after_new_pages(v, (m - 1) as nat);
        assert(u.next_page_id == v.next_page_id + m - 1);
        assert(u.next_page_id.wrapping_add(1) == v.next_page_id + m);
        assert(after_new_pages(v, m) == BpmView { next_page_id: u.next_page_id.wrapping_add(1), ..u });
    }
}

} // verus!
