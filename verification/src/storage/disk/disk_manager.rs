use std::collections::HashMap;

use vstd::prelude::*;

use crate::constants::{NUM_NEW_PAGES, PAGE_SIZE};

verus! {

broadcast use vstd::std_specs::hash::group_hash_axioms;

/// The number of bytes by which the database file grows at a time.
pub open spec fn growth() -> nat {
    (NUM_NEW_PAGES * PAGE_SIZE) as nat
}

/// Two page slots starting at these offsets do not overlap.
pub open spec fn slots_disjoint(a: usize, b: usize) -> bool {
    a + PAGE_SIZE <= b || b + PAGE_SIZE <= a
}

/// The bookkeeping of the database file: where each page lives, which
/// slots are free, how large the file is, and how much I/O was done.
pub struct DiskManagerView {
    pub pages: Map<usize, usize>,
    pub page_count: nat,
    pub file_size: nat,
    pub free_slots: Seq<usize>,
    pub num_writes: nat,
    pub num_flushes: nat,
    pub num_deletes: nat,
}

/// The outcome of asking for a page slot: a slot at this offset, or the
/// file must first be grown to this size.
#[derive(Clone, Copy, Debug, PartialEq, Eq, Structural)]
pub enum Allocation {
    Slot(usize),
    Grow(usize),
}

impl DiskManagerView {
    /// The invariant of the bookkeeping: every slot in use or free lies
    /// within the file, and no two slots overlap.
    pub open spec fn wf(self) -> bool {
        &&& self.pages.dom().finite()
        &&& self.page_count == self.pages.dom().len()
        &&& forall|p: usize| #[trigger] self.pages.contains_key(p) ==> self.pages[p] + PAGE_SIZE <= self.file_size
        &&& forall|i: int| 0 <= i < self.free_slots.len() ==> #[trigger] self.free_slots[i] + PAGE_SIZE <= self.file_size
        &&& forall|p: usize, q: usize| #![trigger self.pages[p], self.pages[q]]
            self.pages.contains_key(p) && self.pages.contains_key(q) && p != q ==> slots_disjoint(self.pages[p], self.pages[q])
        &&& forall|i: int, j: int| #![trigger self.free_slots[i], self.free_slots[j]]
            0 <= i < self.free_slots.len() && 0 <= j < self.free_slots.len() && i != j ==> slots_disjoint(
                self.free_slots[i],
                self.free_slots[j],
            )
        &&& forall|p: usize, i: int| #![trigger self.pages[p], self.free_slots[i]]
            self.pages.contains_key(p) && 0 <= i < self.free_slots.len() ==> slots_disjoint(
                self.pages[p],
                self.free_slots[i],
            )
    }

    /// The slots a growth adds after the first: `file_size + PAGE_SIZE`,
    /// `file_size + 2 * PAGE_SIZE`, ..., up to `NUM_NEW_PAGES - 1` of them.
    pub open spec fn growth_slots(self) -> Seq<usize> {
        Seq::new((NUM_NEW_PAGES - 1) as nat, |i: int| (self.file_size + (i + 1) * PAGE_SIZE) as usize)
    }

    /// The state after the file grew by `NUM_NEW_PAGES` pages: the first new
    /// slot is handed out, the others join the free slots.
    pub open spec fn after_growth(self) -> DiskManagerView {
        DiskManagerView {
            file_size: self.file_size + growth(),
            free_slots: self.free_slots + self.growth_slots(),
            ..self
        }
    }

    /// The state after page `p` was given the slot at `offset`.
    pub open spec fn with_page(self, p: usize, offset: usize) -> DiskManagerView {
        DiskManagerView { pages: self.pages.insert(p, offset), page_count: self.page_count + 1, ..self }
    }

    /// The slot at `o` is out of circulation: it lies within the file and
    /// overlaps no free slot and no page's slot (as a slot just handed out by
    /// `allocate_page` or `complete_growth` is).
    pub open spec fn slot_taken(self, o: usize) -> bool {
        &&& o + PAGE_SIZE <= self.file_size
        &&& forall|i: int| 0 <= i < self.free_slots.len() ==> slots_disjoint(#[trigger] self.free_slots[i], o)
        &&& forall|p: usize| #[trigger] self.pages.contains_key(p) ==> slots_disjoint(self.pages[p], o)
    }

    /// The file size and every slot are multiples of the page size.
    pub open spec fn aligned(self) -> bool {
        &&& self.file_size % (PAGE_SIZE as nat) == 0
        &&& forall|p: usize| #[trigger] self.pages.contains_key(p) ==> self.pages[p] % PAGE_SIZE == 0
        &&& forall|i: int| 0 <= i < self.free_slots.len() ==> #[trigger] self.free_slots[i] % PAGE_SIZE == 0
    }

    /// Asking for a slot needs the file's size to stay representable when it
    /// must grow.
    pub open spec fn can_allocate(self) -> bool {
        self.free_slots.len() == 0 ==> self.file_size + growth() <= usize::MAX
    }
}

/// Growing the file keeps the bookkeeping invariant, and the slot handed out
/// (the old end of the file) overlaps no slot in use or free.
proof fn lemma_growth_wf(v: DiskManagerView)
    requires
        v.wf(),
        v.file_size + growth() <= usize::MAX,
    ensures
        v.after_growth().wf(),
        forall|p: usize| #[trigger] v.after_growth().pages.contains_key(p) ==> slots_disjoint(
            v.after_growth().pages[p],
            v.file_size as usize,
        ),
        forall|i: int| 0 <= i < v.after_growth().free_slots.len() ==> slots_disjoint(
            #[trigger] v.after_growth().free_slots[i],
            v.file_size as usize,
        ),
        v.file_size as usize + PAGE_SIZE <= v.after_growth().file_size,
{
    let w = v.after_growth();
    let n = v.free_slots.len();
    let g = v.growth_slots();
    assert forall|i: int| 0 <= i < w.free_slots.len() implies #[trigger] w.free_slots[i] + PAGE_SIZE
        <= w.file_size && slots_disjoint(w.free_slots[i], v.file_size as usize) by {
        if i >= n {
            assert(w.free_slots[i] == g[i - n]);
        } else {
            assert(w.free_slots[i] == v.free_slots[i]);
        }
    }
    assert forall|i: int, j: int| #![trigger w.free_slots[i], w.free_slots[j]]
        0 <= i < w.free_slots.len() && 0 <= j < w.free_slots.len() && i != j implies slots_disjoint(
            w.free_slots[i],
            w.free_slots[j],
        ) by {
        if i < n && j < n {
            assert(w.free_slots[i] == v.free_slots[i] && w.free_slots[j] == v.free_slots[j]);
        } else if i < n {
            assert(w.free_slots[i] == v.free_slots[i] && w.free_slots[j] == g[j - n]);
        } else if j < n {
            assert(w.free_slots[i] == g[i - n] && w.free_slots[j] == v.free_slots[j]);
        } else {
            assert(w.free_slots[i] == g[i - n] && w.free_slots[j] == g[j - n]);
        }
    }
    assert forall|p: usize, i: int| #![trigger w.pages[p], w.free_slots[i]]
        w.pages.contains_key(p) && 0 <= i < w.free_slots.len() implies slots_disjoint(
            w.pages[p],
            w.free_slots[i],
        ) by {
        if i < n {
            assert(w.free_slots[i] == v.free_slots[i]);
        } else {
            assert(w.free_slots[i] == g[i - n]);
        }
    }
}

/// Giving a slot that overlaps no other to a new page keeps the invariant.
proof fn lemma_place_wf(v: DiskManagerView, p: usize, offset: usize)
    requires
        v.wf(),
        !v.pages.contains_key(p),
        offset + PAGE_SIZE <= v.file_size,
        forall|q: usize| #[trigger] v.pages.contains_key(q) ==> slots_disjoint(v.pages[q], offset),
        forall|i: int| 0 <= i < v.free_slots.len() ==> slots_disjoint(#[trigger] v.free_slots[i], offset),
    ensures
        v.with_page(p, offset).wf(),
{
    let w = v.with_page(p, offset);
    assert(w.pages.dom() =~= v.pages.dom().insert(p));
}

/// Taking the last free slot off the list keeps the invariant, and that slot
/// overlaps no slot left in use or free.
proof fn lemma_pop_slot_wf(v: DiskManagerView)
    requires
        v.wf(),
        v.free_slots.len() > 0,
    ensures
        (DiskManagerView { free_slots: v.free_slots.drop_last(), ..v }).wf(),
        forall|q: usize| #[trigger] v.pages.contains_key(q) ==> slots_disjoint(v.pages[q], v.free_slots.last()),
        forall|i: int| 0 <= i < v.free_slots.len() - 1 ==> slots_disjoint(
            #[trigger] v.free_slots.drop_last()[i],
            v.free_slots.last(),
        ),
        v.free_slots.last() + PAGE_SIZE <= v.file_size,
{
    let n = v.free_slots.len() - 1;
    let w = DiskManagerView { free_slots: v.free_slots.drop_last(), ..v };
    assert(v.free_slots[n] == v.free_slots.last());
    assert forall|i: int| 0 <= i < n implies slots_disjoint(#[trigger] v.free_slots.drop_last()[i], v.free_slots.last()) by {
        assert(v.free_slots.drop_last()[i] == v.free_slots[i]);
    }
    assert forall|q: usize| #[trigger] v.pages.contains_key(q) implies slots_disjoint(v.pages[q], v.free_slots.last()) by {
        assert(slots_disjoint(v.pages[q], v.free_slots[n]));
    }
    assert forall|i: int, j: int| #![trigger w.free_slots[i], w.free_slots[j]]
        0 <= i < w.free_slots.len() && 0 <= j < w.free_slots.len() && i != j implies slots_disjoint(
            w.free_slots[i],
            w.free_slots[j],
        ) by {
        assert(w.free_slots[i] == v.free_slots[i] && w.free_slots[j] == v.free_slots[j]);
    }
    assert forall|q: usize, i: int| #![trigger w.pages[q], w.free_slots[i]]
        w.pages.contains_key(q) && 0 <= i < w.free_slots.len() implies slots_disjoint(
            w.pages[q],
            w.free_slots[i],
        ) by {
        assert(w.free_slots[i] == v.free_slots[i]);
    }
}

/// The bookkeeping half of the disk manager; the file itself is handled by
/// the caller, which reports back through these methods.
pub struct DiskManager {
    num_flushes: usize,
    num_writes: usize,
    num_deletes: usize,
    pages: HashMap<usize, usize>,
    page_count: usize,
    file_size: usize,
    free_slots: Vec<usize>,
}

impl View for DiskManager {
    type V = DiskManagerView;

    closed spec fn view(&self) -> DiskManagerView {
        DiskManagerView {
            pages: self.pages@,
            page_count: self.page_count as nat,
            file_size: self.file_size as nat,
            free_slots: self.free_slots@,
            num_writes: self.num_writes as nat,
            num_flushes: self.num_flushes as nat,
            num_deletes: self.num_deletes as nat,
        }
    }
}

impl DiskManager {
    /// Bookkeeping for a database file of `file_size` bytes: no page is
    /// placed yet, no slot is free, no I/O was done.
    pub fn new(file_size: usize) -> (dm: Self)
        ensures
            dm@ == (DiskManagerView {
                pages: Map::empty(),
                page_count: 0,
                file_size: file_size as nat,
                free_slots: Seq::empty(),
                num_writes: 0,
                num_flushes: 0,
                num_deletes: 0,
            }),
            dm@.wf(),
    {
        let dm = Self {
            num_flushes: 0,
            num_writes: 0,
            num_deletes: 0,
            pages: HashMap::new(),
            page_count: 0,
            file_size,
            free_slots: Vec::new(),
        };
        assert(dm@.pages =~= Map::empty());
        assert(dm@.free_slots =~= Seq::empty());
        dm
    }

    /// Whether a request for a slot for `page_id` meets its precondition.
    pub fn can_place(&self, page_id: usize) -> (r: bool)
        requires
            self@.wf(),
        ensures
            r == (!self@.pages.contains_key(page_id) ==> self@.can_allocate() && (self@.free_slots.len() > 0
                ==> self@.page_count < usize::MAX)),
    {
        if self.pages.contains_key(&page_id) {
            return true;
        }
        if self.free_slots.len() == 0 {
            self.file_size <= usize::MAX - NUM_NEW_PAGES * PAGE_SIZE
        } else {
            self.page_count < usize::MAX
        }
    }

    /// Whether a request for a slot meets its precondition (see `can_allocate`).
    pub fn can_allocate(&self) -> (r: bool)
        ensures
            r == self@.can_allocate(),
    {
        self.free_slots.len() > 0 || self.file_size <= usize::MAX - NUM_NEW_PAGES * PAGE_SIZE
    }

    /// Takes a slot: the last free slot if there is one; otherwise tells the
    /// caller the size to grow the file to (see `complete_growth`).
    pub fn allocate_page(&mut self) -> (r: Allocation)
        requires
            old(self)@.wf(),
            old(self)@.can_allocate(),
        ensures
            final(self)@.wf(),
            old(self)@.free_slots.len() > 0 ==> r == Allocation::Slot(old(self)@.free_slots.last())
                && final(self)@ == (DiskManagerView { free_slots: old(self)@.free_slots.drop_last(), ..old(self)@ }),
            old(self)@.free_slots.len() == 0 ==> r == Allocation::Grow((old(self)@.file_size + growth()) as usize)
                && final(self)@ == old(self)@,
    {
        proof {
            if self@.free_slots.len() > 0 {
                lemma_pop_slot_wf(self@);
            }
        }
        match self.free_slots.pop() {
            Some(offset) => Allocation::Slot(offset),
            None => Allocation::Grow(self.file_size + NUM_NEW_PAGES * PAGE_SIZE),
        }
    }

    /// Records that the file grew by `NUM_NEW_PAGES` pages: hands out the
    /// slot at the old end of the file and frees the slots after it.
    pub fn complete_growth(&mut self) -> (offset: usize)
        requires
            old(self)@.wf(),
            old(self)@.file_size + growth() <= usize::MAX,
        ensures
            final(self)@.wf(),
            offset == old(self)@.file_size,
            final(self)@ == old(self)@.after_growth(),
    {
        let ghost pre = self@;
        let orig_file_size = self.file_size;
        let new_file_size = self.file_size + NUM_NEW_PAGES * PAGE_SIZE;
        let mut curr_file_size = orig_file_size;
        let mut i: usize = 1;
        while i < NUM_NEW_PAGES
            invariant
                1 <= i <= NUM_NEW_PAGES,
                orig_file_size == pre.file_size,
                new_file_size == pre.file_size + growth(),
                curr_file_size == orig_file_size + (i - 1) * PAGE_SIZE,
                self@ == (DiskManagerView {
                    free_slots: pre.free_slots + pre.growth_slots().take(i - 1),
                    ..pre
                }),
            decreases NUM_NEW_PAGES - i,
        {
            curr_file_size = curr_file_size + PAGE_SIZE;
            self.free_slots.push(curr_file_size);
            i = i + 1;
            assert(self@.free_slots =~= pre.free_slots + pre.growth_slots().take(i - 1));
        }
        self.file_size = new_file_size;
        proof {
            assert(pre.growth_slots().take((NUM_NEW_PAGES - 1) as int) =~= pre.growth_slots());
            lemma_growth_wf(pre);
        }
        orig_file_size
    }

    /// The slot of `page_id`: its slot if it has one; else a free slot,
    /// which it is given; else the size to grow the file to first (see
    /// `complete_growth_for_page`).
    pub fn get_offset(&mut self, page_id: usize) -> (r: Allocation)
        requires
            old(self)@.wf(),
            !old(self)@.pages.contains_key(page_id) ==> old(self)@.can_allocate(),
            !old(self)@.pages.contains_key(page_id) && old(self)@.free_slots.len() > 0 ==> old(self)@.page_count
                < usize::MAX,
        ensures
            final(self)@.wf(),
            old(self)@.pages.contains_key(page_id) ==> r == Allocation::Slot(old(self)@.pages[page_id])
                && final(self)@ == old(self)@,
            !old(self)@.pages.contains_key(page_id) && old(self)@.free_slots.len() > 0 ==> r
                == Allocation::Slot(old(self)@.free_slots.last()) && final(self)@ == (DiskManagerView {
                free_slots: old(self)@.free_slots.drop_last(),
                ..old(self)@
            }).with_page(page_id, old(self)@.free_slots.last()),
            !old(self)@.pages.contains_key(page_id) && old(self)@.free_slots.len() == 0 ==> r
                == Allocation::Grow((old(self)@.file_size + growth()) as usize) && final(self)@ == old(self)@,
    {
        match self.pages.get(&page_id) {
            Some(offset) => {
                return Allocation::Slot(*offset);
            },
            None => {},
        }
        let ghost pre = self@;
        proof {
            if pre.free_slots.len() > 0 {
                lemma_pop_slot_wf(pre);
            }
        }
        match self.allocate_page() {
            Allocation::Slot(offset) => {
                proof {
                    lemma_place_wf(self@, page_id, offset);
                }
                self.pages.insert(page_id, offset);
                self.page_count = self.page_count + 1;
                Allocation::Slot(offset)
            },
            Allocation::Grow(new_size) => Allocation::Grow(new_size),
        }
    }

    /// Records that the file grew for `page_id` (see `get_offset`): the page
    /// gets the slot at the old end of the file, the slots after it are freed.
    pub fn complete_growth_for_page(&mut self, page_id: usize) -> (offset: usize)
        requires
            old(self)@.wf(),
            !old(self)@.pages.contains_key(page_id),
            old(self)@.file_size + growth() <= usize::MAX,
            old(self)@.page_count < usize::MAX,
        ensures
            final(self)@.wf(),
            offset == old(self)@.file_size,
            final(self)@ == old(self)@.after_growth().with_page(page_id, offset),
    {
        proof {
            lemma_growth_wf(self@);
        }
        let offset = self.complete_growth();
        proof {
            lemma_place_wf(self@, page_id, offset);
        }
        self.pages.insert(page_id, offset);
        self.page_count = self.page_count + 1;
        offset
    }

    /// Whether `len` bytes fit in one page; a longer write is refused.
    pub fn write_fits(len: usize) -> (r: bool)
        ensures
            r == (len <= PAGE_SIZE),
    {
        len <= PAGE_SIZE
    }

    /// Counts one page write.
    pub fn record_write(&mut self)
        requires
            old(self)@.num_writes < usize::MAX,
        ensures
            final(self)@ == (DiskManagerView { num_writes: old(self)@.num_writes + 1, ..old(self)@ }),
    {
        self.num_writes = self.num_writes + 1;
    }

    /// Counts one flush of the file.
    pub fn record_flush(&mut self)
        requires
            old(self)@.num_flushes < usize::MAX,
        ensures
            final(self)@ == (DiskManagerView { num_flushes: old(self)@.num_flushes + 1, ..old(self)@ }),
    {
        self.num_flushes = self.num_flushes + 1;
    }

    /// Fills a page buffer with zeros, as a read past the end of the file
    /// yields.
    pub fn zero_fill(page_data: &mut [u8])
        ensures
            final(page_data)@.len() == old(page_data)@.len(),
            forall|i: int| 0 <= i < final(page_data)@.len() ==> final(page_data)@[i] == 0u8,
    {
        let mut i: usize = 0;
        while i < page_data.len()
            invariant
                i <= page_data@.len(),
                page_data@.len() == old(page_data)@.len(),
                forall|j: int| 0 <= j < i ==> page_data@[j] == 0u8,
            decreases page_data@.len() - i,
        {
            page_data[i] = 0;
            i = i + 1;
        }
    }

    /// The number of page writes done.
    pub fn num_writes(&self) -> (n: usize)
        ensures
            n == self@.num_writes,
    {
        self.num_writes
    }

    /// The number of flushes done.
    pub fn num_flushes(&self) -> (n: usize)
        ensures
            n == self@.num_flushes,
    {
        self.num_flushes
    }

    /// The number of page deletions done.
    pub fn num_deletes(&self) -> (n: usize)
        ensures
            n == self@.num_deletes,
    {
        self.num_deletes
    }

    /// The number of pages given a slot.
    pub fn page_count(&self) -> (n: usize)
        ensures
            n == self@.page_count,
    {
        self.page_count
    }

    /// The size of the database file, as far as the bookkeeping knows.
    pub fn file_size(&self) -> (n: usize)
        ensures
            n == self@.file_size,
    {
        self.file_size
    }

    /// Whether `page_id` has a slot.
    pub fn contains_page(&self, page_id: usize) -> (r: bool)
        ensures
            r == self@.pages.contains_key(page_id),
    {
        self.pages.contains_key(&page_id)
    }
}

// ---------------------------------------------------------------------
// Laws of the bookkeeping
// ---------------------------------------------------------------------

/// Two different pages never share or overlap a slot, and every page's slot
/// lies within the file.
pub proof fn lemma_page_slots_disjoint(v: DiskManagerView, p: usize, q: usize)
    requires
        v.wf(),
        v.pages.contains_key(p),
        v.pages.contains_key(q),
        p != q,
    ensures
        slots_disjoint(v.pages[p], v.pages[q]),
        v.pages[p] + PAGE_SIZE <= v.file_size,
{
}

/// A page keeps its slot: placing another page, or growing the file, does
/// not move a page that already has one.
pub proof fn lemma_slots_stable(v: DiskManagerView, p: usize, offset: usize, q: usize)
    requires
        v.pages.contains_key(q),
        !v.pages.contains_key(p),
    ensures
        v.with_page(p, offset).pages[q] == v.pages[q],
        v.after_growth().pages[q] == v.pages[q],
        v.after_growth().with_page(p, offset).pages[q] == v.pages[q],
{
}

/// Growing the file makes it exactly `NUM_NEW_PAGES` pages longer and frees
/// all new slots but the first, which is handed out.
pub proof fn lemma_growth_adds_pages(v: DiskManagerView)
    requires
        v.file_size + growth() <= usize::MAX,
    ensures
        v.after_growth().file_size == v.file_size + NUM_NEW_PAGES * PAGE_SIZE,
        v.after_growth().free_slots.len() == v.free_slots.len() + NUM_NEW_PAGES - 1,
        forall|i: int| 0 <= i < NUM_NEW_PAGES - 1 ==> #[trigger] v.after_growth().free_slots[v.free_slots.len() + i]
            == v.file_size + (i + 1) * PAGE_SIZE,
{
    assert forall|i: int| 0 <= i < NUM_NEW_PAGES - 1 implies #[trigger] v.after_growth().free_slots[v.free_slots.len() + i]
        == v.file_size + (i + 1) * PAGE_SIZE by {
        assert(v.after_growth().free_slots[v.free_slots.len() + i] == v.growth_slots()[i]);
        assert(v.file_size + (i + 1) * PAGE_SIZE <= v.file_size + NUM_NEW_PAGES * PAGE_SIZE);
    }
}

/// Allocations never hand out an overlapping slot twice: a slot taken
/// earlier stays taken, and the slot handed out next (the last free slot, or
/// the old end of the file after growth) overlaps it and becomes taken too.
pub proof fn lemma_allocation_fresh(v: DiskManagerView, o: usize)
    requires
        v.wf(),
        v.can_allocate(),
        v.slot_taken(o),
    ensures
        v.free_slots.len() > 0 ==> {
            let w = DiskManagerView { free_slots: v.free_slots.drop_last(), ..v };
            &&& slots_disjoint(v.free_slots.last(), o)
            &&& w.slot_taken(o)
            &&& w.slot_taken(v.free_slots.last())
        },
        v.free_slots.len() == 0 ==> {
            let w = v.after_growth();
            &&& slots_disjoint(v.file_size as usize, o)
            &&& w.slot_taken(o)
            &&& w.slot_taken(v.file_size as usize)
        },
{
    if v.free_slots.len() > 0 {
        let n = v.free_slots.len() - 1;
        let w = DiskManagerView { free_slots: v.free_slots.drop_last(), ..v };
        lemma_pop_slot_wf(v);
        assert(v.free_slots[n] == v.free_slots.last());
        assert forall|i: int| 0 <= i < w.free_slots.len() implies slots_disjoint(#[trigger] w.free_slots[i], o) by {
            assert(w.free_slots[i] == v.free_slots[i]);
        }
    } else {
        lemma_growth_wf(v);
        let w = v.after_growth();
        let g = v.growth_slots();
        assert forall|i: int| 0 <= i < w.free_slots.len() implies slots_disjoint(#[trigger] w.free_slots[i], o) by {
            assert(w.free_slots[i] == g[i]);
        }
    }
}

/// Allocations keep slots aligned: in a file whose size and slots are
/// multiples of the page size, every slot handed out is one too, and so
/// are the file size and slots afterwards.
pub proof fn lemma_allocation_aligned(v: DiskManagerView)
    requires
        v.aligned(),
        v.can_allocate(),
    ensures
        v.free_slots.len() > 0 ==> v.free_slots.last() % PAGE_SIZE == 0
            && (DiskManagerView { free_slots: v.free_slots.drop_last(), ..v }).aligned(),
        v.free_slots.len() == 0 ==> (v.file_size as usize) % PAGE_SIZE == 0 && v.after_growth().aligned(),
        forall|p: usize, o: usize| o % PAGE_SIZE == 0 ==> #[trigger] v.with_page(p, o).aligned(),
{
    if v.free_slots.len() > 0 {
        let n = v.free_slots.len() - 1;
        assert(v.free_slots[n] == v.free_slots.last());
        let w = DiskManagerView { free_slots: v.free_slots.drop_last(), ..v };
        assert forall|i: int| 0 <= i < w.free_slots.len() implies #[trigger] w.free_slots[i] % PAGE_SIZE == 0 by {
            assert(w.free_slots[i] == v.free_slots[i]);
        }
    } else {
        let w = v.after_growth();
        let g = v.growth_slots();
        assert forall|i: int| 0 <= i < w.free_slots.len() implies #[trigger] w.free_slots[i] % PAGE_SIZE == 0 by {
            assert(w.free_slots[i] == g[i]);
            assert((v.file_size + (i + 1) * PAGE_SIZE) % (PAGE_SIZE as int) == 0) by (nonlinear_arith)
                requires
                    v.file_size % (PAGE_SIZE as nat) == 0,
                    i >= 0,
            ;
        }
        assert((v.file_size + NUM_NEW_PAGES * PAGE_SIZE) % (PAGE_SIZE as int) == 0) by (nonlinear_arith)
            requires
                v.file_size % (PAGE_SIZE as nat) == 0,
        ;
    }
}

/// Placing page `p` at `offset` records exactly that: the page maps to the
/// offset, one more page is counted, and the other pages, the free slots and
/// the file size are unchanged. Growing the file adds `NUM_NEW_PAGES` pages'
/// worth of bytes and moves no page and no page count.
pub proof fn lemma_placement_effect(v: DiskManagerView, p: usize, offset: usize, q: usize)
    ensures
        v.with_page(p, offset).pages.contains_key(p),
        v.with_page(p, offset).pages[p] == offset,
        v.with_page(p, offset).page_count == v.page_count + 1,
        v.with_page(p, offset).free_slots == v.free_slots,
        v.with_page(p, offset).file_size == v.file_size,
        q != p ==> (v.with_page(p, offset).pages.contains_key(q) == v.pages.contains_key(q)),
        q != p && v.pages.contains_key(q) ==> v.with_page(p, offset).pages[q] == v.pages[q],
        growth() == NUM_NEW_PAGES * PAGE_SIZE,
        v.after_growth().pages == v.pages,
        v.after_growth().page_count == v.page_count,
        v.after_growth().free_slots.subrange(0, v.free_slots.len() as int) == v.free_slots,
        v.after_growth().num_writes == v.num_writes && v.after_growth().num_flushes == v.num_flushes,
{
    assert(v.after_growth().free_slots.subrange(0, v.free_slots.len() as int) =~= v.free_slots);
}

} // verus!
