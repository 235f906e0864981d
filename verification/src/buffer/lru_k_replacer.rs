use std::collections::HashMap;
use std::collections::VecDeque;

use vstd::prelude::*;

use super::AccessType;

verus! {

broadcast use vstd::std_specs::hash::group_hash_axioms;

/// Frames are named by their index in the buffer pool.
pub type FrameId = usize;

// ---------------------------------------------------------------------
// The abstract model of the replacer
// ---------------------------------------------------------------------

/// What the replacer knows about one frame: the timestamps of its most
/// recent accesses, oldest first, and whether it may be evicted.
pub struct FrameEntryView {
    pub history: Seq<usize>,
    pub evictable: bool,
}

/// The abstract state of an LRU-K replacer.
pub struct ReplacerView {
    /// The number of frames the replacer tracks (frame ids are below it).
    pub capacity: nat,
    /// The `K` of LRU-K.
    pub k: nat,
    /// The frames the replacer tracks, with their entries.
    pub entries: Map<FrameId, FrameEntryView>,
    /// The replacer's counter of evictable frames.
    pub size: nat,
    /// The logical clock; the next access is stamped with it.
    pub timestamp: nat,
}

/// The most timestamps a history holds: `k`, or one when `k` is zero.
pub open spec fn history_cap(k: nat) -> nat {
    if k == 0 {
        1
    } else {
        k
    }
}

/// A well-formed history: bounded by the cap, strictly increasing, stamped
/// before `now`, and empty only when `k` is zero.
pub open spec fn history_ok(h: Seq<usize>, k: nat, now: nat) -> bool {
    &&& h.len() <= history_cap(k)
    &&& (h.len() == 0 ==> k == 0)
    &&& forall|i: int, j: int| 0 <= i < j < h.len() ==> h[i] < h[j]
    &&& forall|i: int| 0 <= i < h.len() ==> h[i] < now
}

/// The history after one access stamped `ts`. A scan only records itself
/// while the history holds fewer than `k` timestamps; a lookup or a write
/// always records itself, dropping the oldest timestamp once `k` are held.
pub open spec fn history_after(h: Seq<usize>, k: nat, access: AccessType, ts: usize) -> Seq<usize> {
    match access {
        AccessType::Scan => if h.len() < k {
            h.push(ts)
        } else {
            h
        },
        _ => if h.len() >= k && h.len() > 0 {
            h.subrange(1, h.len() as int).push(ts)
        } else {
            h.push(ts)
        },
    }
}

/// Whether an access stamps a timestamp (and so advances the clock).
pub open spec fn access_ticks(h: Seq<usize>, k: nat, access: AccessType) -> bool {
    match access {
        AccessType::Scan => h.len() < k,
        _ => true,
    }
}

/// `a` comes strictly before `b` in eviction order: frames with fewer than
/// `k` recorded accesses (infinite backward k-distance) come first; within
/// each class the frame with the older first recorded timestamp comes first,
/// and a frame with no timestamp at all comes before any frame with one.
pub open spec fn evicts_before(a: FrameEntryView, b: FrameEntryView, k: nat) -> bool {
    let a_inf = a.history.len() < k;
    let b_inf = b.history.len() < k;
    if a_inf != b_inf {
        a_inf
    } else if a.history.len() == 0 {
        b.history.len() > 0
    } else {
        b.history.len() > 0 && a.history[0] < b.history[0]
    }
}

impl FrameEntryView {
    /// The entry that a frame gets on its first access.
    pub open spec fn fresh() -> FrameEntryView {
        FrameEntryView { history: Seq::empty(), evictable: false }
    }
}

impl ReplacerView {
    /// The frames currently marked evictable.
    pub open spec fn evictable_frames(self) -> Set<FrameId> {
        self.entries.dom().filter(|f: FrameId| self.entries[f].evictable)
    }

    /// The number of frames currently marked evictable.
    pub open spec fn num_evictable(self) -> nat {
        self.evictable_frames().len()
    }

    /// The entry of `f`, or a fresh entry if `f` is not known.
    pub open spec fn entry_or_fresh(self, f: FrameId) -> FrameEntryView {
        if self.entries.contains_key(f) {
            self.entries[f]
        } else {
            FrameEntryView::fresh()
        }
    }

    /// The invariant every reachable replacer state keeps.
    pub open spec fn wf(self) -> bool {
        &&& self.entries.dom().finite()
        &&& forall|f: FrameId| #[trigger] self.entries.contains_key(f) ==> f < self.capacity
        &&& forall|f: FrameId| #[trigger]
            self.entries.contains_key(f) ==> history_ok(self.entries[f].history, self.k, self.timestamp)
        &&& forall|f: FrameId, g: FrameId, i: int, j: int|
            #![trigger self.entries[f].history[i], self.entries[g].history[j]]
            self.entries.contains_key(f) && self.entries.contains_key(g) && f != g && 0 <= i
                < self.entries[f].history.len() && 0 <= j < self.entries[g].history.len()
                ==> self.entries[f].history[i] != self.entries[g].history[j]
        &&& self.capacity <= usize::MAX
        &&& self.size == self.num_evictable()
    }

    /// Whether `f` is a frame that an eviction may choose: known, evictable,
    /// and no evictable frame comes strictly before it.
    pub open spec fn is_victim(self, f: FrameId) -> bool {
        &&& self.entries.contains_key(f)
        &&& self.entries[f].evictable
        &&& forall|g: FrameId|
            #![trigger self.entries[g]]
            self.entries.contains_key(g) && self.entries[g].evictable ==> !evicts_before(
                self.entries[g],
                self.entries[f],
                self.k,
            )
    }

    /// Whether recording `access` on `f` advances the clock.
    pub open spec fn access_ticks(self, f: FrameId, access: AccessType) -> bool {
        access_ticks(self.entry_or_fresh(f).history, self.k, access)
    }

    /// The state after recording `access` on frame `f`.
    pub open spec fn after_access(self, f: FrameId, access: AccessType) -> ReplacerView {
        let e = self.entry_or_fresh(f);
        let ts = self.timestamp as usize;
        ReplacerView {
            entries: self.entries.insert(
                f,
                FrameEntryView { history: history_after(e.history, self.k, access, ts), ..e },
            ),
            timestamp: if self.access_ticks(f, access) {
                self.timestamp + 1
            } else {
                self.timestamp
            },
            ..self
        }
    }

    /// The state after marking a known frame `f` evictable or not; an
    /// untracked frame leaves the state unchanged.
    pub open spec fn after_set_evictable(self, f: FrameId, evictable: bool) -> ReplacerView {
        if self.entries.contains_key(f) {
            let e = self.entries[f];
            ReplacerView {
                entries: self.entries.insert(f, FrameEntryView { evictable, ..e }),
                size: if evictable && !e.evictable {
                    self.size + 1
                } else if !evictable && e.evictable {
                    (self.size - 1) as nat
                } else {
                    self.size
                },
                ..self
            }
        } else {
            self
        }
    }

    /// The state after an eviction of `f`: `f` is no longer known and the
    /// counter of evictable frames goes down by one.
    pub open spec fn after_evict(self, f: FrameId) -> ReplacerView {
        ReplacerView { entries: self.entries.remove(f), size: (self.size - 1) as nat, ..self }
    }

    /// The state after removing frame `f`: a known frame is dropped and the
    /// counter goes down by one; an untracked frame leaves the state unchanged.
    pub open spec fn after_remove(self, f: FrameId) -> ReplacerView {
        if self.entries.contains_key(f) {
            ReplacerView { entries: self.entries.remove(f), size: (self.size - 1) as nat, ..self }
        } else {
            self
        }
    }
}

/// Recording an access keeps the replacer invariant.
pub proof fn lemma_access_keeps_wf(v: ReplacerView, f: FrameId, access: AccessType)
    requires
        v.wf(),
        f < v.capacity,
        v.access_ticks(f, access) ==> v.timestamp < usize::MAX,
    ensures
        v.after_access(f, access).wf(),
{
    let w = v.after_access(f, access);
    let h0 = v.entry_or_fresh(f).history;
    let h1 = w.entries[f].history;
    let ts = v.timestamp as usize;
    // every timestamp of the new history is an old timestamp of `f`, or `ts`
    assert forall|i: int| 0 <= i < h1.len() implies (h1[i] == ts || exists|j: int|
        0 <= j < h0.len() && h0[j] == #[trigger] h1[i]) by {
        if h1[i] != ts {
            if access != AccessType::Scan && h0.len() >= v.k && h0.len() > 0 {
                assert(h0[i + 1] == h1[i]);
            } else {
                assert(h0[i] == h1[i]);
            }
        }
    }
    assert(w.evictable_frames() =~= v.evictable_frames());
    assert forall|g: FrameId, h: FrameId, i: int, j: int|
        w.entries.contains_key(g) && w.entries.contains_key(h) && g != h && 0 <= i
            < w.entries[g].history.len() && 0 <= j < w.entries[h].history.len()
            implies #[trigger] w.entries[g].history[i] != #[trigger] w.entries[h].history[j] by {
        if g == f {
            if h1[i] != ts {
                let i0 = choose|i0: int| 0 <= i0 < h0.len() && h0[i0] == h1[i];
                assert(v.entries.contains_key(f));
                assert(v.entries[f].history[i0] != v.entries[h].history[j]);
            }
        } else if h == f {
            if h1[j] != ts {
                let j0 = choose|j0: int| 0 <= j0 < h0.len() && h0[j0] == h1[j];
                assert(v.entries.contains_key(f));
                assert(v.entries[g].history[i] != v.entries[f].history[j0]);
            }
        }
    }
    assert forall|g: FrameId| #[trigger] w.entries.contains_key(g) implies history_ok(
        w.entries[g].history,
        w.k,
        w.timestamp,
    ) by {
        if g == f {
            assert forall|i: int, j: int| 0 <= i < j < h1.len() implies h1[i] < h1[j] by {
                if access != AccessType::Scan && h0.len() >= v.k && h0.len() > 0 {
                    if j < h1.len() - 1 {
                        assert(h1[i] == h0[i + 1] && h1[j] == h0[j + 1]);
                    } else {
                        assert(h1[i] == h0[i + 1]);
                    }
                } else if j < h0.len() {
                    assert(h1[i] == h0[i] && h1[j] == h0[j]);
                } else {
                    assert(h1[i] == h0[i]);
                }
            }
        }
    }
}

/// The evictable frames form a finite set no larger than the known ones.
pub proof fn lemma_evictable_finite(v: ReplacerView)
    requires
        v.entries.dom().finite(),
    ensures
        v.evictable_frames().finite(),
        v.evictable_frames().len() <= v.entries.dom().len(),
{
    vstd::set_lib::lemma_len_subset(v.evictable_frames(), v.entries.dom());
}

/// A replacer tracks no more frames than its range holds.
pub proof fn lemma_tracked_bounded(v: ReplacerView)
    requires
        v.entries.dom().finite(),
        v.capacity <= usize::MAX,
        forall|f: FrameId| #[trigger] v.entries.contains_key(f) ==> f < v.capacity,
    ensures
        v.entries.dom().len() <= v.capacity,
{
    let range = Set::<usize>::range(0, v.capacity as usize);
    vstd::set_lib::range_set_properties::<usize>(0, v.capacity as usize);
    assert(v.entries.dom().subset_of(range));
    vstd::set_lib::lemma_len_subset(v.entries.dom(), range);
}

/// Marking a frame changes the set of evictable frames by at most that frame.
pub proof fn lemma_set_evictable_count(v: ReplacerView, f: FrameId, evictable: bool)
    requires
        v.wf(),
    ensures
        v.after_set_evictable(f, evictable).wf(),
        v.entries.contains_key(f) && !evictable && v.entries[f].evictable ==> v.size >= 1,
        v.entries.contains_key(f) && evictable && !v.entries[f].evictable ==> v.size < usize::MAX,
{
    let w = v.after_set_evictable(f, evictable);
    lemma_evictable_finite(v);
    lemma_tracked_bounded(v);
    if v.entries.contains_key(f) {
        if evictable && !v.entries[f].evictable {
            assert(!v.evictable_frames().contains(f));
            assert(v.evictable_frames().insert(f).subset_of(v.entries.dom()));
            vstd::set_lib::lemma_len_subset(v.evictable_frames().insert(f), v.entries.dom());
        }
        if evictable {
            assert(w.evictable_frames() =~= v.evictable_frames().insert(f));
        } else {
            assert(w.evictable_frames() =~= v.evictable_frames().remove(f));
        }
        assert forall|g: FrameId, h: FrameId, i: int, j: int|
            w.entries.contains_key(g) && w.entries.contains_key(h) && g != h && 0 <= i
                < w.entries[g].history.len() && 0 <= j < w.entries[h].history.len()
                implies #[trigger] w.entries[g].history[i] != #[trigger] w.entries[h].history[j] by {
            assert(v.entries[g].history[i] != v.entries[h].history[j]);
        }
        assert forall|g: FrameId| #[trigger] w.entries.contains_key(g) implies history_ok(
            w.entries[g].history,
            w.k,
            w.timestamp,
        ) by {
            assert(v.entries.contains_key(g));
        }
    }
}

/// Removing a known evictable frame takes it out of the evictable set.
pub proof fn lemma_remove_count(v: ReplacerView, f: FrameId)
    requires
        v.wf(),
        v.entries.contains_key(f),
        v.entries[f].evictable,
    ensures
        v.size >= 1,
        v.after_remove(f).wf(),
        v.after_remove(f).num_evictable() == v.num_evictable() - 1,
{
    let w = v.after_remove(f);
    lemma_evictable_finite(v);
    assert(w.evictable_frames() =~= v.evictable_frames().remove(f));
    assert forall|g: FrameId, h: FrameId, i: int, j: int|
        w.entries.contains_key(g) && w.entries.contains_key(h) && g != h && 0 <= i
            < w.entries[g].history.len() && 0 <= j < w.entries[h].history.len()
            implies #[trigger] w.entries[g].history[i] != #[trigger] w.entries[h].history[j] by {
        assert(v.entries[g].history[i] != v.entries[h].history[j]);
    }
}

/// Evicting an evictable frame takes it out of the evictable set and keeps
/// the invariant, the counter going down with it.
pub proof fn lemma_evict_count(v: ReplacerView, f: FrameId)
    requires
        v.wf(),
        v.entries.contains_key(f),
        v.entries[f].evictable,
    ensures
        v.after_evict(f).wf(),
        v.after_evict(f).num_evictable() == v.num_evictable() - 1,
{
    let w = v.after_evict(f);
    lemma_evictable_finite(v);
    assert(w.evictable_frames() =~= v.evictable_frames().remove(f));
    assert forall|g: FrameId, h: FrameId, i: int, j: int|
        w.entries.contains_key(g) && w.entries.contains_key(h) && g != h && 0 <= i
            < w.entries[g].history.len() && 0 <= j < w.entries[h].history.len()
            implies #[trigger] w.entries[g].history[i] != #[trigger] w.entries[h].history[j] by {
        assert(v.entries[g].history[i] != v.entries[h].history[j]);
    }
}

// ---------------------------------------------------------------------
// Laws of the replacer
// ---------------------------------------------------------------------

/// With `k >= 1` the eviction choice is determined by the state: at most one
/// frame is a victim, because no two known frames share a timestamp.
pub proof fn lemma_victim_unique(v: ReplacerView, a: FrameId, b: FrameId)
    requires
        v.wf(),
        v.k >= 1,
        v.is_victim(a),
        v.is_victim(b),
    ensures
        a == b,
{
    if a != b {
        let ha = v.entries[a].history;
        let hb = v.entries[b].history;
        assert(history_ok(ha, v.k, v.timestamp));
        assert(history_ok(hb, v.k, v.timestamp));
        assert(v.entries[a].history[0] != v.entries[b].history[0]);
        assert(!evicts_before(v.entries[a], v.entries[b], v.k));
        assert(!evicts_before(v.entries[b], v.entries[a], v.k));
    }
}

/// Scan resistance: a scan of a frame whose history already holds `k`
/// timestamps changes nothing, not even the clock.
pub proof fn lemma_scan_resistance(v: ReplacerView, f: FrameId)
    requires
        v.entries.contains_key(f),
        v.entries[f].history.len() >= v.k,
    ensures
        v.after_access(f, AccessType::Scan) == v,
{
    assert(v.after_access(f, AccessType::Scan).entries =~= v.entries);
}

/// A lookup or write makes the frame the most recently used: its newest
/// timestamp is the old clock, later than every timestamp of every frame,
/// and the clock advances by one.
pub proof fn lemma_access_most_recent(v: ReplacerView, f: FrameId, access: AccessType, g: FrameId, i: int)
    requires
        v.wf(),
        access != AccessType::Scan,
        v.timestamp < usize::MAX,
        v.entries.contains_key(g),
        0 <= i < v.entries[g].history.len(),
    ensures
        ({
            let w = v.after_access(f, access);
            let h = w.entries[f].history;
            &&& h.len() >= 1
            &&& h[h.len() - 1] == v.timestamp
            &&& v.entries[g].history[i] < h[h.len() - 1]
            &&& w.timestamp == v.timestamp + 1
        }),
{
    assert(history_ok(v.entries[g].history, v.k, v.timestamp));
}

/// Eviction order on the timestamps themselves. Among evictable frames, a
/// frame with fewer than `k` recorded accesses always goes before one with
/// `k` or more; within the same class the frame whose oldest recorded
/// timestamp is smaller goes first, and a frame with no timestamp goes before
/// one with a timestamp. So a frame that some evictable frame beats in this
/// order is never a victim.
pub proof fn lemma_eviction_order(v: ReplacerView, a: FrameId, b: FrameId)
    requires
        v.entries.contains_key(a),
        v.entries.contains_key(b),
        v.entries[a].evictable,
    ensures
        v.entries[a].history.len() < v.k && v.entries[b].history.len() >= v.k ==> !v.is_victim(b),
        (v.entries[a].history.len() < v.k) == (v.entries[b].history.len() < v.k) && v.entries[a].history.len()
            > 0 && v.entries[b].history.len() > 0 && v.entries[a].history[0] < v.entries[b].history[0]
            ==> !v.is_victim(b),
        (v.entries[a].history.len() < v.k) == (v.entries[b].history.len() < v.k) && v.entries[a].history.len()
            == 0 && v.entries[b].history.len() > 0 ==> !v.is_victim(b),
        v.is_victim(b) ==> v.entries[b].evictable,
{
    if v.is_victim(b) {
        assert(!evicts_before(v.entries[a], v.entries[b], v.k));
    }
}

/// A victim is the frame LRU-K ranks first: it has fewer than `k` recorded
/// accesses whenever some evictable frame has, and no evictable frame of its
/// class has a smaller oldest timestamp.
pub proof fn lemma_victim_ranks_first(v: ReplacerView, f: FrameId, g: FrameId)
    requires
        v.is_victim(f),
        v.entries.contains_key(g),
        v.entries[g].evictable,
    ensures
        v.entries[g].history.len() < v.k ==> v.entries[f].history.len() < v.k,
        (v.entries[g].history.len() < v.k) == (v.entries[f].history.len() < v.k) && v.entries[f].history.len() > 0
            && v.entries[g].history.len() > 0 ==> v.entries[f].history[0] <= v.entries[g].history[0],
        (v.entries[g].history.len() < v.k) == (v.entries[f].history.len() < v.k) && v.entries[g].history.len() == 0
            ==> v.entries[f].history.len() == 0,
{
    assert(!evicts_before(v.entries[g], v.entries[f], v.k));
}

/// What recording an access does, on the timestamps themselves. Only frame
/// `f` changes: it becomes known (a new frame starts with no timestamps and
/// not evictable) and keeps its evictable flag. A scan of a history with
/// fewer than `k` timestamps appends the clock and advances it; a scan of a
/// history with `k` or more changes nothing. A lookup or write always appends
/// the clock and advances it, first dropping the oldest timestamp when the
/// history already holds `k` or more.
pub proof fn lemma_access_effect(v: ReplacerView, f: FrameId, access: AccessType, g: FrameId)
    requires
        v.timestamp < usize::MAX,
    ensures
        ({
            let w = v.after_access(f, access);
            let known = v.entries.contains_key(f);
            let h = if known { v.entries[f].history } else { Seq::<usize>::empty() };
            let ts = v.timestamp as usize;
            let h2 = w.entries[f].history;
            &&& w.entries.contains_key(f)
            &&& w.entries[f].evictable == (known && v.entries[f].evictable)
            &&& w.capacity == v.capacity && w.k == v.k && w.size == v.size
            &&& (g != f ==> (w.entries.contains_key(g) == v.entries.contains_key(g)) && (v.entries.contains_key(g)
                ==> w.entries[g] == v.entries[g]))
            &&& (access == AccessType::Scan && h.len() < v.k ==> h2 == h.push(ts) && w.timestamp == v.timestamp + 1)
            &&& (access == AccessType::Scan && h.len() >= v.k ==> h2 == h && w.timestamp == v.timestamp)
            &&& (access != AccessType::Scan && (h.len() < v.k || h.len() == 0) ==> h2 == h.push(ts) && w.timestamp
                == v.timestamp + 1)
            &&& (access != AccessType::Scan && h.len() >= v.k && h.len() > 0 ==> h2.len() == h.len() && h2[h2.len()
                - 1] == ts && (forall|i: int| 0 <= i < h.len() - 1 ==> h2[i] == h[i + 1]) && w.timestamp
                == v.timestamp + 1)
        }),
{
    let w = v.after_access(f, access);
    let known = v.entries.contains_key(f);
    let h = if known { v.entries[f].history } else { Seq::<usize>::empty() };
    assert(v.entry_or_fresh(f).history == h);
}

/// What marking a frame does: a known frame gets the flag and keeps its
/// history, and the counter of evictable frames goes up by one when the frame
/// becomes evictable, down by one when it stops being evictable, and stays
/// otherwise; every other frame, and everything for an untracked frame, is
/// left as it was.
pub proof fn lemma_set_evictable_effect(v: ReplacerView, f: FrameId, evictable: bool, g: FrameId)
    requires
        v.wf(),
    ensures
        ({
            let w = v.after_set_evictable(f, evictable);
            &&& w.timestamp == v.timestamp && w.k == v.k && w.capacity == v.capacity
            &&& w.entries.dom() == v.entries.dom()
            &&& (!v.entries.contains_key(f) ==> w == v)
            &&& (v.entries.contains_key(f) ==> {
                &&& w.entries[f].evictable == evictable
                &&& w.entries[f].history == v.entries[f].history
                &&& (evictable && !v.entries[f].evictable ==> w.size == v.size + 1)
                &&& (!evictable && v.entries[f].evictable ==> w.size + 1 == v.size)
                &&& (evictable == v.entries[f].evictable ==> w.size == v.size)
            })
            &&& (g != f && v.entries.contains_key(g) ==> w.entries[g] == v.entries[g])
        }),
{
    lemma_set_evictable_count(v, f, evictable);
    if v.entries.contains_key(f) {
        assert(v.after_set_evictable(f, evictable).entries.dom() =~= v.entries.dom());
    }
}

/// Removing a known frame drops it and its history: it is no longer
/// known, the counter goes down by one, and every other frame is left as it
/// was. Evicting a frame does the same.
pub proof fn lemma_remove_effect(v: ReplacerView, f: FrameId, g: FrameId)
    requires
        v.entries.contains_key(f),
    ensures
        !v.after_remove(f).entries.contains_key(f),
        v.after_remove(f).size + 1 == v.size || v.size == 0,
        v.after_remove(f).timestamp == v.timestamp,
        g != f ==> (v.after_remove(f).entries.contains_key(g) == v.entries.contains_key(g)),
        g != f && v.entries.contains_key(g) ==> v.after_remove(f).entries[g] == v.entries[g],
        !v.after_evict(f).entries.contains_key(f),
        v.after_evict(f).size + 1 == v.size || v.size == 0,
        v.after_evict(f).timestamp == v.timestamp,
        g != f ==> (v.after_evict(f).entries.contains_key(g) == v.entries.contains_key(g)),
        g != f && v.entries.contains_key(g) ==> v.after_evict(f).entries[g] == v.entries[g],
{
}

/// Marking a frame twice with the same flag is the same as marking it once.
pub proof fn lemma_set_evictable_idempotent(v: ReplacerView, f: FrameId, evictable: bool)
    ensures
        v.after_set_evictable(f, evictable).after_set_evictable(f, evictable)
            == v.after_set_evictable(f, evictable),
{
    let w = v.after_set_evictable(f, evictable);
    if v.entries.contains_key(f) {
        assert(w.after_set_evictable(f, evictable).entries =~= w.entries);
    }
}

// ---------------------------------------------------------------------
// The implementation
// ---------------------------------------------------------------------

struct FrameEntry {
    access_history: VecDeque<usize>,
    is_evictable: bool,
    k: usize,
}

impl View for FrameEntry {
    type V = FrameEntryView;

    closed spec fn view(&self) -> FrameEntryView {
        FrameEntryView { history: self.access_history@, evictable: self.is_evictable }
    }
}

impl FrameEntry {
    fn new(k: usize) -> (entry: Self)
        ensures
            entry@ == FrameEntryView::fresh(),
            entry.k == k,
    {
        let entry = Self { access_history: VecDeque::with_capacity(k), is_evictable: false, k };
        assert(entry@.history =~= Seq::<usize>::empty());
        entry
    }
}

/// Checks that a frame id lies within the replacer's range; callers must
/// never pass a frame id outside it.
fn assert_valid_frame(frame_id: usize, replacer_size: usize)
    requires
        frame_id < replacer_size,
{
    assert(frame_id < replacer_size);
}

/// An LRU-K page replacer: it evicts the evictable frame whose k-th most
/// recent access lies furthest back, treating frames with fewer than `k`
/// accesses as infinitely far back (oldest first access first).
pub struct LruKReplacer {
    replacer_size: usize,
    k: usize,
    entries: HashMap<FrameId, FrameEntry>,
    current_size: usize,
    current_timestamp: usize,
}

impl View for LruKReplacer {
    type V = ReplacerView;

    closed spec fn view(&self) -> ReplacerView {
        ReplacerView {
            capacity: self.replacer_size as nat,
            k: self.k as nat,
            entries: self.entries@.map_values(|e: FrameEntry| e@),
            size: self.current_size as nat,
            timestamp: self.current_timestamp as nat,
        }
    }
}

impl LruKReplacer {
    /// The replacer's invariant: its abstract state is well-formed and
    /// every entry was made for this replacer's `k`.
    pub open spec fn wf(&self) -> bool {
        &&& self@.wf()
        &&& self.entries_match_k()
    }

    /// Every entry was made for this replacer's `k`.
    pub closed spec fn entries_match_k(&self) -> bool {
        forall|f: FrameId| #[trigger] self.entries@.contains_key(f) ==> self.entries@[f].k == self.k
    }

    /// The abstract state of a well-formed replacer is well-formed.
    pub proof fn lemma_view_wf(&self)
        requires
            self.wf(),
        ensures
            self@.wf(),
    {
    }

    /// Creates a replacer for frames `0..replacer_size` with the given `k`.
    pub fn new(k: usize, replacer_size: usize) -> (r: Self)
        ensures
            r.wf(),
            r@ == (ReplacerView {
                capacity: replacer_size as nat,
                k: k as nat,
                entries: Map::empty(),
                size: 0,
                timestamp: 0,
            }),
    {
        let r = Self {
            replacer_size,
            k,
            entries: HashMap::with_capacity(replacer_size),
            current_size: 0,
            current_timestamp: 0,
        };
        assert(r@.entries =~= Map::empty());
        assert(r@.evictable_frames() =~= Set::empty());
        r
    }

    /// The `K` of LRU-K.
    pub fn k(&self) -> (r: usize)
        ensures
            r == self@.k,
    {
        self.k
    }

    /// The number of frames the replacer covers.
    pub fn replacer_size(&self) -> (r: usize)
        ensures
            r == self@.capacity,
    {
        self.replacer_size
    }

    /// The counter of evictable frames.
    pub fn current_size(&self) -> (r: usize)
        ensures
            r == self@.size,
    {
        self.current_size
    }

    /// The logical clock: the timestamp the next recorded access receives.
    pub fn current_timestamp(&self) -> (r: usize)
        ensures
            r == self@.timestamp,
    {
        self.current_timestamp
    }

    /// Whether the replacer tracks `frame_id`.
    pub fn contains_frame(&self, frame_id: FrameId) -> (r: bool)
        ensures
            r == self@.entries.contains_key(frame_id),
    {
        self.entries.contains_key(&frame_id)
    }

    /// Whether a known frame is evictable; `None` for an untracked frame.
    pub fn is_evictable(&self, frame_id: FrameId) -> (r: Option<bool>)
        ensures
            match r {
                Some(b) => self@.entries.contains_key(frame_id) && b == self@.entries[frame_id].evictable,
                None => !self@.entries.contains_key(frame_id),
            },
    {
        match self.entries.get(&frame_id) {
            Some(e) => Some(e.is_evictable),
            None => None,
        }
    }

    /// The recorded access timestamps of a known frame, oldest first;
    /// `None` for an untracked frame.
    pub fn access_history(&self, frame_id: FrameId) -> (r: Option<Vec<usize>>)
        ensures
            match r {
                Some(h) => self@.entries.contains_key(frame_id) && h@ == self@.entries[frame_id].history,
                None => !self@.entries.contains_key(frame_id),
            },
    {
        match self.entries.get(&frame_id) {
            Some(e) => {
                let mut out: Vec<usize> = Vec::new();
                let mut i: usize = 0;
                while i < e.access_history.len()
                    invariant
                        i <= e.access_history@.len(),
                        out@ == e.access_history@.subrange(0, i as int),
                    decreases e.access_history@.len() - i,
                {
                    out.push(e.access_history[i]);
                    i = i + 1;
                    assert(out@ =~= e.access_history@.subrange(0, i as int));
                }
                assert(out@ =~= e.access_history@);
                Some(out)
            },
            None => None,
        }
    }

    /// Records an access of `access_type` to `frame_id`, tracking the frame
    /// if it is new (not evictable, empty history).
    pub fn record_access(&mut self, frame_id: FrameId, access_type: AccessType)
        requires
            old(self).wf(),
            frame_id < old(self)@.capacity,
            old(self)@.access_ticks(frame_id, access_type) ==> old(self)@.timestamp < usize::MAX,
        ensures
            final(self).wf(),
            final(self)@ == old(self)@.after_access(frame_id, access_type),
    {
        assert_valid_frame(frame_id, self.replacer_size);
        let ghost pre = self@;
        let curr_timestamp = self.current_timestamp;
        let mut entry = match self.entries.remove(&frame_id) {
            Some(e) => e,
            None => FrameEntry::new(self.k),
        };
        let ghost h0 = entry.access_history@;
        assert(h0 == pre.entry_or_fresh(frame_id).history);
        match access_type {
            AccessType::Scan => {
                if entry.access_history.len() < self.k {
                    entry.access_history.push_back(curr_timestamp);
                    self.current_timestamp = curr_timestamp + 1;
                }
            },
            _ => {
                if entry.access_history.len() >= self.k {
                    entry.access_history.pop_front();
                }
                entry.access_history.push_back(curr_timestamp);
                self.current_timestamp = curr_timestamp + 1;
            },
        }
        assert(entry.access_history@ =~= history_after(h0, self.k as nat, access_type, curr_timestamp));
        self.entries.insert(frame_id, entry);
        proof {
            let post = self@;
            assert(post.entries =~= pre.after_access(frame_id, access_type).entries);
            assert(post.evictable_frames() =~= pre.evictable_frames());
            lemma_access_keeps_wf(pre, frame_id, access_type);
        }
    }

    /// Marks a known frame evictable or not, keeping the counter of
    /// evictable frames in step; an untracked frame is left alone.
    pub fn set_evictable(&mut self, frame_id: FrameId, set_evictable: bool)
        requires
            old(self).wf(),
            frame_id < old(self)@.capacity,
        ensures
            final(self).wf(),
            final(self)@ == old(self)@.after_set_evictable(frame_id, set_evictable),
    {
        assert_valid_frame(frame_id, self.replacer_size);
        let ghost pre = self@;
        let mut delta: i8 = 0;
        match self.entries.remove(&frame_id) {
            Some(mut entry) => {
                if set_evictable && !entry.is_evictable {
                    delta = 1;
                } else if !set_evictable && entry.is_evictable {
                    delta = -1;
                }
                entry.is_evictable = set_evictable;
                self.entries.insert(frame_id, entry);
            },
            None => {},
        }
        proof {
            lemma_set_evictable_count(pre, frame_id, set_evictable);
        }
        if delta == 1 {
            self.current_size = self.current_size + 1;
        } else if delta == -1 {
            self.current_size = self.current_size - 1;
        }
        proof {
            assert(self@.entries =~= pre.after_set_evictable(frame_id, set_evictable).entries);
        }
    }

    /// Whether entry `a` comes strictly before entry `b` in eviction order.
    fn entry_evicts_before(a: &FrameEntry, b: &FrameEntry, k: usize) -> (r: bool)
        ensures
            r == evicts_before(a@, b@, k as nat),
    {
        let a_inf = a.access_history.len() < k;
        let b_inf = b.access_history.len() < k;
        if a_inf != b_inf {
            a_inf
        } else if a.access_history.len() == 0 {
            b.access_history.len() > 0
        } else {
            b.access_history.len() > 0 && a.access_history[0] < b.access_history[0]
        }
    }

    /// Evicts the evictable frame that LRU-K ranks first and stops tracking
    /// it; returns `None` when no frame is evictable. The counter of evictable
    /// frames goes down by one.
    pub fn evict(&mut self) -> (r: Option<FrameId>)
        requires
            old(self).wf(),
        ensures
            final(self).wf(),
            match r {
                None => {
                    &&& final(self)@ == old(self)@
                    &&& old(self)@.num_evictable() == 0
                    &&& forall|f: FrameId| #[trigger]
                        old(self)@.entries.contains_key(f) ==> !old(self)@.entries[f].evictable
                },
                Some(f) => {
                    &&& old(self)@.is_victim(f)
                    &&& final(self)@ == old(self)@.after_evict(f)
                    &&& final(self)@.num_evictable() == old(self)@.num_evictable() - 1
                },
            },
    {
        let ghost pre = self@;
        let mut best: Option<FrameId> = None;
        let mut i: usize = 0;
        while i < self.replacer_size
            invariant
                self.wf(),
                self@ == pre,
                i <= self.replacer_size,
                match best {
                    None => forall|f: FrameId|
                        f < i && #[trigger] pre.entries.contains_key(f) ==> !pre.entries[f].evictable,
                    Some(b) => {
                        &&& b < i
                        &&& pre.entries.contains_key(b)
                        &&& pre.entries[b].evictable
                        &&& forall|g: FrameId|
                            g < i && #[trigger] pre.entries.contains_key(g) && pre.entries[g].evictable
                                ==> !evicts_before(pre.entries[g], pre.entries[b], pre.k)
                    },
                },
            decreases self.replacer_size - i,
        {
            match self.entries.get(&i) {
                Some(e) => {
                    if e.is_evictable {
                        match best {
                            None => {
                                best = Some(i);
                            },
                            Some(b) => {
                                let eb = self.entries.get(&b).unwrap();
                                if Self::entry_evicts_before(e, eb, self.k) {
                                    best = Some(i);
                                }
                            },
                        }
                    }
                },
                None => {},
            }
            i = i + 1;
        }
        match best {
            Some(id) => {
                proof {
                    lemma_evict_count(pre, id);
                }
                self.entries.remove(&id);
                self.current_size = self.current_size - 1;
                proof {
                    assert(self@.entries =~= pre.entries.remove(id));
                }
                Some(id)
            },
            None => {
                proof {
                    lemma_evictable_finite(pre);
                    assert(pre.evictable_frames() =~= Set::empty());
                }
                None
            },
        }
    }

    /// Stops tracking a frame. The frame must be evictable if it is known.
    pub fn remove(&mut self, frame_id: FrameId)
        requires
            old(self).wf(),
            frame_id < old(self)@.capacity,
            old(self)@.entries.contains_key(frame_id) ==> old(self)@.entries[frame_id].evictable,
        ensures
            final(self).wf(),
            final(self)@ == old(self)@.after_remove(frame_id),
    {
        assert_valid_frame(frame_id, self.replacer_size);
        let ghost pre = self@;
        if self.entries.contains_key(&frame_id) {
            proof {
                lemma_remove_count(pre, frame_id);
            }
            self.entries.remove(&frame_id);
            self.current_size = self.current_size - 1;
            proof {
                assert(self@.entries =~= pre.entries.remove(frame_id));
            }
        }
    }
}

} // verus!
