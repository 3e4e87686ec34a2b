//! Sub-allocation of GPU buffers: byte ranges handed out by a best-fit range
//! allocator that grows on demand, and the queue of writes into them.

use std::ops::Range;
use range_alloc::{RangeAllocationError, RangeAllocator};
use vstd::prelude::*;

verus! {

#[verifier::external_type_specification]
#[verifier::external_body]
#[verifier::reject_recursive_types(T)]
pub struct ExRangeAllocator<T>(RangeAllocator<T>);

#[verifier::external_type_specification]
#[verifier::external_body]
#[verifier::reject_recursive_types(T)]
pub struct ExRangeAllocationError<T>(RangeAllocationError<T>);

/// Name for the free ranges of an allocator, in its own order (ascending).
pub uninterp spec fn allocator_free(a: RangeAllocator<u64>) -> Seq<(u64, u64)>;

/// Name for the whole range an allocator manages (as created, and as grown).
pub uninterp spec fn allocator_bounds(a: RangeAllocator<u64>) -> (u64, u64);

/// Free ranges lie within the bounds, in ascending order, apart from each
/// other; a free range is empty only where it ends at the end of the bounds
/// (as the one free range of an allocator made for no positions does).
pub open spec fn free_wf(free: Seq<(u64, u64)>, bounds: (u64, u64)) -> bool {
    &&& bounds.0 <= bounds.1
    &&& forall|k: int|
        0 <= k < free.len() ==> bounds.0 <= (#[trigger] free[k]).0 <= free[k].1 <= bounds.1
    &&& forall|k: int|
        0 <= k < free.len() ==> (#[trigger] free[k]).0 < free[k].1 || free[k].1 == bounds.1
    &&& forall|k: int| 0 <= k < free.len() - 1 ==> (#[trigger] free[k]).1 < free[k + 1].0
}

/// Position `x` lies in one of the free ranges.
pub open spec fn in_free(free: Seq<(u64, u64)>, x: int) -> bool {
    exists|k: int| 0 <= k < free.len() && (#[trigger] free[k]).0 <= x < free[k].1
}

/// The length of range `r`.
pub open spec fn range_len(r: (u64, u64)) -> int {
    r.1 - r.0
}

/// The end of a buffer ending at `end` that grows for `len` more bytes: by
/// twice its size, or by `len` where that is more.
pub open spec fn grown_end(end: int, len: int) -> int {
    end + if 2 * end > len {
        2 * end
    } else {
        len
    }
}

/// Some free range is at least `len` long.
pub open spec fn fits(free: Seq<(u64, u64)>, len: int) -> bool {
    exists|i: int| 0 <= i < free.len() && range_len(#[trigger] free[i]) >= len
}

/// `range` is the first `len` positions of the free range of `free` that fits
/// `len` most tightly (the first such where several do), and `new_free` is
/// `free` without them.
pub open spec fn allocated_from(
    free: Seq<(u64, u64)>,
    len: int,
    range: (u64, u64),
    new_free: Seq<(u64, u64)>,
) -> bool {
    exists|i: int|
        0 <= i < free.len() && range_len(#[trigger] free[i]) >= len && range.0 == free[i].0 && range.1
            == free[i].0 + len && new_free == (if range_len(free[i]) == len {
            free.remove(i)
        } else {
            free.update(i, ((free[i].0 + len) as u64, free[i].1))
        }) && (forall|j: int|
            0 <= j < free.len() && range_len(#[trigger] free[j]) >= len ==> range_len(free[i])
                <= range_len(free[j])) && (forall|j: int|
            0 <= j < i && range_len(#[trigger] free[j]) >= len ==> range_len(free[i]) < range_len(
                free[j],
            ))
}

/// The free ranges after growing an allocator whose range ended at `old_end`
/// to end at `new_end`.
pub open spec fn grown_free(free: Seq<(u64, u64)>, old_end: u64, new_end: u64) -> Seq<(u64, u64)> {
    if free.len() > 0 && free.last().1 == old_end {
        free.update(free.len() - 1, (free.last().0, new_end))
    } else {
        free.push((old_end, new_end))
    }
}

/// Calls `RangeAllocator::new(start..end)`, which manages `start..end` with
/// that one range free.
#[verifier::external_body]
fn allocator_new(start: u64, end: u64) -> (a: RangeAllocator<u64>)
    requires
        start <= end,
    ensures
        allocator_bounds(a) == (start, end),
        allocator_free(a) == seq![(start, end)],
{
    RangeAllocator::new(start..end)
}

/// Calls `RangeAllocator::initial_range`, the whole range managed.
#[verifier::external_body]
fn allocator_initial_range(a: &RangeAllocator<u64>) -> (r: Range<u64>)
    ensures
        (r.start, r.end) == allocator_bounds(*a),
{
    a.initial_range().clone()
}

/// Calls `RangeAllocator::grow_to(new_end)`: the bounds end at `new_end`; the
/// last free range is extended to `new_end` where it ended at the old end,
/// else `old_end..new_end` is appended as a free range.
#[verifier::external_body]
fn allocator_grow_to(a: &mut RangeAllocator<u64>, new_end: u64)
    requires
        allocator_bounds(*old(a)).1 <= new_end,
    ensures
        allocator_bounds(*final(a)) == (allocator_bounds(*old(a)).0, new_end),
        allocator_free(*final(a)) == grown_free(
            allocator_free(*old(a)),
            allocator_bounds(*old(a)).1,
            new_end,
        ),
{
    a.grow_to(new_end)
}

/// Calls `RangeAllocator::allocate_range(length)`, which picks the free range
/// that fits `length` most tightly (the first such where several tie; the
/// first exact fit where there is one) and hands out its first `length`
/// positions, removing them from the free ranges; or, where no free range
/// is long enough, gives the allocation error and changes nothing.
#[verifier::external_body]
fn allocator_allocate(a: &mut RangeAllocator<u64>, length: u64) -> (r: Result<
    Range<u64>,
    RangeAllocationError<u64>,
>)
    requires
        length > 0,
        length <= u64::MAX / 2,
        free_wf(allocator_free(*old(a)), allocator_bounds(*old(a))),
    ensures
        allocator_bounds(*final(a)) == allocator_bounds(*old(a)),
        match r {
            Ok(range) => allocated_from(
                allocator_free(*old(a)),
                length as int,
                (range.start, range.end),
                allocator_free(*final(a)),
            ),
            Err(_) => {
                &&& allocator_free(*final(a)) == allocator_free(*old(a))
                &&& !fits(allocator_free(*old(a)), length as int)
            },
        },
{
    a.allocate_range(length)
}

/// Calls `RangeAllocator::free_range(range)`, which returns `range` to the
/// free ranges, merging it with the free ranges it touches. Its checks pass
/// on what `requires` admits: the range lies within the bounds, is not
/// empty, overlaps no free range, and no empty free range lies inside it.
#[verifier::external_body]
fn allocator_free_range(a: &mut RangeAllocator<u64>, range: Range<u64>)
    requires
        free_wf(allocator_free(*old(a)), allocator_bounds(*old(a))),
        allocator_bounds(*old(a)).0 <= range.start < range.end <= allocator_bounds(*old(a)).1,
        forall|x: int| range.start <= x < range.end ==> !in_free(allocator_free(*old(a)), x),
    ensures
        allocator_bounds(*final(a)) == allocator_bounds(*old(a)),
        free_wf(allocator_free(*final(a)), allocator_bounds(*final(a))),
        forall|x: int|
            in_free(allocator_free(*final(a)), x) <==> (in_free(allocator_free(*old(a)), x) || (
            range.start <= x < range.end)),
{
    a.free_range(range)
}


// ---------------------------------------------------------------------------
// Facts about free lists

proof fn lemma_apart(free: Seq<(u64, u64)>, bounds: (u64, u64), k: int, m: int)
    requires
        free_wf(free, bounds),
        0 <= k < m < free.len(),
    ensures
        free[k].1 < free[m].0,
    decreases m - k,
{
    if k + 1 < m {
        lemma_apart(free, bounds, k + 1, m);
        assert(free[k].1 < free[k + 1].0);
        assert(free[k + 1].0 <= free[k + 1].1);
    }
}

/// A position lies in at most one free range.
proof fn lemma_unique_range(free: Seq<(u64, u64)>, bounds: (u64, u64), x: int, k: int, m: int)
    requires
        free_wf(free, bounds),
        0 <= k < free.len(),
        0 <= m < free.len(),
        free[k].0 <= x < free[k].1,
        free[m].0 <= x < free[m].1,
    ensures
        k == m,
{
    if k < m {
        lemma_apart(free, bounds, k, m);
    } else if m < k {
        lemma_apart(free, bounds, m, k);
    }
}

/// Growing an allocator keeps its free list well formed, adds the grown
/// positions to it, and leaves a free range at least as long as the growth.
proof fn lemma_grow(free: Seq<(u64, u64)>, start: u64, old_end: u64, new_end: u64)
    requires
        free_wf(free, (start, old_end)),
        old_end <= new_end,
    ensures
        free_wf(grown_free(free, old_end, new_end), (start, new_end)),
        forall|x: int|
            in_free(grown_free(free, old_end, new_end), x) <==> (in_free(free, x) || (old_end <= x
                < new_end)),
        fits(grown_free(free, old_end, new_end), new_end - old_end),
{
    let g = grown_free(free, old_end, new_end);
    if free.len() > 0 && free.last().1 == old_end {
        let l = free.len() - 1;
        assert(range_len(g[l]) >= new_end - old_end);
        assert forall|x: int| in_free(g, x) <==> (in_free(free, x) || (old_end <= x < new_end)) by {
            if in_free(g, x) {
                let k = choose|k: int| 0 <= k < g.len() && (#[trigger] g[k]).0 <= x < g[k].1;
                if k != l {
                    assert(free[k] == g[k]);
                } else if x < old_end {
                    assert(free[l].0 <= x < free[l].1);
                }
            }
            if in_free(free, x) {
                let k = choose|k: int| 0 <= k < free.len() && (#[trigger] free[k]).0 <= x < free[k].1;
                if k != l {
                    assert(g[k] == free[k]);
                } else {
                    assert(g[l].0 <= x < g[l].1);
                }
            }
            if old_end <= x < new_end {
                assert(g[l].0 <= x < g[l].1);
            }
        }
    } else {
        let l = free.len() as int;
        assert(g[l] == (old_end, new_end));
        if free.len() > 0 {
            assert(free.last().1 <= old_end);
            assert(free[free.len() - 1].1 < g[l].0);
        }
        assert forall|x: int| in_free(g, x) <==> (in_free(free, x) || (old_end <= x < new_end)) by {
            if in_free(g, x) {
                let k = choose|k: int| 0 <= k < g.len() && (#[trigger] g[k]).0 <= x < g[k].1;
                if k != l {
                    assert(free[k] == g[k]);
                }
            }
            if in_free(free, x) {
                let k = choose|k: int| 0 <= k < free.len() && (#[trigger] free[k]).0 <= x < free[k].1;
                assert(g[k] == free[k]);
            }
            if old_end <= x < new_end {
                assert(g[l].0 <= x < g[l].1);
            }
        }
    }
}

/// What an allocation does to a well-formed free list.
#[verifier::spinoff_prover]
#[verifier::rlimit(40)]
proof fn lemma_allocation(
    free: Seq<(u64, u64)>,
    bounds: (u64, u64),
    len: int,
    r: (u64, u64),
    new_free: Seq<(u64, u64)>,
)
    requires
        free_wf(free, bounds),
        len > 0,
        allocated_from(free, len, r, new_free),
    ensures
        free_wf(new_free, bounds),
        bounds.0 <= r.0 < r.1 <= bounds.1,
        r.1 - r.0 == len,
        forall|x: int| r.0 <= x < r.1 ==> in_free(free, x),
        forall|x: int| in_free(new_free, x) <==> (in_free(free, x) && !(r.0 <= x < r.1)),
{
    let i = choose|i: int|
        0 <= i < free.len() && range_len(#[trigger] free[i]) >= len && r.0 == free[i].0 && r.1
            == free[i].0 + len && new_free == (if range_len(free[i]) == len {
            free.remove(i)
        } else {
            free.update(i, ((free[i].0 + len) as u64, free[i].1))
        }) && (forall|j: int|
            0 <= j < free.len() && range_len(#[trigger] free[j]) >= len ==> range_len(free[i])
                <= range_len(free[j]));
    assert forall|x: int| r.0 <= x < r.1 implies in_free(free, x) by {
        assert(free[i].0 <= x < free[i].1);
    }
    if range_len(free[i]) == len {
        assert forall|k: int| 0 <= k < new_free.len() - 1 implies (#[trigger] new_free[k]).1
            < new_free[k + 1].0 by {
            if k < i - 1 {
            } else if k == i - 1 {
                lemma_apart(free, bounds, i - 1, i + 1);
            } else {
            }
        }
        assert forall|x: int| in_free(new_free, x) <==> (in_free(free, x) && !(r.0 <= x < r.1)) by {
            if in_free(new_free, x) {
                let k = choose|k: int| 0 <= k < new_free.len() && (#[trigger] new_free[k]).0 <= x
                    < new_free[k].1;
                let m = if k < i { k } else { k + 1 };
                assert(free[m] == new_free[k]);
                if r.0 <= x < r.1 {
                    lemma_unique_range(free, bounds, x, m, i);
                }
            }
            if in_free(free, x) && !(r.0 <= x < r.1) {
                let k = choose|k: int| 0 <= k < free.len() && (#[trigger] free[k]).0 <= x < free[k].1;
                assert(k != i);
                let m = if k < i { k } else { k - 1 };
                assert(new_free[m] == free[k]);
            }
        }
    } else {
        assert forall|x: int| in_free(new_free, x) <==> (in_free(free, x) && !(r.0 <= x < r.1)) by {
            if in_free(new_free, x) {
                let k = choose|k: int| 0 <= k < new_free.len() && (#[trigger] new_free[k]).0 <= x
                    < new_free[k].1;
                if k != i {
                    assert(free[k] == new_free[k]);
                    if r.0 <= x < r.1 {
                        lemma_unique_range(free, bounds, x, k, i);
                    }
                } else {
                    assert(free[i].0 <= x < free[i].1);
                }
            }
            if in_free(free, x) && !(r.0 <= x < r.1) {
                let k = choose|k: int| 0 <= k < free.len() && (#[trigger] free[k]).0 <= x < free[k].1;
                if k != i {
                    assert(new_free[k] == free[k]);
                } else {
                    assert(new_free[i].0 <= x < new_free[i].1);
                }
            }
        }
    }
}


/// Law: the range an allocation hands out, and the free ranges it leaves,
/// are fixed by the free ranges and the length.
pub proof fn lemma_allocation_deterministic(
    free: Seq<(u64, u64)>,
    len: int,
    r1: (u64, u64),
    f1: Seq<(u64, u64)>,
    r2: (u64, u64),
    f2: Seq<(u64, u64)>,
)
    requires
        allocated_from(free, len, r1, f1),
        allocated_from(free, len, r2, f2),
    ensures
        r1 == r2,
        f1 == f2,
{
    let i = choose|i: int|
        0 <= i < free.len() && range_len(#[trigger] free[i]) >= len && r1.0 == free[i].0 && r1.1
            == free[i].0 + len && f1 == (if range_len(free[i]) == len {
            free.remove(i)
        } else {
            free.update(i, ((free[i].0 + len) as u64, free[i].1))
        }) && (forall|j: int|
            0 <= j < free.len() && range_len(#[trigger] free[j]) >= len ==> range_len(free[i])
                <= range_len(free[j])) && (forall|j: int|
            0 <= j < i && range_len(#[trigger] free[j]) >= len ==> range_len(free[i]) < range_len(
                free[j],
            ));
    let k = choose|k: int|
        0 <= k < free.len() && range_len(#[trigger] free[k]) >= len && r2.0 == free[k].0 && r2.1
            == free[k].0 + len && f2 == (if range_len(free[k]) == len {
            free.remove(k)
        } else {
            free.update(k, ((free[k].0 + len) as u64, free[k].1))
        }) && (forall|j: int|
            0 <= j < free.len() && range_len(#[trigger] free[j]) >= len ==> range_len(free[k])
                <= range_len(free[j])) && (forall|j: int|
            0 <= j < k && range_len(#[trigger] free[j]) >= len ==> range_len(free[k]) < range_len(
                free[j],
            ));
    if i < k {
        assert(range_len(free[k]) < range_len(free[i]));
    } else if k < i {
        assert(range_len(free[i]) < range_len(free[k]));
    }
}

// ---------------------------------------------------------------------------
// GPU buffers

/// Bytes waiting to be written at a range of a GPU buffer.
pub struct PendingWrite {
    pub data: Vec<u8>,
    pub range: Range<u64>,
}

/// A growable GPU buffer, as the library manages it: which byte ranges are
/// in use, and the writes queued for the GPU. The buffer's own GPU memory is
/// held beside it and is grown to `size_in_bytes()` before writes are made.
pub struct GpuBuffer {
    label: Option<&'static str>,
    allocator: RangeAllocator<u64>,
    write_queue: Vec<PendingWrite>,
    live: Ghost<Set<(u64, u64)>>,
}

/// The ranges `a` and `b` share no position.
pub open spec fn disjoint(a: (u64, u64), b: (u64, u64)) -> bool {
    a.1 <= b.0 || b.1 <= a.0
}

impl GpuBuffer {
    /// The buffer's label.
    pub closed spec fn spec_label(&self) -> Option<&'static str> {
        self.label
    }

    /// The buffer's label.
    pub fn label(&self) -> (l: Option<&'static str>)
        ensures
            l == self.spec_label(),
    {
        self.label
    }

    /// The free ranges of the buffer.
    pub closed spec fn free(&self) -> Seq<(u64, u64)> {
        allocator_free(self.allocator)
    }

    /// The byte range the buffer spans.
    pub closed spec fn bounds(&self) -> (u64, u64) {
        allocator_bounds(self.allocator)
    }

    /// The ranges handed out by `queue_write` and not yet marked unused.
    pub closed spec fn live(&self) -> Set<(u64, u64)> {
        self.live@
    }

    /// The queued writes: their bytes and their ranges.
    pub closed spec fn pending(&self) -> Seq<(Seq<u8>, (u64, u64))> {
        self.write_queue@.map_values(|w: PendingWrite| (w.data@, (w.range.start, w.range.end)))
    }

    /// The buffer starts at byte zero, its free ranges are well formed, and
    /// the ranges in use lie within it, apart from the free ranges and from
    /// each other.
    pub closed spec fn wf(&self) -> bool {
        &&& self.bounds().0 == 0
        &&& free_wf(self.free(), self.bounds())
        &&& self.live@.finite()
        &&& forall|r: (u64, u64)|
            #[trigger] self.live@.contains(r) ==> 0 <= r.0 < r.1 <= self.bounds().1
        &&& forall|r: (u64, u64), x: int|
            #![trigger self.live@.contains(r), in_free(self.free(), x)]
            self.live@.contains(r) && r.0 <= x < r.1 ==> !in_free(self.free(), x)
        &&& forall|r1: (u64, u64), r2: (u64, u64)|
            #![trigger self.live@.contains(r1), self.live@.contains(r2)]
            self.live@.contains(r1) && self.live@.contains(r2) && r1 != r2 ==> disjoint(r1, r2)
    }

    /// `new` is this buffer after `queue_write` queued `data` at `r`: `r` is
    /// carved, best fit, out of the free ranges, after the buffer grew by
    /// twice its size (or by the data's size where that is more) if no free
    /// range was long enough; `r` shares no byte with a range in use; it is
    /// now in use; and the write is queued last.
    pub open spec fn queued_as(self, new: GpuBuffer, data: Seq<u8>, r: (u64, u64)) -> bool {
        let len = data.len() as int;
        let old_end = self.bounds().1;
        let new_end = grown_end(old_end as int, len);
        &&& new.wf()
        &&& new.spec_label() == self.spec_label()
        &&& if fits(self.free(), len) {
            &&& new.bounds() == self.bounds()
            &&& allocated_from(self.free(), len, r, new.free())
        } else {
            &&& new.bounds() == (0u64, new_end as u64)
            &&& allocated_from(grown_free(self.free(), old_end, new_end as u64), len, r, new.free())
        }
        &&& r.1 - r.0 == len
        &&& r.1 <= new.bounds().1
        &&& forall|l: (u64, u64)| #[trigger] self.live().contains(l) ==> disjoint(l, r)
        &&& new.live() == self.live().insert(r)
        &&& new.pending() == self.pending().push((data, r))
    }

    /// `new` is this buffer after `mark_slice_unused` gave back the range
    /// `r`: its bytes are free again and no longer in use; the size, the
    /// label and the queued writes stay.
    pub open spec fn released_as(self, new: GpuBuffer, r: (u64, u64)) -> bool {
        &&& new.wf()
        &&& new.spec_label() == self.spec_label()
        &&& new.bounds() == self.bounds()
        &&& new.live() == self.live().remove(r)
        &&& new.pending() == self.pending()
        &&& forall|x: int| in_free(new.free(), x) <==> (in_free(self.free(), x) || (r.0 <= x < r.1))
    }

    /// Law: two ranges in use never share a byte, and no byte of one is free.
    pub proof fn lemma_live_apart(&self, r1: (u64, u64), r2: (u64, u64), x: int)
        requires
            self.wf(),
            self.live().contains(r1),
            self.live().contains(r2),
        ensures
            r1 != r2 ==> disjoint(r1, r2),
            r1.0 <= x < r1.1 ==> !in_free(self.free(), x),
    {
    }

    /// A range in use is non-empty and lies within the buffer.
    pub proof fn lemma_live_range(&self, r: (u64, u64))
        requires
            self.wf(),
            self.live().contains(r),
        ensures
            r.0 < r.1 <= self.bounds().1,
    {
    }

    /// An empty buffer.
    pub fn new(label: Option<&'static str>) -> (b: Self)
        ensures
            b.wf(),
            b.bounds() == (0u64, 0u64),
            b.live() == Set::<(u64, u64)>::empty(),
            b.pending() == Seq::<(Seq<u8>, (u64, u64))>::empty(),
            b.spec_label() == label,
    {
        let b = GpuBuffer {
            label,
            allocator: allocator_new(0, 0),
            write_queue: Vec::new(),
            live: Ghost(Set::empty()),
        };
        assert(b.pending() =~= Seq::<(Seq<u8>, (u64, u64))>::empty());
        b
    }

    /// The number of bytes the buffer spans.
    pub fn size_in_bytes(&self) -> (n: u64)
        requires
            self.wf(),
        ensures
            n == self.bounds().1,
    {
        let r = allocator_initial_range(&self.allocator);
        r.end - r.start
    }

    /// Whether GPU memory of `buffer_size` bytes is too small for the buffer.
    pub fn needs_expansion(&self, buffer_size: u64) -> (b: bool)
        ensures
            b == (self.bounds().1 > buffer_size),
    {
        allocator_initial_range(&self.allocator).end > buffer_size
    }

    /// Reserves a range of `data.len()` bytes and queues `data` to be written
    /// there. The best-fitting free range is used; where none is long
    /// enough, the buffer first grows by twice its size, or by the data's
    /// size where that is more.
    pub fn queue_write(&mut self, data: Vec<u8>) -> (r: Range<u64>)
        requires
            old(self).wf(),
            0 < data@.len() <= u64::MAX / 2,
            fits(old(self).free(), data@.len() as int) || grown_end(
                old(self).bounds().1 as int,
                data@.len() as int,
            ) <= u64::MAX,
        ensures
            old(self).queued_as(*final(self), data@, (r.start, r.end)),
    {
        let size = data.len() as u64;
        let ghost old_free = allocator_free(self.allocator);
        let ghost old_bounds = allocator_bounds(self.allocator);
        let ghost pre_free;
        let range = match allocator_allocate(&mut self.allocator, size) {
            Ok(range) => {
                proof {
                    pre_free = old_free;
                }
                range
            },
            Err(_) => {
                let bounds = allocator_initial_range(&self.allocator);
                let double = (bounds.end - bounds.start) * 2;
                let new_size = if double > size {
                    double
                } else {
                    size
                };
                allocator_grow_to(&mut self.allocator, bounds.end + new_size);
                proof {
                    lemma_grow(old_free, 0, old_bounds.1, (bounds.end + new_size) as u64);
                    pre_free = allocator_free(self.allocator);
                    let g = grown_free(old_free, old_bounds.1, (bounds.end + new_size) as u64);
                    let k = choose|k: int| 0 <= k < g.len() && range_len(#[trigger] g[k]) >= new_size;
                    assert(range_len(g[k]) >= size);
                }
                match allocator_allocate(&mut self.allocator, size) {
                    Ok(range) => range,
                    Err(_) => {
                        proof {
                            let g = allocator_free(self.allocator);
                            let k = choose|k: int| 0 <= k < g.len() && range_len(#[trigger] g[k]) >= new_size;
                            assert(range_len(g[k]) >= size);
                        }
                        assert(false);
                        Range { start: 0, end: 0 }
                    },
                }
            },
        };
        let ghost r = (range.start, range.end);
        proof {
            lemma_allocation(pre_free, allocator_bounds(self.allocator), size as int, r, allocator_free(self.allocator));
            if fits(old_free, size as int) {
                assert(pre_free == old_free);
            }
            assert forall|l: (u64, u64)| #[trigger] self.live@.contains(l) implies disjoint(l, r) by {
                if !disjoint(l, r) {
                    let x = if l.0 > r.0 { l.0 as int } else { r.0 as int };
                    assert(in_free(pre_free, x));
                    assert(!in_free(old_free, x));
                    assert(x < old_bounds.1);
                    if pre_free != old_free {
                        lemma_grow(old_free, 0, old_bounds.1, allocator_bounds(self.allocator).1);
                    }
                }
            }
            if pre_free != old_free {
                lemma_grow(old_free, 0, old_bounds.1, allocator_bounds(self.allocator).1);
            }
            let new_free = allocator_free(self.allocator);
            let old_live = self.live@;
            assert forall|l: (u64, u64), x: int|
                #![trigger old_live.insert(r).contains(l), in_free(new_free, x)]
                old_live.insert(r).contains(l) && l.0 <= x < l.1 implies !in_free(new_free, x) by {
                if l != r {
                    assert(old_live.contains(l));
                    assert(!in_free(old_free, x));
                    assert(!in_free(pre_free, x));
                }
            }
            assert forall|r1: (u64, u64), r2: (u64, u64)|
                #![trigger old_live.insert(r).contains(r1), old_live.insert(r).contains(r2)]
                old_live.insert(r).contains(r1) && old_live.insert(r).contains(r2) && r1 != r2
                    implies disjoint(r1, r2) by {
                if r1 == r {
                    assert(old_live.contains(r2));
                } else if r2 == r {
                    assert(old_live.contains(r1));
                } else {
                    assert(old_live.contains(r1) && old_live.contains(r2));
                }
            }
            assert forall|l: (u64, u64)| #[trigger] old_live.insert(r).contains(l) implies 0 <= l.0
                < l.1 <= allocator_bounds(self.allocator).1 by {
                if l != r {
                    assert(old_live.contains(l));
                }
            }
            self.live@ = self.live@.insert(r);
        }
        self.write_queue.push(PendingWrite { data, range: Range { start: range.start, end: range.end } });
        proof {
            assert(self.pending() =~= old(self).pending().push((data@, r)));
        }
        range
    }

    /// Returns `range`, handed out by `queue_write`, to the free ranges.
    pub fn mark_slice_unused(&mut self, range: Range<u64>)
        requires
            old(self).wf(),
            old(self).live().contains((range.start, range.end)),
        ensures
            old(self).released_as(*final(self), (range.start, range.end)),
    {
        let ghost r = (range.start, range.end);
        allocator_free_range(&mut self.allocator, range);
        proof {
            self.live@ = self.live@.remove(r);
        }
    }

    /// Hands out the queued writes, oldest first, and empties the queue.
    pub fn take_pending_writes(&mut self) -> (writes: Vec<PendingWrite>)
        ensures
            writes@.map_values(|w: PendingWrite| (w.data@, (w.range.start, w.range.end)))
                == old(self).pending(),
            final(self).pending() == Seq::<(Seq<u8>, (u64, u64))>::empty(),
            final(self).wf() == old(self).wf(),
            final(self).spec_label() == old(self).spec_label(),
            final(self).bounds() == old(self).bounds(),
            final(self).live() == old(self).live(),
            final(self).free() == old(self).free(),
    {
        let mut writes: Vec<PendingWrite> = Vec::new();
        std::mem::swap(&mut writes, &mut self.write_queue);
        assert(self.pending() =~= Seq::<(Seq<u8>, (u64, u64))>::empty());
        writes
    }
}

/// How a storage buffer's contents reach the GPU.
#[derive(Clone, Copy, Debug, PartialEq, Eq, Structural)]
pub enum StorageWrite {
    /// Make a new buffer holding the contents.
    Create,
    /// Write the contents over the start of the buffer there is.
    Overwrite,
    /// Nothing to write and no buffer to write into.
    Skip,
}

/// The way to write `data_size` bytes to a storage buffer of `capacity`
/// bytes (none where no buffer was made yet): a new buffer where the one
/// there is (or its absence, counted as zero bytes) is too small; else a
/// write into the buffer there is; else, with no buffer and no bytes,
/// nothing.
pub open spec fn spec_storage_write(capacity: Option<u64>, data_size: u64) -> StorageWrite {
    if (match capacity {
        Some(c) => c,
        None => 0u64,
    }) < data_size {
        StorageWrite::Create
    } else if capacity is Some {
        StorageWrite::Overwrite
    } else {
        StorageWrite::Skip
    }
}

/// The way to write `data_size` bytes to a storage buffer of `capacity`
/// bytes; see `spec_storage_write`.
pub fn storage_write(capacity: Option<u64>, data_size: u64) -> (w: StorageWrite)
    ensures
        w == spec_storage_write(capacity, data_size),
{
    let cap = match capacity {
        Some(c) => c,
        None => 0,
    };
    if cap < data_size {
        StorageWrite::Create
    } else {
        match capacity {
            Some(_) => StorageWrite::Overwrite,
            None => StorageWrite::Skip,
        }
    }
}

/// A value mirrored into a GPU storage buffer that is made anew whenever
/// the value outgrows it: the value, the buffer's label, the capacity of the
/// buffer made so far (none before the first write), and how many bytes the
/// last write covered.
pub struct GpuStorageBuffer<T> {
    value: T,
    label: Option<&'static str>,
    capacity: Option<u64>,
    last_written_size: u64,
}

impl<T> GpuStorageBuffer<T> {
    /// The value mirrored.
    pub closed spec fn spec_value(&self) -> T {
        self.value
    }

    /// The capacity of the buffer made so far, if any.
    pub closed spec fn spec_capacity(&self) -> Option<u64> {
        self.capacity
    }

    /// The bytes the last write covered.
    pub closed spec fn spec_last_written(&self) -> u64 {
        self.last_written_size
    }

    /// A value with no buffer yet.
    pub fn new(label: Option<&'static str>, value: T) -> (b: Self)
        ensures
            b.spec_value() == value,
            b.spec_label() == label,
            b.spec_capacity() is None,
            b.spec_last_written() == 0,
    {
        GpuStorageBuffer { value, label, capacity: None, last_written_size: 0 }
    }

    /// The value mirrored.
    pub fn get(&self) -> (v: &T)
        ensures
            *v == self.spec_value(),
    {
        &self.value
    }

    /// Replaces the value mirrored.
    pub fn set(&mut self, value: T)
        ensures
            final(self).spec_value() == value,
            final(self).spec_capacity() == old(self).spec_capacity(),
            final(self).spec_last_written() == old(self).spec_last_written(),
    {
        self.value = value;
    }

    /// The buffer's label.
    pub closed spec fn spec_label(&self) -> Option<&'static str> {
        self.label
    }

    /// The buffer's label.
    pub fn label(&self) -> (l: Option<&'static str>)
        ensures
            l == self.spec_label(),
    {
        self.label
    }

    /// Plans writing the value's `data_size` bytes: a new buffer of exactly
    /// that size where the one there is (or its absence) is too small, else a
    /// write into it; either way the write covers `data_size` bytes.
    pub fn write_buffer(&mut self, data_size: u64) -> (w: StorageWrite)
        ensures
            w == spec_storage_write(old(self).spec_capacity(), data_size),
            final(self).spec_capacity() == if w == StorageWrite::Create {
                Some(data_size)
            } else {
                old(self).spec_capacity()
            },
            final(self).spec_last_written() == data_size,
            final(self).spec_value() == old(self).spec_value(),
    {
        let w = storage_write(self.capacity, data_size);
        match w {
            StorageWrite::Create => {
                self.capacity = Some(data_size);
            },
            _ => {},
        }
        self.last_written_size = data_size;
        w
    }

    /// The size to bind the buffer with: none where there is no buffer yet;
    /// else the bytes of the last write, or the whole buffer where that was
    /// nothing.
    pub fn binding_size(&self) -> (r: Option<Option<u64>>)
        ensures
            r == match self.spec_capacity() {
                None => None::<Option<u64>>,
                Some(_) => Some(if self.spec_last_written() == 0 {
                    None::<u64>
                } else {
                    Some(self.spec_last_written())
                }),
            },
    {
        match self.capacity {
            None => None,
            Some(_) => Some(if self.last_written_size == 0 {
                None
            } else {
                Some(self.last_written_size)
            }),
        }
    }
}

} // verus!
