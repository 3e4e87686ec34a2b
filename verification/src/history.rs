//! Bounded histories of per-frame samples, oldest first, as the debug
//! overlay keeps them (frame rates, CPU and GPU span timings).

use std::collections::VecDeque;
use vstd::prelude::*;

verus! {

/// Frames of span timings kept for the timing graphs.
pub const SPAN_HISTORY_FRAMES: usize = 100;

/// Frame rate samples kept for the short frame rate graph.
pub const FPS_HISTORY_FRAMES: usize = 1000;

/// Averaged frame rate samples kept for the long frame rate graph.
pub const FPS_LONG_HISTORY_FRAMES: usize = 3600;

/// The last `capacity` samples pushed, oldest first.
pub struct History<T> {
    entries: VecDeque<T>,
    capacity: usize,
}

impl<T> History<T> {
    /// The samples held, oldest first.
    pub closed spec fn samples(&self) -> Seq<T> {
        self.entries@
    }

    /// The most samples held.
    pub closed spec fn spec_capacity(&self) -> nat {
        self.capacity as nat
    }

    /// No more samples are held than the capacity.
    pub closed spec fn wf(&self) -> bool {
        self.entries@.len() <= self.capacity
    }

    /// An empty history keeping up to `capacity` samples.
    pub fn new(capacity: usize) -> (h: Self)
        ensures
            h.wf(),
            h.samples() == Seq::<T>::empty(),
            h.spec_capacity() == capacity,
    {
        History { entries: VecDeque::new(), capacity }
    }

    /// Appends `value`, dropping the oldest sample where there are then more
    /// than the capacity.
    pub fn push(&mut self, value: T)
        requires
            old(self).wf(),
        ensures
            final(self).wf(),
            final(self).spec_capacity() == old(self).spec_capacity(),
            final(self).samples() == if old(self).samples().len() + 1 > old(self).spec_capacity() {
                old(self).samples().push(value).drop_first()
            } else {
                old(self).samples().push(value)
            },
    {
        self.entries.push_back(value);
        if self.entries.len() > self.capacity {
            let _ = self.entries.pop_front();
        }
    }

    /// The number of samples held.
    pub fn len(&self) -> (n: usize)
        ensures
            n == self.samples().len(),
    {
        self.entries.len()
    }

    /// The `i`th sample, oldest first.
    pub fn get(&self, i: usize) -> (v: &T)
        requires
            i < self.samples().len(),
        ensures
            *v == self.samples()[i as int],
    {
        &self.entries[i]
    }

    /// The newest sample, if any.
    pub fn latest(&self) -> (v: Option<&T>)
        ensures
            match v {
                Some(x) => self.samples().len() > 0 && *x == self.samples().last(),
                None => self.samples().len() == 0,
            },
    {
        let n = self.entries.len();
        if n == 0 {
            None
        } else {
            Some(&self.entries[n - 1])
        }
    }
}

/// Law: a history holds the last `capacity` samples pushed into it, oldest
/// first: pushing `value` onto samples `s` leaves `s` followed by `value`,
/// cut to its last `capacity` elements.
pub proof fn lemma_history_keeps_latest<T>(s: Seq<T>, value: T, capacity: nat)
    requires
        s.len() <= capacity,
    ensures
        ({
            let pushed = s.push(value);
            let kept = if s.len() + 1 > capacity { pushed.drop_first() } else { pushed };
            let from = if pushed.len() > capacity { pushed.len() - capacity } else { 0 };
            kept == pushed.subrange(from, pushed.len() as int)
        }),
{
    let pushed = s.push(value);
    if s.len() + 1 > capacity {
        assert(pushed.drop_first() =~= pushed.subrange(1, pushed.len() as int));
    } else {
        assert(pushed =~= pushed.subrange(0, pushed.len() as int));
    }
}

} // verus!
