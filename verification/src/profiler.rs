//! Frame profiler bookkeeping: CPU spans timed by the caller's clock, and GPU
//! spans as pairs of timestamp queries, kept for two frames in flight.
//!
//! Times are nanoseconds on one monotonic clock of the caller's choosing;
//! GPU timestamps are raw ticks. The GPU query set, its resolve and readback
//! buffers, and the submission that a frame's queries went out with (`S`)
//! belong to the caller.

use vstd::prelude::*;

verus! {

/// Largest number of timestamp queries in a frame.
pub const MAX_QUERIES: u32 = 64;

/// A CPU span: its name and the clock readings at its start and end.
pub struct CpuSpan {
    pub name: &'static str,
    pub start: u64,
    pub end: u64,
}

/// A GPU span: its name and the queries holding its start and end ticks.
#[derive(Clone, Copy)]
pub struct GpuSpan {
    pub name: &'static str,
    pub start_query: u32,
    pub end_query: u32,
}

/// The queries of one frame, and the submission they went out with.
pub struct FrameData<S> {
    pub query_count: u32,
    pub spans: Vec<GpuSpan>,
    pub submission_index: Option<S>,
}

impl<S> FrameData<S> {
    /// A frame with no queries, not submitted.
    pub open spec fn is_reset(&self) -> bool {
        &&& self.query_count == 0
        &&& self.spans@.len() == 0
        &&& self.submission_index is None
    }

    /// Every span holds two consecutive queries, in order, packed from zero.
    pub open spec fn wf(&self) -> bool {
        &&& self.query_count == 2 * self.spans@.len()
        &&& self.query_count <= MAX_QUERIES
        &&& forall|i: int|
            0 <= i < self.spans@.len() ==> #[trigger] self.spans@[i].start_query == 2 * i
                && self.spans@[i].end_query == 2 * i + 1
    }

    fn new() -> (f: Self)
        ensures
            f.is_reset(),
            f.wf(),
    {
        FrameData { query_count: 0, spans: Vec::new(), submission_index: None }
    }

    fn reset(&mut self)
        ensures
            final(self).is_reset(),
            final(self).wf(),
    {
        self.query_count = 0;
        self.spans.clear();
        self.submission_index = None;
    }
}

/// A span resolved to its name and start and end, in nanoseconds from the
/// start of the frame.
pub type ResolvedSpan = (String, u128, u128);

/// The profiler: whether it is on, the CPU spans of the frame, the CPU span
/// under way, and the GPU queries of the frame being recorded (`frames[frame_index]`)
/// and of the one before.
pub struct Profiler<S> {
    enabled: bool,
    cpu_spans: Vec<CpuSpan>,
    current_cpu_start: Option<(u64, &'static str)>,
    frame0: FrameData<S>,
    frame1: FrameData<S>,
    frame_index: usize,
}

impl<S> Profiler<S> {
    /// Whether the profiler is on.
    pub closed spec fn is_enabled(&self) -> bool {
        self.enabled
    }

    /// The CPU spans finished in this frame: names and clock readings.
    pub closed spec fn spans(&self) -> Seq<(&'static str, u64, u64)> {
        self.cpu_spans@.map_values(|s: CpuSpan| (s.name, s.start, s.end))
    }

    /// The CPU span under way: its start reading and its name.
    pub closed spec fn open_span(&self) -> Option<(u64, &'static str)> {
        self.current_cpu_start
    }

    /// Which of the two frames is being recorded.
    pub closed spec fn current_index(&self) -> int {
        self.frame_index as int
    }

    /// The queries of the frame being recorded.
    pub closed spec fn current(&self) -> FrameData<S> {
        if self.frame_index == 0 { self.frame0 } else { self.frame1 }
    }

    /// The queries of the frame recorded before.
    pub closed spec fn previous(&self) -> FrameData<S> {
        if self.frame_index == 0 { self.frame1 } else { self.frame0 }
    }

    /// The frame index is zero or one, and both frames are well formed.
    pub closed spec fn wf(&self) -> bool {
        &&& self.frame_index < 2
        &&& self.frame0.wf()
        &&& self.frame1.wf()
    }

    /// Both frames of a well-formed profiler are well formed.
    pub proof fn lemma_frames_wf(&self)
        requires
            self.wf(),
        ensures
            self.current().wf(),
            self.previous().wf(),
    {
    }

    /// An enabled profiler with nothing recorded.
    pub fn new() -> (p: Self)
        ensures
            p.wf(),
            p.is_enabled(),
            p.spans().len() == 0,
            p.open_span() is None,
            p.current_index() == 0,
            p.current().is_reset(),
            p.previous().is_reset(),
    {
        let p = Profiler {
            enabled: true,
            cpu_spans: Vec::new(),
            current_cpu_start: None,
            frame0: FrameData::new(),
            frame1: FrameData::new(),
            frame_index: 0,
        };
        assert(p.spans() =~= Seq::<(&'static str, u64, u64)>::empty());
        p
    }

    /// Starts the span `name` at clock reading `now`, and, where the frame
    /// has two queries left, reserves them for it and gives the first (the
    /// second is the one after it). A disabled profiler does nothing.
    pub fn begin(&mut self, name: &'static str, now: u64) -> (query: Option<u32>)
        requires
            old(self).wf(),
        ensures
            final(self).wf(),
            final(self).is_enabled() == old(self).is_enabled(),
            final(self).spans() == old(self).spans(),
            final(self).current_index() == old(self).current_index(),
            final(self).previous() == old(self).previous(),
            !old(self).is_enabled() ==> {
                &&& query is None
                &&& final(self).open_span() == old(self).open_span()
                &&& final(self).current() == old(self).current()
            },
            old(self).is_enabled() ==> {
                let f = old(self).current();
                &&& final(self).open_span() == Some((now, name))
                &&& final(self).current().submission_index == f.submission_index
                &&& if f.query_count + 2 > MAX_QUERIES {
                    &&& query is None
                    &&& final(self).current() == f
                } else {
                    &&& query == Some(f.query_count)
                    &&& final(self).current().query_count == f.query_count + 2
                    &&& final(self).current().spans@ == f.spans@.push(
                        GpuSpan { name, start_query: f.query_count, end_query: (f.query_count + 1) as u32 },
                    )
                }
            },
    {
        if !self.enabled {
            return None;
        }
        self.current_cpu_start = Some((now, name));
        if self.frame_index == 0 {
            Self::reserve(&mut self.frame0, name)
        } else {
            Self::reserve(&mut self.frame1, name)
        }
    }

    fn reserve(frame: &mut FrameData<S>, name: &'static str) -> (query: Option<u32>)
        requires
            old(frame).wf(),
        ensures
            final(frame).wf(),
            final(frame).submission_index == old(frame).submission_index,
            if old(frame).query_count + 2 > MAX_QUERIES {
                &&& query is None
                &&& *final(frame) == *old(frame)
            } else {
                &&& query == Some(old(frame).query_count)
                &&& final(frame).query_count == old(frame).query_count + 2
                &&& final(frame).spans@ == old(frame).spans@.push(
                    GpuSpan {
                        name,
                        start_query: old(frame).query_count,
                        end_query: (old(frame).query_count + 1) as u32,
                    },
                )
            },
    {
        if frame.query_count + 2 > MAX_QUERIES {
            return None;
        }
        let id = frame.query_count;
        frame.query_count = frame.query_count + 2;
        frame.spans.push(GpuSpan { name, start_query: id, end_query: id + 1 });
        Some(id)
    }

    /// Ends the span under way at clock reading `now`, if there is one.
    pub fn end(&mut self, now: u64)
        requires
            old(self).wf(),
        ensures
            final(self).wf(),
            final(self).is_enabled() == old(self).is_enabled(),
            final(self).open_span() is None,
            final(self).current_index() == old(self).current_index(),
            final(self).current() == old(self).current(),
            final(self).previous() == old(self).previous(),
            final(self).spans() == match old(self).open_span() {
                Some((start, name)) => old(self).spans().push((name, start, now)),
                None => old(self).spans(),
            },
    {
        let started = self.current_cpu_start.take();
        match started {
            Some((start, name)) => {
                self.cpu_spans.push(CpuSpan { name, start, end: now });
                assert(self.spans() =~= old(self).spans().push((name, start, now)));
            },
            None => {},
        }
    }

    /// The number of queries of this frame to resolve into the readback
    /// buffer: none where the profiler is off or no query was made.
    pub fn resolve(&self) -> (count: Option<u32>)
        requires
            self.wf(),
        ensures
            count == (if self.is_enabled() && self.current().query_count > 0 {
                Some(self.current().query_count)
            } else {
                None::<u32>
            }),
    {
        if !self.enabled {
            return None;
        }
        let count = if self.frame_index == 0 {
            self.frame0.query_count
        } else {
            self.frame1.query_count
        };
        if count > 0 {
            Some(count)
        } else {
            None
        }
    }

    /// Records the submission this frame's queries went out with; a disabled
    /// profiler ignores it.
    pub fn set_submission_index(&mut self, index: S)
        requires
            old(self).wf(),
        ensures
            final(self).wf(),
            final(self).is_enabled() == old(self).is_enabled(),
            final(self).spans() == old(self).spans(),
            final(self).open_span() == old(self).open_span(),
            final(self).current_index() == old(self).current_index(),
            final(self).previous() == old(self).previous(),
            final(self).current().query_count == old(self).current().query_count,
            final(self).current().spans == old(self).current().spans,
            final(self).current().submission_index == if old(self).is_enabled() {
                Some(index)
            } else {
                old(self).current().submission_index
            },
    {
        if !self.enabled {
            return;
        }
        if self.frame_index == 0 {
            self.frame0.submission_index = Some(index);
        } else {
            self.frame1.submission_index = Some(index);
        }
    }

    /// The CPU spans of this frame, each as its name and its start and end in
    /// nanoseconds after the start of the first span (a reading before that
    /// counts as zero); none where the profiler is off.
    pub fn cpu_spans(&self) -> (out: Vec<ResolvedSpan>)
        ensures
            out@.len() == if self.is_enabled() { self.spans().len() } else { 0 },
            forall|i: int|
                0 <= i < out@.len() ==> {
                    let s = self.spans()[i];
                    let base = self.spans()[0].1;
                    &&& (#[trigger] out@[i]).0@ == s.0@
                    &&& out@[i].1 == (if s.1 >= base { s.1 - base } else { 0 })
                    &&& out@[i].2 == (if s.2 >= base { s.2 - base } else { 0 })
                },
    {
        let mut out: Vec<ResolvedSpan> = Vec::new();
        if !self.enabled || self.cpu_spans.len() == 0 {
            return out;
        }
        let frame_start = self.cpu_spans[0].start;
        let mut i: usize = 0;
        while i < self.cpu_spans.len()
            invariant
                self.enabled,
                self.cpu_spans@.len() > 0,
                frame_start == self.cpu_spans@[0].start,
                i <= self.cpu_spans@.len(),
                out@.len() == i,
                forall|j: int|
                    0 <= j < i ==> {
                        let s = self.spans()[j];
                        let base = self.spans()[0].1;
                        &&& (#[trigger] out@[j]).0@ == s.0@
                        &&& out@[j].1 == (if s.1 >= base { s.1 - base } else { 0 })
                        &&& out@[j].2 == (if s.2 >= base { s.2 - base } else { 0 })
                    },
            decreases self.cpu_spans@.len() - i,
        {
            let s = &self.cpu_spans[i];
            let start = s.start.saturating_sub(frame_start) as u128;
            let end = s.end.saturating_sub(frame_start) as u128;
            out.push((s.name.to_owned(), start, end));
            i = i + 1;
        }
        out
    }

    /// The frame recorded before, where its timestamps are worth reading
    /// back: its submission and the number of its queries. None where the
    /// profiler is off, that frame was not submitted, or it made no query.
    pub fn pending_readback(&self) -> (r: Option<(&S, u32)>)
        requires
            self.wf(),
        ensures
            match r {
                Some((s, n)) => {
                    &&& self.is_enabled()
                    &&& self.previous().submission_index == Some(*s)
                    &&& n == self.previous().query_count
                    &&& n > 0
                },
                None => !self.is_enabled() || self.previous().submission_index is None
                    || self.previous().query_count == 0,
            },
    {
        if !self.enabled {
            return None;
        }
        let frame = if self.frame_index == 0 {
            &self.frame1
        } else {
            &self.frame0
        };
        match &frame.submission_index {
            Some(idx) => {
                if frame.query_count > 0 {
                    Some((idx, frame.query_count))
                } else {
                    None
                }
            },
            None => None,
        }
    }

    /// The GPU spans of the frame recorded before, from its read-back
    /// `timestamps`: each span's name and its start and end ticks after the
    /// first timestamp (a tick before that counts as zero).
    pub fn gpu_span_ticks(&self, timestamps: &[u64]) -> (out: Vec<(&'static str, u64, u64)>)
        requires
            self.wf(),
            timestamps@.len() >= self.previous().query_count,
        ensures
            out@.len() == self.previous().spans@.len(),
            forall|i: int|
                0 <= i < out@.len() ==> {
                    let sp = self.previous().spans@[i];
                    let base = timestamps@[0];
                    let a = timestamps@[sp.start_query as int];
                    let b = timestamps@[sp.end_query as int];
                    &&& (#[trigger] out@[i]).0 == sp.name
                    &&& out@[i].1 == (if a >= base { a - base } else { 0 })
                    &&& out@[i].2 == (if b >= base { b - base } else { 0 })
                },
    {
        let frame = if self.frame_index == 0 {
            &self.frame1
        } else {
            &self.frame0
        };
        let ghost f = self.previous();
        assert(*frame == f);
        let mut out: Vec<(&'static str, u64, u64)> = Vec::new();
        let mut i: usize = 0;
        let base = if timestamps.len() > 0 {
            timestamps[0]
        } else {
            0
        };
        while i < frame.spans.len()
            invariant
                f.wf(),
                *frame == f,
                timestamps@.len() >= f.query_count,
                f.spans@.len() > 0 ==> base == timestamps@[0],
                i <= f.spans@.len(),
                out@.len() == i,
                forall|j: int|
                    0 <= j < i ==> {
                        let sp = f.spans@[j];
                        let base = timestamps@[0];
                        let a = timestamps@[sp.start_query as int];
                        let b = timestamps@[sp.end_query as int];
                        &&& (#[trigger] out@[j]).0 == sp.name
                        &&& out@[j].1 == (if a >= base { a - base } else { 0 })
                        &&& out@[j].2 == (if b >= base { b - base } else { 0 })
                    },
            decreases f.spans@.len() - i,
        {
            let sp = frame.spans[i];
            assert(sp == f.spans@[i as int]);
            let a = timestamps[sp.start_query as usize];
            let b = timestamps[sp.end_query as usize];
            out.push((sp.name, a.saturating_sub(base), b.saturating_sub(base)));
            i = i + 1;
        }
        out
    }

    /// Ends the frame: drops its CPU spans and moves on to the other frame,
    /// whose queries are cleared for reuse.
    pub fn finish_frame(&mut self)
        requires
            old(self).wf(),
        ensures
            final(self).wf(),
            final(self).is_enabled() == old(self).is_enabled(),
            final(self).spans().len() == 0,
            final(self).open_span() == old(self).open_span(),
            final(self).current_index() == 1 - old(self).current_index(),
            final(self).previous() == old(self).current(),
            final(self).current().is_reset(),
    {
        self.cpu_spans.clear();
        self.frame_index = (self.frame_index + 1) % 2;
        if self.frame_index == 0 {
            self.frame0.reset();
        } else {
            self.frame1.reset();
        }
        assert(self.spans() =~= Seq::<(&'static str, u64, u64)>::empty());
    }

    /// Whether the profiler is on.
    pub fn enabled(&self) -> (b: bool)
        ensures
            b == self.is_enabled(),
    {
        self.enabled
    }

    /// Turns the profiler on or off; turning it off drops all it recorded.
    pub fn set_enabled(&mut self, enabled: bool)
        requires
            old(self).wf(),
        ensures
            final(self).wf(),
            final(self).is_enabled() == enabled,
            final(self).open_span() == old(self).open_span(),
            final(self).current_index() == old(self).current_index(),
            enabled ==> {
                &&& final(self).spans() == old(self).spans()
                &&& final(self).current() == old(self).current()
                &&& final(self).previous() == old(self).previous()
            },
            !enabled ==> {
                &&& final(self).spans().len() == 0
                &&& final(self).current().is_reset()
                &&& final(self).previous().is_reset()
            },
    {
        self.enabled = enabled;
        if !enabled {
            self.cpu_spans.clear();
            self.frame0.reset();
            self.frame1.reset();
            assert(self.spans() =~= Seq::<(&'static str, u64, u64)>::empty());
        }
    }
}

/// Law: the queries of a frame's spans are all distinct and below
/// `MAX_QUERIES`: each span holds its own pair.
pub proof fn lemma_queries_distinct<S>(f: FrameData<S>, i: int, j: int)
    requires
        f.wf(),
        0 <= i < f.spans@.len(),
        0 <= j < f.spans@.len(),
        i != j,
    ensures
        f.spans@[i].start_query != f.spans@[j].start_query,
        f.spans@[i].start_query != f.spans@[j].end_query,
        f.spans@[i].end_query != f.spans@[j].end_query,
        f.spans@[i].end_query < MAX_QUERIES,
{
    assert(f.spans@[i].start_query == 2 * i);
    assert(f.spans@[j].start_query == 2 * j);
}

} // verus!
