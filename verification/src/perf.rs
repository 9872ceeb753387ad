//! Frame times and other numbers of the last frames.

use crate::renderer::stats::RenderDebugStats;
use std::collections::VecDeque;
use vstd::prelude::*;

verus! {

/// How many frames are remembered.
pub const DEFAULT_HISTORY_CAPACITY: usize = 120;

/// A window with one sample more: where it is full, the oldest leaves.
pub open spec fn slid(samples: Seq<u64>, capacity: usize, value: u64) -> Seq<u64> {
    if samples.len() == capacity && samples.len() > 0 {
        samples.drop_first().push(value)
    } else {
        samples.push(value)
    }
}

/// The window after all these samples.
pub open spec fn window(values: Seq<u64>, capacity: usize) -> Seq<u64>
    decreases values.len(),
{
    if values.len() == 0 {
        Seq::empty()
    } else {
        slid(window(values.drop_last(), capacity), capacity, values.last())
    }
}

/// A window holds the latest samples, as many as it has room for.
pub proof fn law_window_holds_the_latest(values: Seq<u64>, capacity: usize)
    requires
        capacity > 0,
    ensures
        values.len() <= capacity ==> window(values, capacity) == values,
        values.len() > capacity ==> window(values, capacity) == values.skip(
            values.len() - capacity,
        ),
    decreases values.len(),
{
    if values.len() > 0 {
        let init = values.drop_last();
        law_window_holds_the_latest(init, capacity);
        if values.len() <= capacity {
            assert(window(values, capacity) =~= values);
        } else {
            let tail = values.skip(values.len() - capacity);
            if init.len() == capacity {
                assert(init.drop_first().push(values.last()) =~= tail);
            } else {
                let kept = init.skip(init.len() - capacity);
                assert(kept.drop_first().push(values.last()) =~= tail);
            }
        }
    } else {
        assert(window(values, capacity) =~= values);
    }
}

fn slide(samples: &mut VecDeque<u64>, capacity: usize, value: u64)
    ensures
        final(samples)@ == slid(old(samples)@, capacity, value),
{
    if samples.len() == capacity {
        let _oldest = samples.pop_front();
        assert(samples@ =~= if old(samples)@.len() > 0 {
            old(samples)@.drop_first()
        } else {
            old(samples)@
        });
    }
    samples.push_back(value);
}

/// The sum of the numbers.
pub open spec fn total(values: Seq<u64>) -> nat
    decreases values.len(),
{
    if values.len() == 0 {
        0
    } else {
        total(values.drop_last()) + values.last() as nat
    }
}

/// The greatest of the numbers, or nought.
pub open spec fn greatest(values: Seq<u64>) -> u64
    decreases values.len(),
{
    if values.len() == 0 {
        0
    } else {
        let head = greatest(values.drop_last());
        if values.last() > head {
            values.last()
        } else {
            head
        }
    }
}

/// The greatest number of a list is in it and no other is greater.
pub proof fn law_greatest(values: Seq<u64>, k: int)
    requires
        0 <= k < values.len(),
    ensures
        values[k] <= greatest(values),
        values.contains(greatest(values)),
    decreases values.len(),
{
    let init = values.drop_last();
    if init.len() > 0 {
        let before = if k < init.len() {
            k
        } else {
            0
        };
        law_greatest(init, before);
        if values.last() <= greatest(init) {
            let at = choose|at: int| 0 <= at < init.len() && init[at] == greatest(init);
            assert(values[at] == greatest(values));
        }
    } else {
        assert(greatest(init) == 0);
    }
    if greatest(values) == values.last() {
        assert(values[values.len() - 1] == greatest(values));
    }
}

/// So many frames in so many nanoseconds.
#[derive(Debug, Clone, Copy, PartialEq, Eq, Structural)]
pub struct FrameRate {
    pub frames: usize,
    pub nanos: u128,
}

/// How long the last frames took, in nanoseconds.
#[derive(Debug)]
pub struct FrameStats {
    frame_times: VecDeque<u64>,
    frame_time: u64,
}

impl FrameStats {
    /// The frame times that are remembered.
    pub closed spec fn times(self) -> Seq<u64> {
        self.frame_times@
    }

    /// The time of the last frame.
    pub closed spec fn latest(self) -> u64 {
        self.frame_time
    }

    #[verifier::type_invariant]
    spec fn well_formed(self) -> bool {
        self.frame_times@.len() <= DEFAULT_HISTORY_CAPACITY
    }

    /// Nothing recorded yet.
    pub fn new() -> (stats: Self)
        ensures
            stats.times() == Seq::<u64>::empty(),
            stats.latest() == 0,
    {
        FrameStats { frame_times: VecDeque::new(), frame_time: 0 }
    }

    /// Records the time of a frame.
    pub fn record_frame(&mut self, nanos: u64)
        ensures
            final(self).times() == slid(old(self).times(), DEFAULT_HISTORY_CAPACITY, nanos),
            final(self).latest() == nanos,
    {
        proof {
            use_type_invariant(&*self);
        }
        let mut times: VecDeque<u64> = VecDeque::new();
        std::mem::swap(&mut times, &mut self.frame_times);
        slide(&mut times, DEFAULT_HISTORY_CAPACITY, nanos);
        self.frame_times = times;
        self.frame_time = nanos;
    }

    /// How many frames are drawn in which time; none where the frames take next to no time, that
    /// is, no longer in the mean than the 8388608th part of a millisecond.
    pub fn fps(&self) -> (rate: Option<FrameRate>)
        ensures
            rate is None <==> total(self.times()) * 8_388_608 <= self.times().len() * 1_000_000,
            rate matches Some(rate) ==> rate.frames == self.times().len() && rate.nanos == total(
                self.times(),
            ),
    {
        proof {
            use_type_invariant(self);
        }
        let count: usize = self.frame_times.len();
        let mut nanos: u128 = 0;
        let mut i: usize = 0;
        assert(self.frame_times@.take(0) =~= Seq::empty());
        while i < count
            invariant
                i <= count,
                count == self.frame_times@.len(),
                count <= DEFAULT_HISTORY_CAPACITY,
                nanos == total(self.frame_times@.take(i as int)),
                nanos <= i * u64::MAX,
            decreases count - i,
        {
            proof {
                assert(self.frame_times@.take(i + 1).drop_last() =~= self.frame_times@.take(
                    i as int,
                ));
            }
            nanos = nanos + self.frame_times[i] as u128;
            i += 1;
        }
        assert(self.frame_times@.take(i as int) =~= self.frame_times@);
        assert(nanos * 8_388_608 <= 120 * 0xffff_ffff_ffff_ffff * 8_388_608) by (nonlinear_arith)
            requires
                nanos <= i * 0xffff_ffff_ffff_ffff,
                i <= 120,
        ;
        if nanos * 8_388_608 <= count as u128 * 1_000_000 {
            None
        } else {
            Some(FrameRate { frames: count, nanos })
        }
    }

    /// The time of the last frame: whole milliseconds, and the nanoseconds beyond.
    pub fn frame_time_ms(&self) -> (time: (u64, u64))
        ensures
            time.0 * 1_000_000 + time.1 == self.latest(),
            time.1 < 1_000_000,
    {
        (self.frame_time / 1_000_000, self.frame_time % 1_000_000)
    }
}

impl Default for FrameStats {
    fn default() -> (stats: Self)
        ensures
            stats.times() == Seq::<u64>::empty(),
            stats.latest() == 0,
    {
        FrameStats::new()
    }
}

/// The latest values of a number.
#[derive(Debug)]
pub struct MetricHistory {
    samples: VecDeque<u64>,
    capacity: usize,
}

impl MetricHistory {
    /// The values that are remembered, the oldest first.
    pub closed spec fn held(self) -> Seq<u64> {
        self.samples@
    }

    /// How many values are remembered.
    pub closed spec fn room(self) -> usize {
        self.capacity
    }

    /// Nothing recorded yet.
    pub fn new(capacity: usize) -> (history: Self)
        ensures
            history.held() == Seq::<u64>::empty(),
            history.room() == capacity,
    {
        MetricHistory { samples: VecDeque::new(), capacity }
    }

    /// Records a value.
    pub fn push(&mut self, value: u64)
        ensures
            final(self).held() == slid(old(self).held(), old(self).room(), value),
            final(self).room() == old(self).room(),
    {
        slide(&mut self.samples, self.capacity, value);
    }

    /// The values that are remembered, the oldest first.
    pub fn samples(&self) -> (samples: Vec<u64>)
        ensures
            samples@ == self.held(),
    {
        let mut samples: Vec<u64> = Vec::new();
        let mut i: usize = 0;
        while i < self.samples.len()
            invariant
                i <= self.samples@.len(),
                samples@ == self.samples@.take(i as int),
            decreases self.samples@.len() - i,
        {
            samples.push(self.samples[i]);
            assert(samples@ =~= self.samples@.take(i + 1));
            i += 1;
        }
        assert(samples@ =~= self.samples@);
        samples
    }

    /// The greatest value that is remembered, or nought.
    pub fn max_value(&self) -> (value: u64)
        ensures
            value == greatest(self.held()),
    {
        let mut value: u64 = 0;
        let mut i: usize = 0;
        assert(self.samples@.take(0) =~= Seq::empty());
        while i < self.samples.len()
            invariant
                i <= self.samples@.len(),
                value == greatest(self.samples@.take(i as int)),
            decreases self.samples@.len() - i,
        {
            proof {
                assert(self.samples@.take(i + 1).drop_last() =~= self.samples@.take(i as int));
            }
            if self.samples[i] > value {
                value = self.samples[i];
            }
            i += 1;
        }
        assert(self.samples@.take(i as int) =~= self.samples@);
        value
    }

    /// The latest value, or nought.
    pub fn latest(&self) -> (value: u64)
        ensures
            value == (if self.held().len() == 0 {
                0
            } else {
                self.held().last()
            }),
    {
        if self.samples.len() == 0 {
            0
        } else {
            self.samples[self.samples.len() - 1]
        }
    }
}

/// The latest values of what frames report.
#[derive(Debug)]
pub struct RenderStatsHistory {
    vertices: MetricHistory,
    tile_misses: MetricHistory,
    cache_bytes: MetricHistory,
    pending_entries: MetricHistory,
}

/// What is remembered of the frames.
pub struct HistoryModel {
    pub vertices: Seq<u64>,
    pub tile_misses: Seq<u64>,
    pub cache_bytes: Seq<u64>,
    pub pending_entries: Seq<u64>,
}

impl View for RenderStatsHistory {
    type V = HistoryModel;

    closed spec fn view(&self) -> HistoryModel {
        HistoryModel {
            vertices: self.vertices.held(),
            tile_misses: self.tile_misses.held(),
            cache_bytes: self.cache_bytes.held(),
            pending_entries: self.pending_entries.held(),
        }
    }
}

impl RenderStatsHistory {
    #[verifier::type_invariant]
    spec fn well_formed(self) -> bool {
        &&& self.vertices.room() == DEFAULT_HISTORY_CAPACITY
        &&& self.tile_misses.room() == DEFAULT_HISTORY_CAPACITY
        &&& self.cache_bytes.room() == DEFAULT_HISTORY_CAPACITY
        &&& self.pending_entries.room() == DEFAULT_HISTORY_CAPACITY
    }

    /// Nothing recorded yet.
    pub fn new() -> (history: Self)
        ensures
            history@ == (HistoryModel {
                vertices: Seq::empty(),
                tile_misses: Seq::empty(),
                cache_bytes: Seq::empty(),
                pending_entries: Seq::empty(),
            }),
    {
        RenderStatsHistory {
            vertices: MetricHistory::new(DEFAULT_HISTORY_CAPACITY),
            tile_misses: MetricHistory::new(DEFAULT_HISTORY_CAPACITY),
            cache_bytes: MetricHistory::new(DEFAULT_HISTORY_CAPACITY),
            pending_entries: MetricHistory::new(DEFAULT_HISTORY_CAPACITY),
        }
    }

    /// Records what a frame reports.
    pub fn record(&mut self, stats: &RenderDebugStats)
        ensures
            final(self)@ == (HistoryModel {
                vertices: slid(
                    old(self)@.vertices,
                    DEFAULT_HISTORY_CAPACITY,
                    stats.vertex_count as u64,
                ),
                tile_misses: slid(
                    old(self)@.tile_misses,
                    DEFAULT_HISTORY_CAPACITY,
                    stats.tile_cache_misses as u64,
                ),
                cache_bytes: slid(
                    old(self)@.cache_bytes,
                    DEFAULT_HISTORY_CAPACITY,
                    stats.cache_bytes as u64,
                ),
                pending_entries: slid(
                    old(self)@.pending_entries,
                    DEFAULT_HISTORY_CAPACITY,
                    stats.pending_entries as u64,
                ),
            }),
    {
        let mut held = RenderStatsHistory::new();
        std::mem::swap(self, &mut held);
        proof {
            use_type_invariant(&held);
        }
        let mut vertices = held.vertices;
        let mut tile_misses = held.tile_misses;
        let mut cache_bytes = held.cache_bytes;
        let mut pending_entries = held.pending_entries;
        vertices.push(stats.vertex_count as u64);
        tile_misses.push(stats.tile_cache_misses as u64);
        cache_bytes.push(stats.cache_bytes as u64);
        pending_entries.push(stats.pending_entries as u64);
        *self = RenderStatsHistory { vertices, tile_misses, cache_bytes, pending_entries };
    }

    /// How many vertices the frames drew.
    pub fn vertices(&self) -> (history: &MetricHistory)
        ensures
            history.held() == self@.vertices,
    {
        &self.vertices
    }

    /// How many tiles the frames missed.
    pub fn tile_misses(&self) -> (history: &MetricHistory)
        ensures
            history.held() == self@.tile_misses,
    {
        &self.tile_misses
    }

    /// How many bytes the cache held.
    pub fn cache_bytes(&self) -> (history: &MetricHistory)
        ensures
            history.held() == self@.cache_bytes,
    {
        &self.cache_bytes
    }

    /// How many entries the frames left to be built.
    pub fn pending_entries(&self) -> (history: &MetricHistory)
        ensures
            history.held() == self@.pending_entries,
    {
        &self.pending_entries
    }
}

impl Default for RenderStatsHistory {
    fn default() -> (history: Self)
        ensures
            history@ == (HistoryModel {
                vertices: Seq::empty(),
                tile_misses: Seq::empty(),
                cache_bytes: Seq::empty(),
                pending_entries: Seq::empty(),
            }),
    {
        RenderStatsHistory::new()
    }
}

} // verus!
