use vstd::prelude::*;

verus! {

#[derive(Debug, Clone, Copy, PartialEq, Eq, PartialOrd, Ord, Structural)]
pub enum SoakMetric {
    MemoryServerStartMb,
    MemoryServerPeakMb,
    MemoryServerEndMb,
    AllocationBytesTotal,
    QueueDepthMax,
    ConnectionsActive,
    SnapshotsDropped,
    ResendsQueued,
    ResendsSent,
    ShutdownClean,
}

/// The position of a metric in the declared order.
pub open spec fn spec_rank(m: SoakMetric) -> nat {
    match m {
        SoakMetric::MemoryServerStartMb => 0,
        SoakMetric::MemoryServerPeakMb => 1,
        SoakMetric::MemoryServerEndMb => 2,
        SoakMetric::AllocationBytesTotal => 3,
        SoakMetric::QueueDepthMax => 4,
        SoakMetric::ConnectionsActive => 5,
        SoakMetric::SnapshotsDropped => 6,
        SoakMetric::ResendsQueued => 7,
        SoakMetric::ResendsSent => 8,
        SoakMetric::ShutdownClean => 9,
    }
}

fn rank(m: SoakMetric) -> (r: u8)
    ensures
        r == spec_rank(m),
{
    match m {
        SoakMetric::MemoryServerStartMb => 0,
        SoakMetric::MemoryServerPeakMb => 1,
        SoakMetric::MemoryServerEndMb => 2,
        SoakMetric::AllocationBytesTotal => 3,
        SoakMetric::QueueDepthMax => 4,
        SoakMetric::ConnectionsActive => 5,
        SoakMetric::SnapshotsDropped => 6,
        SoakMetric::ResendsQueued => 7,
        SoakMetric::ResendsSent => 8,
        SoakMetric::ShutdownClean => 9,
    }
}

impl SoakMetric {
    pub fn as_str(self) -> (r: &'static str)
        ensures
            r@ == (match self {
                SoakMetric::MemoryServerStartMb => "memory_server_start_mb"@,
                SoakMetric::MemoryServerPeakMb => "memory_server_peak_mb"@,
                SoakMetric::MemoryServerEndMb => "memory_server_end_mb"@,
                SoakMetric::AllocationBytesTotal => "allocation_bytes_total"@,
                SoakMetric::QueueDepthMax => "queue_depth_max"@,
                SoakMetric::ConnectionsActive => "connections_active"@,
                SoakMetric::SnapshotsDropped => "snapshots_dropped"@,
                SoakMetric::ResendsQueued => "resends_queued"@,
                SoakMetric::ResendsSent => "resends_sent"@,
                SoakMetric::ShutdownClean => "shutdown_clean"@,
            }),
    {
        match self {
            Self::MemoryServerStartMb => "memory_server_start_mb",
            Self::MemoryServerPeakMb => "memory_server_peak_mb",
            Self::MemoryServerEndMb => "memory_server_end_mb",
            Self::AllocationBytesTotal => "allocation_bytes_total",
            Self::QueueDepthMax => "queue_depth_max",
            Self::ConnectionsActive => "connections_active",
            Self::SnapshotsDropped => "snapshots_dropped",
            Self::ResendsQueued => "resends_queued",
            Self::ResendsSent => "resends_sent",
            Self::ShutdownClean => "shutdown_clean",
        }
    }
}

#[derive(Debug, Clone, Copy, PartialEq, Eq, Structural)]
pub struct SoakMetricSample {
    pub metric: SoakMetric,
    pub value: u64,
}

/// Named values, each stored once, in the declared order of the names.
#[derive(Debug, Clone, PartialEq, Eq)]
pub struct SoakMetrics {
    values: Vec<SoakMetricSample>,
}

/// The value stored for a name in an ordered sample list, or zero.
pub open spec fn value_in(s: Seq<SoakMetricSample>, m: SoakMetric) -> u64
    decreases s.len(),
{
    if s.len() == 0 {
        0
    } else if s.last().metric == m {
        s.last().value
    } else {
        value_in(s.drop_last(), m)
    }
}

/// Whether a name has a stored value.
pub open spec fn has_value(s: Seq<SoakMetricSample>, m: SoakMetric) -> bool {
    exists|i: int| 0 <= i < s.len() && (#[trigger] s[i]).metric == m
}

/// Names in strictly ascending declared order.
pub open spec fn ordered(s: Seq<SoakMetricSample>) -> bool {
    forall|i: int, j: int| 0 <= i < j < s.len() ==> spec_rank(s[i].metric) < spec_rank(s[j].metric)
}

proof fn lemma_value_at(s: Seq<SoakMetricSample>, i: int)
    requires
        ordered(s),
        0 <= i < s.len(),
    ensures
        value_in(s, s[i].metric) == s[i].value,
    decreases s.len(),
{
    if i < s.len() - 1 {
        assert(spec_rank(s[i].metric) < spec_rank(s.last().metric));
        lemma_value_at(s.drop_last(), i);
    }
}

proof fn lemma_value_absent(s: Seq<SoakMetricSample>, m: SoakMetric)
    requires
        !has_value(s, m),
    ensures
        value_in(s, m) == 0,
    decreases s.len(),
{
    if s.len() > 0 {
        assert(s.last() == s[s.len() - 1]);
        assert(!has_value(s.drop_last(), m)) by {
            if has_value(s.drop_last(), m) {
                let i = choose|i: int| 0 <= i < s.drop_last().len() && (#[trigger] s.drop_last()[i]).metric == m;
                assert(s[i].metric == m);
            }
        }
        lemma_value_absent(s.drop_last(), m);
    }
}

impl SoakMetrics {
    /// The stored samples, in declared order of their names.
    pub closed spec fn samples(&self) -> Seq<SoakMetricSample> {
        self.values@
    }

    pub closed spec fn wf(&self) -> bool {
        ordered(self.values@)
    }

    pub fn new() -> (r: Self)
        ensures
            r.wf(),
            r.samples() == Seq::<SoakMetricSample>::empty(),
    {
        Self { values: Vec::new() }
    }

    pub fn set(&mut self, metric: SoakMetric, value: u64)
        requires
            old(self).wf(),
        ensures
            final(self).wf(),
            value_in(final(self).samples(), metric) == value,
            has_value(final(self).samples(), metric),
            forall|m: SoakMetric| m != metric ==> value_in(final(self).samples(), m) == value_in(old(self).samples(), m)
                && has_value(final(self).samples(), m) == has_value(old(self).samples(), m),
    {
        let k = rank(metric);
        let n = self.values.len();
        let mut i: usize = 0;
        while i < n && rank(self.values[i].metric) < k
            invariant
                n == self.values@.len(),
                i <= n,
                *self == *old(self),
                forall|j: int| 0 <= j < i ==> spec_rank(self.values@[j].metric) < k,
            decreases n - i,
        {
            i = i + 1;
        }
        let ghost s = self.values@;
        if i < n && self.values[i].metric == metric {
            self.values.set(i, SoakMetricSample { metric, value });
            proof {
                let t = self.values@;
                assert(ordered(t)) by {
                    assert forall|a: int, b: int| 0 <= a < b < t.len() implies spec_rank(t[a].metric) < spec_rank(t[b].metric) by {
                        assert(spec_rank(s[a].metric) < spec_rank(s[b].metric));
                    }
                }
                lemma_value_at(t, i as int);
                assert forall|m: SoakMetric| m != metric implies value_in(t, m) == value_in(s, m)
                    && has_value(t, m) == has_value(s, m) by {
                    if has_value(s, m) {
                        let j = choose|j: int| 0 <= j < s.len() && (#[trigger] s[j]).metric == m;
                        assert(j != i);
                        assert(t[j] == s[j]);
                        lemma_value_at(s, j);
                        lemma_value_at(t, j);
                    } else {
                        assert(!has_value(t, m)) by {
                            if has_value(t, m) {
                                let j = choose|j: int| 0 <= j < t.len() && (#[trigger] t[j]).metric == m;
                                assert(s[j].metric == m);
                            }
                        }
                        lemma_value_absent(s, m);
                        lemma_value_absent(t, m);
                    }
                }
            }
        } else {
            proof {
                assert forall|j: int| i <= j < n implies spec_rank(s[j].metric) > k by {
                    if j > i {
                        assert(spec_rank(s[i as int].metric) < spec_rank(s[j].metric));
                    }
                    if spec_rank(s[j].metric) == k {
                        assert(s[j].metric == metric);
                    }
                }
            }
            self.values.insert(i, SoakMetricSample { metric, value });
            proof {
                let t = self.values@;
                assert(ordered(t)) by {
                    assert forall|a: int, b: int| 0 <= a < b < t.len() implies spec_rank(t[a].metric) < spec_rank(t[b].metric) by {
                        if b < i {
                        } else if b == i {
                        } else if a < i {
                            assert(t[b] == s[b - 1]);
                        } else if a == i {
                            assert(t[b] == s[b - 1]);
                        } else {
                            assert(t[b] == s[b - 1]);
                            assert(t[a] == s[a - 1]);
                        }
                    }
                }
                lemma_value_at(t, i as int);
                assert forall|m: SoakMetric| m != metric implies value_in(t, m) == value_in(s, m)
                    && has_value(t, m) == has_value(s, m) by {
                    if has_value(s, m) {
                        let j = choose|j: int| 0 <= j < s.len() && (#[trigger] s[j]).metric == m;
                        lemma_value_at(s, j);
                        if j < i {
                            assert(t[j] == s[j]);
                            lemma_value_at(t, j);
                        } else {
                            assert(t[j + 1] == s[j]);
                            lemma_value_at(t, j + 1);
                        }
                    } else {
                        assert(!has_value(t, m)) by {
                            if has_value(t, m) {
                                let j = choose|j: int| 0 <= j < t.len() && (#[trigger] t[j]).metric == m;
                                if j < i {
                                    assert(s[j].metric == m);
                                } else if j > i {
                                    assert(s[j - 1].metric == m);
                                }
                            }
                        }
                        lemma_value_absent(s, m);
                        lemma_value_absent(t, m);
                    }
                }
            }
        }
    }

    pub fn add(&mut self, metric: SoakMetric, delta: u64) -> (r: u64)
        requires
            old(self).wf(),
        ensures
            final(self).wf(),
            r == (if value_in(old(self).samples(), metric) + delta > u64::MAX {
                u64::MAX as int
            } else {
                value_in(old(self).samples(), metric) + delta
            }),
            value_in(final(self).samples(), metric) == r,
            has_value(final(self).samples(), metric),
            forall|m: SoakMetric| m != metric ==> value_in(final(self).samples(), m) == value_in(old(self).samples(), m)
                && has_value(final(self).samples(), m) == has_value(old(self).samples(), m),
    {
        let next = self.get(metric).saturating_add(delta);
        self.set(metric, next);
        next
    }

    pub fn get(&self, metric: SoakMetric) -> (r: u64)
        requires
            self.wf(),
        ensures
            r == value_in(self.samples(), metric),
    {
        let n = self.values.len();
        for i in 0..n
            invariant
                n == self.values@.len(),
                self.wf(),
                forall|j: int| 0 <= j < i ==> self.values@[j].metric != metric,
        {
            if self.values[i].metric == metric {
                proof {
                    lemma_value_at(self.values@, i as int);
                }
                return self.values[i].value;
            }
        }
        proof {
            lemma_value_absent(self.values@, metric);
        }
        0
    }

    pub fn snapshot(&self) -> (r: Vec<SoakMetricSample>)
        ensures
            r@ == self.samples(),
    {
        self.values.clone()
    }

    pub fn snapshot_pairs(&self) -> (r: Vec<(&'static str, u64)>)
        ensures
            r@.len() == self.samples().len(),
            forall|i: int|
                0 <= i < r@.len() ==> (#[trigger] r@[i]).1 == self.samples()[i].value && r@[i].0@ == (match self.samples()[i].metric {
                    SoakMetric::MemoryServerStartMb => "memory_server_start_mb"@,
                    SoakMetric::MemoryServerPeakMb => "memory_server_peak_mb"@,
                    SoakMetric::MemoryServerEndMb => "memory_server_end_mb"@,
                    SoakMetric::AllocationBytesTotal => "allocation_bytes_total"@,
                    SoakMetric::QueueDepthMax => "queue_depth_max"@,
                    SoakMetric::ConnectionsActive => "connections_active"@,
                    SoakMetric::SnapshotsDropped => "snapshots_dropped"@,
                    SoakMetric::ResendsQueued => "resends_queued"@,
                    SoakMetric::ResendsSent => "resends_sent"@,
                    SoakMetric::ShutdownClean => "shutdown_clean"@,
                }),
    {
        let mut out: Vec<(&'static str, u64)> = Vec::new();
        let n = self.values.len();
        for i in 0..n
            invariant
                n == self.values@.len(),
                out@.len() == i,
                forall|j: int|
                    0 <= j < i ==> (#[trigger] out@[j]).1 == self.values@[j].value && out@[j].0@ == (match self.values@[j].metric {
                        SoakMetric::MemoryServerStartMb => "memory_server_start_mb"@,
                        SoakMetric::MemoryServerPeakMb => "memory_server_peak_mb"@,
                        SoakMetric::MemoryServerEndMb => "memory_server_end_mb"@,
                        SoakMetric::AllocationBytesTotal => "allocation_bytes_total"@,
                        SoakMetric::QueueDepthMax => "queue_depth_max"@,
                        SoakMetric::ConnectionsActive => "connections_active"@,
                        SoakMetric::SnapshotsDropped => "snapshots_dropped"@,
                        SoakMetric::ResendsQueued => "resends_queued"@,
                        SoakMetric::ResendsSent => "resends_sent"@,
                        SoakMetric::ShutdownClean => "shutdown_clean"@,
                    }),
        {
            let sample = self.values[i];
            out.push((sample.metric.as_str(), sample.value));
        }
        out
    }

    pub fn record_shutdown(&mut self, clean: bool)
        requires
            old(self).wf(),
        ensures
            final(self).wf(),
            value_in(final(self).samples(), SoakMetric::ShutdownClean) == (if clean { 1u64 } else { 0u64 }),
            has_value(final(self).samples(), SoakMetric::ShutdownClean),
            forall|m: SoakMetric| m != SoakMetric::ShutdownClean ==> value_in(final(self).samples(), m) == value_in(old(self).samples(), m)
                && has_value(final(self).samples(), m) == has_value(old(self).samples(), m),
    {
        self.set(SoakMetric::ShutdownClean, if clean { 1 } else { 0 });
    }

    pub fn has_required_foundation_metrics(&self) -> (r: bool)
        requires
            self.wf(),
        ensures
            r == (forall|m: SoakMetric| has_value(self.samples(), m)),
    {
        let required = required_soak_metrics();
        for i in 0..10usize
            invariant
                required@.len() == 10,
                forall|m: SoakMetric| required@.contains(m),
                forall|j: int| 0 <= j < i ==> has_value(self.samples(), #[trigger] required@[j]),
        {
            let metric = required[i];
            let mut found = false;
            let n = self.values.len();
            for j in 0..n
                invariant
                    n == self.values@.len(),
                    found ==> has_value(self.samples(), metric),
                    !found ==> forall|a: int| 0 <= a < j ==> self.values@[a].metric != metric,
            {
                if self.values[j].metric == metric {
                    found = true;
                }
            }
            if !found {
                proof {
                    assert(!has_value(self.samples(), metric)) by {
                        if has_value(self.samples(), metric) {
                            let a = choose|a: int| 0 <= a < self.values@.len() && (#[trigger] self.values@[a]).metric == metric;
                        }
                    }
                }
                return false;
            }
        }
        proof {
            assert forall|m: SoakMetric| has_value(self.samples(), m) by {
                assert(required@.contains(m));
                let j = required@.index_of(m);
                assert(required@[j] == m);
                assert(has_value(self.samples(), required@[j]));
            }
        }
        true
    }

}

impl Default for SoakMetrics {
    fn default() -> (r: Self)
        ensures
            r.wf(),
            r.samples() == Seq::<SoakMetricSample>::empty(),
    {
        Self::new()
    }
}

/// Every soak metric that a foundation run must record, in declared order.
pub fn required_soak_metrics() -> (r: Vec<SoakMetric>)
    ensures
        r@.len() == 10,
        forall|m: SoakMetric| r@.contains(m),
        forall|i: int| 0 <= i < 10 ==> spec_rank(#[trigger] r@[i]) == i,
{
    let r = vec![
        SoakMetric::MemoryServerStartMb,
        SoakMetric::MemoryServerPeakMb,
        SoakMetric::MemoryServerEndMb,
        SoakMetric::AllocationBytesTotal,
        SoakMetric::QueueDepthMax,
        SoakMetric::ConnectionsActive,
        SoakMetric::SnapshotsDropped,
        SoakMetric::ResendsQueued,
        SoakMetric::ResendsSent,
        SoakMetric::ShutdownClean,
    ];
    proof {
        assert forall|m: SoakMetric| r@.contains(m) by {
            let i = spec_rank(m) as int;
            assert(r@[i] == m);
        }
    }
    r
}

} // verus!
