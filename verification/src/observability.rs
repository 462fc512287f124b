use vstd::prelude::*;

verus! {

#[derive(Debug, Clone, Copy, PartialEq, Eq, PartialOrd, Ord, Structural)]
pub enum ObservabilityCounter {
    ConnectionsActive,
    CommandsPending,
    CommandsAccepted,
    CommandsRejected,
    SnapshotsBuilt,
    SnapshotsDropped,
    VisibleEntities,
    RenderProxyCount,
    BackpressureEvents,
    RedactionEvents,
}

/// The position of a counter in the declared order.
pub open spec fn spec_rank(m: ObservabilityCounter) -> nat {
    match m {
        ObservabilityCounter::ConnectionsActive => 0,
        ObservabilityCounter::CommandsPending => 1,
        ObservabilityCounter::CommandsAccepted => 2,
        ObservabilityCounter::CommandsRejected => 3,
        ObservabilityCounter::SnapshotsBuilt => 4,
        ObservabilityCounter::SnapshotsDropped => 5,
        ObservabilityCounter::VisibleEntities => 6,
        ObservabilityCounter::RenderProxyCount => 7,
        ObservabilityCounter::BackpressureEvents => 8,
        ObservabilityCounter::RedactionEvents => 9,
    }
}

fn rank(m: ObservabilityCounter) -> (r: u8)
    ensures
        r == spec_rank(m),
{
    match m {
        ObservabilityCounter::ConnectionsActive => 0,
        ObservabilityCounter::CommandsPending => 1,
        ObservabilityCounter::CommandsAccepted => 2,
        ObservabilityCounter::CommandsRejected => 3,
        ObservabilityCounter::SnapshotsBuilt => 4,
        ObservabilityCounter::SnapshotsDropped => 5,
        ObservabilityCounter::VisibleEntities => 6,
        ObservabilityCounter::RenderProxyCount => 7,
        ObservabilityCounter::BackpressureEvents => 8,
        ObservabilityCounter::RedactionEvents => 9,
    }
}

impl ObservabilityCounter {
    pub fn as_str(self) -> (r: &'static str)
        ensures
            r@ == (match self {
                ObservabilityCounter::ConnectionsActive => "connections_active"@,
                ObservabilityCounter::CommandsPending => "commands_pending"@,
                ObservabilityCounter::CommandsAccepted => "commands_accepted"@,
                ObservabilityCounter::CommandsRejected => "commands_rejected"@,
                ObservabilityCounter::SnapshotsBuilt => "snapshots_built"@,
                ObservabilityCounter::SnapshotsDropped => "snapshots_dropped"@,
                ObservabilityCounter::VisibleEntities => "visible_entities"@,
                ObservabilityCounter::RenderProxyCount => "render_proxy_count"@,
                ObservabilityCounter::BackpressureEvents => "backpressure_events"@,
                ObservabilityCounter::RedactionEvents => "redaction_events"@,
            }),
    {
        match self {
            Self::ConnectionsActive => "connections_active",
            Self::CommandsPending => "commands_pending",
            Self::CommandsAccepted => "commands_accepted",
            Self::CommandsRejected => "commands_rejected",
            Self::SnapshotsBuilt => "snapshots_built",
            Self::SnapshotsDropped => "snapshots_dropped",
            Self::VisibleEntities => "visible_entities",
            Self::RenderProxyCount => "render_proxy_count",
            Self::BackpressureEvents => "backpressure_events",
            Self::RedactionEvents => "redaction_events",
        }
    }
}

#[derive(Debug, Clone, Copy, PartialEq, Eq, Structural)]
pub struct CounterSample {
    pub counter: ObservabilityCounter,
    pub value: u64,
}

/// Named values, each stored once, in the declared order of the names.
#[derive(Debug, Clone, PartialEq, Eq)]
pub struct ObservabilityCounters {
    values: Vec<CounterSample>,
}

/// The value stored for a name in an ordered sample list, or zero.
pub open spec fn value_in(s: Seq<CounterSample>, m: ObservabilityCounter) -> u64
    decreases s.len(),
{
    if s.len() == 0 {
        0
    } else if s.last().counter == m {
        s.last().value
    } else {
        value_in(s.drop_last(), m)
    }
}

/// Whether a name has a stored value.
pub open spec fn has_value(s: Seq<CounterSample>, m: ObservabilityCounter) -> bool {
    exists|i: int| 0 <= i < s.len() && (#[trigger] s[i]).counter == m
}

/// Names in strictly ascending declared order.
pub open spec fn ordered(s: Seq<CounterSample>) -> bool {
    forall|i: int, j: int| 0 <= i < j < s.len() ==> spec_rank(s[i].counter) < spec_rank(s[j].counter)
}

proof fn lemma_value_at(s: Seq<CounterSample>, i: int)
    requires
        ordered(s),
        0 <= i < s.len(),
    ensures
        value_in(s, s[i].counter) == s[i].value,
    decreases s.len(),
{
    if i < s.len() - 1 {
        assert(spec_rank(s[i].counter) < spec_rank(s.last().counter));
        lemma_value_at(s.drop_last(), i);
    }
}

proof fn lemma_value_absent(s: Seq<CounterSample>, m: ObservabilityCounter)
    requires
        !has_value(s, m),
    ensures
        value_in(s, m) == 0,
    decreases s.len(),
{
    if s.len() > 0 {
        assert(s.last() == s[s.len() - 1]);
        assert(!has_value(s.drop_last(), m)) by {
            if has_value(s.drop_last(), m) {
                let i = choose|i: int| 0 <= i < s.drop_last().len() && (#[trigger] s.drop_last()[i]).counter == m;
                assert(s[i].counter == m);
            }
        }
        lemma_value_absent(s.drop_last(), m);
    }
}

impl ObservabilityCounters {
    /// The stored samples, in declared order of their names.
    pub closed spec fn samples(&self) -> Seq<CounterSample> {
        self.values@
    }

    pub closed spec fn wf(&self) -> bool {
        ordered(self.values@)
    }

    pub fn new() -> (r: Self)
        ensures
            r.wf(),
            r.samples() == Seq::<CounterSample>::empty(),
    {
        Self { values: Vec::new() }
    }

    pub fn set(&mut self, counter: ObservabilityCounter, value: u64)
        requires
            old(self).wf(),
        ensures
            final(self).wf(),
            value_in(final(self).samples(), counter) == value,
            has_value(final(self).samples(), counter),
            forall|m: ObservabilityCounter| m != counter ==> value_in(final(self).samples(), m) == value_in(old(self).samples(), m)
                && has_value(final(self).samples(), m) == has_value(old(self).samples(), m),
    {
        let k = rank(counter);
        let n = self.values.len();
        let mut i: usize = 0;
        while i < n && rank(self.values[i].counter) < k
            invariant
                n == self.values@.len(),
                i <= n,
                *self == *old(self),
                forall|j: int| 0 <= j < i ==> spec_rank(self.values@[j].counter) < k,
            decreases n - i,
        {
            i = i + 1;
        }
        let ghost s = self.values@;
        if i < n && self.values[i].counter == counter {
            self.values.set(i, CounterSample { counter, value });
            proof {
                let t = self.values@;
                assert(ordered(t)) by {
                    assert forall|a: int, b: int| 0 <= a < b < t.len() implies spec_rank(t[a].counter) < spec_rank(t[b].counter) by {
                        assert(spec_rank(s[a].counter) < spec_rank(s[b].counter));
                    }
                }
                lemma_value_at(t, i as int);
                assert forall|m: ObservabilityCounter| m != counter implies value_in(t, m) == value_in(s, m)
                    && has_value(t, m) == has_value(s, m) by {
                    if has_value(s, m) {
                        let j = choose|j: int| 0 <= j < s.len() && (#[trigger] s[j]).counter == m;
                        assert(j != i);
                        assert(t[j] == s[j]);
                        lemma_value_at(s, j);
                        lemma_value_at(t, j);
                    } else {
                        assert(!has_value(t, m)) by {
                            if has_value(t, m) {
                                let j = choose|j: int| 0 <= j < t.len() && (#[trigger] t[j]).counter == m;
                                assert(s[j].counter == m);
                            }
                        }
                        lemma_value_absent(s, m);
                        lemma_value_absent(t, m);
                    }
                }
            }
        } else {
            proof {
                assert forall|j: int| i <= j < n implies spec_rank(s[j].counter) > k by {
                    if j > i {
                        assert(spec_rank(s[i as int].counter) < spec_rank(s[j].counter));
                    }
                    if spec_rank(s[j].counter) == k {
                        assert(s[j].counter == counter);
                    }
                }
            }
            self.values.insert(i, CounterSample { counter, value });
            proof {
                let t = self.values@;
                assert(ordered(t)) by {
                    assert forall|a: int, b: int| 0 <= a < b < t.len() implies spec_rank(t[a].counter) < spec_rank(t[b].counter) by {
                        if b < i {
                        } else if b == i {
                        } else if a < i {
                            assert(t[b] == s[b - 1]);
                        } else if a == i {
                            assert(t[b] == s[b - 1]);
                        } else {
                            assert(t[b] == s[b - 1]);
                            assert(t[a] == s[a - 1]);
                        }
                    }
                }
                lemma_value_at(t, i as int);
                assert forall|m: ObservabilityCounter| m != counter implies value_in(t, m) == value_in(s, m)
                    && has_value(t, m) == has_value(s, m) by {
                    if has_value(s, m) {
                        let j = choose|j: int| 0 <= j < s.len() && (#[trigger] s[j]).counter == m;
                        lemma_value_at(s, j);
                        if j < i {
                            assert(t[j] == s[j]);
                            lemma_value_at(t, j);
                        } else {
                            assert(t[j + 1] == s[j]);
                            lemma_value_at(t, j + 1);
                        }
                    } else {
                        assert(!has_value(t, m)) by {
                            if has_value(t, m) {
                                let j = choose|j: int| 0 <= j < t.len() && (#[trigger] t[j]).counter == m;
                                if j < i {
                                    assert(s[j].counter == m);
                                } else if j > i {
                                    assert(s[j - 1].counter == m);
                                }
                            }
                        }
                        lemma_value_absent(s, m);
                        lemma_value_absent(t, m);
                    }
                }
            }
        }
    }

    pub fn add(&mut self, counter: ObservabilityCounter, delta: u64) -> (r: u64)
        requires
            old(self).wf(),
        ensures
            final(self).wf(),
            r == (if value_in(old(self).samples(), counter) + delta > u64::MAX {
                u64::MAX as int
            } else {
                value_in(old(self).samples(), counter) + delta
            }),
            value_in(final(self).samples(), counter) == r,
            has_value(final(self).samples(), counter),
            forall|m: ObservabilityCounter| m != counter ==> value_in(final(self).samples(), m) == value_in(old(self).samples(), m)
                && has_value(final(self).samples(), m) == has_value(old(self).samples(), m),
    {
        let next = self.get(counter).saturating_add(delta);
        self.set(counter, next);
        next
    }

    pub fn get(&self, counter: ObservabilityCounter) -> (r: u64)
        requires
            self.wf(),
        ensures
            r == value_in(self.samples(), counter),
    {
        let n = self.values.len();
        for i in 0..n
            invariant
                n == self.values@.len(),
                self.wf(),
                forall|j: int| 0 <= j < i ==> self.values@[j].counter != counter,
        {
            if self.values[i].counter == counter {
                proof {
                    lemma_value_at(self.values@, i as int);
                }
                return self.values[i].value;
            }
        }
        proof {
            lemma_value_absent(self.values@, counter);
        }
        0
    }

    pub fn snapshot(&self) -> (r: Vec<CounterSample>)
        ensures
            r@ == self.samples(),
    {
        self.values.clone()
    }

    pub fn snapshot_pairs(&self) -> (r: Vec<(&'static str, u64)>)
        ensures
            r@.len() == self.samples().len(),
            forall|i: int|
                0 <= i < r@.len() ==> (#[trigger] r@[i]).1 == self.samples()[i].value && r@[i].0@ == (match self.samples()[i].counter {
                    ObservabilityCounter::ConnectionsActive => "connections_active"@,
                    ObservabilityCounter::CommandsPending => "commands_pending"@,
                    ObservabilityCounter::CommandsAccepted => "commands_accepted"@,
                    ObservabilityCounter::CommandsRejected => "commands_rejected"@,
                    ObservabilityCounter::SnapshotsBuilt => "snapshots_built"@,
                    ObservabilityCounter::SnapshotsDropped => "snapshots_dropped"@,
                    ObservabilityCounter::VisibleEntities => "visible_entities"@,
                    ObservabilityCounter::RenderProxyCount => "render_proxy_count"@,
                    ObservabilityCounter::BackpressureEvents => "backpressure_events"@,
                    ObservabilityCounter::RedactionEvents => "redaction_events"@,
                }),
    {
        let mut out: Vec<(&'static str, u64)> = Vec::new();
        let n = self.values.len();
        for i in 0..n
            invariant
                n == self.values@.len(),
                out@.len() == i,
                forall|j: int|
                    0 <= j < i ==> (#[trigger] out@[j]).1 == self.values@[j].value && out@[j].0@ == (match self.values@[j].counter {
                        ObservabilityCounter::ConnectionsActive => "connections_active"@,
                        ObservabilityCounter::CommandsPending => "commands_pending"@,
                        ObservabilityCounter::CommandsAccepted => "commands_accepted"@,
                        ObservabilityCounter::CommandsRejected => "commands_rejected"@,
                        ObservabilityCounter::SnapshotsBuilt => "snapshots_built"@,
                        ObservabilityCounter::SnapshotsDropped => "snapshots_dropped"@,
                        ObservabilityCounter::VisibleEntities => "visible_entities"@,
                        ObservabilityCounter::RenderProxyCount => "render_proxy_count"@,
                        ObservabilityCounter::BackpressureEvents => "backpressure_events"@,
                        ObservabilityCounter::RedactionEvents => "redaction_events"@,
                    }),
        {
            let sample = self.values[i];
            out.push((sample.counter.as_str(), sample.value));
        }
        out
    }

    pub fn increment(&mut self, counter: ObservabilityCounter) -> (r: u64)
        requires
            old(self).wf(),
        ensures
            final(self).wf(),
            r == (if value_in(old(self).samples(), counter) + 1 > u64::MAX {
                u64::MAX as int
            } else {
                value_in(old(self).samples(), counter) + 1
            }),
            value_in(final(self).samples(), counter) == r,
            forall|m: ObservabilityCounter| m != counter ==> value_in(final(self).samples(), m) == value_in(old(self).samples(), m),
    {
        self.add(counter, 1)
    }

}

impl Default for ObservabilityCounters {
    fn default() -> (r: Self)
        ensures
            r.wf(),
            r.samples() == Seq::<CounterSample>::empty(),
    {
        Self::new()
    }
}

} // verus!
