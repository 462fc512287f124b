use vstd::prelude::*;

use crate::determinism::{spec_canonical, spec_frame_checksum, DeterministicInput, DeterministicInputFrame, SimulationSeed};
use crate::simulation::Tick;
use crate::sorted::KeyedBuckets;

verus! {

#[derive(Debug, Clone, PartialEq, Eq)]
pub struct ReplayReport {
    pub frame_checksums: Vec<(Tick, u64)>,
}

/// The tick of the first position where two checksum lists differ (the left entry's tick
/// when it has one), or none when the lists are equal.
pub open spec fn spec_first_divergent(a: Seq<(Tick, u64)>, b: Seq<(Tick, u64)>) -> Option<Tick>
    decreases a.len() + b.len(),
{
    if a.len() == 0 && b.len() == 0 {
        None
    } else if a.len() == 0 {
        Some(b[0].0)
    } else if b.len() == 0 {
        Some(a[0].0)
    } else if a[0] != b[0] {
        Some(a[0].0)
    } else {
        spec_first_divergent(a.drop_first(), b.drop_first())
    }
}

impl ReplayReport {
    pub fn first_divergent_tick(&self, other: &ReplayReport) -> (r: Option<Tick>)
        ensures
            r == spec_first_divergent(self.frame_checksums@, other.frame_checksums@),
    {
        let a = &self.frame_checksums;
        let b = &other.frame_checksums;
        let max_len = if a.len() > b.len() { a.len() } else { b.len() };
        let mut index: usize = 0;
        assert(a@.skip(0) =~= a@);
        assert(b@.skip(0) =~= b@);
        while index < max_len
            invariant
                max_len == (if a@.len() > b@.len() { a@.len() } else { b@.len() }),
                index <= max_len,
                a@ == self.frame_checksums@,
                b@ == other.frame_checksums@,
                index <= a@.len(),
                index <= b@.len(),
                spec_first_divergent(a@, b@) == spec_first_divergent(a@.skip(index as int), b@.skip(index as int)),
            decreases max_len - index,
        {
            let ghost sa = a@.skip(index as int);
            let ghost sb = b@.skip(index as int);
            if index < a.len() && index < b.len() {
                let l = a[index];
                let rr = b[index];
                assert(sa.len() > 0 && sb.len() > 0);
                assert(sa[0] == l && sb[0] == rr);
                if l.0.0 != rr.0.0 || l.1 != rr.1 {
                    assert(sa[0] != sb[0]);
                    assert(spec_first_divergent(sa, sb) == Some(sa[0].0));
                    assert(spec_first_divergent(a@, b@) == Some(l.0));
                    return Some(l.0);
                }
                assert(sa[0] == sb[0]);
            } else if index < a.len() {
                assert(sb.len() == 0);
                assert(sa.len() > 0);
                assert(sa[0] == a@[index as int]);
                return Some(a[index].0);
            } else {
                assert(sa.len() == 0);
                return Some(b[index].0);
            }
            assert(sa.drop_first() =~= a@.skip(index + 1));
            assert(sb.drop_first() =~= b@.skip(index + 1));
            index = index + 1;
        }
        assert(a@.skip(index as int).len() == 0 && b@.skip(index as int).len() == 0);
        None
    }
}

/// Recorded inputs grouped by tick, replayed in ascending tick order.
#[derive(Debug)]
pub struct RecordedCommandStream {
    seed: SimulationSeed,
    inputs_by_tick: KeyedBuckets<DeterministicInput>,
}

impl RecordedCommandStream {
    pub closed spec fn wf(&self) -> bool {
        self.inputs_by_tick.wf()
    }

    pub closed spec fn spec_seed(&self) -> SimulationSeed {
        self.seed
    }

    /// The recorded ticks in ascending order.
    pub closed spec fn ticks(&self) -> Seq<u64> {
        self.inputs_by_tick.spec_keys()
    }

    /// The inputs recorded for a tick, in recording order.
    pub closed spec fn recorded(&self, tick: u64) -> Seq<DeterministicInput> {
        self.inputs_by_tick.bucket(tick)
    }

    pub fn new(seed: SimulationSeed) -> (r: Self)
        ensures
            r.wf(),
            r.spec_seed() == seed,
            r.ticks() == Seq::<u64>::empty(),
    {
        Self { seed, inputs_by_tick: KeyedBuckets::new() }
    }

    pub fn record(&mut self, input: DeterministicInput)
        requires
            old(self).wf(),
        ensures
            final(self).wf(),
            final(self).spec_seed() == old(self).spec_seed(),
            final(self).ticks().to_set() == old(self).ticks().to_set().insert(input.tick.0),
            final(self).recorded(input.tick.0) == old(self).recorded(input.tick.0).push(input),
            forall|t: u64| t != input.tick.0 ==> #[trigger] final(self).recorded(t) == old(self).recorded(t),
    {
        self.inputs_by_tick.add(input.tick.0, input);
    }

    /// One canonical frame per recorded tick, in ascending tick order.
    pub fn canonical_frames(&self) -> (r: Vec<DeterministicInputFrame>)
        requires
            self.wf(),
        ensures
            r@.len() == self.ticks().len(),
            forall|i: int|
                0 <= i < r@.len() ==> (#[trigger] r@[i]).tick.0 == self.ticks()[i] && r@[i].inputs@ == spec_canonical(
                    Tick(self.ticks()[i]),
                    self.recorded(self.ticks()[i]),
                ),
    {
        let mut out: Vec<DeterministicInputFrame> = Vec::new();
        let n = self.inputs_by_tick.len();
        for i in 0..n
            invariant
                n == self.ticks().len(),
                self.wf(),
                out@.len() == i,
                forall|j: int|
                    0 <= j < i ==> (#[trigger] out@[j]).tick.0 == self.ticks()[j] && out@[j].inputs@ == spec_canonical(
                        Tick(self.ticks()[j]),
                        self.recorded(self.ticks()[j]),
                    ),
        {
            let t = self.inputs_by_tick.key_at(i);
            let bucket = self.inputs_by_tick.bucket_ref(i);
            let mut copy: Vec<DeterministicInput> = Vec::new();
            for j in 0..bucket.len()
                invariant
                    copy@ == bucket@.take(j as int),
            {
                copy.push(bucket[j]);
                assert(bucket@.take(j + 1) =~= copy@);
            }
            assert(bucket@.take(bucket@.len() as int) =~= bucket@);
            proof {
                lemma_index_of_key(self, i as int);
            }
            out.push(DeterministicInputFrame::canonical(Tick(t), copy));
        }
        out
    }

    pub fn replay_report(&self) -> (r: ReplayReport)
        requires
            self.wf(),
        ensures
            r.frame_checksums@.len() == self.ticks().len(),
            forall|i: int|
                0 <= i < r.frame_checksums@.len() ==> (#[trigger] r.frame_checksums@[i]).0.0 == self.ticks()[i]
                    && r.frame_checksums@[i].1 == spec_frame_checksum(
                    self.spec_seed().0,
                    self.ticks()[i],
                    spec_canonical(Tick(self.ticks()[i]), self.recorded(self.ticks()[i])),
                ),
    {
        let frames = self.canonical_frames();
        let mut out: Vec<(Tick, u64)> = Vec::new();
        for i in 0..frames.len()
            invariant
                out@.len() == i,
                frames@.len() == self.ticks().len(),
                forall|j: int|
                    0 <= j < frames@.len() ==> (#[trigger] frames@[j]).tick.0 == self.ticks()[j] && frames@[j].inputs@ == spec_canonical(
                        Tick(self.ticks()[j]),
                        self.recorded(self.ticks()[j]),
                    ),
                forall|j: int|
                    0 <= j < i ==> (#[trigger] out@[j]).0.0 == self.ticks()[j] && out@[j].1 == spec_frame_checksum(
                        self.spec_seed().0,
                        self.ticks()[j],
                        spec_canonical(Tick(self.ticks()[j]), self.recorded(self.ticks()[j])),
                    ),
        {
            let c = frames[i].checksum(self.seed);
            out.push((frames[i].tick, c));
        }
        ReplayReport { frame_checksums: out }
    }
}

proof fn lemma_index_of_key(s: &RecordedCommandStream, i: int)
    requires
        s.wf(),
        0 <= i < s.ticks().len(),
    ensures
        s.recorded(s.ticks()[i]) == s.inputs_by_tick.bucket_at(i),
{
    s.inputs_by_tick.lemma_wf_keys();
    lemma_unique_index(s.inputs_by_tick.spec_keys(), i);
}

proof fn lemma_unique_index(keys: Seq<u64>, i: int)
    requires
        crate::sorted::strictly_increasing(keys),
        0 <= i < keys.len(),
    ensures
        keys.index_of(keys[i]) == i,
{
    assert(keys.contains(keys[i]));
    let a = keys.index_of(keys[i]);
    assert(keys[a] == keys[i]);
    if a < i {
        assert(keys[a] < keys[i]);
    } else if a > i {
        assert(keys[i] < keys[a]);
    }
}

} // verus!
