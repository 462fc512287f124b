use vstd::prelude::*;

use crate::reliability::CommandId;
use crate::simulation::{PlayerSessionId, Tick};

verus! {

#[derive(Debug, Clone, Copy, PartialEq, Eq, Structural)]
pub struct SimulationSeed(pub u64);

#[derive(Debug, Clone, Copy, PartialEq, Eq, Structural)]
pub struct DeterministicInput {
    pub tick: Tick,
    pub player_session_id: PlayerSessionId,
    pub command_id: CommandId,
    pub command_type: u16,
    pub target_tick: Tick,
    pub payload_hash: u64,
}

#[derive(Debug, Clone, PartialEq, Eq)]
pub struct DeterministicInputFrame {
    pub tick: Tick,
    pub inputs: Vec<DeterministicInput>,
}

/// Whether `a` orders no later than `b` by (session, command id, command type, target tick).
pub open spec fn key_le(a: DeterministicInput, b: DeterministicInput) -> bool {
    if a.player_session_id.0 != b.player_session_id.0 {
        a.player_session_id.0 < b.player_session_id.0
    } else if a.command_id.0 != b.command_id.0 {
        a.command_id.0 < b.command_id.0
    } else if a.command_type != b.command_type {
        a.command_type < b.command_type
    } else {
        a.target_tick.0 <= b.target_tick.0
    }
}

fn exec_key_le(a: &DeterministicInput, b: &DeterministicInput) -> (r: bool)
    ensures
        r == key_le(*a, *b),
{
    if a.player_session_id.0 != b.player_session_id.0 {
        a.player_session_id.0 < b.player_session_id.0
    } else if a.command_id.0 != b.command_id.0 {
        a.command_id.0 < b.command_id.0
    } else if a.command_type != b.command_type {
        a.command_type < b.command_type
    } else {
        a.target_tick.0 <= b.target_tick.0
    }
}

/// Inserts `x` into a sorted sequence after every element that orders no later than it.
pub open spec fn insert_stable(s: Seq<DeterministicInput>, x: DeterministicInput) -> Seq<DeterministicInput>
    decreases s.len(),
{
    if s.len() == 0 {
        seq![x]
    } else if key_le(s.last(), x) {
        s.push(x)
    } else {
        insert_stable(s.drop_last(), x).push(s.last())
    }
}

/// The stable sort of a sequence by the input key.
pub open spec fn sort_stable(s: Seq<DeterministicInput>) -> Seq<DeterministicInput>
    decreases s.len(),
{
    if s.len() == 0 {
        s
    } else {
        insert_stable(sort_stable(s.drop_last()), s.last())
    }
}

/// The canonical inputs of a frame: those of the frame's tick, stably sorted by key.
pub open spec fn spec_canonical(tick: Tick, inputs: Seq<DeterministicInput>) -> Seq<DeterministicInput> {
    sort_stable(inputs.filter(|i: DeterministicInput| i.tick == tick))
}

proof fn lemma_insert_split(s: Seq<DeterministicInput>, x: DeterministicInput, k: int)
    requires
        0 <= k <= s.len(),
        forall|j: int| k <= j < s.len() ==> !key_le(#[trigger] s[j], x),
    ensures
        insert_stable(s, x) == insert_stable(s.take(k), x) + s.skip(k),
    decreases s.len(),
{
    if k == s.len() {
        assert(s.take(k) =~= s);
        assert(s.skip(k) =~= Seq::<DeterministicInput>::empty());
    } else {
        let t = s.drop_last();
        lemma_insert_split(t, x, k);
        assert(t.take(k) =~= s.take(k));
        assert(t.skip(k).push(s.last()) =~= s.skip(k));
    }
}

fn insert_sorted(out: &mut Vec<DeterministicInput>, x: DeterministicInput)
    ensures
        final(out)@ == insert_stable(old(out)@, x),
{
    let mut j = out.len();
    while j > 0 && !exec_key_le(&out[j - 1], &x)
        invariant
            j <= out@.len(),
            *out == *old(out),
            forall|a: int| j <= a < out@.len() ==> !key_le(#[trigger] out@[a], x),
        decreases j,
    {
        j = j - 1;
    }
    proof {
        lemma_insert_split(out@, x, j as int);
        let t = out@.take(j as int);
        if j > 0 {
            assert(t.last() == out@[j - 1]);
        }
        assert(insert_stable(t, x) == t.push(x));
        assert(out@.insert(j as int, x) =~= t.push(x) + out@.skip(j as int));
    }
    out.insert(j, x);
}

impl DeterministicInputFrame {
    pub fn canonical(tick: Tick, inputs: Vec<DeterministicInput>) -> (r: Self)
        ensures
            r.tick == tick,
            r.inputs@ == spec_canonical(tick, inputs@),
    {
        let ghost pred = |i: DeterministicInput| i.tick == tick;
        let mut kept: Vec<DeterministicInput> = Vec::new();
        let n = inputs.len();
        for i in 0..n
            invariant
                n == inputs@.len(),
                pred == (|i: DeterministicInput| i.tick == tick),
                kept@ == inputs@.take(i as int).filter(pred),
        {
            let x = inputs[i];
            if x.tick.0 == tick.0 {
                kept.push(x);
            }
            proof {
                let p = inputs@.take(i as int);
                assert(inputs@.take(i + 1) =~= p.push(x));
                p.lemma_filter_push(x, pred);
            }
        }
        assert(inputs@.take(n as int) =~= inputs@);
        let mut sorted: Vec<DeterministicInput> = Vec::new();
        let m = kept.len();
        for i in 0..m
            invariant
                m == kept@.len(),
                sorted@ == sort_stable(kept@.take(i as int)),
        {
            proof {
                let p = kept@.take(i + 1);
                assert(p.drop_last() =~= kept@.take(i as int));
            }
            insert_sorted(&mut sorted, kept[i]);
        }
        assert(kept@.take(m as int) =~= kept@);
        Self { tick, inputs: sorted }
    }

    pub fn checksum(&self, seed: SimulationSeed) -> (r: u64)
        ensures
            r == spec_frame_checksum(seed.0, self.tick.0, self.inputs@),
    {
        let mut hash = fnv1a64(seed.0, self.tick.0);
        let n = self.inputs.len();
        for i in 0..n
            invariant
                n == self.inputs@.len(),
                hash == fold_inputs(spec_fnv1a64(seed.0, self.tick.0), self.inputs@.take(i as int)),
        {
            let input = self.inputs[i];
            hash = fnv1a64(hash, input.player_session_id.0);
            hash = fnv1a64(hash, input.command_id.0);
            hash = fnv1a64(hash, input.command_type as u64);
            hash = fnv1a64(hash, input.target_tick.0);
            hash = fnv1a64(hash, input.payload_hash);
            proof {
                assert(self.inputs@.take(i + 1).drop_last() =~= self.inputs@.take(i as int));
            }
        }
        assert(self.inputs@.take(n as int) =~= self.inputs@);
        hash
    }
}

/// The hash after folding in one input's fields.
pub open spec fn hash_input(h: u64, input: DeterministicInput) -> u64 {
    let h1 = spec_fnv1a64(h, input.player_session_id.0);
    let h2 = spec_fnv1a64(h1, input.command_id.0);
    let h3 = spec_fnv1a64(h2, input.command_type as u64);
    let h4 = spec_fnv1a64(h3, input.target_tick.0);
    spec_fnv1a64(h4, input.payload_hash)
}

/// The hash after folding in every input in order.
pub open spec fn fold_inputs(h: u64, inputs: Seq<DeterministicInput>) -> u64
    decreases inputs.len(),
{
    if inputs.len() == 0 {
        h
    } else {
        hash_input(fold_inputs(h, inputs.drop_last()), inputs.last())
    }
}

/// The checksum of a frame: the seed and tick hashed, then each input's fields in order.
pub open spec fn spec_frame_checksum(seed: u64, tick: u64, inputs: Seq<DeterministicInput>) -> u64 {
    fold_inputs(spec_fnv1a64(seed, tick), inputs)
}

/// FNV-1a over the first `k` little-endian bytes of `v`.
pub open spec fn fnv_word(h: u64, v: u64, k: nat) -> u64
    decreases k,
{
    if k == 0 {
        h
    } else {
        fnv_word(
            vstd::wrapping::u64_specs::wrapping_mul(h ^ (v % 256), 0x0000_0100_0000_01b3),
            v / 256,
            (k - 1) as nat,
        )
    }
}

/// FNV-1a over the eight little-endian bytes of `value`, starting from `hash` (or the offset
/// basis when `hash` is zero).
pub open spec fn spec_fnv1a64(hash: u64, value: u64) -> u64 {
    fnv_word(if hash == 0 { 0xcbf2_9ce4_8422_2325 } else { hash }, value, 8)
}

pub fn derive_simulation_seed(match_id: u64, map_checksum: u64, protocol_version: u16) -> (r: SimulationSeed)
    ensures
        r.0 == spec_fnv1a64(spec_fnv1a64(match_id, map_checksum), protocol_version as u64),
{
    SimulationSeed(fnv1a64(fnv1a64(match_id, map_checksum), protocol_version as u64))
}

fn fnv1a64(hash: u64, value: u64) -> (r: u64)
    ensures
        r == spec_fnv1a64(hash, value),
{
    let mut h: u64 = if hash == 0 { 0xcbf2_9ce4_8422_2325 } else { hash };
    let mut v = value;
    let mut k: u64 = 8;
    while k > 0
        invariant
            k <= 8,
            fnv_word(h, v, k as nat) == spec_fnv1a64(hash, value),
        decreases k,
    {
        h = (h ^ (v % 256)).wrapping_mul(0x0000_0100_0000_01b3);
        v = v / 256;
        k = k - 1;
    }
    h
}

} // verus!
