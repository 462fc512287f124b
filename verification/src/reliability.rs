use std::collections::BTreeSet;
use vstd::prelude::*;

use crate::arith::clamp_u64;
use crate::simulation::Tick;
use crate::sorted::{lemma_insert_keeps_increasing, lower_bound, strictly_increasing};

verus! {

#[derive(Debug, Clone, Copy, PartialEq, Eq, PartialOrd, Ord, Structural)]
pub struct CommandId(pub u64);

#[derive(Debug, Clone, Copy, PartialEq, Eq, Structural)]
pub enum ClientSequenceResult {
    Accepted { client_seq: u32 },
    DuplicateOrStale { last_accepted_client_seq: u32 },
    Gap { expected_client_seq: u32, received_client_seq: u32 },
    InvalidZero,
}

#[derive(Debug, Clone, Copy, PartialEq, Eq, Structural)]
pub enum CommandIdempotencyResult {
    New,
    DuplicateIgnored,
}

#[derive(Debug, Clone, Copy, PartialEq, Eq, Structural)]
pub struct PendingReliablePacket {
    pub server_seq: u32,
    pub payload_len: u32,
    pub first_sent_tick: Tick,
    pub last_sent_tick: Tick,
    pub resend_count: u16,
}

/// Reliability bookkeeping for one client: the client sequence, the command ids seen, and the
/// server packets awaiting acknowledgement (kept in ascending sequence order).
#[derive(Debug, Clone)]
pub struct CommandReliabilityState {
    pub last_accepted_client_seq: u32,
    accepted_command_ids: BTreeSet<u64>,
    pending_seqs: Vec<u64>,
    pending_packets: Vec<PendingReliablePacket>,
}

/// Whether a pending packet is due for resend at `now`.
pub open spec fn spec_due(p: PendingReliablePacket, now: Tick, resend_after_ticks: u64) -> bool {
    clamp_u64(now.0 - p.last_sent_tick.0) >= resend_after_ticks
}

impl CommandReliabilityState {
    /// Pending packets are stored once per sequence number, in ascending order.
    pub closed spec fn wf(&self) -> bool {
        &&& self.pending_seqs@.len() == self.pending_packets@.len()
        &&& strictly_increasing(self.pending_seqs@)
        &&& forall|i: int|
            0 <= i < self.pending_seqs@.len() ==> self.pending_seqs@[i] == (#[trigger] self.pending_packets@[i]).server_seq
    }

    /// The last client sequence number accepted.
    pub closed spec fn last_seq(&self) -> u32 {
        self.last_accepted_client_seq
    }

    /// The command ids accepted so far.
    pub closed spec fn accepted_ids(&self) -> Set<u64> {
        self.accepted_command_ids@
    }

    /// The packets awaiting acknowledgement, in ascending sequence order.
    pub closed spec fn pending(&self) -> Seq<PendingReliablePacket> {
        self.pending_packets@
    }

    pub fn new() -> (r: Self)
        ensures
            r.wf(),
            r.last_seq() == 0,
            r.accepted_ids() == Set::<u64>::empty(),
            r.pending() == Seq::<PendingReliablePacket>::empty(),
    {
        Self {
            last_accepted_client_seq: 0,
            accepted_command_ids: BTreeSet::new(),
            pending_seqs: Vec::new(),
            pending_packets: Vec::new(),
        }
    }

    pub fn accept_client_seq(&mut self, client_seq: u32) -> (r: ClientSequenceResult)
        ensures
            final(self).accepted_ids() == old(self).accepted_ids(),
            final(self).pending() == old(self).pending(),
            final(self).wf() == old(self).wf(),
            ({
                let last = old(self).last_seq();
                let expected = if last == u32::MAX { u32::MAX } else { (last + 1) as u32 };
                if client_seq == 0 {
                    r == ClientSequenceResult::InvalidZero && final(self).last_seq() == last
                } else if client_seq == expected {
                    r == (ClientSequenceResult::Accepted { client_seq })
                        && final(self).last_seq() == client_seq
                } else if client_seq <= last {
                    r == (ClientSequenceResult::DuplicateOrStale { last_accepted_client_seq: last })
                        && final(self).last_seq() == last
                } else {
                    r == (ClientSequenceResult::Gap { expected_client_seq: expected, received_client_seq: client_seq })
                        && final(self).last_seq() == last
                }
            }),
    {
        if client_seq == 0 {
            return ClientSequenceResult::InvalidZero;
        }
        let expected_client_seq = self.last_accepted_client_seq.saturating_add(1);
        if client_seq == expected_client_seq {
            self.last_accepted_client_seq = client_seq;
            ClientSequenceResult::Accepted { client_seq }
        } else if client_seq <= self.last_accepted_client_seq {
            ClientSequenceResult::DuplicateOrStale { last_accepted_client_seq: self.last_accepted_client_seq }
        } else {
            ClientSequenceResult::Gap { expected_client_seq, received_client_seq: client_seq }
        }
    }

    pub fn accept_command_id(&mut self, command_id: CommandId) -> (r: CommandIdempotencyResult)
        ensures
            final(self).accepted_ids() == old(self).accepted_ids().insert(command_id.0),
            r == (if old(self).accepted_ids().contains(command_id.0) {
                CommandIdempotencyResult::DuplicateIgnored
            } else {
                CommandIdempotencyResult::New
            }),
            final(self).last_seq() == old(self).last_seq(),
            final(self).pending() == old(self).pending(),
            final(self).wf() == old(self).wf(),
    {
        if self.accepted_command_ids.insert(command_id.0) {
            CommandIdempotencyResult::New
        } else {
            CommandIdempotencyResult::DuplicateIgnored
        }
    }

    pub fn queue_reliable_packet(&mut self, server_seq: u32, payload_len: u32, now: Tick) -> (r: PendingReliablePacket)
        requires
            old(self).wf(),
        ensures
            final(self).wf(),
            r == (PendingReliablePacket {
                server_seq,
                payload_len,
                first_sent_tick: now,
                last_sent_tick: now,
                resend_count: 0,
            }),
            final(self).pending().contains(r),
            forall|p: PendingReliablePacket|
                #[trigger] final(self).pending().contains(p) <==> (p == r || (old(self).pending().contains(p)
                    && p.server_seq != server_seq)),
            final(self).accepted_ids() == old(self).accepted_ids(),
            final(self).last_seq() == old(self).last_seq(),
    {
        let packet = PendingReliablePacket {
            server_seq,
            payload_len,
            first_sent_tick: now,
            last_sent_tick: now,
            resend_count: 0,
        };
        let k = server_seq as u64;
        let i = lower_bound(&self.pending_seqs, k);
        if i < self.pending_seqs.len() && self.pending_seqs[i] == k {
            self.pending_packets.set(i, packet);
            proof {
                assert(self.pending_packets@[i as int] == packet);
                assert forall|p: PendingReliablePacket|
                    #[trigger] self.pending().contains(p) <==> (p == packet || (old(self).pending().contains(p)
                        && p.server_seq != server_seq)) by {
                    if self.pending().contains(p) {
                        let j = self.pending_packets@.index_of(p);
                        if j != i {
                            assert(old(self).pending_packets@[j] == p);
                            assert(self.pending_seqs@[j] != self.pending_seqs@[i as int]);
                        }
                    }
                    if old(self).pending().contains(p) && p.server_seq != server_seq {
                        let j = old(self).pending_packets@.index_of(p);
                        assert(j != i);
                        assert(self.pending_packets@[j] == p);
                    }
                }
            }
        } else {
            proof {
                assert forall|j: int| i <= j < self.pending_seqs@.len() implies self.pending_seqs@[j] > k by {
                    if j > i {
                        assert(self.pending_seqs@[i as int] < self.pending_seqs@[j]);
                    }
                }
                lemma_insert_keeps_increasing(self.pending_seqs@, i as int, k);
            }
            self.pending_seqs.insert(i, k);
            self.pending_packets.insert(i, packet);
            proof {
                assert forall|j: int|
                    0 <= j < self.pending_seqs@.len() implies self.pending_seqs@[j] == (#[trigger] self.pending_packets@[j]).server_seq by {
                    if j < i {
                    } else if j == i {
                    } else {
                        assert(old(self).pending_seqs@[j - 1] == old(self).pending_packets@[j - 1].server_seq);
                    }
                }
                assert(self.pending_packets@[i as int] == packet);
                assert forall|p: PendingReliablePacket|
                    #[trigger] self.pending().contains(p) <==> (p == packet || (old(self).pending().contains(p)
                        && p.server_seq != server_seq)) by {
                    if self.pending().contains(p) && p != packet {
                        let j = self.pending_packets@.index_of(p);
                        if j < i {
                            assert(old(self).pending_packets@[j] == p);
                        } else {
                            assert(j > i);
                            assert(old(self).pending_packets@[j - 1] == p);
                            assert(self.pending_seqs@[j] != k);
                        }
                    }
                    if old(self).pending().contains(p) && p.server_seq != server_seq {
                        let j = old(self).pending_packets@.index_of(p);
                        if j < i {
                            assert(self.pending_packets@[j] == p);
                        } else {
                            assert(self.pending_packets@[j + 1] == p);
                        }
                    }
                    if p == packet {
                        assert(self.pending_packets@[i as int] == p);
                    }
                }
            }
        }
        packet
    }

    /// Drops every pending packet whose sequence is at most `ack_seq` and returns how many.
    pub fn ack_server_packets_through(&mut self, ack_seq: u32) -> (r: usize)
        requires
            old(self).wf(),
        ensures
            final(self).wf(),
            final(self).pending() == old(self).pending().filter(|p: PendingReliablePacket| p.server_seq > ack_seq),
            r == old(self).pending().len() - final(self).pending().len(),
            final(self).accepted_ids() == old(self).accepted_ids(),
            final(self).last_seq() == old(self).last_seq(),
    {
        let ghost pred = |p: PendingReliablePacket| p.server_seq > ack_seq;
        let mut seqs: Vec<u64> = Vec::new();
        let mut packets: Vec<PendingReliablePacket> = Vec::new();
        let n = self.pending_packets.len();
        for i in 0..n
            invariant
                n == self.pending_packets@.len(),
                pred == (|p: PendingReliablePacket| p.server_seq > ack_seq),
                self.wf(),
                *self == *old(self),
                seqs@.len() == packets@.len(),
                packets@ == self.pending_packets@.subrange(0, i as int).filter(pred),
                forall|j: int| 0 <= j < seqs@.len() ==> seqs@[j] == (#[trigger] packets@[j]).server_seq,
                strictly_increasing(seqs@),
        {
            let p = self.pending_packets[i];
            let ghost prefix = self.pending_packets@.subrange(0, i as int);
            proof {
                assert forall|j: int| 0 <= j < packets@.len() implies packets@[j].server_seq < p.server_seq by {
                    assert(prefix.filter(pred).contains(packets@[j]));
                    prefix.lemma_filter_contains_rev(pred, packets@[j]);
                    let k = choose|k: int| 0 <= k < prefix.len() && prefix[k] == packets@[j];
                    assert(self.pending_seqs@[k] < self.pending_seqs@[i as int]);
                    assert(self.pending_seqs@[k] == self.pending_packets@[k].server_seq);
                }
            }
            if p.server_seq > ack_seq {
                seqs.push(p.server_seq as u64);
                packets.push(p);
                proof {
                    assert forall|a: int, b: int| 0 <= a < b < seqs@.len() implies seqs@[a] < seqs@[b] by {
                        if b == seqs@.len() - 1 {
                            assert(seqs@[a] == packets@[a].server_seq);
                        }
                    }
                }
            }
            proof {
                let s = self.pending_packets@.subrange(0, i + 1);
                assert(s =~= prefix.push(p));
                prefix.lemma_filter_push(p, pred);
                assert(pred(p) == (p.server_seq > ack_seq));
            }
        }
        assert(self.pending_packets@.subrange(0, n as int) =~= self.pending_packets@);
        let before = self.pending_packets.len();
        let after = packets.len();
        proof {
            self.pending_packets@.lemma_filter_len(pred);
        }
        self.pending_seqs = seqs;
        self.pending_packets = packets;
        before - after
    }

    /// The pending packets due for resend at `now`, in ascending sequence order.
    pub fn resend_due(&self, now: Tick, resend_after_ticks: u64) -> (r: Vec<PendingReliablePacket>)
        ensures
            r@ == self.pending().filter(|p: PendingReliablePacket| spec_due(p, now, resend_after_ticks)),
    {
        let ghost pred = |p: PendingReliablePacket| spec_due(p, now, resend_after_ticks);
        let mut out: Vec<PendingReliablePacket> = Vec::new();
        let n = self.pending_packets.len();
        for i in 0..n
            invariant
                n == self.pending_packets@.len(),
                pred == (|p: PendingReliablePacket| spec_due(p, now, resend_after_ticks)),
                out@ == self.pending_packets@.subrange(0, i as int).filter(pred),
        {
            let p = self.pending_packets[i];
            if now.0.saturating_sub(p.last_sent_tick.0) >= resend_after_ticks {
                out.push(p);
            }
            proof {
                let prefix = self.pending_packets@.subrange(0, i as int);
                let s = self.pending_packets@.subrange(0, i + 1);
                assert(s =~= prefix.push(p));
                prefix.lemma_filter_push(p, pred);
                assert(pred(p) == spec_due(p, now, resend_after_ticks));
            }
        }
        assert(self.pending_packets@.subrange(0, n as int) =~= self.pending_packets@);
        out
    }

    pub fn mark_resent(&mut self, server_seq: u32, now: Tick) -> (r: Option<PendingReliablePacket>)
        requires
            old(self).wf(),
        ensures
            final(self).wf(),
            final(self).accepted_ids() == old(self).accepted_ids(),
            final(self).last_seq() == old(self).last_seq(),
            match r {
                None => {
                    &&& final(self).pending() == old(self).pending()
                    &&& forall|j: int| 0 <= j < old(self).pending().len() ==> (#[trigger] old(self).pending()[j]).server_seq != server_seq
                },
                Some(p) => exists|j: int|
                    0 <= j < old(self).pending().len() && (#[trigger] old(self).pending()[j]).server_seq == server_seq && p == (
                    PendingReliablePacket {
                        last_sent_tick: now,
                        resend_count: if old(self).pending()[j].resend_count == u16::MAX {
                            u16::MAX
                        } else {
                            (old(self).pending()[j].resend_count + 1) as u16
                        },
                        ..old(self).pending()[j]
                    }) && final(self).pending() == old(self).pending().update(j, p),
            },
    {
        let k = server_seq as u64;
        let i = lower_bound(&self.pending_seqs, k);
        if i < self.pending_seqs.len() && self.pending_seqs[i] == k {
            let old_p = self.pending_packets[i];
            let p = PendingReliablePacket {
                last_sent_tick: now,
                resend_count: old_p.resend_count.saturating_add(1),
                ..old_p
            };
            self.pending_packets.set(i, p);
            proof {
                assert(old(self).pending_seqs@[i as int] == old(self).pending()[i as int].server_seq);
                assert(old(self).pending()[i as int].server_seq == server_seq);
                assert(self.pending_packets@ =~= old(self).pending().update(i as int, p));
            }
            Some(p)
        } else {
            proof {
                assert forall|j: int| 0 <= j < old(self).pending().len() implies (#[trigger] old(self).pending()[j]).server_seq != server_seq by {
                    assert(self.pending_seqs@[j] == old(self).pending()[j].server_seq);
                    if j > i {
                        assert(self.pending_seqs@[i as int] < self.pending_seqs@[j]);
                        assert(self.pending_seqs@[i as int] >= k);
                    } else if j == i {
                        assert(self.pending_seqs@[j] != k);
                    } else {
                        assert(self.pending_seqs@[j] < k);
                    }
                }
            }
            None
        }
    }

    pub fn pending_server_packet_count(&self) -> (r: usize)
        requires
            self.wf(),
        ensures
            r == self.pending().len(),
    {
        self.pending_packets.len()
    }
}

impl Default for CommandReliabilityState {
    fn default() -> (r: Self)
        ensures
            r.wf(),
            r.last_seq() == 0,
            r.accepted_ids() == Set::<u64>::empty(),
            r.pending() == Seq::<PendingReliablePacket>::empty(),
    {
        Self::new()
    }
}

} // verus!
