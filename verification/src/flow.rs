//! Flow identification and per-flow statistics.

use vstd::prelude::*;

verus! {

/// A flow only accumulates counters for its first few qualifying packets;
/// once `num_packets` reaches this ceiling no further update or emission
/// happens for the flow.
pub const FLOW_PACKET_CEILING: u64 = 10;

/// Largest value the 16-bit IPv4 total-length field can carry; bounds each
/// single contribution to `total_len`.
pub const MAX_IPV4_TOTAL_LEN: u16 = 65535;

/// Identifies one direction of one transport conversation: protocol,
/// addresses and ports exactly as they appear in a packet. The two
/// directions of a conversation produce keys that are reverses of each
/// other, and the flow cache is probed under both before anything is
/// inserted.
#[derive(Clone, Copy, Debug, PartialEq, Eq, Structural)]
pub struct FlowKey {
    pub l4_proto: u8,
    pub ip_src: u32,
    pub ip_dst: u32,
    pub port_src: u16,
    pub port_dst: u16,
}

impl FlowKey {
    /// The key the same conversation produces when observed in the opposite
    /// direction: addresses and ports swapped, protocol kept.
    pub open spec fn spec_reversed(self) -> FlowKey {
        FlowKey {
            l4_proto: self.l4_proto,
            ip_src: self.ip_dst,
            ip_dst: self.ip_src,
            port_src: self.port_dst,
            port_dst: self.port_src,
        }
    }

    pub fn reversed(&self) -> (r: FlowKey)
        ensures
            r == self.spec_reversed(),
    {
        FlowKey {
            l4_proto: self.l4_proto,
            ip_src: self.ip_dst,
            ip_dst: self.ip_src,
            port_src: self.port_dst,
            port_dst: self.port_src,
        }
    }

    /// Reversing a key twice gives the key back, so either endpoint of a
    /// conversation derives the same unordered pair of keys.
    pub proof fn lemma_reversed_involutive(self)
        ensures
            self.spec_reversed().spec_reversed() == self,
    {
    }
}

/// The cache value for one flow: how many qualifying packets have been
/// counted, when the last packet of the flow was seen (monotonic
/// nanoseconds), and the cumulative length and inter-arrival time over the
/// counted packets.
#[derive(Clone, Copy, Debug, PartialEq, Eq, Structural)]
pub struct FlowState {
    pub num_packets: u64,
    pub last_packet_ts: u64,
    pub total_len: u64,
    pub total_iat: u64,
}

impl FlowState {
    /// Well-formedness kept by every state the packet path ever stores:
    /// the packet count never passes the ceiling, the cumulative length is
    /// bounded by what that many IPv4 packets can carry, and the cumulative
    /// inter-arrival time never exceeds the last timestamp (each delta is a
    /// difference of timestamps below it). These bounds are what make the
    /// unsigned counter arithmetic overflow-free.
    pub open spec fn wf(self) -> bool {
        &&& self.num_packets <= FLOW_PACKET_CEILING
        &&& self.total_len <= self.num_packets * (MAX_IPV4_TOTAL_LEN as u64)
        &&& self.total_iat <= self.last_packet_ts
    }

    /// The state a fresh flow is inserted with: nothing counted yet, the
    /// current timestamp remembered.
    pub open spec fn spec_new(now: u64) -> FlowState {
        FlowState { num_packets: 0, last_packet_ts: now, total_len: 0, total_iat: 0 }
    }

    pub fn new(now: u64) -> (r: FlowState)
        ensures
            r == FlowState::spec_new(now),
            r.wf(),
    {
        FlowState { num_packets: 0, last_packet_ts: now, total_len: 0, total_iat: 0 }
    }

    /// The state after counting one qualifying packet of declared length
    /// `pkt_len` observed at `now`: count up by one, length and
    /// inter-arrival delta accumulated, recency refreshed.
    pub open spec fn spec_updated(self, pkt_len: u16, now: u64) -> FlowState {
        FlowState {
            num_packets: (self.num_packets + 1) as u64,
            last_packet_ts: now,
            total_len: (self.total_len + pkt_len) as u64,
            total_iat: (self.total_iat + (now - self.last_packet_ts)) as u64,
        }
    }

    pub fn updated(&self, pkt_len: u16, now: u64) -> (r: FlowState)
        requires
            self.wf(),
            self.num_packets < FLOW_PACKET_CEILING,
            self.last_packet_ts <= now,
        ensures
            r == self.spec_updated(pkt_len, now),
            r.wf(),
            r.num_packets == self.num_packets + 1,
            r.total_len == self.total_len + pkt_len,
            r.total_iat == self.total_iat + (now - self.last_packet_ts),
            r.last_packet_ts == now,
    {
        proof {
            assert(self.total_len <= self.num_packets * (MAX_IPV4_TOTAL_LEN as u64));
            assert(self.num_packets * (MAX_IPV4_TOTAL_LEN as u64) + (MAX_IPV4_TOTAL_LEN as u64)
                == (self.num_packets + 1) * (MAX_IPV4_TOTAL_LEN as u64)) by (nonlinear_arith);
        }
        let delta: u64 = now - self.last_packet_ts;
        FlowState {
            num_packets: self.num_packets + 1,
            last_packet_ts: now,
            total_len: self.total_len + pkt_len as u64,
            total_iat: self.total_iat + delta,
        }
    }

    /// One counted packet never decreases any cumulative counter.
    pub proof fn lemma_update_monotonic(self, pkt_len: u16, now: u64)
        requires
            self.wf(),
            self.num_packets < FLOW_PACKET_CEILING,
            self.last_packet_ts <= now,
        ensures
            self.spec_updated(pkt_len, now).wf(),
            self.spec_updated(pkt_len, now).num_packets == self.num_packets + 1,
            self.spec_updated(pkt_len, now).total_len >= self.total_len,
            self.spec_updated(pkt_len, now).total_iat >= self.total_iat,
            self.spec_updated(pkt_len, now).last_packet_ts >= self.last_packet_ts,
    {
        assert(self.num_packets * (MAX_IPV4_TOTAL_LEN as u64) + (MAX_IPV4_TOTAL_LEN as u64)
            == (self.num_packets + 1) * (MAX_IPV4_TOTAL_LEN as u64)) by (nonlinear_arith);
    }
}

/// The flow state after a run of qualifying packets, each described by its
/// declared IPv4 total length and its timestamp, has been counted in order.
pub open spec fn spec_after_updates(st: FlowState, packets: Seq<(u16, u64)>) -> FlowState
    decreases packets.len(),
{
    if packets.len() == 0 {
        st
    } else {
        spec_after_updates(st.spec_updated(packets[0].0, packets[0].1), packets.drop_first())
    }
}

/// Timestamps in `packets` never regress: each is at least the flow's last
/// recorded timestamp, respectively the timestamp before it.
pub open spec fn spec_timestamps_monotonic(st: FlowState, packets: Seq<(u16, u64)>) -> bool {
    forall|i: int|
        0 <= i < packets.len() ==> #[trigger] packets[i].1 >= (if i == 0 {
            st.last_packet_ts
        } else {
            packets[i - 1].1
        })
}

/// Monotonicity law: over any sequence of packets that match one flow and
/// pass the direction/count-ceiling gate, the packet count, the cumulative
/// length and the cumulative inter-arrival time never decrease, and the
/// count grows by exactly one per packet.
pub proof fn lemma_counters_monotonic(st: FlowState, packets: Seq<(u16, u64)>)
    requires
        st.wf(),
        st.num_packets + packets.len() <= FLOW_PACKET_CEILING,
        spec_timestamps_monotonic(st, packets),
    ensures
        spec_after_updates(st, packets).wf(),
        spec_after_updates(st, packets).num_packets == st.num_packets + packets.len(),
        spec_after_updates(st, packets).total_len >= st.total_len,
        spec_after_updates(st, packets).total_iat >= st.total_iat,
        spec_after_updates(st, packets).last_packet_ts >= st.last_packet_ts,
    decreases packets.len(),
{
    if packets.len() > 0 {
        let st1 = st.spec_updated(packets[0].0, packets[0].1);
        st.lemma_update_monotonic(packets[0].0, packets[0].1);
        let rest = packets.drop_first();
        assert forall|i: int|
            0 <= i < rest.len() implies #[trigger] rest[i].1 >= (if i == 0 {
                st1.last_packet_ts
            } else {
                rest[i - 1].1
            }) by {
            assert(rest[i] == packets[i + 1]);
            if i > 0 {
                assert(rest[i - 1] == packets[i]);
            }
        }
        lemma_counters_monotonic(st1, rest);
    }
}

} // verus!
