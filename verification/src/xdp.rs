//! The per-packet classifier path.
//!
//! For each received frame this is the whole decision sequence the hook
//! executes: parse, derive the flow key and its reverse, probe the cache
//! under both, then either insert a fresh flow or — on a hit that passes
//! the direction and count-ceiling gate — accumulate counters and emit a
//! snapshot onto the lossy event channel. Successfully parsed packets
//! always pass; only malformed ones are refused. The path never blocks and
//! never drops legitimate traffic by itself.

use crate::cache::{has_key, inserted, key_index, keys_distinct, state_of, touched, FlowCache};
use crate::channel::{emitted, has_room, EventChannel};
use crate::flow::{FlowKey, FlowState, FLOW_PACKET_CEILING};
use crate::packet::{parse_frame, spec_parse_frame, ParsedFrame, ParsedPacket};
use crate::wire::EventInfo;
use vstd::prelude::*;

verus! {

/// Verdict returned for a frame the parser refused.
pub const XDP_ABORTED: u32 = 0;

/// Verdict returned for every successfully parsed frame: the program
/// observes traffic, it never drops it.
pub const XDP_PASS: u32 = 2;

/// The flow key a parsed packet derives: the five-tuple as observed.
pub open spec fn spec_flow_key(p: ParsedPacket) -> FlowKey {
    FlowKey {
        l4_proto: p.l4_proto,
        ip_src: p.ip_src,
        ip_dst: p.ip_dst,
        port_src: p.port_src,
        port_dst: p.port_dst,
    }
}

/// Every resident flow state is well formed.
pub open spec fn states_wf(s: Seq<(FlowKey, FlowState)>) -> bool {
    forall|i: int| 0 <= i < s.len() ==> (#[trigger] s[i]).1.wf()
}

/// No resident flow has seen a packet later than `now`: the clock is
/// monotonic and never regresses.
pub open spec fn cache_ts_ok(s: Seq<(FlowKey, FlowState)>, now: u64) -> bool {
    forall|i: int| 0 <= i < s.len() ==> (#[trigger] s[i]).1.last_packet_ts <= now
}

/// At most one of a key and its reverse is ever resident: both directions
/// of one conversation share a single entry.
pub open spec fn bidir_consistent(s: Seq<(FlowKey, FlowState)>) -> bool {
    forall|k: FlowKey|
        #![trigger has_key(s, k)]
        has_key(s, k) && has_key(s, k.spec_reversed()) ==> k == k.spec_reversed()
}

/// Everything the packet path maintains about the cache between packets.
pub open spec fn cache_inv(c: FlowCache) -> bool {
    &&& c.wf()
    &&& states_wf(c@)
    &&& bidir_consistent(c@)
}

/// The resident key a probe for `k` resolves to: `k` itself when resident,
/// otherwise its reverse. Meaningful when one of the two is resident.
pub open spec fn spec_hit_key(s: Seq<(FlowKey, FlowState)>, k: FlowKey) -> FlowKey {
    if has_key(s, k) {
        k
    } else {
        k.spec_reversed()
    }
}

/// Whether a hit updates counters and emits: the packet must travel in the
/// counted direction — destination port numerically below source port —
/// and the flow must still be under the packet-count ceiling.
pub open spec fn spec_gate(p: ParsedPacket, st: FlowState) -> bool {
    p.port_dst < p.port_src && st.num_packets < FLOW_PACKET_CEILING
}

/// The snapshot emitted for a qualifying packet `p` hitting a flow whose
/// state was `st`: the endpoints as observed, the updated running
/// counters, and this packet's own length and inter-arrival delta.
pub open spec fn spec_snapshot(p: ParsedPacket, st: FlowState, now: u64) -> EventInfo {
    EventInfo {
        ip_src: p.ip_src,
        ip_dst: p.ip_dst,
        port_src: p.port_src,
        port_dst: p.port_dst,
        num_packets: st.spec_updated(p.tot_len, now).num_packets,
        len: p.tot_len as u64,
        total_len: st.spec_updated(p.tot_len, now).total_len,
        iat: (now - st.last_packet_ts) as u64,
        total_iat: st.spec_updated(p.tot_len, now).total_iat,
    }
}

/// Cache and channel after one parsed TCP/UDP packet is processed.
pub open spec fn spec_flow_step(
    c: Seq<(FlowKey, FlowState)>,
    e: Seq<Seq<u8>>,
    p: ParsedPacket,
    now: u64,
) -> (Seq<(FlowKey, FlowState)>, Seq<Seq<u8>>) {
    let k = spec_flow_key(p);
    let rk = k.spec_reversed();
    if !has_key(c, k) && !has_key(c, rk) {
        // miss: a fresh flow is inserted under the observed key
        (inserted(c, k, FlowState::spec_new(now)), e)
    } else {
        let hk = spec_hit_key(c, k);
        let st = state_of(c, hk);
        if spec_gate(p, st) {
            (
                touched(c, hk, st.spec_updated(p.tot_len, now)),
                emitted(e, spec_snapshot(p, st, now)),
            )
        } else {
            // the hit still refreshes recency, but counts nothing and
            // emits nothing
            (touched(c, hk, st), e)
        }
    }
}

/// Cache and channel after one raw frame: frames that do not parse to a
/// TCP/UDP packet touch no state at all.
pub open spec fn spec_step(
    c: Seq<(FlowKey, FlowState)>,
    e: Seq<Seq<u8>>,
    frame: Seq<u8>,
    now: u64,
) -> (Seq<(FlowKey, FlowState)>, Seq<Seq<u8>>) {
    match spec_parse_frame(frame) {
        ParsedFrame::Flow(p) => spec_flow_step(c, e, p, now),
        _ => (c, e),
    }
}

/// The verdict for one raw frame: refuse malformed frames, pass everything
/// else — independent of cache and channel contents.
pub open spec fn spec_verdict(frame: Seq<u8>) -> Result<u32, ()> {
    match spec_parse_frame(frame) {
        ParsedFrame::Malformed => Err(()),
        _ => Ok(XDP_PASS),
    }
}

/// Touching a resident key with a well-formed state keeps every invariant
/// the packet path maintains.
proof fn lemma_touched_preserves_inv(
    s: Seq<(FlowKey, FlowState)>,
    k: FlowKey,
    v: FlowState,
    now: u64,
)
    requires
        keys_distinct(s),
        has_key(s, k),
        states_wf(s),
        bidir_consistent(s),
        cache_ts_ok(s, now),
        v.wf(),
        v.last_packet_ts <= now,
    ensures
        states_wf(touched(s, k, v)),
        bidir_consistent(touched(s, k, v)),
        cache_ts_ok(touched(s, k, v), now),
{
    crate::cache::lemma_touched_facts(s, k, v);
    let i0 = key_index(s, k);
    assert(0 <= i0 < s.len() && s[i0].0 == k);
    let t = touched(s, k, v);
    s.remove_ensures(i0);
    assert forall|i: int| 0 <= i < t.len() implies (#[trigger] t[i]).1.wf() && t[i].1.last_packet_ts
        <= now by {
        if i == t.len() - 1 {
            assert(t[i] == (k, v));
        } else if i < i0 {
            assert(t[i] == s[i]);
        } else {
            assert(t[i] == s[i + 1]);
        }
    }
    assert forall|k2: FlowKey|
        has_key(t, k2) && has_key(t, k2.spec_reversed()) implies k2 == k2.spec_reversed() by {
        assert(has_key(s, k2));
        assert(has_key(s, k2.spec_reversed()));
    }
}

/// Inserting a key whose reverse is absent too keeps every invariant the
/// packet path maintains.
proof fn lemma_inserted_preserves_inv(
    s: Seq<(FlowKey, FlowState)>,
    k: FlowKey,
    v: FlowState,
    now: u64,
)
    requires
        keys_distinct(s),
        !has_key(s, k),
        !has_key(s, k.spec_reversed()),
        s.len() <= crate::cache::FLOW_CACHE_CAPACITY,
        states_wf(s),
        bidir_consistent(s),
        cache_ts_ok(s, now),
        v.wf(),
        v.last_packet_ts <= now,
    ensures
        states_wf(inserted(s, k, v)),
        bidir_consistent(inserted(s, k, v)),
        cache_ts_ok(inserted(s, k, v), now),
{
    crate::cache::lemma_inserted_facts(s, k, v);
    let t = inserted(s, k, v);
    assert forall|i: int| 0 <= i < t.len() implies (#[trigger] t[i]).1.wf() && t[i].1.last_packet_ts
        <= now by {
        if i == t.len() - 1 {
            assert(t[i] == (k, v));
        } else if s.len() < crate::cache::FLOW_CACHE_CAPACITY {
            assert(t[i] == s[i]);
        } else {
            assert(t[i] == s[i + 1]);
        }
    }
    // every key of the new cache is k or was already resident
    assert forall|k2: FlowKey| #[trigger] has_key(t, k2) && k2 != k implies has_key(s, k2) by {
        let j = choose|j: int| 0 <= j < t.len() && (#[trigger] t[j]).0 == k2;
        if s.len() < crate::cache::FLOW_CACHE_CAPACITY {
            assert(t[j] == s[j]);
        } else {
            assert(j < t.len() - 1);
            assert(t[j] == s[j + 1]);
        }
    }
    assert forall|k2: FlowKey|
        has_key(t, k2) && has_key(t, k2.spec_reversed()) implies k2 == k2.spec_reversed() by {
        if k2 == k {
            if k.spec_reversed() != k {
                assert(has_key(s, k.spec_reversed()));
            }
        } else {
            assert(has_key(s, k2));
            if k2.spec_reversed() == k {
                assert(k2 == k.spec_reversed());
            } else {
                assert(has_key(s, k2.spec_reversed()));
            }
        }
    }
}

/// Process one raw frame against the flow cache and the event channel.
///
/// The returned verdict depends on the frame alone; the cache and the
/// channel change exactly as [`spec_step`] says. An insertion on a miss
/// cannot fail: capacity is pre-reserved through eviction.
pub fn try_hackathon_ids(
    cache: &mut FlowCache,
    events: &mut EventChannel,
    frame: &[u8],
    now: u64,
) -> (r: Result<u32, ()>)
    requires
        cache_inv(*old(cache)),
        cache_ts_ok(old(cache)@, now),
        old(events).wf(),
    ensures
        cache_inv(*final(cache)),
        cache_ts_ok(final(cache)@, now),
        final(events).wf(),
        r == spec_verdict(frame@),
        (final(cache)@, final(events)@) == spec_step(old(cache)@, old(events)@, frame@, now),
{
    let p = match parse_frame(frame) {
        ParsedFrame::NonIpv4 => {
            return Ok(XDP_PASS);
        },
        ParsedFrame::Malformed => {
            return Err(());
        },
        ParsedFrame::Flow(p) => p,
    };
    let key = FlowKey {
        l4_proto: p.l4_proto,
        ip_src: p.ip_src,
        ip_dst: p.ip_dst,
        port_src: p.port_src,
        port_dst: p.port_dst,
    };
    let reversed_key = key.reversed();
    let hit = if cache.contains(&key) {
        Some(key)
    } else if cache.contains(&reversed_key) {
        Some(reversed_key)
    } else {
        None
    };
    match hit {
        Some(hk) => {
            proof {
                assert(hk == spec_hit_key(old(cache)@, key));
            }
            let st = cache.get(&hk).unwrap();
            proof {
                let i = key_index(old(cache)@, hk);
                assert(0 <= i < old(cache)@.len() && old(cache)@[i].0 == hk);
                assert(old(cache)@[i].1.wf());
                assert(old(cache)@[i].1.last_packet_ts <= now);
                assert(st == old(cache)@[i].1);
            }
            if p.port_dst < p.port_src && st.num_packets < FLOW_PACKET_CEILING {
                let delta = now - st.last_packet_ts;
                let st2 = st.updated(p.tot_len, now);
                cache.touch_update(&hk, st2);
                let info = EventInfo {
                    ip_src: p.ip_src,
                    ip_dst: p.ip_dst,
                    port_src: p.port_src,
                    port_dst: p.port_dst,
                    num_packets: st2.num_packets,
                    len: p.tot_len as u64,
                    total_len: st2.total_len,
                    iat: delta,
                    total_iat: st2.total_iat,
                };
                proof {
                    assert(info == spec_snapshot(p, st, now));
                    lemma_touched_preserves_inv(old(cache)@, hk, st2, now);
                }
                // best-effort telemetry: a full channel drops the snapshot
                // and the packet still passes
                let _ = events.try_emit(&info);
                Ok(XDP_PASS)
            } else {
                cache.touch_update(&hk, st);
                proof {
                    lemma_touched_preserves_inv(old(cache)@, hk, st, now);
                }
                Ok(XDP_PASS)
            }
        },
        None => {
            let st = FlowState::new(now);
            cache.insert(&key, st);
            proof {
                lemma_inserted_preserves_inv(old(cache)@, key, st, now);
            }
            Ok(XDP_PASS)
        },
    }
}

/// The hook entry point: like [`try_hackathon_ids`], with the refusal of a
/// malformed frame mapped to the aborted verdict.
pub fn hackathon_ids(cache: &mut FlowCache, events: &mut EventChannel, frame: &[u8], now: u64) -> (r:
    u32)
    requires
        cache_inv(*old(cache)),
        cache_ts_ok(old(cache)@, now),
        old(events).wf(),
    ensures
        cache_inv(*final(cache)),
        cache_ts_ok(final(cache)@, now),
        final(events).wf(),
        r == (if spec_parse_frame(frame@) is Malformed {
            XDP_ABORTED
        } else {
            XDP_PASS
        }),
        (final(cache)@, final(events)@) == spec_step(old(cache)@, old(events)@, frame@, now),
{
    match try_hackathon_ids(cache, events, frame, now) {
        Ok(ret) => ret,
        Err(_) => XDP_ABORTED,
    }
}

/// New-flow law: processing a packet whose key and reversed key are both
/// absent inserts exactly one new entry, under the observed key, with
/// packet count zero and the packet's timestamp — and emits nothing.
pub proof fn lemma_new_flow(
    c: Seq<(FlowKey, FlowState)>,
    e: Seq<Seq<u8>>,
    p: ParsedPacket,
    now: u64,
)
    requires
        keys_distinct(c),
        c.len() <= crate::cache::FLOW_CACHE_CAPACITY,
        !has_key(c, spec_flow_key(p)),
        !has_key(c, spec_flow_key(p).spec_reversed()),
    ensures
        ({
            let (c1, e1) = spec_flow_step(c, e, p, now);
            let k = spec_flow_key(p);
            &&& e1 == e
            &&& has_key(c1, k)
            &&& state_of(c1, k) == FlowState::spec_new(now)
            &&& state_of(c1, k).num_packets == 0
            &&& state_of(c1, k).last_packet_ts == now
            &&& c.len() < crate::cache::FLOW_CACHE_CAPACITY ==> c1.len() == c.len() + 1
            // no entry other than the new one appears
            &&& forall|k2: FlowKey|
                k2 != k && #[trigger] has_key(c1, k2) ==> has_key(c, k2) && state_of(c1, k2)
                    == state_of(c, k2)
        }),
{
    let k = spec_flow_key(p);
    crate::cache::lemma_inserted_facts(c, k, FlowState::spec_new(now));
    let c1 = spec_flow_step(c, e, p, now).0;
    assert forall|k2: FlowKey| k2 != k && #[trigger] has_key(c1, k2) implies has_key(c, k2)
        && state_of(c1, k2) == state_of(c, k2) by {
        if c.len() == crate::cache::FLOW_CACHE_CAPACITY {
            assert(k2 != c[0].0);
        }
    }
}

/// Symmetry law: as long as at most one of a key and its reverse is
/// resident, a probe for a key and a probe for its reverse resolve to the
/// same resident entry — the two directions of one conversation can never
/// address different cache entries.
pub proof fn lemma_direction_symmetry(c: Seq<(FlowKey, FlowState)>, k: FlowKey)
    requires
        bidir_consistent(c),
        has_key(c, k) || has_key(c, k.spec_reversed()),
    ensures
        spec_hit_key(c, k) == spec_hit_key(c, k.spec_reversed()),
        has_key(c, spec_hit_key(c, k)),
{
    k.lemma_reversed_involutive();
}

/// Gate law: a hit in the wrong direction (destination port not below the
/// source port) or on a flow at the packet-count ceiling emits no snapshot
/// and changes no counter — only the entry's recency is refreshed.
pub proof fn lemma_gate_blocks_emission(
    c: Seq<(FlowKey, FlowState)>,
    e: Seq<Seq<u8>>,
    p: ParsedPacket,
    now: u64,
)
    requires
        has_key(c, spec_flow_key(p)) || has_key(c, spec_flow_key(p).spec_reversed()),
        p.port_dst >= p.port_src || state_of(c, spec_hit_key(c, spec_flow_key(p))).num_packets
            >= FLOW_PACKET_CEILING,
    ensures
        spec_flow_step(c, e, p, now).1 == e,
        spec_flow_step(c, e, p, now).0 == touched(
            c,
            spec_hit_key(c, spec_flow_key(p)),
            state_of(c, spec_hit_key(c, spec_flow_key(p))),
        ),
{
}

/// Lossy-transport law: when the channel lacks free space for one more
/// record, processing a qualifying packet leaves the channel exactly as it
/// was — nothing blocks, nothing is retried — and the verdict for the
/// frame is still to pass it.
pub proof fn lemma_lossy_emission(
    c: Seq<(FlowKey, FlowState)>,
    e: Seq<Seq<u8>>,
    frame: Seq<u8>,
    p: ParsedPacket,
    now: u64,
)
    requires
        spec_parse_frame(frame) == ParsedFrame::Flow(p),
        !has_room(e),
    ensures
        spec_step(c, e, frame, now).1 == e,
        spec_verdict(frame) == Ok::<u32, ()>(XDP_PASS),
{
}

} // verus!
