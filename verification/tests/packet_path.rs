use hackathon_ids::cache::FlowCache;
use hackathon_ids::channel::EventChannel;
use hackathon_ids::flow::FlowKey;
use hackathon_ids::poller::drain_events;
use hackathon_ids::xdp::{hackathon_ids as process, try_hackathon_ids, XDP_ABORTED, XDP_PASS};

/// Build a frame: Ethernet header, IPv4 header, then zero padding up to
/// `frame_len`, with ports written at the fixed transport offset.
fn frame(
    ether_type: u16,
    proto: u8,
    src: [u8; 4],
    dst: [u8; 4],
    sport: u16,
    dport: u16,
    tot_len: u16,
    frame_len: usize,
) -> Vec<u8> {
    let mut f = vec![0u8; frame_len];
    if frame_len >= 14 {
        f[12] = (ether_type >> 8) as u8;
        f[13] = (ether_type & 0xff) as u8;
    }
    if frame_len >= 34 {
        f[16] = (tot_len >> 8) as u8;
        f[17] = (tot_len & 0xff) as u8;
        f[23] = proto;
        f[26..30].copy_from_slice(&src);
        f[30..34].copy_from_slice(&dst);
    }
    if frame_len >= 38 {
        f[34] = (sport >> 8) as u8;
        f[35] = (sport & 0xff) as u8;
        f[36] = (dport >> 8) as u8;
        f[37] = (dport & 0xff) as u8;
    }
    f
}

fn tcp_frame(src: [u8; 4], dst: [u8; 4], sport: u16, dport: u16, tot_len: u16) -> Vec<u8> {
    frame(0x0800, 6, src, dst, sport, dport, tot_len, 54)
}

fn udp_frame(src: [u8; 4], dst: [u8; 4], sport: u16, dport: u16, tot_len: u16) -> Vec<u8> {
    frame(0x0800, 17, src, dst, sport, dport, tot_len, 42)
}

fn key(proto: u8, ip_src: u32, ip_dst: u32, port_src: u16, port_dst: u16) -> FlowKey {
    FlowKey { l4_proto: proto, ip_src, ip_dst, port_src, port_dst }
}

#[test]
fn new_flow_then_reverse_hit() {
    let mut cache = FlowCache::new();
    let mut events = EventChannel::new();

    // 10.0.0.2:443 -> 10.0.0.1:51000, len 60, at t=1000: a fresh flow
    let f1 = tcp_frame([10, 0, 0, 2], [10, 0, 0, 1], 443, 51000, 60);
    assert_eq!(process(&mut cache, &mut events, &f1, 1000), XDP_PASS);
    assert_eq!(cache.len(), 1);
    assert_eq!(events.queued(), 0);
    let k = key(6, 0x0A000002, 0x0A000001, 443, 51000);
    let st = cache.get(&k).unwrap();
    assert_eq!(st.num_packets, 0);
    assert_eq!(st.last_packet_ts, 1000);
    assert_eq!(st.total_len, 0);
    assert_eq!(st.total_iat, 0);

    // the reverse direction at t=1500, len 40: dport 443 < sport 51000,
    // so the direction test is met and a snapshot is emitted
    let f2 = tcp_frame([10, 0, 0, 1], [10, 0, 0, 2], 51000, 443, 40);
    assert_eq!(process(&mut cache, &mut events, &f2, 1500), XDP_PASS);
    assert_eq!(cache.len(), 1, "both directions share one entry");
    assert_eq!(events.queued(), 1);

    let st = cache.get(&k).unwrap();
    assert_eq!(st.num_packets, 1);
    assert_eq!(st.total_len, 40);
    assert_eq!(st.total_iat, 500);
    assert_eq!(st.last_packet_ts, 1500);

    let out = drain_events(&mut events);
    assert_eq!(events.queued(), 0);
    assert_eq!(out.len(), 1);
    let info = out[0];
    assert_eq!(info.ip_src, 0x0A000001);
    assert_eq!(info.ip_dst, 0x0A000002);
    assert_eq!(info.port_src, 51000);
    assert_eq!(info.port_dst, 443);
    assert_eq!(info.num_packets, 1);
    assert_eq!(info.len, 40);
    assert_eq!(info.total_len, 40);
    assert_eq!(info.iat, 500);
    assert_eq!(info.total_iat, 500);
}

#[test]
fn non_ipv4_passes_untouched() {
    let mut cache = FlowCache::new();
    let mut events = EventChannel::new();
    let f = frame(0x86DD, 6, [1, 1, 1, 1], [2, 2, 2, 2], 80, 81, 60, 54);
    assert_eq!(process(&mut cache, &mut events, &f, 7), XDP_PASS);
    assert_eq!(cache.len(), 0);
    assert_eq!(events.queued(), 0);
}

#[test]
fn truncated_frames_abort() {
    let mut cache = FlowCache::new();
    let mut events = EventChannel::new();
    // too short for the link-layer header
    let f = vec![0u8; 13];
    assert_eq!(process(&mut cache, &mut events, &f, 1), XDP_ABORTED);
    assert_eq!(try_hackathon_ids(&mut cache, &mut events, &f, 1), Err(()));
    // IPv4 ether-type but truncated IPv4 header
    let f = frame(0x0800, 6, [0; 4], [0; 4], 0, 0, 0, 20);
    assert_eq!(process(&mut cache, &mut events, &f, 1), XDP_ABORTED);
    // TCP needs 54 bytes
    let mut f = tcp_frame([1, 2, 3, 4], [5, 6, 7, 8], 10, 9, 40);
    f.truncate(53);
    assert_eq!(process(&mut cache, &mut events, &f, 1), XDP_ABORTED);
    // UDP needs only 42
    let f = udp_frame([1, 2, 3, 4], [5, 6, 7, 8], 10, 9, 40);
    assert_eq!(process(&mut cache, &mut events, &f, 1), XDP_PASS);
    // an unsupported transport protocol aborts
    let f = frame(0x0800, 1, [1, 2, 3, 4], [5, 6, 7, 8], 0, 0, 40, 54);
    assert_eq!(process(&mut cache, &mut events, &f, 1), XDP_ABORTED);
    // nothing above but the UDP packet touched the cache
    assert_eq!(cache.len(), 1);
    assert_eq!(events.queued(), 0);
}

#[test]
fn wrong_direction_hit_emits_nothing() {
    let mut cache = FlowCache::new();
    let mut events = EventChannel::new();
    let f1 = tcp_frame([10, 0, 0, 2], [10, 0, 0, 1], 443, 51000, 60);
    assert_eq!(process(&mut cache, &mut events, &f1, 1000), XDP_PASS);
    // same direction again: dport 51000 >= sport 443, so nothing is counted
    assert_eq!(process(&mut cache, &mut events, &f1, 2000), XDP_PASS);
    assert_eq!(events.queued(), 0);
    let st = cache.get(&key(6, 0x0A000002, 0x0A000001, 443, 51000)).unwrap();
    assert_eq!(st.num_packets, 0, "no counter update on a gated hit");
    assert_eq!(st.total_len, 0);
    // the stored timestamp is also untouched: only recency was refreshed
    assert_eq!(st.last_packet_ts, 1000);
}

#[test]
fn packet_count_ceiling_stops_emission() {
    let mut cache = FlowCache::new();
    let mut events = EventChannel::new();
    let f1 = tcp_frame([10, 0, 0, 2], [10, 0, 0, 1], 443, 51000, 60);
    assert_eq!(process(&mut cache, &mut events, &f1, 0), XDP_PASS);
    let f2 = tcp_frame([10, 0, 0, 1], [10, 0, 0, 2], 51000, 443, 100);
    for i in 0..12u64 {
        assert_eq!(process(&mut cache, &mut events, &f2, 1000 + i), XDP_PASS);
    }
    // only the first ten qualifying hits were counted and emitted
    assert_eq!(events.queued(), 10);
    let st = cache.get(&key(6, 0x0A000002, 0x0A000001, 443, 51000)).unwrap();
    assert_eq!(st.num_packets, 10);
    assert_eq!(st.total_len, 1000);
    // the drained snapshots carry the running counters in arrival order
    let out = drain_events(&mut events);
    assert_eq!(out.len(), 10);
    for (n, info) in out.iter().enumerate() {
        assert_eq!(info.num_packets, n as u64 + 1);
        assert_eq!(info.total_len, 100 * (n as u64 + 1));
    }
}

#[test]
fn self_reversed_key_is_one_flow() {
    // identical endpoints on both sides: the key equals its own reverse
    let mut cache = FlowCache::new();
    let mut events = EventChannel::new();
    let f = tcp_frame([10, 0, 0, 9], [10, 0, 0, 9], 7777, 7777, 60);
    assert_eq!(process(&mut cache, &mut events, &f, 100), XDP_PASS);
    assert_eq!(cache.len(), 1);
    // a second packet hits the same entry; dport equals sport, so the
    // direction test fails and nothing is counted or emitted
    assert_eq!(process(&mut cache, &mut events, &f, 200), XDP_PASS);
    assert_eq!(cache.len(), 1);
    assert_eq!(events.queued(), 0);
    let st = cache.get(&key(6, 0x0A000009, 0x0A000009, 7777, 7777)).unwrap();
    assert_eq!(st.num_packets, 0);
}

#[test]
fn monotone_counters_across_hits() {
    let mut cache = FlowCache::new();
    let mut events = EventChannel::new();
    let f1 = tcp_frame([10, 0, 0, 2], [10, 0, 0, 1], 443, 51000, 60);
    assert_eq!(process(&mut cache, &mut events, &f1, 0), XDP_PASS);
    let k = key(6, 0x0A000002, 0x0A000001, 443, 51000);
    let mut prev = cache.get(&k).unwrap();
    for i in 0..11u64 {
        let f = tcp_frame([10, 0, 0, 1], [10, 0, 0, 2], 51000, 443, (50 + i) as u16);
        assert_eq!(process(&mut cache, &mut events, &f, 1000 * (i + 1)), XDP_PASS);
        let st = cache.get(&k).unwrap();
        assert!(st.num_packets >= prev.num_packets);
        assert!(st.total_len >= prev.total_len);
        assert!(st.total_iat >= prev.total_iat);
        prev = st;
    }
}
