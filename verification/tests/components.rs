use hackathon_ids::cache::{FlowCache, FLOW_CACHE_CAPACITY};
use hackathon_ids::channel::{EventChannel, EVENT_CHANNEL_BYTES};
use hackathon_ids::flow::{FlowKey, FlowState};
use hackathon_ids::pipeline::{record_verdict, should_classify, Alert, AttackerSet};
use hackathon_ids::wire::{EventInfo, EVENT_RECORD_BYTES};
use hackathon_ids::xdp::{hackathon_ids as process, XDP_PASS};

fn key_n(n: u32) -> FlowKey {
    FlowKey { l4_proto: 6, ip_src: n, ip_dst: 0xFFFF0000 | n, port_src: 9, port_dst: 10 }
}

fn sample_info() -> EventInfo {
    EventInfo {
        ip_src: 0x0A000001,
        ip_dst: 0x0A000002,
        port_src: 51000,
        port_dst: 443,
        num_packets: 3,
        len: 40,
        total_len: 120,
        iat: 500,
        total_iat: 1500,
    }
}

#[test]
fn eviction_removes_exactly_the_lru_entry() {
    let mut cache = FlowCache::new();
    for n in 0..FLOW_CACHE_CAPACITY as u32 {
        cache.insert(&key_n(n), FlowState::new(n as u64));
    }
    assert_eq!(cache.len(), FLOW_CACHE_CAPACITY);
    // key 0 is the least recently touched; refresh it so key 1 becomes LRU
    let st0 = cache.get(&key_n(0)).unwrap();
    cache.touch_update(&key_n(0), st0);

    cache.insert(&key_n(1_000_000), FlowState::new(7));
    assert_eq!(cache.len(), FLOW_CACHE_CAPACITY, "capacity is never exceeded");
    assert!(cache.get(&key_n(1)).is_none(), "exactly the LRU entry was evicted");
    assert!(cache.get(&key_n(0)).is_some(), "the refreshed entry survived");
    assert!(cache.get(&key_n(2)).is_some());
    assert!(
        cache.get(&key_n(1_000_000)).is_some(),
        "the entry being inserted is never the one evicted"
    );
}

#[test]
fn channel_is_lossy_when_full() {
    let mut ch = EventChannel::new();
    let info = sample_info();
    let slots = EVENT_CHANNEL_BYTES / EVENT_RECORD_BYTES;
    for _ in 0..slots {
        assert!(ch.try_emit(&info));
    }
    assert_eq!(ch.queued(), slots);
    // the buffer lacks free space: the reservation fails, nothing blocks,
    // nothing is queued
    assert!(!ch.try_emit(&info));
    assert_eq!(ch.queued(), slots);
}

#[test]
fn full_channel_still_passes_packets() {
    let mut cache = FlowCache::new();
    let mut events = EventChannel::new();
    let info = sample_info();
    while events.try_emit(&info) {}
    let queued = events.queued();

    // a fresh flow, then a qualifying reverse packet whose snapshot is
    // dropped for want of space — the verdict is still to pass
    let mut f1 = vec![0u8; 54];
    f1[12] = 0x08;
    f1[23] = 6;
    f1[26..30].copy_from_slice(&[10, 0, 0, 2]);
    f1[30..34].copy_from_slice(&[10, 0, 0, 1]);
    f1[34..36].copy_from_slice(&443u16.to_be_bytes());
    f1[36..38].copy_from_slice(&51000u16.to_be_bytes());
    assert_eq!(process(&mut cache, &mut events, &f1, 10), XDP_PASS);
    let mut f2 = f1.clone();
    f2[26..30].copy_from_slice(&[10, 0, 0, 1]);
    f2[30..34].copy_from_slice(&[10, 0, 0, 2]);
    f2[34..36].copy_from_slice(&51000u16.to_be_bytes());
    f2[36..38].copy_from_slice(&443u16.to_be_bytes());
    assert_eq!(process(&mut cache, &mut events, &f2, 20), XDP_PASS);
    assert_eq!(events.queued(), queued, "the snapshot was silently dropped");
    // the counters were still updated
    let k = FlowKey {
        l4_proto: 6,
        ip_src: 0x0A000002,
        ip_dst: 0x0A000001,
        port_src: 443,
        port_dst: 51000,
    };
    assert_eq!(cache.get(&k).unwrap().num_packets, 1);
}

#[test]
fn wire_round_trip() {
    let info = sample_info();
    let bytes = info.encode();
    assert_eq!(bytes.len(), EVENT_RECORD_BYTES);
    assert_eq!(EventInfo::decode(&bytes), Some(info));
    // a span of any other size is refused
    assert_eq!(EventInfo::decode(&bytes[..EVENT_RECORD_BYTES - 1]), None);
    assert_eq!(EventInfo::decode(&[]), None);
    // spot-check the little-endian layout of the first fields
    assert_eq!(&bytes[0..4], &[0x01, 0x00, 0x00, 0x0A]);
    assert_eq!(&bytes[8..10], &[0x38, 0xC7]);
}

#[test]
fn channel_preserves_arrival_order() {
    let mut ch = EventChannel::new();
    for n in 0..5u64 {
        let mut info = sample_info();
        info.num_packets = n;
        assert!(ch.try_emit(&info));
    }
    for n in 0..5u64 {
        let rec = ch.next().unwrap();
        let info = EventInfo::decode(&rec).unwrap();
        assert_eq!(info.num_packets, n);
    }
    assert!(ch.next().is_none());
}

#[test]
fn dedup_gate_never_reclassifies() {
    let mut attackers = AttackerSet::new();
    let info = sample_info();
    assert!(should_classify(&attackers, &info));

    // a negative verdict changes nothing
    assert_eq!(record_verdict(&mut attackers, &info, false), None);
    assert!(should_classify(&attackers, &info));

    // a positive verdict flags the source and raises the alert
    let alert = record_verdict(&mut attackers, &info, true);
    assert_eq!(
        alert,
        Some(Alert { ip_src: 0x0A000001, port_src: 51000, ip_dst: 0x0A000002, port_dst: 443 })
    );

    // from now on snapshots from that source are discarded before the
    // classifier, whatever else gets flagged
    assert!(!should_classify(&attackers, &info));
    let mut other = sample_info();
    other.ip_src = 0x0A000099;
    assert!(should_classify(&attackers, &other));
    record_verdict(&mut attackers, &other, true);
    assert!(!should_classify(&attackers, &info));
    assert!(!should_classify(&attackers, &other));
}
