//! The snapshot record exchanged between the packet path and userspace.
//!
//! A snapshot crosses the event channel as a fixed-layout, fixed-size binary
//! record with no alignment guarantees: every field is stored little-endian
//! at a fixed offset, and the reader decodes the raw bytes field by field.

use vstd::bytes::{
    spec_u16_from_le_bytes, spec_u16_to_le_bytes, spec_u32_from_le_bytes, spec_u32_to_le_bytes,
    spec_u64_from_le_bytes, spec_u64_to_le_bytes, u16_from_le_bytes, u16_to_le_bytes,
    u32_from_le_bytes, u32_to_le_bytes, u64_from_le_bytes, u64_to_le_bytes,
};
use vstd::prelude::*;
use vstd::slice::slice_subrange;

verus! {

/// Size in bytes of one encoded snapshot: two addresses, two ports and five
/// 64-bit counters, packed without padding.
pub const EVENT_RECORD_BYTES: usize = 52;

/// An immutable point-in-time copy of a flow's counters, emitted for one
/// qualifying packet: both endpoints, the running packet count, this
/// packet's declared length, the running cumulative length, this packet's
/// inter-arrival delta and the running cumulative inter-arrival time.
#[derive(Clone, Copy, Debug, PartialEq, Eq, Structural)]
pub struct EventInfo {
    pub ip_src: u32,
    pub ip_dst: u32,
    pub port_src: u16,
    pub port_dst: u16,
    pub num_packets: u64,
    pub len: u64,
    pub total_len: u64,
    pub iat: u64,
    pub total_iat: u64,
}

/// The bytes of one encoded snapshot, in field order, little-endian.
pub open spec fn spec_encode(e: EventInfo) -> Seq<u8> {
    spec_u32_to_le_bytes(e.ip_src) + spec_u32_to_le_bytes(e.ip_dst) + spec_u16_to_le_bytes(
        e.port_src,
    ) + spec_u16_to_le_bytes(e.port_dst) + spec_u64_to_le_bytes(e.num_packets)
        + spec_u64_to_le_bytes(e.len) + spec_u64_to_le_bytes(e.total_len) + spec_u64_to_le_bytes(
        e.iat,
    ) + spec_u64_to_le_bytes(e.total_iat)
}

/// The snapshot read back from one record's bytes; meaningful when the
/// record has exactly [`EVENT_RECORD_BYTES`] bytes.
pub open spec fn spec_decode(b: Seq<u8>) -> EventInfo
    recommends
        b.len() == EVENT_RECORD_BYTES,
{
    EventInfo {
        ip_src: spec_u32_from_le_bytes(b.subrange(0, 4)),
        ip_dst: spec_u32_from_le_bytes(b.subrange(4, 8)),
        port_src: spec_u16_from_le_bytes(b.subrange(8, 10)),
        port_dst: spec_u16_from_le_bytes(b.subrange(10, 12)),
        num_packets: spec_u64_from_le_bytes(b.subrange(12, 20)),
        len: spec_u64_from_le_bytes(b.subrange(20, 28)),
        total_len: spec_u64_from_le_bytes(b.subrange(28, 36)),
        iat: spec_u64_from_le_bytes(b.subrange(36, 44)),
        total_iat: spec_u64_from_le_bytes(b.subrange(44, 52)),
    }
}

/// Encoding always yields a record of the fixed size.
pub proof fn lemma_encode_len(e: EventInfo)
    ensures
        spec_encode(e).len() == EVENT_RECORD_BYTES,
{
    vstd::bytes::lemma_auto_spec_u16_to_from_le_bytes();
    vstd::bytes::lemma_auto_spec_u32_to_from_le_bytes();
    vstd::bytes::lemma_auto_spec_u64_to_from_le_bytes();
}

/// Round trip one way: decoding an encoded snapshot gives the snapshot
/// back, so the unaligned reader sees exactly the counters the packet path
/// emitted.
pub proof fn lemma_decode_of_encode(e: EventInfo)
    ensures
        spec_encode(e).len() == EVENT_RECORD_BYTES,
        spec_decode(spec_encode(e)) == e,
{
    vstd::bytes::lemma_auto_spec_u16_to_from_le_bytes();
    vstd::bytes::lemma_auto_spec_u32_to_from_le_bytes();
    vstd::bytes::lemma_auto_spec_u64_to_from_le_bytes();
    let b = spec_encode(e);
    assert(b.subrange(0, 4) =~= spec_u32_to_le_bytes(e.ip_src));
    assert(b.subrange(4, 8) =~= spec_u32_to_le_bytes(e.ip_dst));
    assert(b.subrange(8, 10) =~= spec_u16_to_le_bytes(e.port_src));
    assert(b.subrange(10, 12) =~= spec_u16_to_le_bytes(e.port_dst));
    assert(b.subrange(12, 20) =~= spec_u64_to_le_bytes(e.num_packets));
    assert(b.subrange(20, 28) =~= spec_u64_to_le_bytes(e.len));
    assert(b.subrange(28, 36) =~= spec_u64_to_le_bytes(e.total_len));
    assert(b.subrange(36, 44) =~= spec_u64_to_le_bytes(e.iat));
    assert(b.subrange(44, 52) =~= spec_u64_to_le_bytes(e.total_iat));
}

/// Round trip the other way: every record of the fixed size is the encoding
/// of the snapshot it decodes to — the layout has no spare bits.
pub proof fn lemma_encode_of_decode(b: Seq<u8>)
    requires
        b.len() == EVENT_RECORD_BYTES,
    ensures
        spec_encode(spec_decode(b)) == b,
{
    vstd::bytes::lemma_auto_spec_u16_to_from_le_bytes();
    vstd::bytes::lemma_auto_spec_u32_to_from_le_bytes();
    vstd::bytes::lemma_auto_spec_u64_to_from_le_bytes();
    assert(spec_encode(spec_decode(b)) =~= b);
}

impl EventInfo {
    /// Serialize this snapshot into its wire record.
    pub fn encode(&self) -> (r: Vec<u8>)
        ensures
            r@ == spec_encode(*self),
            r@.len() == EVENT_RECORD_BYTES,
    {
        proof {
            lemma_encode_len(*self);
        }
        let mut out = u32_to_le_bytes(self.ip_src);
        let mut part = u32_to_le_bytes(self.ip_dst);
        out.append(&mut part);
        let mut part = u16_to_le_bytes(self.port_src);
        out.append(&mut part);
        let mut part = u16_to_le_bytes(self.port_dst);
        out.append(&mut part);
        let mut part = u64_to_le_bytes(self.num_packets);
        out.append(&mut part);
        let mut part = u64_to_le_bytes(self.len);
        out.append(&mut part);
        let mut part = u64_to_le_bytes(self.total_len);
        out.append(&mut part);
        let mut part = u64_to_le_bytes(self.iat);
        out.append(&mut part);
        let mut part = u64_to_le_bytes(self.total_iat);
        out.append(&mut part);
        out
    }

    /// Read a snapshot back from one raw record. Returns the decoded
    /// snapshot exactly when the span has the fixed record size.
    pub fn decode(bytes: &[u8]) -> (r: Option<EventInfo>)
        ensures
            bytes@.len() == EVENT_RECORD_BYTES ==> r == Some(spec_decode(bytes@)),
            bytes@.len() != EVENT_RECORD_BYTES ==> r is None,
    {
        if bytes.len() != EVENT_RECORD_BYTES {
            return None;
        }
        let ip_src = u32_from_le_bytes(slice_subrange(bytes, 0, 4));
        let ip_dst = u32_from_le_bytes(slice_subrange(bytes, 4, 8));
        let port_src = u16_from_le_bytes(slice_subrange(bytes, 8, 10));
        let port_dst = u16_from_le_bytes(slice_subrange(bytes, 10, 12));
        let num_packets = u64_from_le_bytes(slice_subrange(bytes, 12, 20));
        let len = u64_from_le_bytes(slice_subrange(bytes, 20, 28));
        let total_len = u64_from_le_bytes(slice_subrange(bytes, 28, 36));
        let iat = u64_from_le_bytes(slice_subrange(bytes, 36, 44));
        let total_iat = u64_from_le_bytes(slice_subrange(bytes, 44, 52));
        Some(
            EventInfo {
                ip_src,
                ip_dst,
                port_src,
                port_dst,
                num_packets,
                len,
                total_len,
                iat,
                total_iat,
            },
        )
    }
}

} // verus!
