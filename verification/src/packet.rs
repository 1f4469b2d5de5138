//! Straight-line parsing of one received frame.
//!
//! The packet path runs under a fixed instruction budget, so parsing is a
//! bounded decision sequence over a byte view with an explicit length check
//! before every header read: link-layer header, IPv4 header, then the TCP
//! or UDP header for the ports. Anything that is not IPv4 passes through
//! untouched; a truncated frame or an unsupported transport protocol is
//! refused as malformed.

use vstd::prelude::*;
use vstd::slice::slice_index_get;

verus! {

/// Length in bytes of the link-layer header.
pub const ETH_HDR_LEN: usize = 14;

/// Length in bytes of the IPv4 header the parser reads (options are not
/// examined; transport ports are read at this fixed offset).
pub const IPV4_HDR_LEN: usize = 20;

/// Length in bytes of the TCP header the parser requires.
pub const TCP_HDR_LEN: usize = 20;

/// Length in bytes of the UDP header the parser requires.
pub const UDP_HDR_LEN: usize = 8;

/// Ether-type of IPv4, as carried big-endian in the frame.
pub const ETHERTYPE_IPV4: u16 = 0x0800;

/// IPv4 protocol number of TCP.
pub const IPPROTO_TCP: u8 = 6;

/// IPv4 protocol number of UDP.
pub const IPPROTO_UDP: u8 = 17;

/// What the flow logic needs from one successfully parsed TCP or UDP
/// packet: the five-tuple plus the declared IPv4 total length.
#[derive(Clone, Copy, Debug, PartialEq, Eq, Structural)]
pub struct ParsedPacket {
    pub l4_proto: u8,
    pub ip_src: u32,
    pub ip_dst: u32,
    pub port_src: u16,
    pub port_dst: u16,
    pub tot_len: u16,
}

/// Disposition of one frame after parsing.
#[derive(Clone, Copy, Debug, PartialEq, Eq, Structural)]
pub enum ParsedFrame {
    /// The frame is not IPv4: it passes through with no state touched.
    NonIpv4,
    /// A bounds check failed or the transport is neither TCP nor UDP: the
    /// frame is refused as malformed.
    Malformed,
    /// An IPv4 TCP or UDP packet the flow logic will process.
    Flow(ParsedPacket),
}

/// The big-endian 16-bit value at offset `off`.
pub open spec fn spec_be16(b: Seq<u8>, off: int) -> u16 {
    ((b[off] as int) * 0x100 + (b[off + 1] as int)) as u16
}

/// The big-endian 32-bit value at offset `off`.
pub open spec fn spec_be32(b: Seq<u8>, off: int) -> u32 {
    ((b[off] as int) * 0x1000000 + (b[off + 1] as int) * 0x10000 + (b[off + 2] as int) * 0x100 + (
    b[off + 3] as int)) as u32
}

/// The packet the flow logic sees in an IPv4 frame whose bounds checks all
/// passed: addresses and total length from the IPv4 header, ports from the
/// transport header that follows it.
pub open spec fn spec_flow_fields(b: Seq<u8>, proto: u8) -> ParsedPacket {
    ParsedPacket {
        l4_proto: proto,
        ip_src: spec_be32(b, 26),
        ip_dst: spec_be32(b, 30),
        port_src: spec_be16(b, 34),
        port_dst: spec_be16(b, 36),
        tot_len: spec_be16(b, 16),
    }
}

/// The disposition of one raw frame: the full parsing decision sequence.
pub open spec fn spec_parse_frame(b: Seq<u8>) -> ParsedFrame {
    if b.len() < ETH_HDR_LEN {
        ParsedFrame::Malformed
    } else if spec_be16(b, 12) != ETHERTYPE_IPV4 {
        ParsedFrame::NonIpv4
    } else if b.len() < ETH_HDR_LEN + IPV4_HDR_LEN {
        ParsedFrame::Malformed
    } else {
        let proto = b[23];
        if proto == IPPROTO_TCP {
            if b.len() < ETH_HDR_LEN + IPV4_HDR_LEN + TCP_HDR_LEN {
                ParsedFrame::Malformed
            } else {
                ParsedFrame::Flow(spec_flow_fields(b, proto))
            }
        } else if proto == IPPROTO_UDP {
            if b.len() < ETH_HDR_LEN + IPV4_HDR_LEN + UDP_HDR_LEN {
                ParsedFrame::Malformed
            } else {
                ParsedFrame::Flow(spec_flow_fields(b, proto))
            }
        } else {
            ParsedFrame::Malformed
        }
    }
}

/// Read the big-endian 16-bit field at `off`.
fn read_be16(frame: &[u8], off: usize) -> (r: u16)
    requires
        off + 2 <= frame@.len(),
        frame@.len() <= usize::MAX,
    ensures
        r == spec_be16(frame@, off as int),
{
    let hi = *slice_index_get(frame, off);
    let lo = *slice_index_get(frame, off + 1);
    (hi as u16) * 0x100 + (lo as u16)
}

/// Read the big-endian 32-bit field at `off`.
fn read_be32(frame: &[u8], off: usize) -> (r: u32)
    requires
        off + 4 <= frame@.len(),
        frame@.len() <= usize::MAX,
    ensures
        r == spec_be32(frame@, off as int),
{
    let b0 = *slice_index_get(frame, off);
    let b1 = *slice_index_get(frame, off + 1);
    let b2 = *slice_index_get(frame, off + 2);
    let b3 = *slice_index_get(frame, off + 3);
    (b0 as u32) * 0x1000000 + (b1 as u32) * 0x10000 + (b2 as u32) * 0x100 + (b3 as u32)
}

/// Parse one raw frame into its disposition. Every header read is guarded
/// by a length check; no byte outside the frame is touched.
pub fn parse_frame(frame: &[u8]) -> (r: ParsedFrame)
    ensures
        r == spec_parse_frame(frame@),
{
    if frame.len() < ETH_HDR_LEN {
        return ParsedFrame::Malformed;
    }
    let ether_type = read_be16(frame, 12);
    if ether_type != ETHERTYPE_IPV4 {
        return ParsedFrame::NonIpv4;
    }
    if frame.len() < ETH_HDR_LEN + IPV4_HDR_LEN {
        return ParsedFrame::Malformed;
    }
    let proto = *slice_index_get(frame, 23);
    if proto == IPPROTO_TCP {
        if frame.len() < ETH_HDR_LEN + IPV4_HDR_LEN + TCP_HDR_LEN {
            return ParsedFrame::Malformed;
        }
    } else if proto == IPPROTO_UDP {
        if frame.len() < ETH_HDR_LEN + IPV4_HDR_LEN + UDP_HDR_LEN {
            return ParsedFrame::Malformed;
        }
    } else {
        return ParsedFrame::Malformed;
    }
    ParsedFrame::Flow(
        ParsedPacket {
            l4_proto: proto,
            ip_src: read_be32(frame, 26),
            ip_dst: read_be32(frame, 30),
            port_src: read_be16(frame, 34),
            port_dst: read_be16(frame, 36),
            tot_len: read_be16(frame, 16),
        },
    )
}

} // verus!
