//! Packet construction module for building raw network frames.
//!
//! The `PacketBuilder` holds the addressing configuration and serializes
//! complete Ethernet/IPv4/TCP or UDP frames, with both checksums computed.
//! The exact byte image of every frame is given by [`spec_frame`].

use vstd::prelude::*;

use crate::checksum::{internet_checksum, spec_checksum};
use crate::{Args, L4Protocol};

verus! {

/// Capacity of one frame: the standard Ethernet MTU.
pub const MTU: usize = 1500;

/// Bytes of the Ethernet header.
pub const ETHERNET_HEADER_LEN: usize = 14;

/// Bytes of the IPv4 header (no options are ever emitted).
pub const IPV4_HEADER_LEN: usize = 20;

/// Bytes of the UDP header.
pub const UDP_HEADER_LEN: usize = 8;

/// Bytes of the TCP header (no options are ever emitted).
pub const TCP_HEADER_LEN: usize = 20;

/// Fixed source port stamped into every TCP or UDP header.
pub const SOURCE_PORT: u16 = 12345;

/// Fixed TCP window size.
pub const TCP_WINDOW: u16 = 64240;

/// Error raised when a payload does not fit into the frame buffer.
#[derive(Clone, Copy, Debug, PartialEq, Eq, Structural)]
pub enum BuildError {
    /// The payload plus the three headers would exceed the MTU.
    PayloadTooLarge {
        /// Largest payload length the configured protocol admits.
        max: usize,
        /// Length of the payload that was handed in.
        got: usize,
    },
}

/// Builder for constructing raw network frames.
///
/// `PacketBuilder` creates complete network frames including Ethernet (L2),
/// IPv4 (L3), and TCP/UDP (L4) headers:
///
/// ```text
/// +----------------+
/// | Ethernet (14B) |  Layer 2: MAC addresses, EtherType
/// +----------------+
/// | IPv4 (20B)     |  Layer 3: IP addresses, protocol
/// +----------------+
/// | TCP/UDP        |  Layer 4: Ports, checksums
/// | (20B / 8B)     |
/// +----------------+
/// | Payload        |  Application data
/// +----------------+
/// ```
pub struct PacketBuilder {
    /// Source IPv4 address
    pub src_ip: [u8; 4],
    /// Destination IPv4 address
    pub dst_ip: [u8; 4],
    /// Destination port number (TCP/UDP)
    pub dest_port: u16,
    /// Source MAC address (Ethernet layer)
    pub src_mac: [u8; 6],
    /// Destination MAC address (Ethernet layer)
    pub dst_mac: [u8; 6],
    /// Layer 4 protocol (TCP or UDP)
    pub l4_protocol: L4Protocol,
    /// IPv4 header flags/fragment offset bitfield
    pub ip_bitfield: u8,
}

/// Converts the run's arguments into a `PacketBuilder` carrying every
/// field the frame layout depends on.
impl<'a> From<&'a Args> for PacketBuilder {
    fn from(args: &'a Args) -> (r: Self) {
        PacketBuilder {
            src_ip: args.src_ip,
            dst_ip: args.dst_ip,
            dest_port: args.dest_port,
            src_mac: args.src_mac,
            dst_mac: args.dst_mac,
            l4_protocol: args.l4_protocol,
            ip_bitfield: args.ip_bitfield,
        }
    }
}

impl<'a> vstd::std_specs::convert::FromSpecImpl<&'a Args> for PacketBuilder {
    open spec fn obeys_from_spec() -> bool {
        true
    }

    open spec fn from_spec(args: &'a Args) -> Self {
        PacketBuilder {
            src_ip: args.src_ip,
            dst_ip: args.dst_ip,
            dest_port: args.dest_port,
            src_mac: args.src_mac,
            dst_mac: args.dst_mac,
            l4_protocol: args.l4_protocol,
            ip_bitfield: args.ip_bitfield,
        }
    }
}

/// The IPv4 protocol number of the chosen transport protocol.
pub open spec fn spec_protocol_number(p: L4Protocol) -> u8 {
    match p {
        L4Protocol::Tcp => 6,
        L4Protocol::Udp => 17,
    }
}

/// Length in bytes of the transport-layer header.
pub open spec fn spec_l4_header_len(p: L4Protocol) -> int {
    match p {
        L4Protocol::Tcp => 20,
        L4Protocol::Udp => 8,
    }
}

/// Largest payload that still fits in the MTU under the chosen protocol.
pub open spec fn spec_max_payload(p: L4Protocol) -> int {
    MTU - ETHERNET_HEADER_LEN - IPV4_HEADER_LEN - spec_l4_header_len(p)
}

/// A 16-bit value as two bytes, big-endian (meaningful for 0 <= x < 65536).
pub open spec fn spec_be16(x: int) -> Seq<u8> {
    seq![(x / 256) as u8, (x % 256) as u8]
}

/// The 14 Ethernet header bytes: destination MAC, source MAC,
/// EtherType 0x0800 (IPv4).
pub open spec fn spec_ethernet_header(b: PacketBuilder) -> Seq<u8> {
    b.dst_mac@ + b.src_mac@ + seq![0x08u8, 0x00u8]
}

/// The 20 IPv4 header bytes before the checksum is filled in:
/// version 4, header length 5, DSCP/ECN 0, the given total length,
/// identification 0, the raw flags/fragment bitfield, TTL 64, the protocol
/// number, a zeroed checksum field, and the two addresses.
///
/// The flags occupy the top 3 bits of byte 6 and the fragment offset the
/// low 13 bits of bytes 6-7; the offset emitted here is
/// `(ip_bitfield & 0x1F) << 8` in 8-byte units, so the pair of bytes works
/// out to `[ip_bitfield, 0]` (see [`lemma_ip_bitfield_encoding`]).
pub open spec fn spec_ipv4_header_zero_checksum(b: PacketBuilder, ip_total_len: int) -> Seq<u8> {
    seq![0x45u8, 0x00u8] + spec_be16(ip_total_len) + seq![0u8, 0u8] + seq![b.ip_bitfield, 0u8]
        + seq![64u8, spec_protocol_number(b.l4_protocol)] + seq![0u8, 0u8] + b.src_ip@ + b.dst_ip@
}

/// The 20 IPv4 header bytes as emitted, with the header checksum spliced
/// into bytes 10-11.
pub open spec fn spec_ipv4_header(b: PacketBuilder, ip_total_len: int) -> Seq<u8> {
    let h0 = spec_ipv4_header_zero_checksum(b, ip_total_len);
    let c = spec_checksum(h0);
    h0.update(10, (c / 256) as u8).update(11, (c % 256) as u8)
}

/// The conceptual 12-byte pseudo-header the TCP and UDP checksums cover:
/// source address, destination address, a zero byte, the protocol number,
/// and the transport segment length.
pub open spec fn spec_pseudo_header(b: PacketBuilder, l4_len: int) -> Seq<u8> {
    b.src_ip@ + b.dst_ip@ + seq![0u8, spec_protocol_number(b.l4_protocol)] + spec_be16(l4_len)
}

/// The 8 UDP header bytes before the checksum is filled in: fixed source
/// port, destination port, header-plus-payload length, zeroed checksum.
pub open spec fn spec_udp_header_zero_checksum(b: PacketBuilder, payload_len: int) -> Seq<u8> {
    spec_be16(SOURCE_PORT as int) + spec_be16(b.dest_port as int)
        + spec_be16(UDP_HEADER_LEN + payload_len) + seq![0u8, 0u8]
}

/// The UDP header and payload as emitted: the checksum over the
/// pseudo-header and the zero-checksum segment, spliced into bytes 6-7.
pub open spec fn spec_udp_segment(b: PacketBuilder, payload: Seq<u8>) -> Seq<u8> {
    let seg0 = spec_udp_header_zero_checksum(b, payload.len() as int) + payload;
    let c = spec_checksum(spec_pseudo_header(b, seg0.len() as int) + seg0);
    seg0.update(6, (c / 256) as u8).update(7, (c % 256) as u8)
}

/// The 20 TCP header bytes before the checksum is filled in: fixed source
/// port, destination port, sequence and acknowledgment numbers 0, data
/// offset 5, flags 0x02 (SYN only), fixed window, zeroed checksum, urgent
/// pointer 0.
pub open spec fn spec_tcp_header_zero_checksum(b: PacketBuilder) -> Seq<u8> {
    spec_be16(SOURCE_PORT as int) + spec_be16(b.dest_port as int) + seq![0u8, 0u8, 0u8, 0u8]
        + seq![0u8, 0u8, 0u8, 0u8] + seq![0x50u8, 0x02u8] + spec_be16(TCP_WINDOW as int)
        + seq![0u8, 0u8] + seq![0u8, 0u8]
}

/// The TCP header and payload as emitted: the checksum over the
/// pseudo-header and the zero-checksum segment, spliced into bytes 16-17.
pub open spec fn spec_tcp_segment(b: PacketBuilder, payload: Seq<u8>) -> Seq<u8> {
    let seg0 = spec_tcp_header_zero_checksum(b) + payload;
    let c = spec_checksum(spec_pseudo_header(b, seg0.len() as int) + seg0);
    seg0.update(16, (c / 256) as u8).update(17, (c % 256) as u8)
}

/// The transport-layer bytes of a frame: header, checksum and payload.
pub open spec fn spec_l4_segment(b: PacketBuilder, payload: Seq<u8>) -> Seq<u8> {
    match b.l4_protocol {
        L4Protocol::Udp => spec_udp_segment(b, payload),
        L4Protocol::Tcp => spec_tcp_segment(b, payload),
    }
}

/// The complete wire image of one frame: Ethernet header, IPv4 header, and
/// the transport segment carrying the payload.
pub open spec fn spec_frame(b: PacketBuilder, payload: Seq<u8>) -> Seq<u8> {
    spec_ethernet_header(b) + spec_ipv4_header(
        b,
        IPV4_HEADER_LEN + spec_l4_header_len(b.l4_protocol) + payload.len(),
    ) + spec_l4_segment(b, payload)
}

/// For every configuration and payload, the frame is as long as its three
/// headers plus the payload.
pub proof fn lemma_frame_length(b: PacketBuilder, payload: Seq<u8>)
    ensures
        spec_frame(b, payload).len() == ETHERNET_HEADER_LEN + IPV4_HEADER_LEN
            + spec_l4_header_len(b.l4_protocol) + payload.len(),
{
}

/// Ethernet layout: bytes 0-5 carry the destination MAC, bytes 6-11 the
/// source MAC, and bytes 12-13 the IPv4 EtherType 0x0800.
pub proof fn lemma_ethernet_layout(b: PacketBuilder, payload: Seq<u8>)
    ensures
        spec_frame(b, payload).subrange(0, 6) == b.dst_mac@,
        spec_frame(b, payload).subrange(6, 12) == b.src_mac@,
        spec_frame(b, payload)[12] == 0x08,
        spec_frame(b, payload)[13] == 0x00,
{
    let f = spec_frame(b, payload);
    assert(f.subrange(0, 6) =~= b.dst_mac@);
    assert(f.subrange(6, 12) =~= b.src_mac@);
}

/// IPv4 layout: version 4 and header length 5 in byte 0, the total length
/// over bytes 2-3, TTL 64, the protocol number 17 or 6, and the two
/// addresses over bytes 12-19.
pub proof fn lemma_ipv4_layout(b: PacketBuilder, payload: Seq<u8>)
    requires
        payload.len() <= spec_max_payload(b.l4_protocol),
    ensures
        spec_frame(b, payload)[14] == 0x45,
        spec_frame(b, payload)[15] == 0x00,
        spec_frame(b, payload)[16] * 256 + spec_frame(b, payload)[17] == IPV4_HEADER_LEN
            + spec_l4_header_len(b.l4_protocol) + payload.len(),
        spec_frame(b, payload)[18] == 0x00,
        spec_frame(b, payload)[19] == 0x00,
        spec_frame(b, payload)[22] == 64,
        spec_frame(b, payload)[23] == spec_protocol_number(b.l4_protocol),
        spec_frame(b, payload).subrange(26, 30) == b.src_ip@,
        spec_frame(b, payload).subrange(30, 34) == b.dst_ip@,
{
    let f = spec_frame(b, payload);
    let total = IPV4_HEADER_LEN + spec_l4_header_len(b.l4_protocol) + payload.len();
    assert(f[16] == (total / 256) as u8 && f[17] == (total % 256) as u8);
    vstd::arithmetic::div_mod::lemma_fundamental_div_mod(total as int, 256);
    assert(f.subrange(26, 30) =~= b.src_ip@);
    assert(f.subrange(30, 34) =~= b.dst_ip@);
}

/// The caller-supplied bitfield is emitted verbatim as IPv4 byte 6, with a
/// zero byte 7: its top 3 bits are the flags field and its low 5 bits are
/// the high bits of the fragment offset, so the offset emitted is
/// `(ip_bitfield & 0x1F) << 8` in 8-byte units. In particular a bitfield
/// of 0x40 yields flags field 2 (Don't-Fragment).
pub proof fn lemma_ip_bitfield_encoding(b: PacketBuilder, payload: Seq<u8>)
    ensures
        spec_frame(b, payload)[20] == b.ip_bitfield,
        spec_frame(b, payload)[21] == 0,
        spec_frame(b, payload)[20] / 32 == b.ip_bitfield / 32,
        (spec_frame(b, payload)[20] % 32) * 256 + spec_frame(b, payload)[21] == (b.ip_bitfield
            % 32) * 256,
        b.ip_bitfield == 0x40 ==> spec_frame(b, payload)[20] / 32 == 2,
{
}

/// The emitted IPv4 checksum verifies: recomputing the checksum over the
/// emitted 20-byte header with its checksum field zeroed yields exactly
/// the stored bytes 10-11 of that header.
pub proof fn lemma_ipv4_checksum_valid(b: PacketBuilder, payload: Seq<u8>)
    requires
        payload.len() <= spec_max_payload(b.l4_protocol),
    ensures
        ({
            let header = spec_frame(b, payload).subrange(14, 34);
            spec_checksum(header.update(10, 0u8).update(11, 0u8)) == header[10] * 256 + header[11]
        }),
{
    let total = IPV4_HEADER_LEN + spec_l4_header_len(b.l4_protocol) + payload.len();
    let h0 = spec_ipv4_header_zero_checksum(b, total);
    let header = spec_frame(b, payload).subrange(14, 34);
    assert(header =~= spec_ipv4_header(b, total));
    assert(header.update(10, 0u8).update(11, 0u8) =~= h0);
    let c = spec_checksum(h0);
    crate::checksum::lemma_checksum_bounds(h0);
    assert(header[10] == (c / 256) as u8 && header[11] == (c % 256) as u8);
    vstd::arithmetic::div_mod::lemma_fundamental_div_mod(c, 256);
}

/// The emitted transport checksum verifies: recomputing the checksum over
/// the pseudo-header and the emitted segment with its checksum field
/// zeroed yields exactly the stored checksum bytes (at segment offset 6
/// for UDP, 16 for TCP).
pub proof fn lemma_l4_checksum_valid(b: PacketBuilder, payload: Seq<u8>)
    requires
        payload.len() <= spec_max_payload(b.l4_protocol),
    ensures
        ({
            let f = spec_frame(b, payload);
            let seg = f.subrange(34, f.len() as int);
            let co: int = if b.l4_protocol == L4Protocol::Udp {
                6
            } else {
                16
            };
            spec_checksum(
                spec_pseudo_header(b, seg.len() as int) + seg.update(co, 0u8).update(co + 1, 0u8),
            ) == seg[co] * 256 + seg[co + 1]
        }),
{
    let f = spec_frame(b, payload);
    let seg = f.subrange(34, f.len() as int);
    let co: int = if b.l4_protocol == L4Protocol::Udp {
        6
    } else {
        16
    };
    let seg0 = match b.l4_protocol {
        L4Protocol::Udp => spec_udp_header_zero_checksum(b, payload.len() as int) + payload,
        L4Protocol::Tcp => spec_tcp_header_zero_checksum(b) + payload,
    };
    assert(seg =~= spec_l4_segment(b, payload));
    assert(seg.update(co, 0u8).update(co + 1, 0u8) =~= seg0);
    let c = spec_checksum(spec_pseudo_header(b, seg0.len() as int) + seg0);
    crate::checksum::lemma_checksum_bounds(spec_pseudo_header(b, seg0.len() as int) + seg0);
    assert(seg[co] == (c / 256) as u8 && seg[co + 1] == (c % 256) as u8);
    vstd::arithmetic::div_mod::lemma_fundamental_div_mod(c, 256);
}

/// TCP frames always carry flags byte 0x02 (SYN only), whatever the
/// payload.
pub proof fn lemma_tcp_syn_flag(b: PacketBuilder, payload: Seq<u8>)
    requires
        b.l4_protocol == L4Protocol::Tcp,
    ensures
        spec_frame(b, payload)[47] == 0x02,
{
}

/// An empty payload still yields a well-formed frame: only the three
/// headers are emitted, and for UDP the length field reads 8 (header
/// alone, transport payload length 0).
pub proof fn lemma_empty_payload(b: PacketBuilder)
    ensures
        spec_frame(b, Seq::<u8>::empty()).len() == ETHERNET_HEADER_LEN + IPV4_HEADER_LEN
            + spec_l4_header_len(b.l4_protocol),
        b.l4_protocol == L4Protocol::Udp ==> spec_frame(b, Seq::<u8>::empty())[38] * 256
            + spec_frame(b, Seq::<u8>::empty())[39] == 8,
{
}

impl PacketBuilder {
    /// Constructs the Ethernet (Layer 2) header: destination MAC, source
    /// MAC, EtherType 0x0800.
    fn build_ethernet_header(&self) -> (v: Vec<u8>)
        ensures
            v@ == spec_ethernet_header(*self),
    {
        let mut v: Vec<u8> = Vec::new();
        v.push(self.dst_mac[0]);
        v.push(self.dst_mac[1]);
        v.push(self.dst_mac[2]);
        v.push(self.dst_mac[3]);
        v.push(self.dst_mac[4]);
        v.push(self.dst_mac[5]);
        v.push(self.src_mac[0]);
        v.push(self.src_mac[1]);
        v.push(self.src_mac[2]);
        v.push(self.src_mac[3]);
        v.push(self.src_mac[4]);
        v.push(self.src_mac[5]);
        v.push(0x08);
        v.push(0x00);
        proof {
            assert(v@ =~= spec_ethernet_header(*self));
        }
        v
    }

    /// Constructs the IPv4 (Layer 3) header for a transport segment of
    /// `l4_length` bytes (header plus payload), with its checksum computed.
    fn build_ipv4_header(&self, l4_length: usize) -> (v: Vec<u8>)
        requires
            l4_length <= MTU,
        ensures
            v@ == spec_ipv4_header(*self, IPV4_HEADER_LEN + l4_length),
    {
        let total_length: u16 = (IPV4_HEADER_LEN + l4_length) as u16;
        let protocol: u8 = match self.l4_protocol {
            L4Protocol::Tcp => 6,
            L4Protocol::Udp => 17,
        };
        let mut v: Vec<u8> = Vec::new();
        v.push(0x45);
        v.push(0x00);
        v.push((total_length / 256) as u8);
        v.push((total_length % 256) as u8);
        v.push(0);
        v.push(0);
        v.push(self.ip_bitfield);
        v.push(0);
        v.push(64);
        v.push(protocol);
        v.push(0);
        v.push(0);
        v.push(self.src_ip[0]);
        v.push(self.src_ip[1]);
        v.push(self.src_ip[2]);
        v.push(self.src_ip[3]);
        v.push(self.dst_ip[0]);
        v.push(self.dst_ip[1]);
        v.push(self.dst_ip[2]);
        v.push(self.dst_ip[3]);
        proof {
            assert(v@ =~= spec_ipv4_header_zero_checksum(
                *self,
                IPV4_HEADER_LEN + l4_length as int,
            ));
        }
        let checksum = internet_checksum(v.as_slice());
        v.set(10, (checksum / 256) as u8);
        v.set(11, (checksum % 256) as u8);
        proof {
            assert(v@ =~= spec_ipv4_header(*self, IPV4_HEADER_LEN + l4_length as int));
        }
        v
    }

    /// Constructs the conceptual pseudo-header the TCP and UDP checksums
    /// cover; it is never part of the emitted frame.
    fn build_pseudo_header(&self, l4_length: usize) -> (v: Vec<u8>)
        requires
            l4_length <= MTU,
        ensures
            v@ == spec_pseudo_header(*self, l4_length as int),
    {
        let protocol: u8 = match self.l4_protocol {
            L4Protocol::Tcp => 6,
            L4Protocol::Udp => 17,
        };
        let l4_len16: u16 = l4_length as u16;
        let mut v: Vec<u8> = Vec::new();
        v.push(self.src_ip[0]);
        v.push(self.src_ip[1]);
        v.push(self.src_ip[2]);
        v.push(self.src_ip[3]);
        v.push(self.dst_ip[0]);
        v.push(self.dst_ip[1]);
        v.push(self.dst_ip[2]);
        v.push(self.dst_ip[3]);
        v.push(0);
        v.push(protocol);
        v.push((l4_len16 / 256) as u8);
        v.push((l4_len16 % 256) as u8);
        proof {
            assert(v@ =~= spec_pseudo_header(*self, l4_length as int));
        }
        v
    }

    /// Constructs the UDP header and payload, with the UDP checksum
    /// computed over the pseudo-header and spliced into the header.
    fn build_udp_segment(&self, payload: &[u8]) -> (v: Vec<u8>)
        requires
            UDP_HEADER_LEN + payload@.len() <= MTU,
        ensures
            v@ == spec_udp_segment(*self, payload@),
    {
        let udp_length: u16 = (UDP_HEADER_LEN + payload.len()) as u16;
        let mut seg: Vec<u8> = Vec::new();
        seg.push((SOURCE_PORT / 256) as u8);
        seg.push((SOURCE_PORT % 256) as u8);
        seg.push((self.dest_port / 256) as u8);
        seg.push((self.dest_port % 256) as u8);
        seg.push((udp_length / 256) as u8);
        seg.push((udp_length % 256) as u8);
        seg.push(0);
        seg.push(0);
        seg.extend_from_slice(payload);
        let ghost seg0 = spec_udp_header_zero_checksum(*self, payload@.len() as int) + payload@;
        proof {
            assert(seg@ =~= seg0);
        }
        let mut data = self.build_pseudo_header(seg.len());
        data.extend_from_slice(seg.as_slice());
        proof {
            assert(data@ =~= spec_pseudo_header(*self, seg0.len() as int) + seg0);
        }
        let checksum = internet_checksum(data.as_slice());
        seg.set(6, (checksum / 256) as u8);
        seg.set(7, (checksum % 256) as u8);
        proof {
            assert(checksum == spec_checksum(spec_pseudo_header(*self, seg0.len() as int) + seg0));
            assert(seg@ =~= spec_udp_segment(*self, payload@));
        }
        seg
    }

    /// Constructs the TCP header and payload, with the TCP checksum
    /// computed over the pseudo-header and spliced into the header.
    fn build_tcp_segment(&self, payload: &[u8]) -> (v: Vec<u8>)
        requires
            TCP_HEADER_LEN + payload@.len() <= MTU,
        ensures
            v@ == spec_tcp_segment(*self, payload@),
    {
        let mut seg: Vec<u8> = Vec::new();
        seg.push((SOURCE_PORT / 256) as u8);
        seg.push((SOURCE_PORT % 256) as u8);
        seg.push((self.dest_port / 256) as u8);
        seg.push((self.dest_port % 256) as u8);
        seg.push(0);
        seg.push(0);
        seg.push(0);
        seg.push(0);
        seg.push(0);
        seg.push(0);
        seg.push(0);
        seg.push(0);
        seg.push(0x50);
        seg.push(0x02);
        seg.push((TCP_WINDOW / 256) as u8);
        seg.push((TCP_WINDOW % 256) as u8);
        seg.push(0);
        seg.push(0);
        seg.push(0);
        seg.push(0);
        seg.extend_from_slice(payload);
        let ghost seg0 = spec_tcp_header_zero_checksum(*self) + payload@;
        proof {
            assert(seg@ =~= seg0);
        }
        let mut data = self.build_pseudo_header(seg.len());
        data.extend_from_slice(seg.as_slice());
        proof {
            assert(data@ =~= spec_pseudo_header(*self, seg0.len() as int) + seg0);
        }
        let checksum = internet_checksum(data.as_slice());
        seg.set(16, (checksum / 256) as u8);
        seg.set(17, (checksum % 256) as u8);
        proof {
            assert(checksum == spec_checksum(spec_pseudo_header(*self, seg0.len() as int) + seg0));
            assert(seg@ =~= spec_tcp_segment(*self, payload@));
        }
        seg
    }

    /// Constructs a complete UDP frame: Ethernet header, IPv4 header, UDP
    /// header and payload.
    fn build_udp(&self, payload: &[u8]) -> (v: Vec<u8>)
        requires
            self.l4_protocol == L4Protocol::Udp,
            payload@.len() <= spec_max_payload(L4Protocol::Udp),
        ensures
            v@ == spec_frame(*self, payload@),
    {
        let mut frame = self.build_ethernet_header();
        let mut ip = self.build_ipv4_header(UDP_HEADER_LEN + payload.len());
        frame.append(&mut ip);
        let mut seg = self.build_udp_segment(payload);
        frame.append(&mut seg);
        proof {
            assert(frame@ =~= spec_frame(*self, payload@));
        }
        frame
    }

    /// Constructs a complete TCP frame: Ethernet header, IPv4 header, TCP
    /// header and payload.
    fn build_tcp(&self, payload: &[u8]) -> (v: Vec<u8>)
        requires
            self.l4_protocol == L4Protocol::Tcp,
            payload@.len() <= spec_max_payload(L4Protocol::Tcp),
        ensures
            v@ == spec_frame(*self, payload@),
    {
        let mut frame = self.build_ethernet_header();
        let mut ip = self.build_ipv4_header(TCP_HEADER_LEN + payload.len());
        frame.append(&mut ip);
        let mut seg = self.build_tcp_segment(payload);
        frame.append(&mut seg);
        proof {
            assert(frame@ =~= spec_frame(*self, payload@));
        }
        frame
    }

    /// Builds a complete network frame with the given payload.
    ///
    /// Constructs a full frame including Ethernet, IPv4, and TCP/UDP headers
    /// based on the configured protocol, with both checksums computed. The
    /// returned bytes are exactly [`spec_frame`] of the configuration and
    /// payload. A payload that would not fit in the MTU is rejected before
    /// anything is written.
    pub fn build_packet(&self, payload: &[u8]) -> (r: Result<Vec<u8>, BuildError>)
        ensures
            match r {
                Ok(v) => payload@.len() <= spec_max_payload(self.l4_protocol) && v@
                    == spec_frame(*self, payload@),
                Err(e) => payload@.len() > spec_max_payload(self.l4_protocol) && e == (
                BuildError::PayloadTooLarge {
                    max: spec_max_payload(self.l4_protocol) as usize,
                    got: payload@.len() as usize,
                }),
            },
    {
        let max: usize = match self.l4_protocol {
            L4Protocol::Udp => MTU - ETHERNET_HEADER_LEN - IPV4_HEADER_LEN - UDP_HEADER_LEN,
            L4Protocol::Tcp => MTU - ETHERNET_HEADER_LEN - IPV4_HEADER_LEN - TCP_HEADER_LEN,
        };
        if payload.len() > max {
            return Err(BuildError::PayloadTooLarge { max, got: payload.len() });
        }
        match self.l4_protocol {
            L4Protocol::Udp => Ok(self.build_udp(payload)),
            L4Protocol::Tcp => Ok(self.build_tcp(payload)),
        }
    }
}

} // verus!
