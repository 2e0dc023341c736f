//! The wire format of a probe: an IPv4 header followed by a TCP or a UDP
//! header, without options and without payload.

use vstd::prelude::*;

use crate::iterators::scans::Scan;

verus! {

/// Time to live of a probe.
pub const PROBE_TTL: u8 = 64;

/// IP protocol number of ICMP.
pub const PROTOCOL_ICMP: u8 = 1;

/// IP protocol number of TCP.
pub const PROTOCOL_TCP: u8 = 6;

/// IP protocol number of UDP.
pub const PROTOCOL_UDP: u8 = 17;

/// The IPv4 header checksum that `pnet::packet::ipv4::checksum` computes for a
/// packet of these bytes.
pub uninterp spec fn ipv4_checksum_of(packet: Seq<u8>) -> u16;

/// The checksum that `pnet::packet::tcp::ipv4_checksum` computes for a TCP
/// segment of these bytes sent from `source` to `destination`.
pub uninterp spec fn tcp_checksum_of(segment: Seq<u8>, source: u32, destination: u32) -> u16;

/// The checksum that `pnet::packet::udp::ipv4_checksum` computes for a UDP
/// datagram of these bytes sent from `source` to `destination`.
pub uninterp spec fn udp_checksum_of(datagram: Seq<u8>, source: u32, destination: u32) -> u16;

/// Calls `pnet::packet::ipv4::checksum` on a view of `packet`. Trusted: the
/// result is the value that pnet computes from these bytes, which has a name
/// and no definition here. The view exists from 20 bytes on, and pnet's 32-bit
/// sum cannot overflow below 64 KiB.
#[verifier::external_body]
fn ipv4_checksum(packet: &[u8]) -> (sum: u16)
    requires
        20 <= packet@.len() <= 0xffff,
    ensures
        sum == ipv4_checksum_of(packet@),
{
    pnet::packet::ipv4::checksum(&pnet::packet::ipv4::Ipv4Packet::new(packet).unwrap())
}

/// Calls `pnet::packet::tcp::ipv4_checksum` on a view of `segment`, with the
/// two addresses of the pseudo-header. Trusted: the result is the value that
/// pnet computes from these arguments, which has a name and no definition
/// here. The view exists from 20 bytes on, and pnet's 32-bit sum cannot
/// overflow below 64 KiB.
#[verifier::external_body]
fn tcp_checksum(segment: &[u8], source: u32, destination: u32) -> (sum: u16)
    requires
        20 <= segment@.len() <= 0xffff,
    ensures
        sum == tcp_checksum_of(segment@, source, destination),
{
    let view = pnet::packet::tcp::TcpPacket::new(segment).unwrap();
    pnet::packet::tcp::ipv4_checksum(&view, &source.into(), &destination.into())
}

/// Calls `pnet::packet::udp::ipv4_checksum` on a view of `datagram`, with the
/// two addresses of the pseudo-header. Trusted: the result is the value that
/// pnet computes from these arguments, which has a name and no definition
/// here. The view exists from 8 bytes on, and pnet's 32-bit sum cannot
/// overflow below 64 KiB.
#[verifier::external_body]
fn udp_checksum(datagram: &[u8], source: u32, destination: u32) -> (sum: u16)
    requires
        8 <= datagram@.len() <= 0xffff,
    ensures
        sum == udp_checksum_of(datagram@, source, destination),
{
    let view = pnet::packet::udp::UdpPacket::new(datagram).unwrap();
    pnet::packet::udp::ipv4_checksum(&view, &source.into(), &destination.into())
}

/// The two bytes of `value`, most significant first.
pub open spec fn be16(value: u16) -> Seq<u8> {
    seq![(value / 256) as u8, (value % 256) as u8]
}

/// The four bytes of `value`, most significant first.
pub open spec fn be32(value: u32) -> Seq<u8> {
    seq![
        (value / 0x100_0000) as u8,
        (value / 0x1_0000 % 256) as u8,
        (value / 0x100 % 256) as u8,
        (value % 256) as u8,
    ]
}

/// `count` zero bytes.
pub open spec fn zeros(count: nat) -> Seq<u8> {
    Seq::new(count, |i: int| 0u8)
}

/// The IP protocol number of a technique's probes.
pub open spec fn protocol_of(scan: Scan) -> u8 {
    if scan == Scan::UDP {
        PROTOCOL_UDP
    } else {
        PROTOCOL_TCP
    }
}

/// The IPv4 total length of a technique's probes: the padding behind a UDP
/// header is not counted.
pub open spec fn total_length_of(scan: Scan) -> u16 {
    if scan == Scan::UDP {
        28
    } else {
        40
    }
}

/// An IPv4 header without options: version 4, header length 5, time to live
/// 64, everything else that is not a parameter zero.
pub open spec fn ipv4_header(
    total_length: u16,
    protocol: u8,
    checksum: u16,
    source: u32,
    destination: u32,
) -> Seq<u8> {
    seq![0x45u8, 0u8] + be16(total_length) + zeros(4) + seq![PROBE_TTL, protocol] + be16(checksum)
        + be32(source) + be32(destination)
}

/// A TCP header without options: data offset 5, the flags in the low byte,
/// acknowledgement, window and urgent pointer zero.
pub open spec fn tcp_header(
    source_port: u16,
    destination_port: u16,
    sequence: u32,
    flags: u16,
    checksum: u16,
) -> Seq<u8> {
    be16(source_port) + be16(destination_port) + be32(sequence) + zeros(4) + seq![
        0x50u8,
        (flags % 256) as u8,
    ] + zeros(2) + be16(checksum) + zeros(2)
}

/// A UDP header of a datagram without payload.
pub open spec fn udp_header(source_port: u16, destination_port: u16, checksum: u16) -> Seq<u8> {
    be16(source_port) + be16(destination_port) + be16(8) + be16(checksum)
}

/// The transport header of a probe with the given checksum: the 20 bytes of
/// a TCP header, or the 8 bytes of a UDP header and 12 bytes of padding.
pub open spec fn transport_bytes(
    scan: Scan,
    source_port: u16,
    destination_port: u16,
    sequence: u32,
    checksum: u16,
) -> Seq<u8> {
    match scan.flag_mask() {
        Some(flags) => tcp_header(source_port, destination_port, sequence, flags, checksum),
        None => udp_header(source_port, destination_port, checksum) + zeros(12),
    }
}

/// The part of the transport header that the transport checksum is taken
/// over: all of a TCP header, and a UDP header without its padding.
pub open spec fn summed_bytes(scan: Scan, transport: Seq<u8>) -> Seq<u8> {
    if scan == Scan::UDP {
        transport.take(8)
    } else {
        transport
    }
}

/// The transport checksum of a probe: pnet's TCP or UDP checksum over the
/// header with a zero checksum field.
pub open spec fn transport_checksum_of(
    scan: Scan,
    source: u32,
    source_port: u16,
    destination: u32,
    destination_port: u16,
    sequence: u32,
) -> u16 {
    let blank = summed_bytes(
        scan,
        transport_bytes(scan, source_port, destination_port, sequence, 0),
    );
    if scan == Scan::UDP {
        udp_checksum_of(blank, source, destination)
    } else {
        tcp_checksum_of(blank, source, destination)
    }
}

/// The bytes of a probe with the given checksums.
pub open spec fn packet_bytes(
    scan: Scan,
    source: u32,
    destination: u32,
    checksum: u16,
    transport: Seq<u8>,
) -> Seq<u8> {
    ipv4_header(total_length_of(scan), protocol_of(scan), checksum, source, destination)
        + transport
}

/// The bytes of a probe of technique `scan` from `source`, port
/// `source_port`, to `destination`, port `destination_port`. The transport
/// checksum is taken over the header with a zero checksum field, the IPv4
/// checksum last, over the packet with a zero IPv4 checksum field.
pub open spec fn probe_bytes(
    scan: Scan,
    source: u32,
    source_port: u16,
    destination: u32,
    destination_port: u16,
    sequence: u32,
) -> Seq<u8> {
    let transport = transport_bytes(
        scan,
        source_port,
        destination_port,
        sequence,
        transport_checksum_of(scan, source, source_port, destination, destination_port, sequence),
    );
    packet_bytes(
        scan,
        source,
        destination,
        ipv4_checksum_of(packet_bytes(scan, source, destination, 0, transport)),
        transport,
    )
}

/// Writes `value` into `buffer` at `at`, most significant byte first.
fn put16(buffer: &mut Vec<u8>, at: usize, value: u16)
    requires
        at + 2 <= old(buffer).len(),
    ensures
        final(buffer)@ == old(buffer)@.update(at as int, be16(value)[0]).update(
            at + 1,
            be16(value)[1],
        ),
{
    let second = at + 1;
    buffer[at] = (value / 256) as u8;
    buffer[second] = (value % 256) as u8;
}

/// Writes `value` into `buffer` at `at`, most significant byte first.
fn put32(buffer: &mut Vec<u8>, at: usize, value: u32)
    requires
        at + 4 <= old(buffer).len(),
    ensures
        final(buffer)@ == old(buffer)@.update(at as int, be32(value)[0]).update(
            at + 1,
            be32(value)[1],
        ).update(at + 2, be32(value)[2]).update(at + 3, be32(value)[3]),
{
    let second = at + 1;
    let third = at + 2;
    let fourth = at + 3;
    buffer[at] = (value / 0x100_0000) as u8;
    buffer[second] = (value / 0x1_0000 % 256) as u8;
    buffer[third] = (value / 0x100 % 256) as u8;
    buffer[fourth] = (value % 256) as u8;
}

/// Builds the transport header of a probe with the given checksum, in 20
/// bytes.
pub fn transport_header(
    scan: Scan,
    source_port: u16,
    destination_port: u16,
    sequence: u32,
    checksum: u16,
) -> (transport: Vec<u8>)
    ensures
        transport@.len() == 20,
        transport@ == transport_bytes(scan, source_port, destination_port, sequence, checksum),
{
    let mut transport: Vec<u8> = vec![0u8; 20];
    put16(&mut transport, 0, source_port);
    put16(&mut transport, 2, destination_port);
    match scan.flags() {
        Some(flags) => {
            put32(&mut transport, 4, sequence);
            transport[12] = 0x50;
            transport[13] = (flags % 256) as u8;
            put16(&mut transport, 16, checksum);
            assert(transport@ =~= tcp_header(
                source_port,
                destination_port,
                sequence,
                flags,
                checksum,
            ));
        },
        None => {
            put16(&mut transport, 4, 8);
            put16(&mut transport, 6, checksum);
            assert(transport@ =~= udp_header(source_port, destination_port, checksum) + zeros(12));
        },
    }
    transport
}

/// Builds the 40 bytes of a probe from its transport header and the IPv4
/// checksum.
pub fn frame_probe(
    scan: Scan,
    source: u32,
    destination: u32,
    checksum: u16,
    transport: &Vec<u8>,
) -> (data: [u8; 40])
    requires
        transport@.len() == 20,
    ensures
        data@ == packet_bytes(scan, source, destination, checksum, transport@),
{
    let (protocol, total_length): (u8, u16) = match scan {
        Scan::UDP => (PROTOCOL_UDP, 28),
        _ => (PROTOCOL_TCP, 40),
    };
    let mut header: Vec<u8> = vec![0u8; 20];
    header[0] = 0x45;
    put16(&mut header, 2, total_length);
    header[8] = PROBE_TTL;
    header[9] = protocol;
    put16(&mut header, 10, checksum);
    put32(&mut header, 12, source);
    put32(&mut header, 16, destination);
    assert(header@ =~= ipv4_header(total_length, protocol, checksum, source, destination));
    let mut data = [0u8; 40];
    let mut i: usize = 0;
    while i < 20
        invariant
            i <= 20,
            header@.len() == 20,
            transport@.len() == 20,
            forall|j: int| 0 <= j < i ==> data@[j] == header@[j] && data@[20 + j] == transport@[j],
        decreases 20 - i,
    {
        data[i] = header[i];
        data[20 + i] = transport[i];
        i += 1;
    }
    assert(data@ =~= header@ + transport@);
    data
}

/// Builds the 40 bytes of a probe, with its checksums.
pub fn build_probe(
    scan: Scan,
    source: u32,
    source_port: u16,
    destination: u32,
    destination_port: u16,
    sequence: u32,
) -> (data: [u8; 40])
    ensures
        data@ == probe_bytes(scan, source, source_port, destination, destination_port, sequence),
{
    let blank = transport_header(scan, source_port, destination_port, sequence, 0);
    let sum = match scan {
        Scan::UDP => {
            let datagram = &blank.as_slice()[0..8];
            assert(datagram@ =~= blank@.take(8));
            udp_checksum(datagram, source, destination)
        },
        _ => tcp_checksum(blank.as_slice(), source, destination),
    };
    let transport = transport_header(scan, source_port, destination_port, sequence, sum);
    let unsummed = frame_probe(scan, source, destination, 0, &transport);
    let checksum = ipv4_checksum(unsummed.as_slice());
    frame_probe(scan, source, destination, checksum, &transport)
}

} // verus!
