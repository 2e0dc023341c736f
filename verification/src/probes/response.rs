//! Decoding of received datagrams into response descriptors.

use vstd::prelude::*;

use crate::probes::packet::{PROTOCOL_ICMP, PROTOCOL_TCP, PROTOCOL_UDP};
use crate::probes::Endpoint;

verus! {

/// Length of an Ethernet header.
pub const LINK_HEADER_LEN: usize = 14;

/// Length of the fixed part of an ICMP error message, in front of the
/// datagram that it reports on.
pub const ICMP_HEADER_LEN: usize = 8;

/// The shape of a reply to a probe.
#[derive(Clone, Copy, Debug, PartialEq, Eq, Structural)]
pub enum ResponseKind {
    /// Nothing came back before the probe timed out.
    NoResponse,
    /// A TCP segment, with its nine flag bits.
    Tcp(u16),
    /// An ICMP message, with its type and code.
    Icmp(u8, u8),
    /// A UDP datagram.
    Udp,
}

/// A reply, reduced to what correlates it with a probe.
#[derive(Clone, Copy, Debug, PartialEq, Eq, Structural)]
pub struct Response {
    /// The host that answered and the port that the probe was aimed at.
    pub origin: Endpoint,
    /// The source port of the probe that is answered.
    pub probe_id: u16,
    /// The shape of the reply.
    pub kind: ResponseKind,
}

/// Why a buffer could not be decoded.
#[derive(Clone, Copy, Debug, PartialEq, Eq, Structural)]
pub enum DecodeError {
    /// A header does not fit into the bytes that are there.
    TooSmall,
    /// The protocol is none of TCP, UDP and ICMP, or the frame is not IPv4.
    Unsupported,
}

/// What a transport header says: its kind and its two ports.
#[derive(Clone, Copy, Debug, PartialEq, Eq, Structural)]
pub struct NextHeaderInfo {
    pub protocol: ResponseKind,
    pub destination: u16,
    pub source: u16,
}

/// The 16-bit number at `at`, most significant byte first.
pub open spec fn word_at(bytes: Seq<u8>, at: int) -> u16 {
    (bytes[at] as int * 256 + bytes[at + 1] as int) as u16
}

/// The 32-bit number at `at`, most significant byte first.
pub open spec fn quad_at(bytes: Seq<u8>, at: int) -> u32 {
    (bytes[at] as int * 0x100_0000 + bytes[at + 1] as int * 0x1_0000 + bytes[at + 2] as int * 0x100
        + bytes[at + 3] as int) as u32
}

/// The length in bytes that an IPv4 header declares for itself.
pub open spec fn header_length(packet: Seq<u8>) -> int {
    (packet[0] as int % 16) * 4
}

/// Where the payload of an IPv4 packet begins: behind the declared header,
/// and never inside the first 20 bytes.
pub open spec fn payload_start(packet: Seq<u8>) -> int {
    if header_length(packet) < 20 {
        20
    } else {
        header_length(packet)
    }
}

/// Where the payload of an IPv4 packet ends: where the declared total length
/// says, and at the latest where the bytes end.
pub open spec fn payload_end(packet: Seq<u8>) -> int {
    let declared = word_at(packet, 2) as int - header_length(packet);
    let end = payload_start(packet) + if declared < 0 {
        0
    } else {
        declared
    };
    if end < packet.len() {
        end
    } else {
        packet.len() as int
    }
}

/// The payload of an IPv4 packet of at least 20 bytes.
pub open spec fn payload_of(packet: Seq<u8>) -> Seq<u8> {
    if packet.len() <= payload_start(packet) {
        Seq::empty()
    } else {
        packet.subrange(payload_start(packet), payload_end(packet))
    }
}

/// The nine flag bits of a TCP header.
pub open spec fn tcp_flags(segment: Seq<u8>) -> u16 {
    ((segment[12] as int % 2) * 256 + segment[13] as int) as u16
}

/// What the transport header in `payload` says, for a TCP or UDP payload.
pub open spec fn transport_info(protocol: u8, payload: Seq<u8>) -> Result<
    NextHeaderInfo,
    DecodeError,
> {
    if protocol == PROTOCOL_TCP {
        if payload.len() < 20 {
            Err(DecodeError::TooSmall)
        } else {
            Ok(
                NextHeaderInfo {
                    protocol: ResponseKind::Tcp(tcp_flags(payload)),
                    destination: word_at(payload, 2),
                    source: word_at(payload, 0),
                },
            )
        }
    } else if protocol == PROTOCOL_UDP {
        if payload.len() < 8 {
            Err(DecodeError::TooSmall)
        } else {
            Ok(
                NextHeaderInfo {
                    protocol: ResponseKind::Udp,
                    destination: word_at(payload, 2),
                    source: word_at(payload, 0),
                },
            )
        }
    } else {
        Err(DecodeError::Unsupported)
    }
}

/// The datagram that an error message of at least 8 bytes reports on.
pub open spec fn reported_datagram(message: Seq<u8>) -> Seq<u8> {
    message.skip(8)
}

/// What the headers behind the IPv4 header of `packet` say. For TCP and UDP
/// these are the ports of the segment. An ICMP message carries the datagram
/// that it reports on behind its own 8 bytes: that datagram is the probe, so
/// its ports are taken with source and destination exchanged.
pub open spec fn next_header_info(packet: Seq<u8>) -> Result<NextHeaderInfo, DecodeError> {
    if packet.len() < 20 {
        Err(DecodeError::TooSmall)
    } else if packet[9] == PROTOCOL_ICMP {
        let message = payload_of(packet);
        if message.len() < ICMP_HEADER_LEN + 20 {
            Err(DecodeError::TooSmall)
        } else {
            let probe = reported_datagram(message);
            match transport_info(probe[9], payload_of(probe)) {
                Ok(inner) => Ok(
                    NextHeaderInfo {
                        protocol: ResponseKind::Icmp(message[0], message[1]),
                        destination: inner.source,
                        source: inner.destination,
                    },
                ),
                Err(e) => Err(e),
            }
        }
    } else {
        transport_info(packet[9], payload_of(packet))
    }
}

/// The response that a buffer beginning at an IPv4 header decodes to.
pub open spec fn decoded(packet: Seq<u8>) -> Result<Response, DecodeError> {
    match next_header_info(packet) {
        Ok(info) => Ok(
            Response {
                origin: Endpoint { host: quad_at(packet, 12), port: info.source },
                probe_id: info.destination,
                kind: info.protocol,
            },
        ),
        Err(e) => Err(e),
    }
}

/// The IPv4 packet inside an Ethernet frame.
pub open spec fn link_payload(frame: Seq<u8>) -> Result<Seq<u8>, DecodeError> {
    if frame.len() < LINK_HEADER_LEN {
        Err(DecodeError::TooSmall)
    } else if frame[12] != 0x08 || frame[13] != 0x00 {
        Err(DecodeError::Unsupported)
    } else {
        Ok(frame.skip(LINK_HEADER_LEN as int))
    }
}

/// The response that an Ethernet frame decodes to.
pub open spec fn decoded_frame(frame: Seq<u8>) -> Result<Response, DecodeError> {
    match link_payload(frame) {
        Ok(packet) => decoded(packet),
        Err(e) => Err(e),
    }
}

fn read_word(bytes: &[u8], at: usize) -> (value: u16)
    requires
        at + 2 <= bytes@.len(),
    ensures
        value == word_at(bytes@, at as int),
{
    bytes[at] as u16 * 256 + bytes[at + 1] as u16
}

fn read_quad(bytes: &[u8], at: usize) -> (value: u32)
    requires
        at + 4 <= bytes@.len(),
    ensures
        value == quad_at(bytes@, at as int),
{
    bytes[at] as u32 * 0x100_0000 + bytes[at + 1] as u32 * 0x1_0000 + bytes[at + 2] as u32 * 0x100
        + bytes[at + 3] as u32
}

/// The payload of an IPv4 packet.
fn payload(packet: &[u8]) -> (bytes: &[u8])
    requires
        packet@.len() >= 20,
    ensures
        bytes@ == payload_of(packet@),
{
    let header = (packet[0] % 16) as usize * 4;
    let start: usize = if header < 20 {
        20
    } else {
        header
    };
    if packet.len() <= start {
        let empty = &packet[0..0];
        assert(empty@ =~= Seq::<u8>::empty());
        return empty;
    }
    let total = read_word(packet, 2) as usize;
    let declared: usize = if total < header {
        0
    } else {
        total - header
    };
    let end: usize = if declared < packet.len() - start {
        start + declared
    } else {
        packet.len()
    };
    &packet[start..end]
}

/// Reads the transport header of a TCP or UDP payload.
fn fetch_transport_info(protocol: u8, payload: &[u8]) -> (info: Result<
    NextHeaderInfo,
    DecodeError,
>)
    ensures
        info == transport_info(protocol, payload@),
{
    if protocol == PROTOCOL_TCP {
        if payload.len() < 20 {
            return Err(DecodeError::TooSmall);
        }
        let flags = (payload[12] % 2) as u16 * 256 + payload[13] as u16;
        Ok(
            NextHeaderInfo {
                protocol: ResponseKind::Tcp(flags),
                destination: read_word(payload, 2),
                source: read_word(payload, 0),
            },
        )
    } else if protocol == PROTOCOL_UDP {
        if payload.len() < 8 {
            return Err(DecodeError::TooSmall);
        }
        Ok(
            NextHeaderInfo {
                protocol: ResponseKind::Udp,
                destination: read_word(payload, 2),
                source: read_word(payload, 0),
            },
        )
    } else {
        Err(DecodeError::Unsupported)
    }
}

/// Reads the headers behind the IPv4 header of `packet`: the ports of a TCP
/// or UDP segment, or type and code of an ICMP message with the ports of the
/// probe that it reports on, source and destination exchanged.
pub fn fetch_next_header_info(packet: &[u8]) -> (info: Result<NextHeaderInfo, DecodeError>)
    ensures
        info == next_header_info(packet@),
{
    if packet.len() < 20 {
        return Err(DecodeError::TooSmall);
    }
    let next = payload(packet);
    if packet[9] == PROTOCOL_ICMP {
        if next.len() < ICMP_HEADER_LEN + 20 {
            return Err(DecodeError::TooSmall);
        }
        let probe = &next[ICMP_HEADER_LEN..next.len()];
        assert(probe@ =~= reported_datagram(next@));
        match fetch_transport_info(probe[9], payload(probe)) {
            Ok(inner) => Ok(
                NextHeaderInfo {
                    protocol: ResponseKind::Icmp(next[0], next[1]),
                    destination: inner.source,
                    source: inner.destination,
                },
            ),
            Err(e) => Err(e),
        }
    } else {
        fetch_transport_info(packet[9], next)
    }
}

impl Response {
    /// Decodes a received buffer that begins at an IPv4 header.
    pub fn try_from(buffer: &[u8]) -> (response: Result<Response, DecodeError>)
        ensures
            response == decoded(buffer@),
    {
        match fetch_next_header_info(buffer) {
            Ok(info) => Ok(
                Response {
                    origin: Endpoint { host: read_quad(buffer, 12), port: info.source },
                    probe_id: info.destination,
                    kind: info.protocol,
                },
            ),
            Err(e) => Err(e),
        }
    }

    /// Decodes a frame received on a link-level socket: strips the Ethernet
    /// header of an IPv4 frame and decodes what follows.
    pub fn from_frame(frame: &[u8]) -> (response: Result<Response, DecodeError>)
        ensures
            response == decoded_frame(frame@),
    {
        if frame.len() < LINK_HEADER_LEN {
            return Err(DecodeError::TooSmall);
        }
        if frame[12] != 0x08 || frame[13] != 0x00 {
            return Err(DecodeError::Unsupported);
        }
        let packet = &frame[LINK_HEADER_LEN..frame.len()];
        assert(packet@ =~= frame@.skip(LINK_HEADER_LEN as int));
        Response::try_from(packet)
    }
}

} // verus!
