use pnet::packet::icmp::destination_unreachable::IcmpCodes;
use pnet::packet::icmp::destination_unreachable::MutableDestinationUnreachablePacket;
use pnet::packet::icmp::IcmpTypes;
use pnet::packet::ip::IpNextHeaderProtocols;
use pnet::packet::ipv4::{Ipv4Packet, MutableIpv4Packet};
use pnet::packet::tcp::{MutableTcpPacket, TcpFlags, TcpPacket};
use pnet::packet::udp::{MutableUdpPacket, UdpPacket};
use pnet::packet::Packet;
use port_scanner::iterators::{LoopIterator, PortRange, ScanType};
use port_scanner::probes::hosts::host;
use port_scanner::probes::report::{
    is_accepted_icmp_code, PortStatus, ProbeRecord, ProbeStatus, Scanner, DEFAULT_TIMEOUT,
    ICMP_COMMUNICATION_PROHIBITED, ICMP_DESTINATION_UNREACHABLE, ICMP_HOST_PROHIBITED,
    ICMP_HOST_UNREACHABLE, ICMP_NETWORK_PROHIBITED, ICMP_PORT_UNREACHABLE,
    ICMP_PROTOCOL_UNREACHABLE, TCP_RST, TCP_SYN,
};
use port_scanner::probes::response::{
    fetch_next_header_info, DecodeError, NextHeaderInfo, Response, ResponseKind,
};
use port_scanner::probes::{Endpoint, Probe, ProbeBuilder};

const ALL: [ScanType; 6] = [
    ScanType::SYN,
    ScanType::NULL,
    ScanType::ACK,
    ScanType::FIN,
    ScanType::XMAS,
    ScanType::UDP,
];

const TARGET: Endpoint = Endpoint { host: 0x0a010203, port: 8080 };

fn probes_to_target() -> Vec<Probe> {
    ProbeBuilder::with_identifiers(
        vec![TARGET.host],
        LoopIterator::from(vec![PortRange::new(TARGET.port, TARGET.port)]),
        LoopIterator::<ScanType>::default(),
        host(192, 168, 0, 2),
        40000,
        7,
    )
    .unwrap()
    .collect()
}

fn probe(scan: ScanType) -> Probe {
    probes_to_target()[scan as usize]
}

fn ipv4(protocol: u8, source: [u8; 4], payload: &[u8]) -> Vec<u8> {
    let mut buffer = vec![0u8; 20 + payload.len()];
    {
        let mut ip = MutableIpv4Packet::new(&mut buffer).unwrap();
        ip.set_version(4);
        ip.set_header_length(5);
        ip.set_ttl(59);
        ip.set_total_length((20 + payload.len()) as u16);
        ip.set_next_level_protocol(pnet::packet::ip::IpNextHeaderProtocol(protocol));
        ip.set_source(source.into());
        ip.set_destination([192, 168, 0, 2].into());
        ip.set_payload(payload);
    }
    buffer
}

fn tcp_reply(from_port: u16, to_port: u16, flags: u16) -> Vec<u8> {
    let mut segment = vec![0u8; 20];
    {
        let mut tcp = MutableTcpPacket::new(&mut segment).unwrap();
        tcp.set_source(from_port);
        tcp.set_destination(to_port);
        tcp.set_data_offset(5);
        tcp.set_flags(flags);
    }
    ipv4(6, [10, 1, 2, 3], &segment)
}

fn udp_reply(from_port: u16, to_port: u16) -> Vec<u8> {
    let mut datagram = vec![0u8; 8];
    {
        let mut udp = MutableUdpPacket::new(&mut datagram).unwrap();
        udp.set_source(from_port);
        udp.set_destination(to_port);
        udp.set_length(8);
    }
    ipv4(17, [10, 1, 2, 3], &datagram)
}

fn unreachable(code: u8, reported: &[u8]) -> Vec<u8> {
    let mut message = vec![0u8; 8 + reported.len()];
    {
        let mut icmp = MutableDestinationUnreachablePacket::new(&mut message).unwrap();
        icmp.set_icmp_type(IcmpTypes::DestinationUnreachable);
        icmp.set_icmp_code(pnet::packet::icmp::IcmpCode(code));
        icmp.set_payload(reported);
    }
    ipv4(1, [10, 1, 2, 3], &message)
}

#[test]
fn constants_agree_with_pnet() {
    assert_eq!(ICMP_DESTINATION_UNREACHABLE, IcmpTypes::DestinationUnreachable.0);
    assert_eq!(ICMP_HOST_UNREACHABLE, IcmpCodes::DestinationHostUnreachable.0);
    assert_eq!(ICMP_PROTOCOL_UNREACHABLE, IcmpCodes::DestinationProtocolUnreachable.0);
    assert_eq!(ICMP_PORT_UNREACHABLE, IcmpCodes::DestinationPortUnreachable.0);
    assert_eq!(ICMP_NETWORK_PROHIBITED, IcmpCodes::NetworkAdministrativelyProhibited.0);
    assert_eq!(ICMP_HOST_PROHIBITED, IcmpCodes::HostAdministrativelyProhibited.0);
    assert_eq!(
        ICMP_COMMUNICATION_PROHIBITED,
        IcmpCodes::CommunicationAdministrativelyProhibited.0
    );
    assert_eq!(TCP_RST, TcpFlags::RST);
    assert_eq!(TCP_SYN, TcpFlags::SYN);
    assert_eq!(port_scanner::probes::packet::PROTOCOL_TCP, IpNextHeaderProtocols::Tcp.0);
    assert_eq!(port_scanner::probes::packet::PROTOCOL_UDP, IpNextHeaderProtocols::Udp.0);
    assert_eq!(port_scanner::probes::packet::PROTOCOL_ICMP, IpNextHeaderProtocols::Icmp.0);
    assert_eq!(DEFAULT_TIMEOUT, 200_000);
}

#[test]
fn accepted_icmp_codes() {
    let accepted: Vec<u8> = (0..=255u8).filter(|c| is_accepted_icmp_code(*c)).collect();
    assert_eq!(accepted, vec![1, 2, 3, 9, 10, 13]);
}

#[test]
fn syn_scan_classification() {
    let syn_ack = ResponseKind::Tcp(TcpFlags::SYN | TcpFlags::ACK);
    let rst = ResponseKind::Tcp(TcpFlags::RST | TcpFlags::ACK);
    assert_eq!(PortStatus::classify(syn_ack, ScanType::SYN), Some(PortStatus::Open));
    assert_eq!(PortStatus::classify(rst, ScanType::SYN), Some(PortStatus::Closed));
    assert_eq!(
        PortStatus::classify(ResponseKind::Icmp(3, 3), ScanType::SYN),
        Some(PortStatus::Filtered)
    );
    assert_eq!(
        PortStatus::classify(ResponseKind::NoResponse, ScanType::SYN),
        Some(PortStatus::Filtered)
    );
    assert_eq!(PortStatus::classify(ResponseKind::Tcp(TcpFlags::ACK), ScanType::SYN), None);
    assert_eq!(PortStatus::classify(ResponseKind::Udp, ScanType::SYN), None);
    assert_eq!(
        PortStatus::classify(ResponseKind::Tcp(TcpFlags::SYN | TcpFlags::RST), ScanType::SYN),
        Some(PortStatus::Closed)
    );
    assert_eq!(PortStatus::try_from((syn_ack, ScanType::SYN)), Ok(PortStatus::Open));
    assert_eq!(PortStatus::try_from((ResponseKind::Udp, ScanType::SYN)), Err(()));
}

#[test]
fn udp_scan_classification() {
    assert_eq!(
        PortStatus::classify(ResponseKind::Icmp(3, 3), ScanType::UDP),
        Some(PortStatus::Closed)
    );
    assert_eq!(
        PortStatus::classify(ResponseKind::NoResponse, ScanType::UDP),
        Some(PortStatus::OpenOrFiltered)
    );
    assert_eq!(PortStatus::classify(ResponseKind::Udp, ScanType::UDP), Some(PortStatus::Open));
    for code in [1u8, 2, 9, 10, 13] {
        assert_eq!(
            PortStatus::classify(ResponseKind::Icmp(3, code), ScanType::UDP),
            Some(PortStatus::Filtered)
        );
    }
    assert_eq!(PortStatus::classify(ResponseKind::Tcp(TcpFlags::RST), ScanType::UDP), None);
    assert_eq!(PortStatus::classify(ResponseKind::Icmp(3, 0), ScanType::UDP), None);
    assert_eq!(PortStatus::classify(ResponseKind::Icmp(11, 3), ScanType::UDP), None);
}

#[test]
fn other_scans_classification() {
    assert_eq!(
        PortStatus::classify(ResponseKind::Tcp(TcpFlags::RST), ScanType::ACK),
        Some(PortStatus::Unfiltered)
    );
    assert_eq!(
        PortStatus::classify(ResponseKind::NoResponse, ScanType::ACK),
        Some(PortStatus::Filtered)
    );
    assert_eq!(PortStatus::classify(ResponseKind::Tcp(TcpFlags::SYN), ScanType::ACK), None);
    for scan in [ScanType::NULL, ScanType::FIN, ScanType::XMAS] {
        assert_eq!(
            PortStatus::classify(ResponseKind::Tcp(TcpFlags::RST), scan),
            Some(PortStatus::Closed)
        );
        assert_eq!(
            PortStatus::classify(ResponseKind::NoResponse, scan),
            Some(PortStatus::OpenOrFiltered)
        );
        assert_eq!(PortStatus::classify(ResponseKind::Tcp(TcpFlags::SYN), scan), None);
        assert_eq!(PortStatus::classify(ResponseKind::Udp, scan), None);
    }
    for scan in ALL {
        for code in 0..=255u8 {
            let status = PortStatus::classify(ResponseKind::Icmp(3, code), scan);
            if [1u8, 2, 3, 9, 10, 13].contains(&code) {
                let closed = scan == ScanType::UDP && code == 3;
                assert_eq!(
                    status,
                    Some(if closed { PortStatus::Closed } else { PortStatus::Filtered })
                );
            } else {
                assert_eq!(status, None);
            }
            assert_eq!(PortStatus::classify(ResponseKind::Icmp(0, code), scan), None);
        }
        assert_eq!(
            Some(PortStatus::on_timeout(scan)),
            PortStatus::classify(ResponseKind::NoResponse, scan)
        );
    }
}

#[test]
fn status_lattice() {
    let ordered = [
        PortStatus::Filtered,
        PortStatus::Unfiltered,
        PortStatus::OpenOrFiltered,
        PortStatus::Closed,
        PortStatus::Open,
    ];
    for (i, a) in ordered.iter().enumerate() {
        assert_eq!(a.rank() as usize, i);
        for (j, b) in ordered.iter().enumerate() {
            assert_eq!(a.promote(*b), ordered[i.max(j)]);
            assert_eq!(a < b, i < j);
        }
    }
    assert_eq!(PortStatus::Open.to_string(), "open");
    assert_eq!(PortStatus::OpenOrFiltered.to_string(), "open | filtered");
    assert_eq!(PortStatus::Closed.to_string(), "closed");
    assert_eq!(PortStatus::Unfiltered.to_string(), "unfiltered");
    assert_eq!(PortStatus::Filtered.to_string(), "filtered");
}

#[test]
fn decodes_tcp() {
    let reply = tcp_reply(8080, 40000, TcpFlags::SYN | TcpFlags::ACK);
    assert_eq!(
        Response::try_from(&reply),
        Ok(Response {
            origin: TARGET,
            probe_id: 40000,
            kind: ResponseKind::Tcp(TcpFlags::SYN | TcpFlags::ACK),
        })
    );
    assert_eq!(
        fetch_next_header_info(&reply),
        Ok(NextHeaderInfo {
            protocol: ResponseKind::Tcp(0x012),
            destination: 40000,
            source: 8080,
        })
    );
    let all_flags = tcp_reply(1, 2, 0x1ff);
    assert_eq!(Response::try_from(&all_flags).unwrap().kind, ResponseKind::Tcp(0x1ff));
}

#[test]
fn decodes_udp() {
    let reply = udp_reply(8080, 40005);
    assert_eq!(
        Response::try_from(&reply),
        Ok(Response { origin: TARGET, probe_id: 40005, kind: ResponseKind::Udp })
    );
}

#[test]
fn decodes_icmp_with_the_roles_exchanged() {
    let sent = probe(ScanType::UDP);
    let reply = unreachable(3, &sent.data[..28]);
    assert_eq!(
        Response::try_from(&reply),
        Ok(Response { origin: TARGET, probe_id: 40005, kind: ResponseKind::Icmp(3, 3) })
    );
    let sent = probe(ScanType::FIN);
    let reply = unreachable(13, &sent.data);
    assert_eq!(
        Response::try_from(&reply),
        Ok(Response { origin: TARGET, probe_id: 40003, kind: ResponseKind::Icmp(3, 13) })
    );
}

#[test]
fn decoding_fails_on_what_is_cut_short_or_unknown() {
    assert_eq!(Response::try_from(&[]), Err(DecodeError::TooSmall));
    assert_eq!(Response::try_from(&[0x45u8; 19]), Err(DecodeError::TooSmall));
    let reply = tcp_reply(8080, 40000, TcpFlags::RST);
    assert_eq!(Response::try_from(&reply[..39]), Err(DecodeError::TooSmall));
    let reply = udp_reply(8080, 40005);
    assert_eq!(Response::try_from(&reply[..27]), Err(DecodeError::TooSmall));
    let gre = ipv4(47, [10, 1, 2, 3], &[0u8; 20]);
    assert_eq!(Response::try_from(&gre), Err(DecodeError::Unsupported));
    let sent = probe(ScanType::SYN);
    let reply = unreachable(3, &sent.data[..28]);
    assert_eq!(Response::try_from(&reply), Err(DecodeError::TooSmall));
    let reply = unreachable(3, &sent.data[..19]);
    assert_eq!(Response::try_from(&reply), Err(DecodeError::TooSmall));
    let nested = unreachable(3, &unreachable(3, &sent.data));
    assert_eq!(Response::try_from(&nested), Err(DecodeError::Unsupported));
}

#[test]
fn declared_lengths_bound_the_payload() {
    let mut reply = tcp_reply(8080, 40000, TcpFlags::RST);
    reply.extend_from_slice(&[0xffu8; 6]);
    assert!(Response::try_from(&reply).is_ok());
    reply[3] = 39;
    assert_eq!(Response::try_from(&reply), Err(DecodeError::TooSmall));
    reply[3] = 40;
    reply[0] = 0x46;
    assert_eq!(Response::try_from(&reply), Err(DecodeError::TooSmall));
}

#[test]
fn strips_the_link_header() {
    let reply = tcp_reply(8080, 40000, TcpFlags::RST);
    let mut frame = vec![0u8; 12];
    frame.extend_from_slice(&[0x08, 0x00]);
    frame.extend_from_slice(&reply);
    assert_eq!(
        Response::from_frame(&frame),
        Ok(Response { origin: TARGET, probe_id: 40000, kind: ResponseKind::Tcp(TcpFlags::RST) })
    );
    frame[13] = 0x06;
    assert_eq!(Response::from_frame(&frame), Err(DecodeError::Unsupported));
    assert_eq!(Response::from_frame(&frame[..13]), Err(DecodeError::TooSmall));
    assert_eq!(Response::from_frame(&frame[..14]), Err(DecodeError::Unsupported));
    frame[13] = 0x00;
    assert_eq!(Response::from_frame(&frame[..14]), Err(DecodeError::TooSmall));
}

#[test]
fn add_creates_a_filtered_report_and_a_waiting_record() {
    let mut scanner = Scanner::new();
    assert_eq!(scanner.status_of(TARGET), None);
    assert_eq!(scanner.record_of(TARGET, 40000), None);
    scanner.add_at(probe(ScanType::SYN), 5);
    assert_eq!(scanner.status_of(TARGET), Some(PortStatus::Filtered));
    assert_eq!(
        scanner.record_of(TARGET, 40000),
        Some(ProbeRecord { state: ProbeStatus::Waiting(5), scan: ScanType::SYN })
    );
    assert_eq!(scanner.record_of(TARGET, 40001), None);
    assert_eq!(scanner.status_of(Endpoint { host: TARGET.host, port: 8081 }), None);
    scanner.add_at(probe(ScanType::SYN), 9);
    assert_eq!(
        scanner.record_of(TARGET, 40000),
        Some(ProbeRecord { state: ProbeStatus::Waiting(9), scan: ScanType::SYN })
    );
    assert_eq!(scanner.results(), vec![(TARGET, PortStatus::Filtered)]);
}

#[test]
fn syn_probe_scenarios() {
    let replies = [
        (tcp_reply(8080, 40000, TcpFlags::SYN | TcpFlags::ACK), PortStatus::Open),
        (tcp_reply(8080, 40000, TcpFlags::RST), PortStatus::Closed),
        (unreachable(3, &probe(ScanType::SYN).data), PortStatus::Filtered),
    ];
    for (reply, expected) in replies.iter() {
        let mut scanner = Scanner::new();
        scanner.add_at(probe(ScanType::SYN), 0);
        scanner.update(reply);
        assert_eq!(scanner.status_of(TARGET), Some(*expected));
        assert_eq!(
            scanner.record_of(TARGET, 40000),
            Some(ProbeRecord { state: ProbeStatus::Done, scan: ScanType::SYN })
        );
        assert!(scanner.sweep(1));
    }
    let mut scanner = Scanner::new();
    scanner.add_at(probe(ScanType::SYN), 0);
    assert!(!scanner.sweep(DEFAULT_TIMEOUT));
    assert!(scanner.sweep(DEFAULT_TIMEOUT + 1));
    assert_eq!(scanner.status_of(TARGET), Some(PortStatus::Filtered));
    assert_eq!(
        scanner.record_of(TARGET, 40000),
        Some(ProbeRecord { state: ProbeStatus::TimedOut, scan: ScanType::SYN })
    );
}

#[test]
fn udp_probe_scenarios() {
    let mut scanner = Scanner::new();
    scanner.add_at(probe(ScanType::UDP), 0);
    scanner.update(&unreachable(3, &probe(ScanType::UDP).data));
    assert_eq!(scanner.status_of(TARGET), Some(PortStatus::Closed));

    let mut scanner = Scanner::new();
    scanner.add_at(probe(ScanType::UDP), 100);
    assert!(!scanner.sweep(100 + DEFAULT_TIMEOUT));
    assert_eq!(scanner.status_of(TARGET), Some(PortStatus::Filtered));
    assert!(scanner.sweep(101 + DEFAULT_TIMEOUT));
    assert_eq!(scanner.status_of(TARGET), Some(PortStatus::OpenOrFiltered));

    let mut scanner = Scanner::new();
    scanner.add_at(probe(ScanType::UDP), 0);
    scanner.update(&udp_reply(8080, 40005));
    assert_eq!(scanner.status_of(TARGET), Some(PortStatus::Open));
}

#[test]
fn replies_without_a_probe_or_without_evidence_change_nothing() {
    let mut scanner = Scanner::new();
    scanner.add_at(probe(ScanType::ACK), 3);
    let waiting = Some(ProbeRecord { state: ProbeStatus::Waiting(3), scan: ScanType::ACK });
    // no record at that source port
    scanner.update(&tcp_reply(8080, 40000, TcpFlags::RST));
    // no report for that origin
    scanner.update(&tcp_reply(8081, 40002, TcpFlags::RST));
    // no evidence for an ACK scan
    scanner.update(&tcp_reply(8080, 40002, TcpFlags::SYN | TcpFlags::ACK));
    scanner.update(&udp_reply(8080, 40002));
    // undecodable
    scanner.update(&[1, 2, 3]);
    assert_eq!(scanner.status_of(TARGET), Some(PortStatus::Filtered));
    assert_eq!(scanner.record_of(TARGET, 40002), waiting);
    assert_eq!(scanner.results().len(), 1);
    scanner.update(&tcp_reply(8080, 40002, TcpFlags::RST));
    assert_eq!(scanner.status_of(TARGET), Some(PortStatus::Unfiltered));
}

#[test]
fn statuses_are_only_promoted() {
    let mut scanner = Scanner::new();
    for p in probes_to_target() {
        scanner.add_at(p, 0);
    }
    scanner.update(&tcp_reply(8080, 40000, TcpFlags::SYN | TcpFlags::ACK));
    assert_eq!(scanner.status_of(TARGET), Some(PortStatus::Open));
    scanner.update(&tcp_reply(8080, 40001, TcpFlags::RST));
    assert_eq!(scanner.status_of(TARGET), Some(PortStatus::Open));
    scanner.update(&tcp_reply(8080, 40002, TcpFlags::RST));
    scanner.update(&unreachable(1, &probe(ScanType::FIN).data));
    assert_eq!(scanner.status_of(TARGET), Some(PortStatus::Open));
    assert!(!scanner.sweep(1));
    assert!(scanner.sweep(DEFAULT_TIMEOUT + 1));
    assert_eq!(scanner.status_of(TARGET), Some(PortStatus::Open));
    assert_eq!(
        scanner.record_of(TARGET, 40004),
        Some(ProbeRecord { state: ProbeStatus::TimedOut, scan: ScanType::XMAS })
    );
    // a late reply to a probe that timed out is still taken
    scanner.update(&tcp_reply(8080, 40004, TcpFlags::RST));
    assert_eq!(
        scanner.record_of(TARGET, 40004),
        Some(ProbeRecord { state: ProbeStatus::Done, scan: ScanType::XMAS })
    );
    assert_eq!(scanner.status_of(TARGET), Some(PortStatus::Open));
}

#[test]
fn sweep_promotes_each_destination_by_its_own_probes() {
    let other = Endpoint { host: TARGET.host, port: 9 };
    let mut scanner = Scanner::with_timeout(10);
    let mut ack = probe(ScanType::ACK);
    ack.destination = other;
    scanner.add_at(ack, 0);
    scanner.add_at(probe(ScanType::NULL), 0);
    scanner.add_at(probe(ScanType::SYN), 5);
    assert!(!scanner.sweep(10));
    assert_eq!(scanner.status_of(TARGET), Some(PortStatus::Filtered));
    assert!(!scanner.sweep(11));
    assert_eq!(scanner.status_of(TARGET), Some(PortStatus::OpenOrFiltered));
    assert_eq!(scanner.status_of(other), Some(PortStatus::Filtered));
    assert_eq!(
        scanner.record_of(TARGET, 40000),
        Some(ProbeRecord { state: ProbeStatus::Waiting(5), scan: ScanType::SYN })
    );
    assert_eq!(
        scanner.record_of(other, 40002),
        Some(ProbeRecord { state: ProbeStatus::TimedOut, scan: ScanType::ACK })
    );
    // a clock that went back expires nothing
    assert!(!scanner.sweep(0));
    assert!(scanner.sweep(16));
    let mut results = scanner.results();
    results.sort_by_key(|r| r.0.port);
    assert_eq!(
        results,
        vec![(other, PortStatus::Filtered), (TARGET, PortStatus::OpenOrFiltered)]
    );
}

#[test]
fn the_store_reads_its_own_clock() {
    let mut scanner = Scanner::new();
    assert!(scanner.is_complete());
    scanner.add(probe(ScanType::SYN));
    assert!(matches!(
        scanner.record_of(TARGET, 40000),
        Some(ProbeRecord { state: ProbeStatus::Waiting(_), scan: ScanType::SYN })
    ));
    assert_eq!(scanner.status_of(TARGET), Some(PortStatus::Filtered));
    let mut scanner = Scanner::with_timeout(0);
    scanner.add(probe(ScanType::UDP));
    let started = port_scanner::clock::Clock::new();
    while started.now() < 2_000 {}
    assert!(scanner.is_complete());
    assert_eq!(scanner.status_of(TARGET), Some(PortStatus::OpenOrFiltered));
}

#[test]
fn frames_update_the_store() {
    let mut scanner = Scanner::new();
    scanner.add_at(probe(ScanType::SYN), 0);
    let mut frame = vec![0u8; 12];
    frame.extend_from_slice(&[0x08, 0x00]);
    frame.extend_from_slice(&tcp_reply(8080, 40000, TcpFlags::SYN | TcpFlags::ACK));
    scanner.update(&frame);
    assert_eq!(scanner.status_of(TARGET), Some(PortStatus::Filtered));
    scanner.update_frame(&frame);
    assert_eq!(scanner.status_of(TARGET), Some(PortStatus::Open));
}

/// What pnet reads from a TCP or UDP datagram.
fn read_with_pnet(buffer: &[u8]) -> Option<Response> {
    let ip = Ipv4Packet::new(buffer)?;
    let host = u32::from_be_bytes(ip.get_source().octets());
    match ip.get_next_level_protocol() {
        IpNextHeaderProtocols::Tcp => {
            let tcp = TcpPacket::new(ip.payload())?;
            Some(Response {
                origin: Endpoint { host, port: tcp.get_source() },
                probe_id: tcp.get_destination(),
                kind: ResponseKind::Tcp(tcp.get_flags()),
            })
        }
        IpNextHeaderProtocols::Udp => {
            let udp = UdpPacket::new(ip.payload())?;
            Some(Response {
                origin: Endpoint { host, port: udp.get_source() },
                probe_id: udp.get_destination(),
                kind: ResponseKind::Udp,
            })
        }
        _ => None,
    }
}

#[test]
fn decoding_agrees_with_pnet() {
    let mut state: u64 = 0x9e3779b97f4a7c15;
    let mut next = move || {
        state ^= state << 13;
        state ^= state >> 7;
        state ^= state << 17;
        state
    };
    let mut decoded = 0;
    for _ in 0..20_000 {
        let length = (next() % 72) as usize;
        let mut buffer: Vec<u8> = (0..length).map(|_| next() as u8).collect();
        if length > 9 {
            buffer[0] = 0x40 | (next() % 16) as u8;
            if next() % 4 != 0 {
                buffer[0] = 0x45 + (next() % 3) as u8;
            }
            buffer[2] = 0;
            buffer[3] = (next() % 80) as u8;
            buffer[9] = [6u8, 17, 6, 17, 47][(next() % 5) as usize];
        }
        let expected = read_with_pnet(&buffer);
        assert_eq!(Response::try_from(&buffer).ok(), expected);
        if expected.is_some() {
            decoded += 1;
        }
    }
    assert!(decoded > 1_000);
}
