use pnet::packet::ipv4::MutableIpv4Packet;
use pnet::packet::tcp::{MutableTcpPacket, TcpFlags};
use port_scanner::engine::{Action, Engine, DELAY};
use port_scanner::iterators::{LoopIterator, PortRange, ScanType};
use port_scanner::probes::hosts::host;
use port_scanner::probes::report::{PortStatus, Scanner, DEFAULT_TIMEOUT};
use port_scanner::probes::{Endpoint, ProbeBuilder};

fn engine(ports: Vec<PortRange>, scans: Vec<ScanType>) -> Engine {
    let builder = ProbeBuilder::with_identifiers(
        vec![host(10, 1, 2, 3)],
        LoopIterator::from(ports),
        LoopIterator::from(scans),
        host(192, 168, 0, 2),
        40000,
        7,
    )
    .unwrap();
    Engine::new(builder, Scanner::new())
}

fn frame(from_port: u16, to_port: u16, flags: u16) -> Vec<u8> {
    let mut buffer = vec![0u8; 54];
    buffer[12] = 0x08;
    {
        let mut ip = MutableIpv4Packet::new(&mut buffer[14..]).unwrap();
        ip.set_version(4);
        ip.set_header_length(5);
        ip.set_total_length(40);
        ip.set_next_level_protocol(pnet::packet::ip::IpNextHeaderProtocols::Tcp);
        ip.set_source([10, 1, 2, 3].into());
    }
    {
        let mut tcp = MutableTcpPacket::new(&mut buffer[34..]).unwrap();
        tcp.set_source(from_port);
        tcp.set_destination(to_port);
        tcp.set_data_offset(5);
        tcp.set_flags(flags);
    }
    buffer
}

fn sent(action: Action) -> (ScanType, u16) {
    match action {
        Action::Send(probe) => (probe.scan, probe.destination.port),
        other => panic!("a probe was due, not {:?}", other),
    }
}

fn waited(action: Action) -> u64 {
    match action {
        Action::Wait(duration) => duration,
        other => panic!("a wait was due, not {:?}", other),
    }
}

#[test]
fn emissions_are_paced() {
    assert_eq!(DELAY, 1_000);
    let mut engine = engine(vec![PortRange::new(80, 81)], vec![ScanType::SYN]);
    // the first probe goes out at once
    assert_eq!(sent(engine.step(5_000)), (ScanType::SYN, 80));
    assert_eq!(waited(engine.step(5_000)), 1_000);
    assert_eq!(waited(engine.step(5_001)), 999);
    assert_eq!(waited(engine.step(5_999)), 1);
    // a clock that went back waits the whole delay
    assert_eq!(waited(engine.step(4_000)), 1_000);
    assert_eq!(sent(engine.step(6_000)), (ScanType::SYN, 81));
    assert_eq!(waited(engine.step(6_500)), 500);
    // the generator is exhausted: the store is swept, one delay at a time
    assert_eq!(waited(engine.step(7_000)), 1_000);
    assert_eq!(waited(engine.step(8_000)), 1_000);
    assert_eq!(waited(engine.step(6_000 + DEFAULT_TIMEOUT)), 1_000);
    assert!(matches!(engine.step(6_001 + DEFAULT_TIMEOUT), Action::Finish));
    assert!(matches!(engine.step(6_002 + DEFAULT_TIMEOUT), Action::Finish));
    let scanner = engine.into_scanner();
    assert_eq!(
        scanner.status_of(Endpoint { host: host(10, 1, 2, 3), port: 80 }),
        Some(PortStatus::Filtered)
    );
    assert_eq!(
        scanner.status_of(Endpoint { host: host(10, 1, 2, 3), port: 81 }),
        Some(PortStatus::Filtered)
    );
}

#[test]
fn replies_end_the_run_early() {
    let mut engine = engine(vec![PortRange::new(80, 80)], vec![ScanType::SYN, ScanType::ACK]);
    assert_eq!(sent(engine.step(0)), (ScanType::SYN, 80));
    engine.receive(&frame(80, 40000, TcpFlags::SYN | TcpFlags::ACK));
    assert_eq!(sent(engine.step(1_000)), (ScanType::ACK, 80));
    // a reply to nothing that was sent
    engine.receive(&frame(80, 40003, TcpFlags::RST));
    engine.receive(&[0u8; 3]);
    assert_eq!(waited(engine.step(2_000)), 1_000);
    engine.receive(&frame(80, 40002, TcpFlags::RST));
    assert!(matches!(engine.step(2_100), Action::Finish));
    let scanner = engine.into_scanner();
    assert_eq!(
        scanner.results(),
        vec![(Endpoint { host: host(10, 1, 2, 3), port: 80 }, PortStatus::Open)]
    );
}

#[test]
fn a_run_without_probes_finishes_at_once() {
    let mut engine = engine(vec![PortRange::new(80, 80)], vec![]);
    assert!(matches!(engine.step(0), Action::Finish));
    assert!(engine.into_scanner().results().is_empty());
}
