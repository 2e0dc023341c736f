//! Port statuses, the status classifier and the report store.

use std::collections::HashMap;
use vstd::prelude::*;
use vstd::std_specs::hash::*;
use vstd::std_specs::iter::IteratorSpec;
use vstd::string::*;

use crate::clock::Clock;
use crate::iterators::scans::Scan;
use crate::probes::response::{Response, ResponseKind};
use crate::probes::{Endpoint, Probe};

verus! {

/// ICMP type of a destination-unreachable message.
pub const ICMP_DESTINATION_UNREACHABLE: u8 = 3;

/// ICMP destination-unreachable code: host unreachable.
pub const ICMP_HOST_UNREACHABLE: u8 = 1;

/// ICMP destination-unreachable code: protocol unreachable.
pub const ICMP_PROTOCOL_UNREACHABLE: u8 = 2;

/// ICMP destination-unreachable code: port unreachable.
pub const ICMP_PORT_UNREACHABLE: u8 = 3;

/// ICMP destination-unreachable code: network administratively prohibited.
pub const ICMP_NETWORK_PROHIBITED: u8 = 9;

/// ICMP destination-unreachable code: host administratively prohibited.
pub const ICMP_HOST_PROHIBITED: u8 = 10;

/// ICMP destination-unreachable code: communication administratively
/// prohibited.
pub const ICMP_COMMUNICATION_PROHIBITED: u8 = 13;

/// TCP flag bit: reset the connection.
pub const TCP_RST: u16 = 0b0_0000_0100;

/// TCP flag bit: synchronise sequence numbers.
pub const TCP_SYN: u16 = 0b0_0000_0010;

/// Whether a destination-unreachable code counts as evidence of filtering.
pub open spec fn accepted_icmp_code(code: u8) -> bool {
    ||| code == ICMP_HOST_UNREACHABLE
    ||| code == ICMP_PROTOCOL_UNREACHABLE
    ||| code == ICMP_PORT_UNREACHABLE
    ||| code == ICMP_NETWORK_PROHIBITED
    ||| code == ICMP_HOST_PROHIBITED
    ||| code == ICMP_COMMUNICATION_PROHIBITED
}

/// Whether a destination-unreachable code counts as evidence of filtering.
pub fn is_accepted_icmp_code(code: u8) -> (accepted: bool)
    ensures
        accepted == accepted_icmp_code(code),
{
    code == ICMP_HOST_UNREACHABLE || code == ICMP_PROTOCOL_UNREACHABLE || code
        == ICMP_PORT_UNREACHABLE || code == ICMP_NETWORK_PROHIBITED || code == ICMP_HOST_PROHIBITED
        || code == ICMP_COMMUNICATION_PROHIBITED
}

/// What is known of a port, ordered by increasing specificity.
#[derive(Clone, Copy, Debug, PartialEq, Eq, PartialOrd, Ord, Hash, Structural)]
pub enum PortStatus {
    Filtered,
    Unfiltered,
    OpenOrFiltered,
    Closed,
    Open,
}

impl PortStatus {
    /// Position of the status on the lattice
    /// `Filtered < Unfiltered < OpenOrFiltered < Closed < Open`.
    pub open spec fn level(self) -> int {
        match self {
            PortStatus::Filtered => 0,
            PortStatus::Unfiltered => 1,
            PortStatus::OpenOrFiltered => 2,
            PortStatus::Closed => 3,
            PortStatus::Open => 4,
        }
    }

    /// The more specific of two statuses.
    pub open spec fn join(self, other: PortStatus) -> PortStatus {
        if self.level() < other.level() {
            other
        } else {
            self
        }
    }

    /// The text that a report shows for the status.
    pub open spec fn label(self) -> Seq<char> {
        match self {
            PortStatus::Open => "open"@,
            PortStatus::OpenOrFiltered => "open | filtered"@,
            PortStatus::Closed => "closed"@,
            PortStatus::Unfiltered => "unfiltered"@,
            PortStatus::Filtered => "filtered"@,
        }
    }

    /// What a reply of kind `kind` to a probe of technique `scan` shows of the
    /// port, or `None` where it is no evidence.
    pub open spec fn classification(kind: ResponseKind, scan: Scan) -> Option<PortStatus> {
        match kind {
            ResponseKind::Tcp(flags) => {
                if scan == Scan::UDP {
                    None
                } else if flags & TCP_RST != 0 {
                    if scan == Scan::ACK {
                        Some(PortStatus::Unfiltered)
                    } else {
                        Some(PortStatus::Closed)
                    }
                } else if scan == Scan::SYN && flags & TCP_SYN != 0 {
                    Some(PortStatus::Open)
                } else {
                    None
                }
            },
            ResponseKind::Udp => {
                if scan == Scan::UDP {
                    Some(PortStatus::Open)
                } else {
                    None
                }
            },
            ResponseKind::Icmp(icmp_type, code) => {
                if icmp_type != ICMP_DESTINATION_UNREACHABLE || !accepted_icmp_code(code) {
                    None
                } else if scan == Scan::UDP && code == ICMP_PORT_UNREACHABLE {
                    Some(PortStatus::Closed)
                } else {
                    Some(PortStatus::Filtered)
                }
            },
            ResponseKind::NoResponse => {
                if scan == Scan::SYN || scan == Scan::ACK {
                    Some(PortStatus::Filtered)
                } else {
                    Some(PortStatus::OpenOrFiltered)
                }
            },
        }
    }

    /// The status that silence until the timeout is evidence of.
    pub open spec fn silence(scan: Scan) -> PortStatus {
        if scan == Scan::SYN || scan == Scan::ACK {
            PortStatus::Filtered
        } else {
            PortStatus::OpenOrFiltered
        }
    }

    /// Position of the status on the lattice, `0..=4`.
    pub fn rank(self) -> (r: u8)
        ensures
            r == self.level(),
    {
        match self {
            PortStatus::Filtered => 0,
            PortStatus::Unfiltered => 1,
            PortStatus::OpenOrFiltered => 2,
            PortStatus::Closed => 3,
            PortStatus::Open => 4,
        }
    }

    /// The more specific of two statuses: a status is only ever promoted.
    pub fn promote(self, other: PortStatus) -> (status: PortStatus)
        ensures
            status == self.join(other),
    {
        if self.rank() < other.rank() {
            other
        } else {
            self
        }
    }

    /// The text that a report shows for the status.
    pub fn to_string(&self) -> (text: String)
        ensures
            text@ == self.label(),
    {
        match self {
            PortStatus::Open => String::from_str("open"),
            PortStatus::OpenOrFiltered => String::from_str("open | filtered"),
            PortStatus::Closed => String::from_str("closed"),
            PortStatus::Unfiltered => String::from_str("unfiltered"),
            PortStatus::Filtered => String::from_str("filtered"),
        }
    }

    /// Classifies a reply to a probe: the status that the pair of reply kind
    /// and technique is evidence of, or an error where it is none.
    pub fn try_from(value: (ResponseKind, Scan)) -> (status: Result<PortStatus, ()>)
        ensures
            status == match PortStatus::classification(value.0, value.1) {
                Some(s) => Ok::<PortStatus, ()>(s),
                None => Err::<PortStatus, ()>(()),
            },
    {
        match value.1 {
            Scan::SYN => {
                match value.0 {
                    ResponseKind::Tcp(flags) => {
                        if flags & TCP_RST != 0 {
                            Ok(PortStatus::Closed)
                        } else if flags & TCP_SYN != 0 {
                            Ok(PortStatus::Open)
                        } else {
                            Err(())
                        }
                    },
                    ResponseKind::Icmp(icmp_type, code) => {
                        if icmp_type == ICMP_DESTINATION_UNREACHABLE && is_accepted_icmp_code(
                            code,
                        ) {
                            Ok(PortStatus::Filtered)
                        } else {
                            Err(())
                        }
                    },
                    ResponseKind::NoResponse => Ok(PortStatus::Filtered),
                    ResponseKind::Udp => Err(()),
                }
            },
            Scan::ACK => {
                match value.0 {
                    ResponseKind::Tcp(flags) => {
                        if flags & TCP_RST != 0 {
                            Ok(PortStatus::Unfiltered)
                        } else {
                            Err(())
                        }
                    },
                    ResponseKind::Icmp(icmp_type, code) => {
                        if icmp_type == ICMP_DESTINATION_UNREACHABLE && is_accepted_icmp_code(
                            code,
                        ) {
                            Ok(PortStatus::Filtered)
                        } else {
                            Err(())
                        }
                    },
                    ResponseKind::NoResponse => Ok(PortStatus::Filtered),
                    ResponseKind::Udp => Err(()),
                }
            },
            Scan::UDP => {
                match value.0 {
                    ResponseKind::Udp => Ok(PortStatus::Open),
                    ResponseKind::Icmp(icmp_type, code) => {
                        if icmp_type == ICMP_DESTINATION_UNREACHABLE && is_accepted_icmp_code(
                            code,
                        ) {
                            if code == ICMP_PORT_UNREACHABLE {
                                Ok(PortStatus::Closed)
                            } else {
                                Ok(PortStatus::Filtered)
                            }
                        } else {
                            Err(())
                        }
                    },
                    ResponseKind::NoResponse => Ok(PortStatus::OpenOrFiltered),
                    ResponseKind::Tcp(_) => Err(()),
                }
            },
            Scan::NULL | Scan::FIN | Scan::XMAS => {
                match value.0 {
                    ResponseKind::Tcp(flags) => {
                        if flags & TCP_RST != 0 {
                            Ok(PortStatus::Closed)
                        } else {
                            Err(())
                        }
                    },
                    ResponseKind::Icmp(icmp_type, code) => {
                        if icmp_type == ICMP_DESTINATION_UNREACHABLE && is_accepted_icmp_code(
                            code,
                        ) {
                            Ok(PortStatus::Filtered)
                        } else {
                            Err(())
                        }
                    },
                    ResponseKind::NoResponse => Ok(PortStatus::OpenOrFiltered),
                    ResponseKind::Udp => Err(()),
                }
            },
        }
    }

    /// Classifies a reply to a probe, with "no evidence" as `None`.
    pub fn classify(kind: ResponseKind, scan: Scan) -> (status: Option<PortStatus>)
        ensures
            status == PortStatus::classification(kind, scan),
    {
        match PortStatus::try_from((kind, scan)) {
            Ok(s) => Some(s),
            Err(_) => None,
        }
    }

    /// The status that silence until the timeout is evidence of.
    pub fn on_timeout(scan: Scan) -> (status: PortStatus)
        ensures
            status == PortStatus::silence(scan),
            PortStatus::classification(ResponseKind::NoResponse, scan) == Some(status),
    {
        match scan {
            Scan::SYN | Scan::ACK => PortStatus::Filtered,
            _ => PortStatus::OpenOrFiltered,
        }
    }
}

/// Microseconds that a probe waits for a reply before it counts as
/// unanswered.
pub const DEFAULT_TIMEOUT: u64 = 200_000;

/// Where a probe stands.
#[derive(Clone, Copy, Debug, PartialEq, Eq, Structural)]
pub enum ProbeStatus {
    /// Sent at the given time, in microseconds, and not answered yet.
    Waiting(u64),
    /// Not answered within the timeout.
    TimedOut,
    /// Answered by a reply that is evidence of the port's status.
    Done,
}

/// What the store keeps of one probe.
#[derive(Clone, Copy, Debug, PartialEq, Eq, Structural)]
pub struct ProbeRecord {
    pub state: ProbeStatus,
    pub scan: Scan,
}

impl ProbeRecord {
    /// The probe has waited for longer than `timeout` at time `now`.
    pub open spec fn expired(self, now: u64, timeout: u64) -> bool {
        self.state matches ProbeStatus::Waiting(sent) && now - sent > timeout
    }

    /// The record after a sweep at time `now`: timed out where it had waited
    /// for too long, else as it was.
    pub open spec fn swept(self, now: u64, timeout: u64) -> ProbeRecord {
        if self.expired(now, timeout) {
            ProbeRecord { state: ProbeStatus::TimedOut, scan: self.scan }
        } else {
            self
        }
    }

    /// The probe still waits for a reply.
    pub open spec fn waiting(self) -> bool {
        self.state is Waiting
    }
}

/// The number that stands for a destination in the store.
pub open spec fn endpoint_key(destination: Endpoint) -> u64 {
    (destination.host * 0x1_0000 + destination.port) as u64
}

/// The number that stands for a probe in the store: its destination and its
/// source port.
pub open spec fn record_key(destination: Endpoint, source_port: u16) -> u64 {
    (endpoint_key(destination) * 0x1_0000 + source_port) as u64
}

fn key_of(destination: Endpoint) -> (key: u64)
    ensures
        key == endpoint_key(destination),
{
    destination.host as u64 * 0x1_0000 + destination.port as u64
}

fn probe_key_of(destination: Endpoint, source_port: u16) -> (key: u64)
    ensures
        key == record_key(destination, source_port),
{
    key_of(destination) * 0x1_0000 + source_port as u64
}

fn keys_of<V>(map: &HashMap<u64, V>) -> (keys: Vec<u64>)
    ensures
        keys@.no_duplicates(),
        keys@.to_set() == map@.dom(),
{
    broadcast use vstd::std_specs::hash::group_hash_axioms;

    let mut keys: Vec<u64> = Vec::new();
    let ghost all = spec_keys_iter(map).remaining();
    for key in iter: map.keys()
        invariant
            iter.seq() == all,
            keys@.len() == iter.index(),
            forall|j: int| 0 <= j < keys@.len() ==> keys@[j] == *all[j],
    {
        keys.push(*key);
    }
    assert(keys@ =~= all.unref());
    keys
}

/// The report store: for each destination the best-known status of the port,
/// and for each probe sent to it, by source port, where the probe stands.
pub struct Scanner {
    reports: HashMap<u64, PortStatus>,
    probes: HashMap<u64, ProbeRecord>,
    timeout: u64,
    clock: Clock,
}

impl Scanner {
    /// The best-known status of a destination, if a probe was sent to it.
    pub closed spec fn status(&self, destination: Endpoint) -> Option<PortStatus> {
        if self.reports@.contains_key(endpoint_key(destination)) {
            Some(self.reports@[endpoint_key(destination)])
        } else {
            None
        }
    }

    /// The record of the probe sent to a destination from a source port, if
    /// there is one.
    pub closed spec fn record(&self, destination: Endpoint, source_port: u16) -> Option<
        ProbeRecord,
    > {
        if self.probes@.contains_key(record_key(destination, source_port)) {
            Some(self.probes@[record_key(destination, source_port)])
        } else {
            None
        }
    }

    /// The microseconds that a probe waits for a reply.
    pub closed spec fn timeout(&self) -> u64 {
        self.timeout
    }

    /// Every probe on record belongs to a destination with a status.
    pub open spec fn well_formed(&self) -> bool {
        forall|destination: Endpoint, source_port: u16|
            self.record(destination, source_port) is Some ==> self.status(destination) is Some
    }

    /// No probe waits for a reply.
    pub open spec fn settled(&self) -> bool {
        forall|destination: Endpoint, source_port: u16|
            (#[trigger] self.record(destination, source_port)) matches Some(r) ==> !r.waiting()
    }

    /// An empty store with the default timeout.
    pub fn new() -> (scanner: Scanner)
        ensures
            scanner.timeout() == DEFAULT_TIMEOUT,
            forall|destination: Endpoint| scanner.status(destination) is None,
            forall|destination: Endpoint, source_port: u16|
                scanner.record(destination, source_port) is None,
    {
        Scanner::with_timeout(DEFAULT_TIMEOUT)
    }

    /// An empty store in which a probe waits `timeout` microseconds for a
    /// reply.
    pub fn with_timeout(timeout: u64) -> (scanner: Scanner)
        ensures
            scanner.timeout() == timeout,
            forall|destination: Endpoint| scanner.status(destination) is None,
            forall|destination: Endpoint, source_port: u16|
                scanner.record(destination, source_port) is None,
    {
        Scanner { reports: HashMap::new(), probes: HashMap::new(), timeout, clock: Clock::new() }
    }

    /// The best-known status of a destination, if a probe was sent to it.
    pub fn status_of(&self, destination: Endpoint) -> (status: Option<PortStatus>)
        ensures
            status == self.status(destination),
    {
        broadcast use vstd::std_specs::hash::group_hash_axioms;

        let key = key_of(destination);
        match self.reports.get(&key) {
            Some(status) => Some(*status),
            None => None,
        }
    }

    /// The record of the probe sent to a destination from a source port.
    pub fn record_of(&self, destination: Endpoint, source_port: u16) -> (record: Option<
        ProbeRecord,
    >)
        ensures
            record == self.record(destination, source_port),
    {
        broadcast use vstd::std_specs::hash::group_hash_axioms;

        let key = probe_key_of(destination, source_port);
        match self.probes.get(&key) {
            Some(record) => Some(*record),
            None => None,
        }
    }

    /// The destinations that have a report, each with its status, in no
    /// particular order.
    pub fn results(&self) -> (list: Vec<(Endpoint, PortStatus)>)
        ensures
            forall|i: int|
                0 <= i < list@.len() ==> self.status((#[trigger] list@[i]).0) == Some(list@[i].1),
            forall|i: int, j: int|
                0 <= i < j < list@.len() ==> (#[trigger] list@[i]).0 != (#[trigger] list@[j]).0,
            forall|destination: Endpoint| #[trigger]
                self.status(destination) is Some ==> exists|i: int|
                    0 <= i < list@.len() && (#[trigger] list@[i]).0 == destination,
    {
        broadcast use vstd::std_specs::hash::group_hash_axioms;

        let keys = keys_of(&self.reports);
        let mut list: Vec<(Endpoint, PortStatus)> = Vec::new();
        let mut k: usize = 0;
        while k < keys.len()
            invariant
                k <= keys@.len(),
                keys@.no_duplicates(),
                keys@.to_set() == self.reports@.dom(),
                forall|i: int|
                    0 <= i < list@.len() ==> self.status((#[trigger] list@[i]).0) == Some(
                        list@[i].1,
                    ),
                forall|i: int|
                    0 <= i < list@.len() ==> exists|j: int|
                        0 <= j < k && keys@[j] == endpoint_key((#[trigger] list@[i]).0),
                forall|i: int, j: int|
                    0 <= i < j < list@.len() ==> (#[trigger] list@[i]).0 != (#[trigger] list@[j]).0,
                forall|j: int|
                    0 <= j < k && (#[trigger] keys@[j]) / 0x1_0000 <= 0xffff_ffff ==> exists|
                        i: int,
                    | 0 <= i < list@.len() && endpoint_key((#[trigger] list@[i]).0) == keys@[j],
            decreases keys@.len() - k,
        {
            let key = keys[k];
            assert(keys@.to_set().contains(keys@[k as int]));
            if key / 0x1_0000 <= 0xffff_ffff {
                match self.reports.get(&key) {
                    Some(status) => {
                        let destination = Endpoint {
                            host: (key / 0x1_0000) as u32,
                            port: (key % 0x1_0000) as u16,
                        };
                        assert(endpoint_key(destination) == key);
                        let ghost earlier = list@;
                        list.push((destination, *status));
                        proof {
                            assert forall|i: int, j: int| 0 <= i < j < list@.len() implies (
                            #[trigger] list@[i]).0 != (#[trigger] list@[j]).0 by {
                                if j == earlier.len() {
                                    let w = choose|w: int|
                                        0 <= w < k && keys@[w] == endpoint_key(earlier[i].0);
                                    assert(keys@[w] != keys@[k as int]);
                                }
                            }
                            assert forall|j: int|
                                0 <= j < k + 1 && (#[trigger] keys@[j]) / 0x1_0000
                                    <= 0xffff_ffff implies exists|i: int|
                                0 <= i < list@.len() && endpoint_key((#[trigger] list@[i]).0)
                                    == keys@[j] by {
                                if j < k {
                                    let i = choose|i: int|
                                        0 <= i < earlier.len() && endpoint_key(
                                            (#[trigger] earlier[i]).0,
                                        ) == keys@[j];
                                    assert(list@[i] == earlier[i]);
                                } else {
                                    assert(endpoint_key(list@[earlier.len() as int].0) == keys@[j]);
                                }
                            }
                            assert forall|i: int| 0 <= i < list@.len() implies exists|j: int|
                                0 <= j < k + 1 && keys@[j] == endpoint_key(
                                    (#[trigger] list@[i]).0,
                                ) by {
                                if i < earlier.len() {
                                    let j = choose|j: int|
                                        0 <= j < k && keys@[j] == endpoint_key(earlier[i].0);
                                    assert(0 <= j < k + 1);
                                } else {
                                    assert(keys@[k as int] == endpoint_key(list@[i].0));
                                }
                            }
                        }
                    },
                    None => {},
                }
            }
            k += 1;
        }
        proof {
            assert forall|destination: Endpoint| #[trigger]
                self.status(destination) is Some implies exists|i: int|
                0 <= i < list@.len() && (#[trigger] list@[i]).0 == destination by {
                let key = endpoint_key(destination);
                assert(keys@.to_set().contains(key));
                let j = choose|j: int| 0 <= j < keys@.len() && keys@[j] == key;
                assert(keys@[j] / 0x1_0000 <= 0xffff_ffff);
                let i = choose|i: int|
                    0 <= i < list@.len() && endpoint_key((#[trigger] list@[i]).0) == keys@[j];
                lemma_endpoint_key_injective(list@[i].0, destination);
            }
        }
        list
    }

    /// Records a probe as sent now, by the store's own clock.
    pub fn add(&mut self, packet: Probe)
        ensures
            exists|now: u64| old(self).added(packet, now, final(self)),
    {
        let now = self.clock.now();
        self.add_at(packet, now);
        assert(old(self).added(packet, now, final(self)));
    }

    /// Records a probe as sent at time `now`: its destination gets a report,
    /// with status `Filtered`, unless it has one, and the probe's record at
    /// its source port is set to waiting since `now`.
    pub fn add_at(&mut self, packet: Probe, now: u64)
        ensures
            old(self).added(packet, now, final(self)),
    {
        broadcast use vstd::std_specs::hash::group_hash_axioms;

        let key = key_of(packet.destination);
        if self.reports.get(&key).is_none() {
            self.reports.insert(key, PortStatus::Filtered);
        }
        let probe_key = probe_key_of(packet.destination, packet.source_port);
        self.probes.insert(
            probe_key,
            ProbeRecord { state: ProbeStatus::Waiting(now), scan: packet.scan },
        );
        proof {
            assert forall|destination: Endpoint| #[trigger]
                final(self).status(destination) == if destination == packet.destination {
                    Some(
                        match old(self).status(destination) {
                            Some(status) => status,
                            None => PortStatus::Filtered,
                        },
                    )
                } else {
                    old(self).status(destination)
                } by {
                lemma_endpoint_key_injective(destination, packet.destination);
            }
            assert forall|destination: Endpoint, source_port: u16| #[trigger]
                final(self).record(destination, source_port) == if destination
                    == packet.destination && source_port == packet.source_port {
                    Some(ProbeRecord { state: ProbeStatus::Waiting(now), scan: packet.scan })
                } else {
                    old(self).record(destination, source_port)
                } by {
                lemma_record_key_injective(
                    destination,
                    source_port,
                    packet.destination,
                    packet.source_port,
                );
            }
        }
    }

    /// `after` is the store `self` with `probe` recorded as sent at time
    /// `now`: the probe's destination has a report, with status `Filtered`
    /// unless it had one already, and the record at the probe's source port
    /// says that the probe waits since `now`.
    pub open spec fn added(&self, probe: Probe, now: u64, after: &Scanner) -> bool {
        &&& after.timeout() == self.timeout()
        &&& forall|destination: Endpoint| #[trigger]
            after.status(destination) == if destination == probe.destination {
                Some(
                    match self.status(destination) {
                        Some(status) => status,
                        None => PortStatus::Filtered,
                    },
                )
            } else {
                self.status(destination)
            }
        &&& forall|destination: Endpoint, source_port: u16| #[trigger]
            after.record(destination, source_port) == if destination == probe.destination
                && source_port == probe.source_port {
                Some(ProbeRecord { state: ProbeStatus::Waiting(now), scan: probe.scan })
            } else {
                self.record(destination, source_port)
            }
    }

    /// Nothing of the store differs between `self` and `after`.
    pub open spec fn unchanged(&self, after: &Scanner) -> bool {
        &&& after.timeout() == self.timeout()
        &&& forall|destination: Endpoint| #[trigger]
            after.status(destination) == self.status(destination)
        &&& forall|destination: Endpoint, source_port: u16| #[trigger]
            after.record(destination, source_port) == self.record(destination, source_port)
    }

    /// `after` is the store `self` with `response` taken into account: where
    /// the probe that it answers is on record and the reply is evidence of a
    /// status, the probe is done and the status of its destination promoted;
    /// otherwise nothing has changed.
    pub open spec fn answered(&self, response: Response, after: &Scanner) -> bool {
        match (
            self.status(response.origin),
            self.record(response.origin, response.probe_id),
        ) {
            (Some(status), Some(record)) => match PortStatus::classification(
                response.kind,
                record.scan,
            ) {
                Some(evidence) => {
                    &&& after.timeout() == self.timeout()
                    &&& forall|destination: Endpoint| #[trigger]
                        after.status(destination) == if destination == response.origin {
                            Some(status.join(evidence))
                        } else {
                            self.status(destination)
                        }
                    &&& forall|destination: Endpoint, source_port: u16| #[trigger]
                        after.record(destination, source_port) == if destination
                            == response.origin && source_port == response.probe_id {
                            Some(ProbeRecord { state: ProbeStatus::Done, scan: record.scan })
                        } else {
                            self.record(destination, source_port)
                        }
                },
                None => self.unchanged(after),
            },
            _ => self.unchanged(after),
        }
    }

    /// `after` is the store `self` swept at time `now`: every probe that has
    /// waited for longer than the timeout is timed out, and the status of each
    /// destination is the most specific of its former status and the statuses
    /// that the silence of its timed-out probes is evidence of.
    pub open spec fn swept(&self, now: u64, after: &Scanner) -> bool {
        &&& after.timeout() == self.timeout()
        &&& forall|destination: Endpoint, source_port: u16| #[trigger]
            after.record(destination, source_port) == match self.record(
                destination,
                source_port,
            ) {
                Some(record) => Some(record.swept(now, self.timeout())),
                None => None,
            }
        &&& forall|destination: Endpoint| #[trigger]
            after.status(destination) is Some <==> self.status(destination) is Some
        &&& forall|destination: Endpoint| #[trigger]
            self.status(destination) is Some ==> after.status(destination)->0.level()
                >= self.status(destination)->0.level()
        &&& forall|destination: Endpoint, source_port: u16|
            self.status(destination) is Some && (#[trigger] self.record(
                destination,
                source_port,
            )) is Some && self.record(destination, source_port)->0.expired(now, self.timeout())
                ==> after.status(destination)->0.level() >= PortStatus::silence(
                self.record(destination, source_port)->0.scan,
            ).level()
        &&& forall|destination: Endpoint| #[trigger]
            self.status(destination) is Some ==> after.status(destination) == self.status(
                destination,
            ) || exists|source_port: u16|
                (#[trigger] self.record(destination, source_port)) matches Some(record)
                    && record.expired(now, self.timeout()) && after.status(destination) == Some(
                    PortStatus::silence(record.scan),
                )
    }

    /// Takes a reply into account: finds the probe that it answers by the
    /// reply's origin and probe identifier, and where the reply is evidence of
    /// a status, marks the probe done and promotes the destination's status.
    pub fn apply(&mut self, response: Response)
        ensures
            old(self).answered(response, final(self)),
    {
        broadcast use vstd::std_specs::hash::group_hash_axioms;

        let key = key_of(response.origin);
        let status = match self.reports.get(&key) {
            Some(status) => *status,
            None => {
                return ;
            },
        };
        let probe_key = probe_key_of(response.origin, response.probe_id);
        let record = match self.probes.get(&probe_key) {
            Some(record) => *record,
            None => {
                return ;
            },
        };
        let evidence = match PortStatus::classify(response.kind, record.scan) {
            Some(evidence) => evidence,
            None => {
                return ;
            },
        };
        self.probes.insert(probe_key, ProbeRecord { state: ProbeStatus::Done, scan: record.scan });
        if status.rank() < evidence.rank() {
            self.reports.insert(key, evidence);
        }
        proof {
            assert forall|destination: Endpoint| #[trigger]
                final(self).status(destination) == if destination == response.origin {
                    Some(status.join(evidence))
                } else {
                    old(self).status(destination)
                } by {
                lemma_endpoint_key_injective(destination, response.origin);
            }
            assert forall|destination: Endpoint, source_port: u16| #[trigger]
                final(self).record(destination, source_port) == if destination
                    == response.origin && source_port == response.probe_id {
                    Some(ProbeRecord { state: ProbeStatus::Done, scan: record.scan })
                } else {
                    old(self).record(destination, source_port)
                } by {
                lemma_record_key_injective(
                    destination,
                    source_port,
                    response.origin,
                    response.probe_id,
                );
            }
        }
    }

    /// Decodes a received buffer that begins at an IPv4 header and takes the
    /// reply into account. A buffer that cannot be decoded changes nothing.
    pub fn update(&mut self, packet: &[u8])
        ensures
            match crate::probes::response::decoded(packet@) {
                Ok(response) => old(self).answered(response, final(self)),
                Err(_) => old(self).unchanged(final(self)),
            },
    {
        match Response::try_from(packet) {
            Ok(response) => self.apply(response),
            Err(_) => {},
        }
    }

    /// Decodes a frame received on a link-level socket and takes the reply
    /// into account. A frame that cannot be decoded changes nothing.
    pub fn update_frame(&mut self, frame: &[u8])
        ensures
            match crate::probes::response::decoded_frame(frame@) {
                Ok(response) => old(self).answered(response, final(self)),
                Err(_) => old(self).unchanged(final(self)),
            },
    {
        match Response::from_frame(frame) {
            Ok(response) => self.apply(response),
            Err(_) => {},
        }
    }

    /// Sweeps the store by its own clock and says whether the scan is
    /// complete.
    pub fn is_complete(&mut self) -> (complete: bool)
        ensures
            exists|now: u64| old(self).swept(now, final(self)),
            complete == final(self).settled(),
    {
        let now = self.clock.now();
        let complete = self.sweep(now);
        assert(old(self).swept(now, final(self)));
        complete
    }

    /// Sweeps the store at time `now`: every probe that has waited for longer
    /// than the timeout is timed out, and its destination's status promoted by
    /// what silence is evidence of for the probe's technique. The scan is
    /// complete when no probe is left waiting.
    pub fn sweep(&mut self, now: u64) -> (complete: bool)
        ensures
            old(self).swept(now, final(self)),
            complete == final(self).settled(),
    {
        broadcast use vstd::std_specs::hash::group_hash_axioms;

        let keys = keys_of(&self.probes);
        let ghost before = self.probes@;
        let ghost reports_before = self.reports@;
        let timeout = self.timeout;
        let mut complete = true;
        let mut i: usize = 0;
        while i < keys.len()
            invariant
                i <= keys@.len(),
                keys@.no_duplicates(),
                keys@.to_set() == before.dom(),
                timeout == self.timeout,
                self.timeout == old(self).timeout,
                before == old(self).probes@,
                reports_before == old(self).reports@,
                self.probes@.dom() == before.dom(),
                self.reports@.dom() == reports_before.dom(),
                forall|j: int|
                    0 <= j < i ==> self.probes@[#[trigger] keys@[j]] == before[keys@[j]].swept(
                        now,
                        timeout,
                    ),
                forall|j: int|
                    i <= j < keys@.len() ==> self.probes@[#[trigger] keys@[j]] == before[keys@[j]],
                forall|d: u64| #[trigger]
                    reports_before.contains_key(d) ==> self.reports@[d].level()
                        >= reports_before[d].level(),
                forall|j: int|
                    0 <= j < i && before[#[trigger] keys@[j]].expired(now, timeout)
                        && reports_before.contains_key(keys@[j] / 0x1_0000) ==> self.reports@[keys@[j]
                        / 0x1_0000].level() >= PortStatus::silence(before[keys@[j]].scan).level(),
                forall|d: u64| #[trigger]
                    reports_before.contains_key(d) ==> self.reports@[d] == reports_before[d]
                        || exists|j: int|
                        0 <= j < i && before[#[trigger] keys@[j]].expired(now, timeout) && keys@[j]
                            / 0x1_0000 == d && self.reports@[d] == PortStatus::silence(
                            before[keys@[j]].scan,
                        ),
                complete <==> forall|j: int|
                    0 <= j < i ==> !before[#[trigger] keys@[j]].swept(now, timeout).waiting(),
            decreases keys@.len() - i,
        {
            let key = keys[i];
            assert(keys@.to_set().contains(keys@[i as int]));
            assert(before.contains_key(key));
            let ghost reports_earlier = self.reports@;
            match self.probes.get(&key) {
                Some(record) => {
                    let record = *record;
                    if let ProbeStatus::Waiting(sent) = record.state {
                        if now > sent && now - sent > timeout {
                            self.probes.insert(
                                key,
                                ProbeRecord { state: ProbeStatus::TimedOut, scan: record.scan },
                            );
                            let destination = key / 0x1_0000;
                            let evidence = PortStatus::on_timeout(record.scan);
                            match self.reports.get(&destination) {
                                Some(status) => {
                                    if status.rank() < evidence.rank() {
                                        self.reports.insert(destination, evidence);
                                    }
                                },
                                None => {},
                            }
                        } else {
                            complete = false;
                        }
                    }
                },
                None => {},
            }
            proof {
                assert forall|j: int| 0 <= j < i + 1 implies self.probes@[#[trigger] keys@[j]]
                    == before[keys@[j]].swept(now, timeout) by {
                    if j < i {
                        assert(keys@[j] != keys@[i as int]);
                    }
                }
                assert forall|j: int| i + 1 <= j < keys@.len() implies self.probes@[#[trigger] keys@[j]]
                    == before[keys@[j]] by {
                    assert(keys@[j] != keys@[i as int]);
                }
                assert forall|d: u64| #[trigger] reports_before.contains_key(d) implies (
                self.reports@[d] == reports_before[d] || exists|j: int|
                    0 <= j < i + 1 && before[#[trigger] keys@[j]].expired(now, timeout) && keys@[j]
                        / 0x1_0000 == d && self.reports@[d] == PortStatus::silence(
                        before[keys@[j]].scan,
                    )) by {
                    if self.reports@[d] != reports_earlier[d] {
                        assert(before[keys@[i as int]].expired(now, timeout));
                    } else if reports_earlier[d] != reports_before[d] {
                        let j = choose|j: int|
                            0 <= j < i && before[#[trigger] keys@[j]].expired(now, timeout)
                                && keys@[j] / 0x1_0000 == d && reports_earlier[d]
                                == PortStatus::silence(before[keys@[j]].scan);
                        assert(0 <= j < i + 1);
                    }
                }
            }
            i += 1;
        }
        proof {
            let after = &*self;
            assert forall|destination: Endpoint, source_port: u16| #[trigger]
                after.record(destination, source_port) == match old(self).record(
                    destination,
                    source_port,
                ) {
                    Some(record) => Some(record.swept(now, old(self).timeout())),
                    None => None,
                } by {
                let k = record_key(destination, source_port);
                if before.contains_key(k) {
                    assert(keys@.to_set().contains(k));
                    let j = choose|j: int| 0 <= j < keys@.len() && keys@[j] == k;
                    assert(self.probes@[keys@[j]] == before[keys@[j]].swept(now, timeout));
                }
            }
            assert forall|destination: Endpoint, source_port: u16|
                old(self).status(destination) is Some && (#[trigger] old(self).record(
                    destination,
                    source_port,
                )) is Some && old(self).record(destination, source_port)->0.expired(
                    now,
                    old(self).timeout(),
                ) implies after.status(destination)->0.level() >= PortStatus::silence(
                old(self).record(destination, source_port)->0.scan,
            ).level() by {
                let k = record_key(destination, source_port);
                assert(keys@.to_set().contains(k));
                let j = choose|j: int| 0 <= j < keys@.len() && keys@[j] == k;
                assert(before[keys@[j]].expired(now, timeout));
                assert(k / 0x1_0000 == endpoint_key(destination));
            }
            assert forall|destination: Endpoint| #[trigger]
                old(self).status(destination) is Some implies (after.status(destination) == old(
                self,
            ).status(destination) || exists|source_port: u16|
                (#[trigger] old(self).record(destination, source_port)) matches Some(record)
                    && record.expired(now, old(self).timeout()) && after.status(destination)
                    == Some(PortStatus::silence(record.scan))) by {
                let d = endpoint_key(destination);
                assert(reports_before.contains_key(d));
                if self.reports@[d] != reports_before[d] {
                    let j = choose|j: int|
                        0 <= j < keys@.len() && before[#[trigger] keys@[j]].expired(now, timeout)
                            && keys@[j] / 0x1_0000 == d && self.reports@[d] == PortStatus::silence(
                            before[keys@[j]].scan,
                        );
                    let k = keys@[j];
                    assert(keys@.to_set().contains(k));
                    let source_port = (k % 0x1_0000) as u16;
                    assert(record_key(destination, source_port) == k);
                    assert(old(self).record(destination, source_port) == Some(before[k]));
                }
            }
            assert(complete == after.settled()) by {
                if complete {
                    assert forall|destination: Endpoint, source_port: u16|
                        (#[trigger] after.record(destination, source_port)) is Some implies !after.record(
                        destination,
                        source_port,
                    )->0.waiting() by {
                        let k = record_key(destination, source_port);
                        assert(keys@.to_set().contains(k));
                        let j = choose|j: int| 0 <= j < keys@.len() && keys@[j] == k;
                        assert(!before[keys@[j]].swept(now, timeout).waiting());
                    }
                } else {
                    let j = choose|j: int|
                        0 <= j < keys@.len() && before[#[trigger] keys@[j]].swept(
                            now,
                            timeout,
                        ).waiting();
                    let k = keys@[j];
                    assert(keys@.to_set().contains(k));
                    let destination = Endpoint {
                        host: (k / 0x1_0000_0000) as u32,
                        port: (k / 0x1_0000 % 0x1_0000) as u16,
                    };
                    let source_port = (k % 0x1_0000) as u16;
                    assert(record_key(destination, source_port) == k);
                    assert(after.record(destination, source_port) == Some(
                        before[k].swept(now, timeout),
                    ));
                }
            }
        }
        complete
    }
}

/// The join of two statuses is the more specific of the two: it is one of
/// them, and neither lies above it.
pub proof fn lemma_join(a: PortStatus, b: PortStatus)
    ensures
        a.join(b) == a || a.join(b) == b,
        a.join(b).level() >= a.level(),
        a.join(b).level() >= b.level(),
        a.join(b) == b.join(a),
{
}

/// Once a port is open, no evidence changes its status.
pub proof fn lemma_open_is_terminal(evidence: PortStatus)
    ensures
        PortStatus::Open.join(evidence) == PortStatus::Open,
{
}

/// Promotions only: recording a probe lowers the status of no destination,
/// and keeps the store well formed.
pub proof fn lemma_added_promotes(before: Scanner, probe: Probe, now: u64, after: Scanner)
    requires
        before.added(probe, now, &after),
    ensures
        forall|destination: Endpoint| #[trigger]
            before.status(destination) is Some ==> after.status(destination) is Some
                && after.status(destination)->0.level() >= before.status(destination)->0.level(),
        before.well_formed() ==> after.well_formed(),
{
    assert forall|destination: Endpoint| #[trigger]
        before.status(destination) is Some implies after.status(destination) is Some
        && after.status(destination)->0.level() >= before.status(destination)->0.level() by {
        assert(after.status(destination) == if destination == probe.destination {
            Some(
                match before.status(destination) {
                    Some(status) => status,
                    None => PortStatus::Filtered,
                },
            )
        } else {
            before.status(destination)
        });
    }
    if before.well_formed() {
        assert forall|destination: Endpoint, source_port: u16|
            after.record(destination, source_port) is Some implies after.status(
            destination,
        ) is Some by {
            assert(after.status(destination) == if destination == probe.destination {
                Some(
                    match before.status(destination) {
                        Some(status) => status,
                        None => PortStatus::Filtered,
                    },
                )
            } else {
                before.status(destination)
            });
        }
    }
}

/// Promotions only: whatever the reply and whatever the technique of the
/// probe that it answers, taking the reply into account lowers the status of
/// no destination, and keeps the store well formed.
pub proof fn lemma_answered_promotes(before: Scanner, response: Response, after: Scanner)
    requires
        before.answered(response, &after),
    ensures
        forall|destination: Endpoint| #[trigger]
            before.status(destination) is Some ==> after.status(destination) is Some
                && after.status(destination)->0.level() >= before.status(destination)->0.level(),
        before.well_formed() ==> after.well_formed(),
{
    assert forall|destination: Endpoint| #[trigger]
        before.status(destination) is Some implies after.status(destination) is Some
        && after.status(destination)->0.level() >= before.status(destination)->0.level() by {
        let _ = after.status(destination);
    }
    if before.well_formed() {
        assert forall|destination: Endpoint, source_port: u16|
            after.record(destination, source_port) is Some implies after.status(
            destination,
        ) is Some by {
            let _ = after.status(destination);
            let _ = before.record(destination, source_port);
        }
    }
}

/// Promotions only: a sweep lowers the status of no destination, and keeps
/// the store well formed.
pub proof fn lemma_swept_promotes(before: Scanner, now: u64, after: Scanner)
    requires
        before.swept(now, &after),
    ensures
        forall|destination: Endpoint| #[trigger]
            before.status(destination) is Some ==> after.status(destination) is Some
                && after.status(destination)->0.level() >= before.status(destination)->0.level(),
        before.well_formed() ==> after.well_formed(),
{
    assert forall|destination: Endpoint| #[trigger]
        before.status(destination) is Some implies after.status(destination) is Some
        && after.status(destination)->0.level() >= before.status(destination)->0.level() by {
        let _ = after.status(destination);
    }
    if before.well_formed() {
        assert forall|destination: Endpoint, source_port: u16|
            after.record(destination, source_port) is Some implies after.status(
            destination,
        ) is Some by {
            let _ = after.status(destination);
            let _ = before.record(destination, source_port);
        }
    }
}

/// A probe that has waited for longer than the timeout is timed out by the
/// next sweep, and the status of its destination is promoted by what no
/// response is evidence of for the probe's technique.
pub proof fn lemma_sweep_times_out(
    before: Scanner,
    now: u64,
    after: Scanner,
    destination: Endpoint,
    source_port: u16,
    sent: u64,
    scan: Scan,
)
    requires
        before.swept(now, &after),
        before.status(destination) is Some,
        before.record(destination, source_port) == Some(
            ProbeRecord { state: ProbeStatus::Waiting(sent), scan },
        ),
        now - sent > before.timeout(),
    ensures
        after.record(destination, source_port) == Some(
            ProbeRecord { state: ProbeStatus::TimedOut, scan },
        ),
        PortStatus::classification(ResponseKind::NoResponse, scan) is Some,
        after.status(destination) is Some,
        after.status(destination)->0.level() >= PortStatus::classification(
            ResponseKind::NoResponse,
            scan,
        )->0.level(),
{
    let record = ProbeRecord { state: ProbeStatus::Waiting(sent), scan };
    assert(record.expired(now, before.timeout()));
    let _ = after.record(destination, source_port);
    let _ = after.status(destination);
}

/// Two destinations with the same key are the same.
pub proof fn lemma_endpoint_key_injective(a: Endpoint, b: Endpoint)
    ensures
        endpoint_key(a) == endpoint_key(b) <==> a == b,
{
}

/// Two probes with the same key have the same destination and source port.
pub proof fn lemma_record_key_injective(a: Endpoint, p: u16, b: Endpoint, q: u16)
    ensures
        record_key(a, p) == record_key(b, q) <==> a == b && p == q,
{
}

} // verus!
