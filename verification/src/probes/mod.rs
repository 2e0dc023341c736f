//! Probe generation, response decoding and the report store.

use rand::Rng;
use vstd::prelude::*;

pub mod hosts;
pub mod packet;
pub mod report;
pub mod response;

use crate::iterators::{LoopIterator, PortRange, ScanType};
use crate::probes::hosts::{normalize_hosts, same_addresses, strictly_increasing};
use crate::probes::packet::{build_probe, probe_bytes};

verus! {

/// Lowest source port that a run may take as its base.
pub const BASE_PORT_MIN: u16 = 1025;

/// Highest source port that a run may take as its base: the six ports from the
/// base on must exist.
pub const BASE_PORT_MAX: u16 = 0xffff - crate::SCAN_NUM;

/// A host and one of its ports.
#[derive(Clone, Copy, Debug, PartialEq, Eq, Hash, Structural)]
pub struct Endpoint {
    pub host: u32,
    pub port: u16,
}

/// What one probe is aimed at: a port of a host, with a technique.
#[derive(Clone, Copy, Debug, PartialEq, Eq, Structural)]
pub struct Target {
    pub port: u16,
    pub scan: ScanType,
    pub host: u32,
}

/// A crafted datagram with what is needed to send it and to recognise its
/// replies.
#[derive(Clone, Copy, Debug)]
pub struct Probe {
    pub data: [u8; 40],
    pub destination: Endpoint,
    pub source_port: u16,
    pub scan: ScanType,
}

impl Probe {
    /// The probe is the one that a run from `source` with base port `base` and
    /// TCP sequence number `sequence` sends to `target`.
    pub open spec fn aimed_at(self, source: u32, base: u16, sequence: u32, target: Target) -> bool {
        &&& self.scan == target.scan
        &&& self.destination == (Endpoint { host: target.host, port: target.port })
        &&& self.source_port == base + target.scan.ord()
        &&& self.data@ == probe_bytes(
            target.scan,
            source,
            self.source_port,
            target.host,
            target.port,
            sequence,
        )
    }
}

/// The targets of one technique on one port: each host in turn.
pub open spec fn row(port: u16, scan: ScanType, hosts: Seq<u32>) -> Seq<Target> {
    Seq::new(hosts.len(), |i: int| Target { port, scan, host: hosts[i] })
}

/// The targets on one port: for each technique in turn, each host.
pub open spec fn block(port: u16, scans: Seq<ScanType>, hosts: Seq<u32>) -> Seq<Target>
    decreases scans.len(),
{
    if scans.len() == 0 {
        Seq::empty()
    } else {
        row(port, scans[0], hosts) + block(port, scans.drop_first(), hosts)
    }
}

/// All targets in the order of emission: for each port, for each technique,
/// each host.
pub open spec fn grid(ports: Seq<u16>, scans: Seq<ScanType>, hosts: Seq<u32>) -> Seq<Target>
    decreases ports.len(),
{
    if ports.len() == 0 {
        Seq::empty()
    } else {
        block(ports[0], scans, hosts) + grid(ports.drop_first(), scans, hosts)
    }
}

/// The targets of a run whose list of techniques is entered at index `from`:
/// the first port gets the techniques from there on, every later port all of
/// them.
pub open spec fn schedule(ports: Seq<u16>, scans: Seq<ScanType>, from: int, hosts: Seq<u32>) -> Seq<
    Target,
> {
    if ports.len() == 0 || !(0 <= from < scans.len()) {
        Seq::empty()
    } else {
        block(ports[0], scans.skip(from), hosts) + grid(ports.drop_first(), scans, hosts)
    }
}

/// Why no probe generator could be made.
#[derive(Clone, Copy, Debug, PartialEq, Eq, Structural)]
pub enum BuildError {
    /// No host was given.
    NoTarget,
}

/// Calls `rand::thread_rng().gen_range` on the inclusive range from `low` to
/// `high`. Trusted: the result lies in the range. An empty range would panic.
#[verifier::external_body]
fn random_port(low: u16, high: u16) -> (port: u16)
    requires
        low <= high,
    ensures
        low <= port <= high,
{
    rand::thread_rng().gen_range(low..=high)
}

/// Calls `rand::random` for a 32-bit number, of which nothing is known.
#[verifier::external_body]
fn random_sequence() -> u32 {
    rand::random()
}

/// A lazy enumerator of the probes of a run: ports outermost, techniques next,
/// hosts innermost.
#[derive(Debug)]
pub struct ProbeBuilder {
    hosts: LoopIterator<u32>,
    scans: LoopIterator<ScanType>,
    ports: LoopIterator<PortRange>,
    scan: Option<ScanType>,
    port: Option<u16>,
    source_addr: u32,
    source_port: u16,
    tcp_seq: u32,
}

impl ProbeBuilder {
    #[verifier::type_invariant]
    spec fn well_formed(self) -> bool {
        &&& self.hosts.items().len() > 0
        &&& 0 <= self.hosts.position() <= self.hosts.items().len()
        &&& 0 <= self.scans.position() <= self.scans.items().len()
        &&& self.source_port <= BASE_PORT_MAX
    }

    /// The hosts of the run, sorted and without duplicates.
    pub closed spec fn hosts(self) -> Seq<u32> {
        self.hosts.items()
    }

    /// The address that the probes are sent from.
    pub closed spec fn source(self) -> u32 {
        self.source_addr
    }

    /// The base of the run's source ports.
    pub closed spec fn base_port(self) -> u16 {
        self.source_port
    }

    /// The sequence number of the run's TCP probes.
    pub closed spec fn sequence(self) -> u32 {
        self.tcp_seq
    }

    /// The targets that are still to be probed, in the order of emission.
    pub closed spec fn pending(self) -> Seq<Target> {
        match (self.port, self.scan) {
            (Some(port), Some(scan)) => row(
                port,
                scan,
                self.hosts.items().skip(self.hosts.position()),
            ) + block(port, self.scans.items().skip(self.scans.position()), self.hosts.items())
                + grid(self.ports.pending(), self.scans.items(), self.hosts.items()),
            _ => Seq::empty(),
        }
    }

    /// A generator for the given hosts, ports and techniques, sending from
    /// `source`, with a random base port and a random TCP sequence number. The
    /// hosts are sorted and their duplicates dropped; without a host there is
    /// nothing to scan.
    pub fn new(
        hosts: Vec<u32>,
        ports: LoopIterator<PortRange>,
        scans: LoopIterator<ScanType>,
        source: u32,
    ) -> (built: Result<ProbeBuilder, BuildError>)
        ensures
            hosts@.len() == 0 <==> built is Err,
            built matches Ok(builder) ==> {
                &&& strictly_increasing(builder.hosts())
                &&& same_addresses(builder.hosts(), hosts@)
                &&& builder.source() == source
                &&& BASE_PORT_MIN <= builder.base_port() <= BASE_PORT_MAX
                &&& builder.pending() == schedule(
                    ports.pending(),
                    scans.items(),
                    scans.position(),
                    builder.hosts(),
                )
                &&& scans.position() == 0 ==> builder.pending() == grid(
                    ports.pending(),
                    scans.items(),
                    builder.hosts(),
                )
            },
    {
        let base = random_port(BASE_PORT_MIN, BASE_PORT_MAX);
        let sequence = random_sequence();
        ProbeBuilder::with_identifiers(hosts, ports, scans, source, base, sequence)
    }

    /// A generator for the given hosts, ports and techniques, sending from
    /// `source`, with the given base port and TCP sequence number. The hosts
    /// are sorted and their duplicates dropped; without a host there is
    /// nothing to scan.
    pub fn with_identifiers(
        hosts: Vec<u32>,
        ports: LoopIterator<PortRange>,
        scans: LoopIterator<ScanType>,
        source: u32,
        base: u16,
        sequence: u32,
    ) -> (built: Result<ProbeBuilder, BuildError>)
        requires
            BASE_PORT_MIN <= base <= BASE_PORT_MAX,
        ensures
            hosts@.len() == 0 <==> built is Err,
            built matches Ok(builder) ==> {
                &&& strictly_increasing(builder.hosts())
                &&& same_addresses(builder.hosts(), hosts@)
                &&& builder.source() == source
                &&& builder.base_port() == base
                &&& builder.sequence() == sequence
                &&& builder.pending() == schedule(
                    ports.pending(),
                    scans.items(),
                    scans.position(),
                    builder.hosts(),
                )
                &&& scans.position() == 0 ==> builder.pending() == grid(
                    ports.pending(),
                    scans.items(),
                    builder.hosts(),
                )
            },
    {
        if hosts.len() == 0 {
            return Err(BuildError::NoTarget);
        }
        let sorted = normalize_hosts(&hosts);
        assert(sorted@.len() > 0) by {
            assert(hosts@.contains(hosts@[0]));
            assert(sorted@.contains(hosts@[0]));
        }
        let mut ports = ports;
        let mut scans = scans;
        // a cursor never stands beyond its list
        let _ = scans.len();
        let ghost all_ports = ports.pending();
        let ghost from = scans.position();
        let port = ports.next();
        let scan = if port.is_some() {
            scans.next()
        } else {
            None
        };
        let builder = ProbeBuilder {
            hosts: LoopIterator::from(sorted),
            scans,
            ports,
            scan,
            port,
            source_addr: source,
            source_port: base,
            tcp_seq: sequence,
        };
        proof {
            let hs = builder.hosts.items();
            let ss = builder.scans.items();
            assert(hs.skip(0) =~= hs);
            if port is Some && scan is Some {
                let tail = ss.skip(from);
                assert(tail.drop_first() =~= ss.skip(from + 1));
                assert(tail[0] == scan->0);
                assert(builder.pending() =~= schedule(all_ports, ss, from, hs));
            } else {
                assert(builder.pending() =~= schedule(all_ports, ss, from, hs));
            }
            lemma_schedule_from_start(all_ports, ss, hs);
        }
        Ok(builder)
    }

    /// Moves on to the next technique, or to the first technique on the next
    /// port, when the hosts of the current row are used up.
    fn roll_over(&mut self) -> (more: bool)
        requires
            old(self).port is Some,
            old(self).scan is Some,
            old(self).hosts.position() == 0,
        ensures
            final(self).hosts == old(self).hosts,
            final(self).source_addr == old(self).source_addr,
            final(self).source_port == old(self).source_port,
            final(self).tcp_seq == old(self).tcp_seq,
            more ==> final(self).port is Some && final(self).scan is Some && final(self).pending()
                == block(
                old(self).port->0,
                old(self).scans.items().skip(old(self).scans.position()),
                old(self).hosts.items(),
            ) + grid(old(self).ports.pending(), old(self).scans.items(), old(self).hosts.items()),
            !more ==> final(self).pending().len() == 0 && (block(
                old(self).port->0,
                old(self).scans.items().skip(old(self).scans.position()),
                old(self).hosts.items(),
            ) + grid(
                old(self).ports.pending(),
                old(self).scans.items(),
                old(self).hosts.items(),
            )).len() == 0,
    {
        proof {
            use_type_invariant(&*self);
        }
        let ghost hs = self.hosts.items();
        let ghost ss = self.scans.items();
        let ghost from = self.scans.position();
        let ghost queued = self.ports.pending();
        let ghost port = self.port->0;
        assert(hs.skip(0) =~= hs);
        match self.scans.next() {
            Some(following) => {
                proof {
                    let rest = ss.skip(from);
                    assert(rest.drop_first() =~= ss.skip(from + 1));
                    assert(rest[0] == following);
                }
                self.scan = Some(following);
                assert(self.pending() =~= block(port, ss.skip(from), hs) + grid(queued, ss, hs));
                true
            },
            None => {
                assert(block(port, ss.skip(from), hs) =~= Seq::<Target>::empty());
                assert(ss.skip(0) =~= ss);
                match self.ports.next() {
                    Some(following) => {
                        self.port = Some(following);
                        match self.scans.next() {
                            Some(first) => {
                                proof {
                                    assert(ss.drop_first() =~= ss.skip(1));
                                    assert(ss[0] == first);
                                }
                                self.scan = Some(first);
                                assert(self.pending() =~= grid(queued, ss, hs));
                                true
                            },
                            None => {
                                proof {
                                    lemma_grid_without_scans(queued, ss, hs);
                                }
                                self.scan = None;
                                false
                            },
                        }
                    },
                    None => {
                        self.port = None;
                        false
                    },
                }
            },
        }
    }

    /// Produces the next probe, or `None` when every target has been probed.
    /// After the end it keeps returning `None`.
    pub fn next(&mut self) -> (probe: Option<Probe>)
        ensures
            final(self).hosts() == old(self).hosts(),
            final(self).source() == old(self).source(),
            final(self).base_port() == old(self).base_port(),
            final(self).sequence() == old(self).sequence(),
            old(self).pending().len() == 0 ==> probe is None && final(self).pending().len() == 0,
            old(self).pending().len() > 0 ==> final(self).pending() == old(self).pending().drop_first(),
            old(self).pending().len() > 0 ==> (probe matches Some(p) && p.aimed_at(
                old(self).source(),
                old(self).base_port(),
                old(self).sequence(),
                old(self).pending()[0],
            )),
    {
        proof {
            use_type_invariant(&*self);
        }
        if self.port.is_none() || self.scan.is_none() {
            return None;
        }
        let ghost hs = self.hosts.items();
        let ghost before = self.pending();
        let ghost at = self.hosts.position();
        let mut host = self.hosts.next();
        if host.is_none() {
            assert(row(self.port->0, self.scan->0, hs.skip(at)) =~= Seq::<Target>::empty());
            if !self.roll_over() {
                return None;
            }
            proof {
                use_type_invariant(&*self);
            }
            host = self.hosts.next();
            assert(hs.skip(0) =~= hs);
        }
        let ghost from = if at < hs.len() {
            at
        } else {
            0
        };
        match (host, self.port, self.scan) {
            (Some(host), Some(port), Some(scan)) => {
                proof {
                    let rest = hs.skip(from);
                    assert(rest.drop_first() =~= hs.skip(from + 1));
                    assert(row(port, scan, rest).drop_first() =~= row(
                        port,
                        scan,
                        rest.drop_first(),
                    ));
                    assert(before[0] == Target { port, scan, host });
                    assert(self.pending() =~= before.drop_first());
                }
                let source_port = self.source_port + scan.index();
                let data = build_probe(
                    scan,
                    self.source_addr,
                    source_port,
                    host,
                    port,
                    self.tcp_seq,
                );
                Some(Probe { data, destination: Endpoint { host, port }, source_port, scan })
            },
            _ => None,
        }
    }

    /// Produces all probes that are left, in the order of emission.
    pub fn collect(&mut self) -> (probes: Vec<Probe>)
        ensures
            final(self).hosts() == old(self).hosts(),
            final(self).source() == old(self).source(),
            final(self).base_port() == old(self).base_port(),
            final(self).sequence() == old(self).sequence(),
            final(self).pending().len() == 0,
            probes@.len() == old(self).pending().len(),
            forall|i: int|
                0 <= i < probes@.len() ==> (#[trigger] probes@[i]).aimed_at(
                    old(self).source(),
                    old(self).base_port(),
                    old(self).sequence(),
                    old(self).pending()[i],
                ),
    {
        let mut probes: Vec<Probe> = Vec::new();
        loop
            invariant
                self.hosts() == old(self).hosts(),
                self.source() == old(self).source(),
                self.base_port() == old(self).base_port(),
                self.sequence() == old(self).sequence(),
                probes@.len() <= old(self).pending().len(),
                self.pending() == old(self).pending().skip(probes@.len() as int),
                forall|i: int|
                    0 <= i < probes@.len() ==> (#[trigger] probes@[i]).aimed_at(
                        old(self).source(),
                        old(self).base_port(),
                        old(self).sequence(),
                        old(self).pending()[i],
                    ),
            decreases self.pending().len(),
        {
            let ghost queued = self.pending();
            match self.next() {
                Some(probe) => {
                    probes.push(probe);
                    assert(queued.drop_first() =~= old(self).pending().skip(probes@.len() as int));
                },
                None => {
                    return probes;
                },
            }
        }
    }
}

/// Without a technique there is no target, whatever the ports.
pub proof fn lemma_grid_without_scans(ports: Seq<u16>, scans: Seq<ScanType>, hosts: Seq<u32>)
    requires
        scans.len() == 0,
    ensures
        grid(ports, scans, hosts).len() == 0,
    decreases ports.len(),
{
    if ports.len() > 0 {
        lemma_grid_without_scans(ports.drop_first(), scans, hosts);
    }
}

/// The index in the order of emission of the target of port `pi`, technique
/// `si` and host `hi`, for `scans` techniques and `hosts` hosts.
pub open spec fn slot(pi: int, si: int, hi: int, scans: int, hosts: int) -> int {
    (pi * scans + si) * hosts + hi
}

/// A block holds one target for each technique and host.
pub proof fn lemma_block_len(port: u16, scans: Seq<ScanType>, hosts: Seq<u32>)
    ensures
        block(port, scans, hosts).len() == scans.len() * hosts.len(),
    decreases scans.len(),
{
    if scans.len() > 0 {
        lemma_block_len(port, scans.drop_first(), hosts);
        assert(scans.len() * hosts.len() == hosts.len() + (scans.len() - 1) * hosts.len())
            by (nonlinear_arith);
    }
}

/// The total probe count: one target for each port, technique and host.
pub proof fn lemma_grid_len(ports: Seq<u16>, scans: Seq<ScanType>, hosts: Seq<u32>)
    ensures
        grid(ports, scans, hosts).len() == ports.len() * scans.len() * hosts.len(),
    decreases ports.len(),
{
    let s = scans.len() as int;
    let h = hosts.len() as int;
    let p = ports.len() as int;
    if ports.len() > 0 {
        let rest = ports.drop_first();
        lemma_grid_len(rest, scans, hosts);
        lemma_block_len(ports[0], scans, hosts);
        assert(rest.len() * scans.len() * hosts.len() == (p - 1) * s * h) by (nonlinear_arith)
            requires
                rest.len() == p - 1,
                scans.len() == s,
                hosts.len() == h,
        ;
        assert(scans.len() * hosts.len() == s * h) by (nonlinear_arith)
            requires
                scans.len() == s,
                hosts.len() == h,
        ;
        assert(p * s * h == s * h + (p - 1) * s * h) by (nonlinear_arith);
        assert(ports.len() * scans.len() * hosts.len() == p * s * h) by (nonlinear_arith)
            requires
                ports.len() == p,
                scans.len() == s,
                hosts.len() == h,
        ;
    } else {
        assert(ports.len() * scans.len() * hosts.len() == 0) by (nonlinear_arith)
            requires
                ports.len() == 0,
        ;
    }
}

/// Within a block the target of technique `si` and host `hi` stands at index
/// `si * |hosts| + hi`.
pub proof fn lemma_block_at(port: u16, scans: Seq<ScanType>, hosts: Seq<u32>, si: int, hi: int)
    requires
        0 <= si < scans.len(),
        0 <= hi < hosts.len(),
    ensures
        0 <= si * hosts.len() + hi < block(port, scans, hosts).len(),
        block(port, scans, hosts)[si * hosts.len() + hi] == (Target {
            port,
            scan: scans[si],
            host: hosts[hi],
        }),
    decreases si,
{
    let h = hosts.len() as int;
    let s = scans.len() as int;
    lemma_block_len(port, scans, hosts);
    assert(0 <= si * h + hi < s * h) by (nonlinear_arith)
        requires
            0 <= si < s,
            0 <= hi < h,
    ;
    let index = si * h + hi;
    let first = row(port, scans[0], hosts);
    let rest = block(port, scans.drop_first(), hosts);
    assert(block(port, scans, hosts) == first + rest);
    if si > 0 {
        lemma_block_at(port, scans.drop_first(), hosts, si - 1, hi);
        assert(index - h == (si - 1) * h + hi) by (nonlinear_arith)
            requires
                index == si * h + hi,
        ;
        assert(index >= h) by (nonlinear_arith)
            requires
                index == si * h + hi,
                si >= 1,
                hi >= 0,
                h >= 0,
        ;
        assert((first + rest)[index] == rest[index - h]);
    } else {
        assert(index == hi) by (nonlinear_arith)
            requires
                index == si * h + hi,
                si == 0,
        ;
        assert((first + rest)[index] == first[hi]);
    }
}

/// The order of emission: the target of port `pi`, technique `si` and host
/// `hi` stands at index `slot(pi, si, hi, |scans|, |hosts|)`. So each
/// combination of a port, a technique and a host is probed, and the probes of
/// one technique on one port go to the hosts in turn.
pub proof fn lemma_grid_at(
    ports: Seq<u16>,
    scans: Seq<ScanType>,
    hosts: Seq<u32>,
    pi: int,
    si: int,
    hi: int,
)
    requires
        0 <= pi < ports.len(),
        0 <= si < scans.len(),
        0 <= hi < hosts.len(),
    ensures
        0 <= slot(pi, si, hi, scans.len() as int, hosts.len() as int) < grid(
            ports,
            scans,
            hosts,
        ).len(),
        grid(ports, scans, hosts)[slot(pi, si, hi, scans.len() as int, hosts.len() as int)] == (
        Target { port: ports[pi], scan: scans[si], host: hosts[hi] }),
    decreases pi,
{
    let h = hosts.len() as int;
    let s = scans.len() as int;
    let p = ports.len() as int;
    lemma_grid_len(ports, scans, hosts);
    lemma_block_len(ports[0], scans, hosts);
    lemma_block_at(ports[0], scans, hosts, si, hi);
    assert(0 <= (pi * s + si) * h + hi < p * s * h) by (nonlinear_arith)
        requires
            0 <= pi < p,
            0 <= si < s,
            0 <= hi < h,
    ;
    let index = slot(pi, si, hi, s, h);
    let first = block(ports[0], scans, hosts);
    let rest = grid(ports.drop_first(), scans, hosts);
    assert(grid(ports, scans, hosts) == first + rest);
    assert(first.len() == s * h) by (nonlinear_arith)
        requires
            first.len() == scans.len() * hosts.len(),
            scans.len() == s,
            hosts.len() == h,
    ;
    if pi > 0 {
        lemma_grid_at(ports.drop_first(), scans, hosts, pi - 1, si, hi);
        assert(index - s * h == slot(pi - 1, si, hi, s, h)) by (nonlinear_arith)
            requires
                index == (pi * s + si) * h + hi,
                slot(pi - 1, si, hi, s, h) == ((pi - 1) * s + si) * h + hi,
        ;
        assert(index >= s * h) by (nonlinear_arith)
            requires
                index == (pi * s + si) * h + hi,
                pi >= 1,
                si >= 0,
                hi >= 0,
                h >= 0,
                s >= 0,
        ;
        assert((first + rest)[index] == rest[index - s * h]);
    } else {
        assert(index == si * h + hi) by (nonlinear_arith)
            requires
                index == (pi * s + si) * h + hi,
                pi == 0,
        ;
        assert(index < s * h) by (nonlinear_arith)
            requires
                index == si * h + hi,
                0 <= si < s,
                0 <= hi < h,
        ;
        assert((first + rest)[index] == first[index]);
    }
}

/// Every index of the order of emission belongs to one combination of a
/// port, a technique and a host.
pub proof fn lemma_grid_index(ports: Seq<u16>, scans: Seq<ScanType>, hosts: Seq<u32>, k: int)
    requires
        0 <= k < grid(ports, scans, hosts).len(),
    ensures
        exists|pi: int, si: int, hi: int|
            0 <= pi < ports.len() && 0 <= si < scans.len() && 0 <= hi < hosts.len() && k
                == #[trigger] slot(pi, si, hi, scans.len() as int, hosts.len() as int),
{
    let h = hosts.len() as int;
    let s = scans.len() as int;
    let p = ports.len() as int;
    lemma_grid_len(ports, scans, hosts);
    assert(h > 0 && s > 0 && p > 0) by (nonlinear_arith)
        requires
            0 <= k < p * s * h,
            h >= 0,
            s >= 0,
            p >= 0,
    ;
    let hi = k % h;
    let row_index = k / h;
    let si = row_index % s;
    let pi = row_index / s;
    vstd::arithmetic::div_mod::lemma_fundamental_div_mod(k, h);
    vstd::arithmetic::div_mod::lemma_fundamental_div_mod(row_index, s);
    assert(0 <= row_index && row_index < p * s) by (nonlinear_arith)
        requires
            0 <= k < p * s * h,
            k == h * row_index + hi,
            0 <= hi < h,
    ;
    assert(0 <= pi < p) by (nonlinear_arith)
        requires
            0 <= row_index < p * s,
            row_index == s * pi + si,
            0 <= si < s,
    ;
    assert(k == (pi * s + si) * h + hi) by (nonlinear_arith)
        requires
            k == h * row_index + hi,
            row_index == s * pi + si,
    ;
    assert(k == slot(pi, si, hi, s, h));
}

/// No target is probed twice: where no port, no technique and no host is
/// listed twice, the order of emission holds each target once.
pub proof fn lemma_grid_once(ports: Seq<u16>, scans: Seq<ScanType>, hosts: Seq<u32>)
    requires
        ports.no_duplicates(),
        scans.no_duplicates(),
        hosts.no_duplicates(),
    ensures
        grid(ports, scans, hosts).no_duplicates(),
{
    let g = grid(ports, scans, hosts);
    let h = hosts.len() as int;
    let s = scans.len() as int;
    assert forall|a: int, b: int| 0 <= a < g.len() && 0 <= b < g.len() && a != b implies g[a]
        != g[b] by {
        lemma_grid_index(ports, scans, hosts, a);
        lemma_grid_index(ports, scans, hosts, b);
        let (pa, sa, ha) = choose|pi: int, si: int, hi: int|
            0 <= pi < ports.len() && 0 <= si < scans.len() && 0 <= hi < hosts.len() && a
                == #[trigger] slot(pi, si, hi, s, h);
        let (pb, sb, hb) = choose|pi: int, si: int, hi: int|
            0 <= pi < ports.len() && 0 <= si < scans.len() && 0 <= hi < hosts.len() && b
                == #[trigger] slot(pi, si, hi, s, h);
        lemma_grid_at(ports, scans, hosts, pa, sa, ha);
        lemma_grid_at(ports, scans, hosts, pb, sb, hb);
        if g[a] == g[b] {
            assert(ports[pa] == ports[pb] && scans[sa] == scans[sb] && hosts[ha] == hosts[hb]);
            assert(pa == pb && sa == sb && ha == hb);
        }
    }
}

/// A run whose list of techniques is entered at its beginning probes the
/// whole grid.
pub proof fn lemma_schedule_from_start(ports: Seq<u16>, scans: Seq<ScanType>, hosts: Seq<u32>)
    ensures
        schedule(ports, scans, 0, hosts) == grid(ports, scans, hosts),
{
    if ports.len() > 0 {
        if scans.len() > 0 {
            assert(scans.skip(0) =~= scans);
        } else {
            lemma_grid_without_scans(ports, scans, hosts);
            assert(grid(ports, scans, hosts) =~= Seq::<Target>::empty());
        }
    }
}

} // verus!
