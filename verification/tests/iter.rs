use port_scanner::cli::{arg, args, port, scan};
use port_scanner::iterators::ports::Range;
use port_scanner::iterators::scans::Scan;
use port_scanner::iterators::LoopIterator;

#[test]
fn port_iterator_basic() {
    let mut ports = LoopIterator::from(vec![Range::new(1, 3), Range::new(7, 9)]);

    assert_eq!(Some(1), ports.next());
    assert_eq!(Some(2), ports.next());
    assert_eq!(Some(3), ports.next());
    assert_eq!(Some(7), ports.next());
    assert_eq!(Some(8), ports.next());
    assert_eq!(Some(9), ports.next());
    assert_eq!(None, ports.next());
    assert_eq!(None, ports.next());
}

#[test]
fn port_iterator_one_elem() {
    const VALUE: u16 = u16::MAX;
    let mut oneshot = LoopIterator::from(vec![Range::new(VALUE, VALUE)]);

    assert_eq!(Some(VALUE), oneshot.next());
    assert_eq!(None, oneshot.next());
    assert_eq!(None, oneshot.next());
}

#[test]
fn port_iterator_empty() {
    let mut empty = LoopIterator::<Range>::from(vec![]);
    assert_eq!(None, empty.next());
    assert_eq!(None, empty.next());
}

#[test]
fn scan_iterator_basic() {
    let mut arr = LoopIterator::<Scan>::default();

    assert_eq!(Some(Scan::SYN), arr.next());
    assert_eq!(Some(Scan::NULL), arr.next());
    assert_eq!(Some(Scan::ACK), arr.next());
    assert_eq!(Some(Scan::FIN), arr.next());
    assert_eq!(Some(Scan::XMAS), arr.next());
    assert_eq!(Some(Scan::UDP), arr.next());
    assert_eq!(None, arr.next());
    assert_eq!(Some(Scan::SYN), arr.next());
}

#[test]
fn scan_iterator_empty() {
    let mut arr = LoopIterator::<Scan>::new();
    assert_eq!(None, arr.next());
    assert_eq!(None, arr.next());
}

#[test]
fn mod_port_iterator_basic() {
    let mut arr = arg::ArgIterator::<port::Range>::new();
    arr.inner_as_mut().push(port::Range::new(1, 3));
    arr.inner_as_mut().push(port::Range::new(7, 9));

    assert_eq!(Some(1), arr.next());
    assert_eq!(Some(2), arr.next());
    assert_eq!(Some(3), arr.next());
    assert_eq!(Some(7), arr.next());
    assert_eq!(Some(8), arr.next());
    assert_eq!(Some(9), arr.next());
    assert_eq!(None, arr.next());
    assert_eq!(Some(1), arr.next());
}

#[test]
fn mod_port_iterator_one_elem() {
    const VALUE: u16 = 65535;
    let mut range = port::Range::new(VALUE, VALUE);

    assert_eq!(Some(VALUE), range.next());
    assert_eq!(None, range.next());
    assert_eq!(Some(VALUE), range.next());
}

#[test]
fn mod_port_iterator_empty() {
    let mut arr = arg::ArgIterator::<scan::Scan>::new();
    assert_eq!(None, arr.next());
    assert_eq!(None, arr.next());
}

#[test]
fn mod_scan_iterator_basic() {
    let mut arr = arg::ArgIterator::<scan::Scan>::default();

    assert_eq!(Some(scan::Scan::SYN), arr.next());
    assert_eq!(Some(scan::Scan::NULL), arr.next());
    assert_eq!(Some(scan::Scan::ACK), arr.next());
    assert_eq!(Some(scan::Scan::FIN), arr.next());
    assert_eq!(Some(scan::Scan::XMAS), arr.next());
    assert_eq!(Some(scan::Scan::UDP), arr.next());
    assert_eq!(None, arr.next());
    assert_eq!(Some(scan::Scan::SYN), arr.next());
}

#[test]
fn mod_scan_iterator_empty() {
    let mut arr = arg::ArgIterator::<scan::Scan>::new();
    assert_eq!(None, arr.next());
    assert_eq!(None, arr.next());
}

#[test]
fn iter_port_iterator_basic() {
    let mut arr = args::ArgIterator::<port::Range>::new();
    arr.inner_as_mut().push(port::Range::new(65533, 65535));
    arr.inner_as_mut().push(port::Range::new(4000, 4000));
    arr.inner_as_mut().push(port::Range::new(25, 27));
    arr.inner_as_mut().push(port::Range::new(1, 5));

    let expected: Vec<u16> = vec![1, 2, 3, 4, 5, 25, 26, 27, 4000, 65533, 65534, 65535];

    assert_eq!(expected, arr.collect());
}

#[test]
fn iter_port_iterator_one_elem() {
    const VALUE: u16 = 65535;
    let mut range = port::Range::new(VALUE, VALUE);

    assert_eq!(VALUE, range.next().unwrap());
    assert_eq!(None, range.next());
}

#[test]
fn iter_port_iterator_empty() {
    let mut arr = args::ArgIterator::<scan::Scan>::new();
    assert_eq!(None, arr.next());
}

#[test]
fn iter_scan_iterator_basic() {
    let arr = args::ArgIterator::<scan::Scan>::default();

    let expected: Vec<scan::Scan> = vec![
        scan::Scan::UDP,
        scan::Scan::XMAS,
        scan::Scan::FIN,
        scan::Scan::ACK,
        scan::Scan::NULL,
        scan::Scan::SYN,
    ];

    assert_eq!(expected, arr.collect());
}

#[test]
fn iter_scan_iterator_empty() {
    let mut arr = args::ArgIterator::<scan::Scan>::new();
    assert_eq!(None, arr.next());
}
