//! The scan list of the command line.

use vstd::prelude::*;

use crate::cli::arg::ArgIterator;
use crate::iterators::scans::{listed, normalized, Parser};
use crate::iterators::ParseError;
use crate::text::split;

pub use crate::iterators::scans::Scan;

verus! {

/// The techniques of a scan, in the order in which they are to be used.
#[derive(Clone, Debug)]
pub struct ScanArray(pub Vec<Scan>);

impl ScanArray {
    /// The techniques of the list.
    pub open spec fn items(&self) -> Seq<Scan> {
        self.0@
    }

    /// The list of all six techniques.
    pub fn new() -> (array: Self)
        ensures
            array.items() == seq![
                Scan::SYN,
                Scan::NULL,
                Scan::ACK,
                Scan::FIN,
                Scan::XMAS,
                Scan::UDP,
            ],
    {
        ScanArray(vec![Scan::SYN, Scan::NULL, Scan::ACK, Scan::FIN, Scan::XMAS, Scan::UDP])
    }

    /// The techniques of the list.
    pub fn inner(&self) -> (scans: &Vec<Scan>)
        ensures
            scans@ == self.items(),
    {
        &self.0
    }

    /// The techniques of the list, to be changed in place.
    pub fn inner_as_mut(&mut self) -> (scans: &mut Vec<Scan>)
        ensures
            scans@ == old(self).items(),
            final(self).items() == final(scans)@,
    {
        &mut self.0
    }
}

/// Parses the scan list of the command line.
#[derive(Clone, Copy, Debug)]
pub struct ScanParser;

impl ScanParser {
    /// The error for the item at `index`, which names no technique.
    #[allow(non_snake_case)]
    pub fn InvalidValue(index: usize) -> (error: ParseError)
        ensures
            error == ParseError::InvalidValue(index),
    {
        ParseError::InvalidValue(index)
    }

    /// Parses a scan list as `Parser::parse_ref` does.
    pub fn parse_ref(&self, raw_value: &str) -> (parsed: Result<ArgIterator<Scan>, ParseError>)
        ensures
            match listed(split(raw_value@, ',')) {
                Ok(scans) => parsed matches Ok(cursor) && cursor.items() == normalized(scans)
                    && cursor.position() == 0,
                Err(bad) => parsed matches Err(e) && e == ParseError::InvalidValue(bad as usize),
            },
    {
        let parser = Parser;
        match parser.parse_ref(raw_value) {
            Ok(cursor) => {
                let scans = cursor.as_vec();
                let mut copy: Vec<Scan> = Vec::new();
                let mut i: usize = 0;
                while i < scans.len()
                    invariant
                        i <= scans@.len(),
                        copy@ == scans@.take(i as int),
                    decreases scans@.len() - i,
                {
                    copy.push(scans[i]);
                    assert(scans@.take(i + 1) =~= scans@.take(i as int).push(scans@[i as int]));
                    i += 1;
                }
                assert(scans@.take(i as int) =~= scans@);
                Ok(ArgIterator::from_vec(copy))
            },
            Err(e) => Err(e),
        }
    }
}

} // verus!
