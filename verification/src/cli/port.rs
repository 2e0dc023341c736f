//! Restartable port ranges and the port expression of the command line.

use vstd::prelude::*;

use crate::cli::arg::ArgIterator;
use crate::iterators::ports::{
    all_fresh, listed, normal_form, port_count, span, total_width, Parser, Range as PortRange,
    MAX_PORTS,
};
use crate::iterators::ParseError;
use crate::text::split;

verus! {

/// An inclusive range of ports that can be walked again and again: after its
/// last port it reports the end once and starts over.
#[derive(Clone, Copy, Debug, PartialEq, Eq, PartialOrd, Ord, Hash, Structural)]
pub struct Range {
    start: u16,
    next: Option<u16>,
    end: u16,
}

impl Range {
    /// The range from `start` to `end` at its beginning.
    pub closed spec fn of(start: u16, end: u16) -> Range {
        Range { start, next: Some(start), end }
    }

    /// The first port of the range.
    pub closed spec fn first(self) -> u16 {
        self.start
    }

    /// The last port of the range.
    pub closed spec fn last(self) -> u16 {
        self.end
    }

    /// The port that comes next, if the range is not at its end.
    pub closed spec fn head(self) -> Option<u16> {
        self.next
    }


    /// The ports still to come before the range reports its end.
    pub open spec fn remaining(self) -> Seq<u16> {
        match self.head() {
            Some(port) => span(port, self.last()),
            None => Seq::empty(),
        }
    }

    /// The port that comes next once `next` was called: the following port,
    /// nothing behind the last port, and the first port again behind that.
    pub open spec fn following(self) -> Option<u16> {
        match self.head() {
            Some(port) => if port < self.last() {
                Some((port + 1) as u16)
            } else {
                None
            },
            None => Some(self.first()),
        }
    }

    /// The range of the ports from `start` to `end`, both included.
    pub fn new(start: u16, end: u16) -> (range: Range)
        ensures
            range == Range::of(start, end),
            range.first() == start,
            range.head() == Some(start),
            range.last() == end,
    {
        Range { start, next: Some(start), end }
    }

    /// The first port of the range.
    pub fn start(&self) -> (port: u16)
        ensures
            port == self.first(),
    {
        self.start
    }

    /// The last port of the range.
    pub fn end(&self) -> (port: u16)
        ensures
            port == self.last(),
    {
        self.end
    }

    /// Takes the next port from the range. At the end it returns `None` once
    /// and goes back to the first port.
    pub fn next(&mut self) -> (port: Option<u16>)
        ensures
            port == old(self).head(),
            final(self).head() == old(self).following(),
            final(self).first() == old(self).first(),
            final(self).last() == old(self).last(),
            old(self).remaining().len() > 0 ==> port == Some(old(self).remaining()[0])
                && final(self).remaining() =~= old(self).remaining().drop_first(),
            old(self).remaining().len() == 0 ==> port is None && final(self).head() == Some(
                old(self).first(),
            ),
    {
        match self.next {
            Some(port) => {
                if port < self.end {
                    self.next = Some(port + 1);
                } else {
                    self.next = None;
                }
                Some(port)
            },
            None => {
                self.next = Some(self.start);
                None
            },
        }
    }
}

/// The ranges of a list as ranges that are walked once.
pub open spec fn unwound(ranges: Seq<Range>) -> Seq<PortRange> {
    Seq::new(ranges.len(), |i: int| PortRange::of(ranges[i].first(), ranges[i].last()))
}

/// Every range of the list stands at its beginning.
pub open spec fn rewound(ranges: Seq<Range>) -> bool {
    forall|i: int| 0 <= i < ranges.len() ==> (#[trigger] ranges[i]).head() == Some(ranges[i].first())
}

/// Parses the port expression of the command line.
#[derive(Clone, Copy, Debug)]
pub struct RangeParser;

impl RangeParser {
    /// The error for the item at `index`, which denotes no port or range.
    #[allow(non_snake_case)]
    pub fn InvalidValue(index: usize) -> (error: ParseError)
        ensures
            error == ParseError::InvalidValue(index),
    {
        ParseError::InvalidValue(index)
    }

    /// The error for ranges that hold more than 1024 ports.
    #[allow(non_snake_case)]
    pub fn RangeTooBig() -> (error: ParseError)
        ensures
            error == ParseError::RangeTooBig,
    {
        ParseError::RangeTooBig
    }

    /// Normalizes the ranges of a cursor as `Parser::validate` does: sorts
    /// them, merges those that overlap or touch, and rewinds them. Ranges
    /// that hold more than 1024 distinct ports are rejected.
    pub fn validate(array: ArgIterator<Range>) -> (validated: Result<
        ArgIterator<Range>,
        ParseError,
    >)
        requires
            forall|i: int|
                0 <= i < array.items().len() ==> (#[trigger] array.items()[i]).first()
                    <= array.items()[i].last(),
        ensures
            match validated {
                Ok(cursor) => cursor.position() == 0 && rewound(cursor.items()) && normal_form(
                    unwound(array.items()),
                    unwound(cursor.items()),
                ) && total_width(unwound(cursor.items())) <= MAX_PORTS && port_count(
                    unwound(array.items()),
                ) == total_width(unwound(cursor.items())),
                Err(e) => e == ParseError::RangeTooBig && port_count(unwound(array.items()))
                    > MAX_PORTS,
            },
    {
        let given = array.inner();
        let mut ranges: Vec<PortRange> = Vec::new();
        let mut i: usize = 0;
        while i < given.len()
            invariant
                i <= given@.len(),
                ranges@ == unwound(given@.take(i as int)),
            decreases given@.len() - i,
        {
            ranges.push(PortRange::new(given[i].start(), given[i].end()));
            assert(unwound(given@.take(i + 1)) =~= unwound(given@.take(i as int)).push(
                PortRange::of(given@[i as int].first(), given@[i as int].last()),
            ));
            i += 1;
        }
        proof {
            assert(given@.take(i as int) =~= given@);
            assert forall|j: int| 0 <= j < ranges@.len() implies (#[trigger] ranges@[j]).fresh() by {
                PortRange::lemma_of(given@[j].first(), given@[j].last());
            }
        }
        match Parser::validate(ranges) {
            Ok(normal) => Ok(ArgIterator::from_vec(rewind(&normal))),
            Err(e) => Err(e),
        }
    }

    /// Parses a port expression as `Parser::parse_ref` does, into restartable
    /// ranges.
    pub fn parse_ref(&self, raw_value: &str) -> (parsed: Result<ArgIterator<Range>, ParseError>)
        ensures
            match listed(split(raw_value@, ',')) {
                Err(bad) => parsed matches Err(e) && e == ParseError::InvalidValue(bad as usize),
                Ok(ranges) => if ranges.len() == 0 {
                    parsed matches Err(e) && e == ParseError::InvalidValue(0)
                } else if port_count(ranges) > MAX_PORTS {
                    parsed matches Err(e) && e == ParseError::RangeTooBig
                } else {
                    parsed matches Ok(cursor) && cursor.position() == 0 && rewound(cursor.items())
                        && normal_form(ranges, unwound(cursor.items())) && total_width(
                        unwound(cursor.items()),
                    ) == port_count(ranges)
                },
            },
    {
        let parser = Parser;
        match parser.parse_ref(raw_value) {
            Ok(cursor) => Ok(ArgIterator::from_vec(rewind(cursor.as_vec()))),
            Err(e) => Err(e),
        }
    }
}

/// The ranges of a normalized list as restartable ranges.
fn rewind(normal: &Vec<PortRange>) -> (ranges: Vec<Range>)
    requires
        all_fresh(normal@),
    ensures
        rewound(ranges@),
        unwound(ranges@) == normal@,
{
    let mut ranges: Vec<Range> = Vec::new();
    let mut i: usize = 0;
    while i < normal.len()
        invariant
            i <= normal@.len(),
            ranges@.len() == i,
            all_fresh(normal@),
            rewound(ranges@),
            forall|j: int|
                0 <= j < i ==> (#[trigger] ranges@[j]).first() == normal@[j].first()
                    && ranges@[j].last() == normal@[j].last(),
        decreases normal@.len() - i,
    {
        assert(normal@[i as int].fresh());
        match normal[i].peek() {
            Some(first) => ranges.push(Range::new(first, normal[i].end())),
            None => {},
        }
        i += 1;
    }
    proof {
        assert forall|j: int| 0 <= j < normal@.len() implies unwound(ranges@)[j] == normal@[j] by {
            assert(normal@[j].fresh());
            PortRange::lemma_of(ranges@[j].first(), ranges@[j].last());
            PortRange::lemma_extensional(unwound(ranges@)[j], normal@[j]);
        }
        assert(unwound(ranges@) =~= normal@);
    }
    ranges
}

} // verus!
