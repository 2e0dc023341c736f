//! Port ranges and the port-range expression.

use vstd::prelude::*;
use vstd::set_lib::*;

use crate::iterators::{LoopIterator, ParseError};
use crate::text::{
    chars_of, find, index_of, lemma_split_step, parse_u16, read_u16, split, trim, trimmed,
};

verus! {

/// The most ports that one run scans.
pub const MAX_PORTS: u32 = 1024;

/// The ports from `first` up to `last`, both included; the single port
/// `first` where `last` is not above it.
pub open spec fn span(first: u16, last: u16) -> Seq<u16> {
    if first < last {
        Seq::new((last - first + 1) as nat, |i: int| (first + i) as u16)
    } else {
        seq![first]
    }
}

/// An inclusive range of ports that is walked once, from its start to its end.
#[derive(Clone, Copy, Debug, PartialEq, Eq, PartialOrd, Ord, Hash, Structural)]
pub struct Range {
    current: Option<u16>,
    end: u16,
}

impl Range {
    /// The range from `start` to `end` before any port was taken from it.
    pub closed spec fn of(start: u16, end: u16) -> Range {
        Range { current: Some(start), end }
    }

    /// The port that comes next, if the range is not used up.
    pub closed spec fn head(self) -> Option<u16> {
        self.current
    }

    /// The last port of the range.
    pub closed spec fn last(self) -> u16 {
        self.end
    }

    /// The ports still to come, in the order in which `next` hands them out.
    pub open spec fn remaining(self) -> Seq<u16> {
        match self.head() {
            Some(port) => span(port, self.last()),
            None => Seq::empty(),
        }
    }

    /// The port that comes next once the next port is taken.
    pub open spec fn following(self) -> Option<u16> {
        match self.head() {
            Some(port) => if port < self.last() {
                Some((port + 1) as u16)
            } else {
                None
            },
            None => None,
        }
    }

    /// The range has not been walked yet and does not end before it starts.
    pub open spec fn fresh(self) -> bool {
        self.head() is Some && self.head()->0 <= self.last()
    }

    /// The first port of a range that has not been walked yet.
    pub open spec fn first(self) -> int {
        self.head()->0 as int
    }

    /// The number of ports of a range that has not been walked yet.
    pub open spec fn width(self) -> int {
        self.last() - self.first() + 1
    }

    /// The port `p` lies in the range.
    pub open spec fn covers(self, p: int) -> bool {
        self.head() is Some && self.first() <= p <= self.last()
    }

    /// The ports `p` and `p + 1` both lie in the range.
    pub open spec fn links(self, p: int) -> bool {
        self.head() is Some && self.first() <= p < self.last()
    }

    /// A fresh range starts at its first port.
    pub proof fn lemma_of(start: u16, end: u16)
        ensures
            Range::of(start, end).head() == Some(start),
            Range::of(start, end).last() == end,
    {
    }

    /// A range is known by its next port and its last port.
    pub proof fn lemma_extensional(a: Range, b: Range)
        requires
            a.head() == b.head(),
            a.last() == b.last(),
        ensures
            a == b,
    {
    }

    /// The range of the ports from `start` to `end`, both included.
    pub fn new(start: u16, end: u16) -> (range: Range)
        ensures
            range == Range::of(start, end),
            range.head() == Some(start),
            range.last() == end,
    {
        Range { current: Some(start), end }
    }

    /// The port that `next` would hand out, without taking it.
    pub fn peek(&self) -> (port: Option<u16>)
        ensures
            port == self.head(),
    {
        self.current
    }

    /// The last port of the range.
    pub fn end(&self) -> (port: u16)
        ensures
            port == self.last(),
    {
        self.end
    }

    /// Whether the range has a next port that is not above `port`.
    pub fn starts_by(&self, port: u16) -> (by: bool)
        ensures
            by == (self.head() is Some && self.first() <= port),
    {
        match self.current {
            Some(first) => first <= port,
            None => false,
        }
    }

    /// Takes the next port from the range. A used-up range stays used up.
    pub fn next(&mut self) -> (port: Option<u16>)
        ensures
            port == old(self).head(),
            final(self).head() == old(self).following(),
            final(self).last() == old(self).last(),
            old(self).remaining().len() > 0 ==> port == Some(old(self).remaining()[0])
                && final(self).remaining() =~= old(self).remaining().drop_first(),
            old(self).remaining().len() == 0 ==> port is None,
        no_unwind
    {
        match self.current {
            Some(port) => {
                if port < self.end {
                    self.current = Some(port + 1);
                } else {
                    self.current = None;
                }
                Some(port)
            },
            None => None,
        }
    }
}

/// Every range of the list is fresh.
pub open spec fn all_fresh(ranges: Seq<Range>) -> bool {
    forall|i: int| 0 <= i < ranges.len() ==> (#[trigger] ranges[i]).fresh()
}

/// No range of the list holds the port 0.
pub open spec fn positive(ranges: Seq<Range>) -> bool {
    forall|i: int| 0 <= i < ranges.len() ==> (#[trigger] ranges[i]).first() >= 1
}

/// The port `p` lies in one of the ranges.
pub open spec fn covered(ranges: Seq<Range>, p: int) -> bool {
    exists|i: int| 0 <= i < ranges.len() && (#[trigger] ranges[i]).covers(p)
}

/// The ports `p` and `p + 1` both lie in one and the same of the ranges.
pub open spec fn linked(ranges: Seq<Range>, p: int) -> bool {
    exists|i: int| 0 <= i < ranges.len() && (#[trigger] ranges[i]).links(p)
}

/// The ranges are sorted and no two of them share a port.
pub open spec fn separated(ranges: Seq<Range>) -> bool {
    forall|i: int, j: int|
        0 <= i < j < ranges.len() ==> (#[trigger] ranges[i]).last() < (#[trigger] ranges[j]).first()
}

/// `normal` is the normalized form of `ranges`: sorted ranges that share no
/// port, made by merging the ranges that overlap or touch. It holds the same
/// ports, and two neighbouring ports lie in one range of it exactly where
/// they lie in one range of `ranges`.
pub open spec fn normal_form(ranges: Seq<Range>, normal: Seq<Range>) -> bool {
    &&& all_fresh(normal)
    &&& separated(normal)
    &&& forall|p: int|
        #![trigger covered(normal, p)]
        #![trigger covered(ranges, p)]
        covered(normal, p) <==> covered(ranges, p)
    &&& forall|p: int|
        #![trigger linked(normal, p)]
        #![trigger linked(ranges, p)]
        linked(normal, p) <==> linked(ranges, p)
}

/// The sum of the widths of the ranges.
pub open spec fn total_width(ranges: Seq<Range>) -> int
    decreases ranges.len(),
{
    if ranges.len() == 0 {
        0
    } else {
        total_width(ranges.drop_last()) + ranges.last().width()
    }
}

/// The ports that lie in one of the ranges.
pub open spec fn port_set(ranges: Seq<Range>) -> Set<int> {
    Set::new(|p: int| covered(ranges, p))
}

/// The number of distinct ports that lie in the ranges.
pub open spec fn port_count(ranges: Seq<Range>) -> nat {
    port_set(ranges).len()
}

/// The port number in one bound of an item: a number from 1 to 65535, with
/// white space around it.
pub open spec fn bound(piece: Seq<char>) -> Option<u16> {
    match parse_u16(trimmed(piece)) {
        Some(value) => if value != 0 {
            Some(value)
        } else {
            None
        },
        None => None,
    }
}

/// The range that one item denotes: a single port, or two bounds around the
/// first `-`, in either order.
pub open spec fn item_range(item: Seq<char>) -> Option<Range> {
    let dash = index_of(item, '-');
    if 0 <= dash < item.len() {
        match (bound(item.take(dash)), bound(item.skip(dash + 1))) {
            (Some(a), Some(b)) => Some(
                if a < b {
                    Range::of(a, b)
                } else {
                    Range::of(b, a)
                },
            ),
            _ => None,
        }
    } else {
        match bound(item) {
            Some(port) => Some(Range::of(port, port)),
            None => None,
        }
    }
}

/// The ranges that the items of a port expression denote, in the order of the
/// items. An empty item is passed over; the first item that denotes no range
/// is the error.
pub open spec fn listed(items: Seq<Seq<char>>) -> Result<Seq<Range>, int>
    decreases items.len(),
{
    if items.len() == 0 {
        Ok(Seq::empty())
    } else {
        match listed(items.drop_last()) {
            Err(bad) => Err(bad),
            Ok(ranges) => if items.last().len() == 0 {
                Ok(ranges)
            } else {
                match item_range(items.last()) {
                    Some(range) => Ok(ranges.push(range)),
                    None => Err(items.len() - 1),
                }
            },
        }
    }
}

/// An error among the first items of a list is the error of the whole list.
pub proof fn lemma_listed_error(items: Seq<Seq<char>>, n: int)
    requires
        0 <= n <= items.len(),
        listed(items.take(n)) is Err,
    ensures
        listed(items) == listed(items.take(n)),
    decreases items.len() - n,
{
    if n < items.len() {
        assert(items.take(n + 1).drop_last() =~= items.take(n));
        lemma_listed_error(items, n + 1);
    } else {
        assert(items.take(n) =~= items);
    }
}

/// A port lies in a list with one more range if it lies in the list or in the
/// range.
pub proof fn lemma_covered_push(ranges: Seq<Range>, range: Range, p: int)
    ensures
        covered(ranges.push(range), p) <==> covered(ranges, p) || range.covers(p),
        linked(ranges.push(range), p) <==> linked(ranges, p) || range.links(p),
{
    let longer = ranges.push(range);
    if covered(ranges, p) {
        let i = choose|i: int| 0 <= i < ranges.len() && (#[trigger] ranges[i]).covers(p);
        assert(longer[i].covers(p));
    }
    if range.covers(p) {
        assert(longer[ranges.len() as int].covers(p));
    }
    if covered(longer, p) {
        let i = choose|i: int| 0 <= i < longer.len() && (#[trigger] longer[i]).covers(p);
        if i < ranges.len() {
            assert(ranges[i].covers(p));
        }
    }
    if linked(ranges, p) {
        let i = choose|i: int| 0 <= i < ranges.len() && (#[trigger] ranges[i]).links(p);
        assert(longer[i].links(p));
    }
    if range.links(p) {
        assert(longer[ranges.len() as int].links(p));
    }
    if linked(longer, p) {
        let i = choose|i: int| 0 <= i < longer.len() && (#[trigger] longer[i]).links(p);
        if i < ranges.len() {
            assert(ranges[i].links(p));
        }
    }
}

/// A port lies in two lists put together if it lies in one of them.
pub proof fn lemma_covered_concat(a: Seq<Range>, b: Seq<Range>, p: int)
    ensures
        covered(a + b, p) <==> covered(a, p) || covered(b, p),
        linked(a + b, p) <==> linked(a, p) || linked(b, p),
    decreases b.len(),
{
    if b.len() == 0 {
        assert(a + b =~= a);
    } else {
        lemma_covered_concat(a, b.drop_last(), p);
        assert(a + b =~= (a + b.drop_last()).push(b.last()));
        assert(b =~= b.drop_last().push(b.last()));
        lemma_covered_push(a + b.drop_last(), b.last(), p);
        lemma_covered_push(b.drop_last(), b.last(), p);
    }
}

/// A normalized list holds the port 0 only if the list it was made from
/// does.
pub proof fn lemma_normal_form_positive(ranges: Seq<Range>, normal: Seq<Range>)
    requires
        all_fresh(ranges),
        positive(ranges),
        normal_form(ranges, normal),
    ensures
        positive(normal),
{
    assert forall|i: int| 0 <= i < normal.len() implies (#[trigger] normal[i]).first() >= 1 by {
        let p = normal[i].first();
        assert(normal[i].covers(p));
        assert(covered(normal, p));
        assert(covered(ranges, p));
        let j = choose|j: int| 0 <= j < ranges.len() && (#[trigger] ranges[j]).covers(p);
        assert(ranges[j].first() >= 1);
    }
}

/// Sorted ranges that share no port hold as many ports as their widths add up
/// to.
pub proof fn lemma_port_count(ranges: Seq<Range>)
    requires
        all_fresh(ranges),
        separated(ranges),
    ensures
        port_set(ranges).finite(),
        port_count(ranges) == total_width(ranges),
    decreases ranges.len(),
{
    if ranges.len() == 0 {
        assert(port_set(ranges) =~= Set::<int>::empty());
    } else {
        let front = ranges.drop_last();
        let back = ranges.last();
        lemma_port_count(front);
        let interval = set_int_range(back.first(), back.last() + 1);
        lemma_int_range(back.first(), back.last() + 1);
        assert(ranges =~= front.push(back));
        assert forall|p: int| port_set(ranges).contains(p) <==> port_set(front).union(
            interval,
        ).contains(p) by {
            lemma_covered_push(front, back, p);
        }
        assert(port_set(ranges) =~= port_set(front).union(interval));
        assert(port_set(front).disjoint(interval)) by {
            assert forall|p: int| !(port_set(front).contains(p) && interval.contains(p)) by {
                if covered(front, p) {
                    let i = choose|i: int| 0 <= i < front.len() && (#[trigger] front[i]).covers(p);
                    assert(ranges[i].last() < ranges[ranges.len() - 1].first());
                }
            }
        }
        lemma_set_disjoint_lens(port_set(front), interval);
    }
}

/// Merges one range into sorted ranges that share no port.
fn merge_in(sorted: &Vec<Range>, range: Range) -> (merged: Vec<Range>)
    requires
        all_fresh(sorted@),
        separated(sorted@),
        range.fresh(),
    ensures
        all_fresh(merged@),
        separated(merged@),
        merged@.len() <= sorted@.len() + 1,
        forall|p: int| #[trigger] covered(merged@, p) <==> covered(sorted@, p) || range.covers(p),
        forall|p: int| #[trigger] linked(merged@, p) <==> linked(sorted@, p) || range.links(p),
{
    let a: u16 = match range.peek() {
        Some(a) => a,
        None => 0,
    };
    let b: u16 = range.end();
    let n = sorted.len();
    let mut merged: Vec<Range> = Vec::new();
    let mut i: usize = 0;
    while i < n && sorted[i].end() < a
        invariant
            i <= n,
            n == sorted@.len(),
            merged@ == sorted@.take(i as int),
            forall|j: int| 0 <= j < i ==> (#[trigger] sorted@[j]).last() < a,
        decreases n - i,
    {
        merged.push(sorted[i]);
        assert(sorted@.take(i + 1) =~= sorted@.take(i as int).push(sorted@[i as int]));
        i += 1;
    }
    let low = i;
    let mut lo: u16 = a;
    let mut hi: u16 = b;
    let ghost front = sorted@.take(low as int);
    while i < n && sorted[i].starts_by(hi)
        invariant
            low <= i <= n,
            n == sorted@.len(),
            all_fresh(sorted@),
            separated(sorted@),
            a == range.first(),
            b == range.last(),
            a <= b,
            lo <= a,
            b <= hi,
            low < n ==> sorted@[low as int].last() >= a,
            forall|j: int| 0 <= j < low ==> (#[trigger] sorted@[j]).last() < lo,
            forall|j: int|
                low <= j < i ==> lo <= (#[trigger] sorted@[j]).first() && sorted@[j].last() <= hi,
            forall|p: int|
                lo <= p <= hi ==> range.covers(p) || covered(
                    sorted@.subrange(low as int, i as int),
                    p,
                ),
            forall|p: int|
                lo <= p < hi ==> range.links(p) || linked(sorted@.subrange(low as int, i as int), p),
        decreases n - i,
    {
        let current = sorted[i];
        let first: u16 = match current.peek() {
            Some(first) => first,
            None => 0,
        };
        let ghost middle = sorted@.subrange(low as int, i as int);
        let ghost wider = sorted@.subrange(low as int, i + 1);
        let ghost old_lo = lo;
        let ghost old_hi = hi;
        assert(current.fresh());
        assert(current.last() >= a) by {
            if i > low {
                assert(sorted@[low as int].last() < sorted@[i as int].first());
            }
        }
        if first < lo {
            lo = first;
        }
        if current.end() > hi {
            hi = current.end();
        }
        proof {
            assert(wider =~= middle.push(current));
            assert forall|p: int| lo <= p <= hi implies range.covers(p) || covered(wider, p) by {
                lemma_covered_push(middle, current, p);
                if !(old_lo <= p <= old_hi) {
                    assert(current.covers(p));
                }
            }
            assert forall|p: int| lo <= p < hi implies range.links(p) || linked(wider, p) by {
                lemma_covered_push(middle, current, p);
                if !(old_lo <= p < old_hi) {
                    assert(current.links(p));
                }
            }
            assert forall|j: int| 0 <= j < low implies (#[trigger] sorted@[j]).last() < lo by {
                assert(sorted@[j].last() < sorted@[i as int].first());
            }
        }
        i += 1;
    }
    let high = i;
    let joined = Range::new(lo, hi);
    merged.push(joined);
    let ghost middle = sorted@.subrange(low as int, high as int);
    while i < n
        invariant
            high <= i <= n,
            n == sorted@.len(),
            merged@ == front.push(joined) + sorted@.subrange(high as int, i as int),
        decreases n - i,
    {
        merged.push(sorted[i]);
        assert(sorted@.subrange(high as int, i + 1) =~= sorted@.subrange(
            high as int,
            i as int,
        ).push(sorted@[i as int]));
        assert(front.push(joined) + sorted@.subrange(high as int, i + 1) =~= (front.push(joined)
            + sorted@.subrange(high as int, i as int)).push(sorted@[i as int]));
        i += 1;
    }
    proof {
        let back = sorted@.subrange(high as int, n as int);
        assert(sorted@ =~= front + middle + back);
        assert(merged@ =~= front.push(joined) + back);
        assert(high < n ==> sorted@[high as int].first() > hi);
        assert forall|k: int| 0 <= k < merged@.len() implies (#[trigger] merged@[k]).fresh() by {
            if k < low {
                assert(merged@[k] == sorted@[k]);
            } else if k > low {
                assert(merged@[k] == sorted@[high + k - low - 1]);
            }
        }
        assert forall|j: int, k: int| 0 <= j < k < merged@.len() implies (#[trigger] merged@[j]).last()
            < (#[trigger] merged@[k]).first() by {
            if k < low {
                assert(merged@[j] == sorted@[j] && merged@[k] == sorted@[k]);
            } else if k == low {
                assert(merged@[j] == sorted@[j]);
            } else if j == low {
                assert(merged@[k] == sorted@[high + k - low - 1]);
                if high + k - low - 1 > high {
                    assert(sorted@[high as int].last() < sorted@[high + k - low - 1].first());
                }
            } else if j < low {
                assert(merged@[j] == sorted@[j] && merged@[k] == sorted@[high + k - low - 1]);
            } else {
                assert(merged@[j] == sorted@[high + j - low - 1] && merged@[k] == sorted@[high + k
                    - low - 1]);
            }
        }
        assert forall|p: int| #[trigger]
            covered(merged@, p) <==> covered(sorted@, p) || range.covers(p) by {
            lemma_covered_concat(front + middle, back, p);
            lemma_covered_concat(front, middle, p);
            lemma_covered_concat(front.push(joined), back, p);
            lemma_covered_push(front, joined, p);
            if covered(middle, p) {
                let j = choose|j: int| 0 <= j < middle.len() && (#[trigger] middle[j]).covers(p);
                assert(middle[j] == sorted@[low + j]);
            }
        }
        assert forall|p: int| #[trigger]
            linked(merged@, p) <==> linked(sorted@, p) || range.links(p) by {
            lemma_covered_concat(front + middle, back, p);
            lemma_covered_concat(front, middle, p);
            lemma_covered_concat(front.push(joined), back, p);
            lemma_covered_push(front, joined, p);
            if linked(middle, p) {
                let j = choose|j: int| 0 <= j < middle.len() && (#[trigger] middle[j]).links(p);
                assert(middle[j] == sorted@[low + j]);
            }
        }
    }
    merged
}

fn width_of(ranges: &Vec<Range>) -> (width: u32)
    requires
        all_fresh(ranges@),
        separated(ranges@),
    ensures
        width == if total_width(ranges@) > MAX_PORTS {
            MAX_PORTS + 1
        } else {
            total_width(ranges@)
        },
{
    let mut width: u32 = 0;
    let mut i: usize = 0;
    while i < ranges.len()
        invariant
            i <= ranges@.len(),
            all_fresh(ranges@),
            width == total_width(ranges@.take(i as int)),
            width <= MAX_PORTS,
        decreases ranges@.len() - i,
    {
        let first: u16 = match ranges[i].peek() {
            Some(first) => first,
            None => 0,
        };
        assert(ranges@[i as int].fresh());
        assert(ranges@.take(i + 1).drop_last() =~= ranges@.take(i as int));
        let wide: u32 = (ranges[i].end() - first) as u32 + 1;
        if width + wide > MAX_PORTS {
            proof {
                lemma_total_width_grows(ranges@, i + 1);
            }
            return MAX_PORTS + 1;
        }
        width = width + wide;
        i += 1;
    }
    assert(ranges@.take(i as int) =~= ranges@);
    width
}

/// The first ranges of a list are no wider than the whole list.
pub proof fn lemma_total_width_grows(ranges: Seq<Range>, n: int)
    requires
        all_fresh(ranges),
        0 <= n <= ranges.len(),
    ensures
        total_width(ranges.take(n)) <= total_width(ranges),
    decreases ranges.len() - n,
{
    if n < ranges.len() {
        lemma_total_width_grows(ranges, n + 1);
        assert(ranges.take(n + 1).drop_last() =~= ranges.take(n));
        assert(ranges[n].fresh());
    } else {
        assert(ranges.take(n) =~= ranges);
    }
}

impl Default for LoopIterator<Range> {
    /// The cursor over the ports 1 to 1024.
    fn default() -> (cursor: Self)
        ensures
            cursor.items() == seq![Range::of(1, 1024)],
            cursor.position() == 0,
    {
        LoopIterator::from(vec![Range::new(1, 1024)])
    }
}

/// Parses a port expression.
#[derive(Clone, Copy, Debug)]
pub struct Parser;

impl Parser {
    /// The error for the item at `index`, which denotes no port or range.
    #[allow(non_snake_case)]
    pub fn InvalidValue(index: usize) -> (error: ParseError)
        ensures
            error == ParseError::InvalidValue(index),
    {
        ParseError::InvalidValue(index)
    }

    /// The error for ranges that hold more than 1024 ports.
    #[allow(non_snake_case)]
    pub fn RangeTooBig() -> (error: ParseError)
        ensures
            error == ParseError::RangeTooBig,
    {
        ParseError::RangeTooBig
    }

    /// Normalizes a list of ranges: sorts them and merges those that overlap
    /// or touch. A list that holds more than 1024 distinct ports is
    /// rejected.
    pub fn validate(array: Vec<Range>) -> (validated: Result<Vec<Range>, ParseError>)
        requires
            all_fresh(array@),
        ensures
            match validated {
                Ok(normal) => normal_form(array@, normal@) && total_width(normal@) <= MAX_PORTS
                    && port_count(array@) == total_width(normal@),
                Err(e) => e == ParseError::RangeTooBig && port_count(array@) > MAX_PORTS,
            },
    {
        let mut normal: Vec<Range> = Vec::new();
        let mut k: usize = 0;
        assert(forall|p: int| !covered(array@.take(0), p));
        assert(forall|p: int| !linked(array@.take(0), p));
        while k < array.len()
            invariant
                k <= array@.len(),
                all_fresh(array@),
                normal_form(array@.take(k as int), normal@),
            decreases array@.len() - k,
        {
            assert(array@[k as int].fresh());
            normal = merge_in(&normal, array[k]);
            proof {
                assert(array@.take(k + 1) =~= array@.take(k as int).push(array@[k as int]));
                assert forall|p: int| covered(normal@, p) <==> covered(array@.take(k + 1), p) by {
                    lemma_covered_push(array@.take(k as int), array@[k as int], p);
                }
                assert forall|p: int| linked(normal@, p) <==> linked(array@.take(k + 1), p) by {
                    lemma_covered_push(array@.take(k as int), array@[k as int], p);
                }
            }
            k += 1;
        }
        proof {
            assert(array@.take(k as int) =~= array@);
            lemma_port_count(normal@);
            assert(port_set(normal@) =~= port_set(array@));
        }
        if width_of(&normal) > MAX_PORTS {
            return Err(Parser::RangeTooBig());
        }
        Ok(normal)
    }

    /// Parses a port expression: items separated by commas, each a port number
    /// or two port numbers around a `-`, in either order, with white space
    /// around the numbers. Empty items are passed over. The result is the
    /// normalized list of the ranges. The first item that denotes no port or
    /// range is an error, and so are an expression without an item and ranges
    /// that hold more than 1024 ports.
    pub fn parse_ref(&self, raw_value: &str) -> (parsed: Result<LoopIterator<Range>, ParseError>)
        ensures
            parsed matches Ok(cursor) ==> all_fresh(cursor.items()) && positive(cursor.items())
                && separated(cursor.items()) && total_width(cursor.items()) <= MAX_PORTS,
            match listed(split(raw_value@, ',')) {
                Err(bad) => parsed matches Err(e) && e == ParseError::InvalidValue(bad as usize),
                Ok(ranges) => if ranges.len() == 0 {
                    parsed matches Err(e) && e == ParseError::InvalidValue(0)
                } else if port_count(ranges) > MAX_PORTS {
                    parsed matches Err(e) && e == ParseError::RangeTooBig
                } else {
                    parsed matches Ok(cursor) && cursor.position() == 0 && normal_form(
                        ranges,
                        cursor.items(),
                    ) && total_width(cursor.items()) == port_count(ranges)
                },
            },
    {
        let chars = chars_of(raw_value);
        let n = chars.len();
        let ghost items = split(chars@, ',');
        let ghost mut done: Seq<Seq<char>> = Seq::empty();
        let mut ports: Vec<Range> = Vec::new();
        let mut index: usize = 0;
        let mut from: usize = 0;
        let mut more = true;
        assert(chars@.skip(0) =~= chars@);
        while more
            invariant
                n == chars@.len(),
                chars@ == raw_value@,
                items == split(chars@, ','),
                from <= n,
                more ==> index == done.len(),
                index <= from,
                more ==> items == done + split(chars@.skip(from as int), ','),
                !more ==> items == done,
                listed(done) == Ok::<Seq<Range>, int>(ports@),
                all_fresh(ports@),
                positive(ports@),
            decreases n - from + if more { 1int } else { 0int },
        {
            let at = find(&chars, from, n, ',');
            proof {
                assert(chars@.subrange(from as int, n as int) =~= chars@.skip(from as int));
                lemma_split_step(chars@, ',', from as int, at as int);
            }
            let ghost item = chars@.subrange(from as int, at as int);
            let ghost longer = done.push(item);
            assert(longer.drop_last() =~= done);
            if from < at {
                match read_item(&chars, from, at) {
                    Some(range) => {
                        ports.push(range);
                    },
                    None => {
                        proof {
                            assert(listed(longer) == Err::<Seq<Range>, int>(index as int));
                            if at < n {
                                assert(items =~= longer + split(chars@.skip(at + 1), ','));
                            } else {
                                assert(items =~= longer);
                            }
                            assert(items.take(longer.len() as int) =~= longer);
                            lemma_listed_error(items, longer.len() as int);
                        }
                        return Err(Parser::InvalidValue(index));
                    },
                }
            }
            proof {
                done = longer;
                if at < n {
                    assert(items =~= done + split(chars@.skip(at + 1), ','));
                } else {
                    assert(items =~= done);
                }
            }
            if at < n {
                from = at + 1;
                index += 1;
            } else {
                more = false;
            }
        }
        if ports.len() == 0 {
            return Err(Parser::InvalidValue(0));
        }
        let ghost ranges = ports@;
        match Parser::validate(ports) {
            Ok(normal) => {
                proof {
                    lemma_normal_form_positive(ranges, normal@);
                }
                Ok(LoopIterator::from(normal))
            },
            Err(e) => Err(e),
        }
    }
}

/// Reads one bound of an item.
fn read_bound(s: &Vec<char>, from: usize, to: usize) -> (port: Option<u16>)
    requires
        from <= to <= s@.len(),
    ensures
        port == bound(s@.subrange(from as int, to as int)),
{
    let (a, b) = trim(s, from, to);
    match read_u16(s, a, b) {
        Some(value) => if value != 0 {
            Some(value)
        } else {
            None
        },
        None => None,
    }
}

/// Reads one item of a port expression.
fn read_item(s: &Vec<char>, from: usize, to: usize) -> (range: Option<Range>)
    requires
        from <= to <= s@.len(),
    ensures
        range == item_range(s@.subrange(from as int, to as int)),
        range matches Some(r) ==> r.fresh() && r.first() >= 1,
{
    let ghost item = s@.subrange(from as int, to as int);
    let dash = find(s, from, to, '-');
    if dash < to {
        assert(item.take(dash - from) =~= s@.subrange(from as int, dash as int));
        assert(item.skip(dash - from + 1) =~= s@.subrange(dash + 1, to as int));
        match (read_bound(s, from, dash), read_bound(s, dash + 1, to)) {
            (Some(a), Some(b)) => {
                if a < b {
                    Some(Range::new(a, b))
                } else {
                    Some(Range::new(b, a))
                }
            },
            _ => None,
        }
    } else {
        match read_bound(s, from, to) {
            Some(port) => Some(Range::new(port, port)),
            None => None,
        }
    }
}

} // verus!
