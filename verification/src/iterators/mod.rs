//! Looping cursors over the scan parameters.

use vstd::prelude::*;
use vstd::std_specs::cmp::{PartialEqSpec, PartialEqSpecImpl};

pub mod ports;
pub mod scans;

pub use ports::Range as PortRange;
pub use scans::Scan as ScanType;

verus! {

/// The ports that the ranges from index `from` on still hold, in order.
pub open spec fn ports_from(ranges: Seq<PortRange>, from: int) -> Seq<u16>
    decreases ranges.len() - from,
{
    if 0 <= from < ranges.len() {
        ranges[from].remaining() + ports_from(ranges, from + 1)
    } else {
        Seq::empty()
    }
}

/// Why an argument was rejected.
#[derive(Clone, Copy, Debug, PartialEq, Eq, Structural)]
pub enum ParseError {
    /// The item at this index, counted from zero over the items between the
    /// commas, is not valid.
    InvalidValue(usize),
    /// The ranges hold more than 1024 ports.
    RangeTooBig,
}

/// A list with a cursor. Past the last item the cursor reports the end once
/// and goes back to the beginning.
#[derive(Debug)]
pub struct LoopIterator<T> {
    inner: Vec<T>,
    next: usize,
}

impl<T> LoopIterator<T> {
    #[verifier::type_invariant]
    spec fn in_bounds(self) -> bool {
        self.next <= self.inner@.len()
    }

    /// The items of the list.
    pub closed spec fn items(&self) -> Seq<T> {
        self.inner@
    }

    /// The index of the item that the cursor stands at.
    pub closed spec fn position(&self) -> int {
        self.next as int
    }

    /// A cursor over an empty list.
    pub fn new() -> (cursor: Self)
        ensures
            cursor.items() == Seq::<T>::empty(),
            cursor.position() == 0,
    {
        Self { inner: Vec::new(), next: 0 }
    }

    /// The items of the list.
    pub fn as_vec(&self) -> (items: &Vec<T>)
        ensures
            items@ == self.items(),
    {
        &self.inner
    }

    /// The number of items of the list. The cursor never stands beyond it.
    pub fn len(&self) -> (n: usize)
        ensures
            n == self.items().len(),
            0 <= self.position() <= n,
    {
        proof {
            use_type_invariant(self);
        }
        self.inner.len()
    }
}

impl<T: Clone> Clone for LoopIterator<T> {
    /// A cursor over a copy of the list, at the same index.
    fn clone(&self) -> (copy: Self)
        ensures
            copy.items().len() == self.items().len(),
            forall|i: int|
                0 <= i < self.items().len() ==> cloned::<T>(
                    #[trigger] self.items()[i],
                    copy.items()[i],
                ),
            copy.position() == self.position(),
    {
        proof {
            use_type_invariant(self);
        }
        Self { inner: self.inner.clone(), next: self.next }
    }
}

impl<T: PartialEq> PartialEq<Vec<T>> for LoopIterator<T> {
    /// Whether the items of the list are those of `other`.
    fn eq(&self, other: &Vec<T>) -> (same: bool) {
        self.inner == *other
    }
}

impl<T: PartialEq> PartialEqSpecImpl<Vec<T>> for LoopIterator<T> {
    open spec fn obeys_eq_spec() -> bool {
        T::obeys_eq_spec()
    }

    closed spec fn eq_spec(&self, other: &Vec<T>) -> bool {
        PartialEqSpec::eq_spec(&self.inner, other)
    }
}

impl<T> vstd::std_specs::convert::FromSpecImpl<Vec<T>> for LoopIterator<T> {
    open spec fn obeys_from_spec() -> bool {
        true
    }

    closed spec fn from_spec(value: Vec<T>) -> Self {
        LoopIterator { inner: value, next: 0 }
    }
}

impl<T> From<Vec<T>> for LoopIterator<T> {
    /// A cursor at the beginning of `value`.
    fn from(value: Vec<T>) -> (cursor: Self)
        ensures
            cursor.items() == value@,
            cursor.position() == 0,
    {
        Self { inner: value, next: 0 }
    }
}

impl<T: Copy> LoopIterator<T> {
    /// What `next` hands out: the item under the cursor, or `None` past the
    /// last one.
    pub open spec fn current(&self) -> Option<T> {
        if 0 <= self.position() < self.items().len() {
            Some(self.items()[self.position()])
        } else {
            None
        }
    }

    /// Where the cursor stands after `next`: one further, or back at the
    /// beginning past the last item.
    pub open spec fn following(&self) -> int {
        if 0 <= self.position() < self.items().len() {
            self.position() + 1
        } else {
            0
        }
    }

    fn cycle(&mut self) -> (item: Option<T>)
        ensures
            item == old(self).current(),
            final(self).items() == old(self).items(),
            final(self).position() == old(self).following(),
        no_unwind
    {
        if self.next < self.inner.len() {
            let value = self.inner[self.next];
            self.next += 1;
            Some(value)
        } else {
            self.next = 0;
            None
        }
    }
}

impl LoopIterator<ScanType> {
    /// Hands out the technique under the cursor and moves on. Past the last
    /// one it returns `None` once and starts again.
    pub fn next(&mut self) -> (item: Option<ScanType>)
        ensures
            item == old(self).current(),
            final(self).items() == old(self).items(),
            final(self).position() == old(self).following(),
        no_unwind
    {
        self.cycle()
    }
}

impl LoopIterator<u32> {
    /// Hands out the address under the cursor and moves on. Past the last one
    /// it returns `None` once and starts again.
    pub fn next(&mut self) -> (item: Option<u32>)
        ensures
            item == old(self).current(),
            final(self).items() == old(self).items(),
            final(self).position() == old(self).following(),
        no_unwind
    {
        self.cycle()
    }
}

impl LoopIterator<PortRange> {
    /// The ports that the cursor has still to hand out before it reports the
    /// end.
    pub open spec fn pending(&self) -> Seq<u16> {
        ports_from(self.items(), self.position())
    }

    /// Hands out the next port of the range under the cursor, moving on to the
    /// following range when one is used up. Past the last range it returns
    /// `None` and goes back to the first.
    pub fn next(&mut self) -> (port: Option<u16>)
        ensures
            final(self).items().len() == old(self).items().len(),
            old(self).pending().len() > 0 ==> port == Some(old(self).pending()[0])
                && final(self).pending() == old(self).pending().drop_first(),
            old(self).pending().len() == 0 ==> port is None && final(self).position() == 0
                && final(self).items() == old(self).items(),
        no_unwind
    {
        while self.next < self.inner.len()
            invariant
                self.inner@ == old(self).inner@,
                ports_from(self.inner@, self.next as int) == old(self).pending(),
            decreases self.inner.len() - self.next,
        {
            let mut range = self.inner[self.next];
            let ghost before = range;
            match range.next() {
                Some(port) => {
                    let ghost earlier = self.inner@;
                    self.inner[self.next] = range;
                    proof {
                        lemma_ports_from_update(earlier, self.next as int, range);
                        assert(ports_from(earlier, self.next as int) == before.remaining()
                            + ports_from(earlier, self.next as int + 1));
                        assert(ports_from(self.inner@, self.next as int) == range.remaining()
                            + ports_from(self.inner@, self.next as int + 1));
                        assert(ports_from(self.inner@, self.next as int) =~= ports_from(
                            earlier,
                            self.next as int,
                        ).drop_first());
                    }
                    return Some(port);
                },
                None => {
                    assert(ports_from(self.inner@, self.next as int) =~= ports_from(
                        self.inner@,
                        self.next as int + 1,
                    ));
                    self.next += 1;
                },
            }
        }
        self.next = 0;
        None
    }
}

/// The ports of a fresh range are those from its first to its last, in
/// order.
pub proof fn lemma_fresh_range(range: PortRange)
    requires
        range.fresh(),
    ensures
        range.remaining().len() == range.width(),
        forall|i: int| 0 <= i < range.width() ==> range.remaining()[i] == range.first() + i,
{
}

/// Fresh ranges hand out as many ports as their widths add up to, and
/// exactly the ports that lie in one of them.
pub proof fn lemma_pending_ports(ranges: Seq<PortRange>, from: int)
    requires
        ports::all_fresh(ranges),
        0 <= from <= ranges.len(),
    ensures
        ports_from(ranges, from).len() == ports::total_width(ranges) - ports::total_width(
            ranges.take(from),
        ),
        forall|p: u16|
            ports_from(ranges, from).contains(p) <==> ports::covered(ranges.skip(from), p as int),
    decreases ranges.len() - from,
{
    if from == ranges.len() {
        assert(ranges.take(from) =~= ranges);
        assert forall|p: u16| !ports::covered(ranges.skip(from), p as int) by {}
    } else {
        let range = ranges[from];
        let rest = ports_from(ranges, from + 1);
        lemma_pending_ports(ranges, from + 1);
        lemma_fresh_range(range);
        assert(ranges.take(from + 1).drop_last() =~= ranges.take(from));
        assert forall|p: u16|
            ports_from(ranges, from).contains(p) <==> ports::covered(
                ranges.skip(from),
                p as int,
            ) by {
            let tail = ranges.skip(from);
            let later = ranges.skip(from + 1);
            if range.remaining().contains(p) {
                let i = choose|i: int|
                    0 <= i < range.remaining().len() && range.remaining()[i] == p;
                assert(tail[0].covers(p as int));
            }
            if rest.contains(p) {
                let j = choose|j: int| 0 <= j < later.len() && (#[trigger] later[j]).covers(
                    p as int,
                );
                assert(tail[j + 1].covers(p as int));
            }
            if ports::covered(tail, p as int) {
                let j = choose|j: int| 0 <= j < tail.len() && (#[trigger] tail[j]).covers(p as int);
                if j == 0 {
                    let i = p - range.first();
                    assert(range.remaining()[i] == p);
                    assert((range.remaining() + rest)[i] == p);
                } else {
                    assert(later[j - 1].covers(p as int));
                    let i = choose|i: int| 0 <= i < rest.len() && rest[i] == p;
                    assert((range.remaining() + rest)[range.remaining().len() + i] == p);
                }
            }
            if ports_from(ranges, from).contains(p) {
                let i = choose|i: int|
                    0 <= i < ports_from(ranges, from).len() && ports_from(ranges, from)[i] == p;
                if i < range.remaining().len() {
                    assert(range.remaining()[i] == p);
                } else {
                    assert(rest[i - range.remaining().len()] == p);
                }
            }
        }
    }
}

/// Replacing the range at `at` leaves the ports of the later ranges as they
/// were.
pub proof fn lemma_ports_from_update(ranges: Seq<PortRange>, at: int, range: PortRange)
    requires
        0 <= at < ranges.len(),
    ensures
        ports_from(ranges.update(at, range), at + 1) == ports_from(ranges, at + 1),
{
    lemma_ports_from_agree(ranges.update(at, range), ranges, at + 1);
}

/// Two lists of ranges that agree from `from` on hold the same ports there.
pub proof fn lemma_ports_from_agree(a: Seq<PortRange>, b: Seq<PortRange>, from: int)
    requires
        a.len() == b.len(),
        0 <= from,
        forall|i: int| from <= i < a.len() ==> a[i] == b[i],
    ensures
        ports_from(a, from) == ports_from(b, from),
    decreases a.len() - from,
{
    if from < a.len() {
        lemma_ports_from_agree(a, b, from + 1);
    }
}

} // verus!
