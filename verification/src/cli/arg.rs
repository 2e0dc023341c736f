//! A rewinding cursor over the values of an argument.

use vstd::prelude::*;

use crate::cli::port::Range;
use crate::cli::scan::Scan;

verus! {

/// The ports that the ranges from index `from` on hold before each reports
/// its end, in order.
pub open spec fn ports_from(ranges: Seq<Range>, from: int) -> Seq<u16>
    decreases ranges.len() - from,
{
    if 0 <= from < ranges.len() {
        ranges[from].remaining() + ports_from(ranges, from + 1)
    } else {
        Seq::empty()
    }
}

/// The values of an argument with a cursor. Past the last value the cursor
/// reports the end once and goes back to the first.
#[derive(Debug)]
pub struct ArgIterator<T> {
    inner: Vec<T>,
    next: usize,
}

impl<T> ArgIterator<T> {
    /// The values of the argument.
    pub closed spec fn items(&self) -> Seq<T> {
        self.inner@
    }

    /// The index of the value that the cursor stands at.
    pub closed spec fn position(&self) -> int {
        self.next as int
    }

    /// A cursor over no value.
    pub fn new() -> (cursor: Self)
        ensures
            cursor.items() == Seq::<T>::empty(),
            cursor.position() == 0,
    {
        Self { inner: Vec::new(), next: 0 }
    }

    /// A cursor at the beginning of `values`.
    pub fn from_vec(values: Vec<T>) -> (cursor: Self)
        ensures
            cursor.items() == values@,
            cursor.position() == 0,
    {
        Self { inner: values, next: 0 }
    }

    /// The values of the argument.
    pub fn inner(&self) -> (values: &Vec<T>)
        ensures
            values@ == self.items(),
    {
        &self.inner
    }

    /// The values of the argument, to be changed in place. The cursor stays
    /// at its index.
    pub fn inner_as_mut(&mut self) -> (values: &mut Vec<T>)
        ensures
            values@ == old(self).items(),
            final(self).items() == final(values)@,
            final(self).position() == old(self).position(),
    {
        &mut self.inner
    }
}

impl ArgIterator<Range> {
    /// The cursor over the default ports, 1 to 1024.
    pub fn default() -> (cursor: Self)
        ensures
            cursor.items() == seq![Range::of(1, 1024)],
            cursor.position() == 0,
    {
        Self { inner: vec![Range::new(1, 1024)], next: 0 }
    }

    /// The ports that the cursor has still to hand out before it reports the
    /// end.
    pub open spec fn pending(&self) -> Seq<u16> {
        ports_from(self.items(), self.position())
    }

    /// Hands out the next port of the range under the cursor, moving on to the
    /// following range when one reports its end. Past the last range it
    /// returns `None` and goes back to the first.
    pub fn next(&mut self) -> (port: Option<u16>)
        ensures
            final(self).items().len() == old(self).items().len(),
            old(self).pending().len() > 0 ==> port == Some(old(self).pending()[0])
                && final(self).pending() == old(self).pending().drop_first(),
            old(self).pending().len() == 0 ==> port is None && final(self).position() == 0,
            forall|i: int|
                0 <= i < old(self).items().len() ==> (#[trigger] final(self).items()[i]).first()
                    == old(self).items()[i].first() && final(self).items()[i].last() == old(self).items()[i].last(),
            forall|i: int|
                0 <= i < old(self).position() && i < old(self).items().len() ==> final(self).items()[i] == old(self).items()[i],
            port is None ==> forall|i: int|
                old(self).position() <= i < old(self).items().len() ==> (#[trigger] final(self).items()[i]).head() == Some(old(self).items()[i].first()),
    {
        while self.next < self.inner.len()
            invariant
                self.inner@.len() == old(self).inner@.len(),
                old(self).next <= self.next,
                ports_from(self.inner@, self.next as int) == ports_from(
                    old(self).inner@,
                    old(self).next as int,
                ),
                forall|i: int|
                    0 <= i < self.inner@.len() ==> (#[trigger] self.inner@[i]).first() == old(self).inner@[i].first() && self.inner@[i].last() == old(self).inner@[i].last(),
                forall|i: int|
                    0 <= i < self.inner@.len() && (i < old(self).next || i >= self.next)
                        ==> self.inner@[i] == old(self).inner@[i],
                forall|i: int|
                    old(self).next <= i < self.next ==> (#[trigger] self.inner@[i]).head() == Some(
                        old(self).inner@[i].first(),
                    ),
            decreases self.inner.len() - self.next,
        {
            let mut range = self.inner[self.next];
            let ghost before = range;
            let ghost earlier = self.inner@;
            let taken = range.next();
            self.inner[self.next] = range;
            proof {
                lemma_ports_from_agree(self.inner@, earlier, self.next as int + 1);
                assert(ports_from(earlier, self.next as int) == before.remaining() + ports_from(
                    earlier,
                    self.next as int + 1,
                ));
                assert(ports_from(self.inner@, self.next as int) == range.remaining() + ports_from(
                    self.inner@,
                    self.next as int + 1,
                ));
            }
            match taken {
                Some(port) => {
                    assert(ports_from(self.inner@, self.next as int) =~= ports_from(
                        earlier,
                        self.next as int,
                    ).drop_first());
                    return Some(port);
                },
                None => {
                    assert(ports_from(earlier, self.next as int) =~= ports_from(
                        self.inner@,
                        self.next as int + 1,
                    ));
                    self.next += 1;
                },
            }
        }
        self.next = 0;
        None
    }
}

impl ArgIterator<Scan> {
    /// The cursor over the default techniques: all six.
    pub fn default() -> (cursor: Self)
        ensures
            cursor.items() == seq![
                Scan::SYN,
                Scan::NULL,
                Scan::ACK,
                Scan::FIN,
                Scan::XMAS,
                Scan::UDP,
            ],
            cursor.position() == 0,
    {
        Self {
            inner: vec![Scan::SYN, Scan::NULL, Scan::ACK, Scan::FIN, Scan::XMAS, Scan::UDP],
            next: 0,
        }
    }

    /// Hands out the technique under the cursor and moves on. Past the last
    /// one it returns `None` once and starts again.
    pub fn next(&mut self) -> (item: Option<Scan>)
        ensures
            final(self).items() == old(self).items(),
            0 <= old(self).position() < old(self).items().len() ==> item == Some(
                old(self).items()[old(self).position()],
            ) && final(self).position() == old(self).position() + 1,
            !(0 <= old(self).position() < old(self).items().len()) ==> item is None && final(self).position() == 0,
    {
        if self.next < self.inner.len() {
            let value = self.inner[self.next];
            self.next += 1;
            Some(value)
        } else {
            self.next = 0;
            None
        }
    }
}

/// Two lists of ranges that agree from `from` on hold the same ports there.
pub proof fn lemma_ports_from_agree(a: Seq<Range>, b: Seq<Range>, from: int)
    requires
        a.len() == b.len(),
        0 <= from,
        forall|i: int| from <= i < a.len() ==> a[i] == b[i],
    ensures
        ports_from(a, from) == ports_from(b, from),
    decreases a.len() - from,
{
    if from < a.len() {
        lemma_ports_from_agree(a, b, from + 1);
    }
}

} // verus!
