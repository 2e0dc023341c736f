//! A stack of the values of an argument, handed out from the top.

use vstd::prelude::*;

use crate::cli::port::Range;
use crate::cli::scan::Scan;

verus! {

/// The ports that a stack of ranges holds, from its top range down.
pub open spec fn ports_down(ranges: Seq<Range>) -> Seq<u16>
    decreases ranges.len(),
{
    if ranges.len() == 0 {
        Seq::empty()
    } else {
        ranges.last().remaining() + ports_down(ranges.drop_last())
    }
}

/// The values of an argument as a stack: the last value is handed out first,
/// and what was handed out is gone.
#[derive(Debug)]
pub struct ArgIterator<T>(pub Vec<T>);

impl<T> ArgIterator<T> {
    /// The values that are left, the top last.
    pub open spec fn items(&self) -> Seq<T> {
        self.0@
    }

    /// An empty stack.
    pub fn new() -> (stack: Self)
        ensures
            stack.items() == Seq::<T>::empty(),
    {
        Self(Vec::new())
    }

    /// The values that are left.
    pub fn inner(&self) -> (values: &Vec<T>)
        ensures
            values@ == self.items(),
    {
        &self.0
    }

    /// The values that are left, to be changed in place.
    pub fn inner_as_mut(&mut self) -> (values: &mut Vec<T>)
        ensures
            values@ == old(self).items(),
            final(self).items() == final(values)@,
    {
        &mut self.0
    }
}

impl ArgIterator<Range> {
    /// The stack of the default ports, 1 to 1024.
    pub fn default() -> (stack: Self)
        ensures
            stack.items() == seq![Range::of(1, 1024)],
    {
        Self(vec![Range::new(1, 1024)])
    }

    /// The ports that the stack has still to hand out.
    pub open spec fn pending(&self) -> Seq<u16> {
        ports_down(self.items())
    }

    /// Hands out the next port of the top range, and drops the range when it
    /// is at its end.
    pub fn next(&mut self) -> (port: Option<u16>)
        ensures
            old(self).pending().len() > 0 ==> port == Some(old(self).pending()[0])
                && final(self).pending() == old(self).pending().drop_first(),
            old(self).pending().len() == 0 ==> port is None && final(self).items().len() == 0,
    {
        while self.0.len() > 0
            invariant
                ports_down(self.0@) == ports_down(old(self).0@),
            decreases self.0@.len(),
        {
            let top = self.0.len() - 1;
            let mut range = self.0[top];
            let ghost earlier = self.0@;
            match range.next() {
                Some(port) => {
                    self.0[top] = range;
                    proof {
                        assert(self.0@.drop_last() =~= earlier.drop_last());
                        assert(ports_down(self.0@) =~= ports_down(earlier).drop_first());
                    }
                    return Some(port);
                },
                None => {
                    self.0.pop();
                    assert(self.0@ =~= earlier.drop_last());
                    assert(ports_down(earlier) =~= ports_down(self.0@));
                },
            }
        }
        None
    }

    /// Hands out all ports that are left.
    pub fn collect(self) -> (ports: Vec<u16>)
        ensures
            ports@ == self.pending(),
    {
        let mut stack = self;
        let mut ports: Vec<u16> = Vec::new();
        loop
            invariant
                ports@ + stack.pending() == self.pending(),
            decreases stack.pending().len(),
        {
            match stack.next() {
                Some(port) => {
                    ports.push(port);
                    assert(ports@ + stack.pending() =~= self.pending());
                },
                None => {
                    assert(ports@ =~= self.pending());
                    return ports;
                },
            }
        }
    }
}

impl ArgIterator<Scan> {
    /// The stack of the default techniques: all six, `UDP` on top.
    pub fn default() -> (stack: Self)
        ensures
            stack.items() == seq![
                Scan::SYN,
                Scan::NULL,
                Scan::ACK,
                Scan::FIN,
                Scan::XMAS,
                Scan::UDP,
            ],
    {
        Self(vec![Scan::SYN, Scan::NULL, Scan::ACK, Scan::FIN, Scan::XMAS, Scan::UDP])
    }

    /// Hands out the top technique.
    pub fn next(&mut self) -> (item: Option<Scan>)
        ensures
            old(self).items().len() > 0 ==> item == Some(old(self).items().last())
                && final(self).items() == old(self).items().drop_last(),
            old(self).items().len() == 0 ==> item is None && final(self).items().len() == 0,
    {
        self.0.pop()
    }

    /// Hands out all techniques that are left, from the top down.
    pub fn collect(self) -> (scans: Vec<Scan>)
        ensures
            scans@ == self.items().reverse(),
    {
        let mut stack = self;
        let mut scans: Vec<Scan> = Vec::new();
        loop
            invariant
                scans@ + stack.items().reverse() == self.items().reverse(),
            decreases stack.items().len(),
        {
            let ghost earlier = stack.items();
            match stack.next() {
                Some(scan) => {
                    let ghost so_far = scans@;
                    scans.push(scan);
                    assert(earlier.reverse() =~= seq![scan] + stack.items().reverse());
                    assert(scans@ + stack.items().reverse() =~= so_far + earlier.reverse());
                },
                None => {
                    assert(stack.items().reverse() =~= Seq::<Scan>::empty());
                    assert(scans@ =~= self.items().reverse());
                    return scans;
                },
            }
        }
    }
}

} // verus!
