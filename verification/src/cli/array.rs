//! A plain list of the values of an argument.

use vstd::prelude::*;

use crate::cli::port::Range;
use crate::cli::scan::Scan;

verus! {

/// The values of an argument, in the order in which they were given.
#[derive(Debug)]
pub struct Array<T>(Vec<T>);

impl<T> Array<T> {
    /// The values of the list.
    pub closed spec fn items(&self) -> Seq<T> {
        self.0@
    }

    /// An empty list.
    pub fn new() -> (array: Self)
        ensures
            array.items() == Seq::<T>::empty(),
    {
        Self(Vec::new())
    }

    /// The values of the list.
    pub fn inner(&self) -> (values: &Vec<T>)
        ensures
            values@ == self.items(),
    {
        &self.0
    }

    /// The values of the list, to be changed in place.
    pub fn inner_as_mut(&mut self) -> (values: &mut Vec<T>)
        ensures
            values@ == old(self).items(),
            final(self).items() == final(values)@,
    {
        &mut self.0
    }
}

impl Array<Range> {
    /// The default ports, 1 to 1024.
    pub fn default() -> (array: Self)
        ensures
            array.items() == seq![Range::of(1, 1024)],
    {
        Self(vec![Range::new(1, 1024)])
    }
}

impl Array<Scan> {
    /// The default techniques: all six.
    pub fn default() -> (array: Self)
        ensures
            array.items() == seq![
                Scan::SYN,
                Scan::NULL,
                Scan::ACK,
                Scan::FIN,
                Scan::XMAS,
                Scan::UDP,
            ],
    {
        Self(vec![Scan::SYN, Scan::NULL, Scan::ACK, Scan::FIN, Scan::XMAS, Scan::UDP])
    }
}

} // verus!
