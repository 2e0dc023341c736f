//! The parsed arguments of a scan and the containers that hold them.

use vstd::prelude::*;

pub mod arg;
pub mod args;
pub mod array;
pub mod port;
pub mod scan;

use crate::iterators::{LoopIterator, PortRange, ScanType};

verus! {

/// The arguments of a scan, as the command line gives them.
#[derive(Debug)]
pub struct Args {
    /// Addresses to scan, host names, or paths of files that list them.
    pub ip: Vec<String>,
    /// The ports to scan, normalized.
    pub ports: LoopIterator<PortRange>,
    /// The techniques to use, sorted and without duplicates.
    pub scans: LoopIterator<ScanType>,
    /// Number of scans to run at once; reserved.
    pub threads: u8,
}

} // verus!
