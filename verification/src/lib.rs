//! A multi-technique port scanner core: input normalisation, probe
//! generation, response decoding, status classification and the pacing
//! decisions of the send/receive loop.

use vstd::prelude::*;

pub mod cli;
pub mod clock;
pub mod engine;
pub mod iterators;
pub mod probes;
pub mod text;

verus! {

/// Number of scan techniques; also the width of the source-port window that a
/// run reserves.
pub const SCAN_NUM: u16 = 6;

} // verus!
