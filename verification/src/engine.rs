//! The decisions of the send/receive loop. The loop itself owns the sockets:
//! it asks the engine what to do next, does it, and hands received frames
//! back.

use vstd::prelude::*;

use crate::probes::report::Scanner;
use crate::probes::{Probe, ProbeBuilder, Target};

verus! {

/// Microseconds between two emissions, at the least.
pub const DELAY: u64 = 1_000;

/// What the loop has to do next.
#[derive(Clone, Copy, Debug)]
pub enum Action {
    /// Send this probe to its destination, then ask again.
    Send(Probe),
    /// Wait until the receive socket is readable, for this many microseconds
    /// at most; hand over what was received, then ask again.
    Wait(u64),
    /// The scan is complete.
    Finish,
}

/// The state of a run: the probes still to send, the report store, and the
/// time of the last emission.
pub struct Engine {
    probes: ProbeBuilder,
    scanner: Scanner,
    last: Option<u64>,
    draining: bool,
    delay: u64,
}

impl Engine {
    /// The targets that are still to be probed, in the order of emission.
    pub closed spec fn pending(&self) -> Seq<Target> {
        self.probes.pending()
    }

    /// The probe generator of the run.
    pub closed spec fn generator(&self) -> ProbeBuilder {
        self.probes
    }

    /// The report store of the run.
    pub closed spec fn store(&self) -> Scanner {
        self.scanner
    }

    /// The time of the last emission, if there was one.
    pub closed spec fn last_emission(&self) -> Option<u64> {
        self.last
    }

    /// Every probe was sent, and the run waits for the last replies.
    pub closed spec fn draining(&self) -> bool {
        self.draining
    }

    /// The microseconds between two emissions, at the least.
    pub closed spec fn delay(&self) -> u64 {
        self.delay
    }

    /// The microseconds since the last emission, none if the clock went back.
    pub open spec fn elapsed(&self, now: u64) -> int {
        match self.last_emission() {
            Some(last) => if now >= last {
                now - last
            } else {
                0
            },
            None => 0,
        }
    }

    /// A probe may be sent at time `now`: none was sent yet, or the last one
    /// at least the delay ago.
    pub open spec fn due(&self, now: u64) -> bool {
        self.last_emission() is None || self.elapsed(now) >= self.delay()
    }

    /// A run that drains has no probe left to send.
    pub open spec fn well_formed(&self) -> bool {
        self.draining() ==> self.pending().len() == 0
    }

    /// A run that sends the probes of `probes` and reports into `scanner`,
    /// with the default delay between emissions.
    pub fn new(probes: ProbeBuilder, scanner: Scanner) -> (engine: Engine)
        ensures
            engine.generator() == probes,
            engine.pending() == probes.pending(),
            engine.store() == scanner,
            engine.last_emission() is None,
            !engine.draining(),
            engine.delay() == DELAY,
            engine.well_formed(),
    {
        Engine::with_delay(probes, scanner, DELAY)
    }

    /// A run that sends the probes of `probes` and reports into `scanner`,
    /// with `delay` microseconds between emissions at the least.
    pub fn with_delay(probes: ProbeBuilder, scanner: Scanner, delay: u64) -> (engine: Engine)
        ensures
            engine.generator() == probes,
            engine.pending() == probes.pending(),
            engine.store() == scanner,
            engine.last_emission() is None,
            !engine.draining(),
            engine.delay() == delay,
            engine.well_formed(),
    {
        Engine { probes, scanner, last: None, draining: false, delay }
    }

    /// Decides what the loop does at time `now`. While probes are left, one is
    /// sent whenever none was sent yet or the delay has passed since the last
    /// emission, and recorded in the store; in between the loop waits for
    /// what is left of the delay. When no probe is left, the store is swept at
    /// every call: the loop waits, one delay at a time, until no probe waits
    /// for a reply.
    pub fn step(&mut self, now: u64) -> (action: Action)
        ensures
            final(self).delay() == old(self).delay(),
            old(self).well_formed() ==> final(self).well_formed(),
            final(self).generator().source() == old(self).generator().source(),
            final(self).generator().base_port() == old(self).generator().base_port(),
            final(self).generator().sequence() == old(self).generator().sequence(),
            match action {
                Action::Send(probe) => {
                    &&& !old(self).draining()
                    &&& old(self).due(now)
                    &&& old(self).pending().len() > 0
                    &&& probe.aimed_at(
                        old(self).generator().source(),
                        old(self).generator().base_port(),
                        old(self).generator().sequence(),
                        old(self).pending()[0],
                    )
                    &&& final(self).pending() == old(self).pending().drop_first()
                    &&& old(self).store().added(probe, now, &final(self).store())
                    &&& final(self).last_emission() == Some(now)
                    &&& !final(self).draining()
                },
                Action::Wait(duration) => if !old(self).draining() && !old(self).due(now) {
                    &&& duration == old(self).delay() - old(self).elapsed(now)
                    &&& final(self).pending() == old(self).pending()
                    &&& final(self).store() == old(self).store()
                    &&& final(self).last_emission() == old(self).last_emission()
                    &&& !final(self).draining()
                } else {
                    &&& old(self).draining() || old(self).pending().len() == 0
                    &&& final(self).pending() == old(self).pending()
                    &&& final(self).draining()
                    &&& final(self).last_emission() == old(self).last_emission()
                    &&& duration == old(self).delay()
                    &&& old(self).store().swept(now, &final(self).store())
                    &&& !final(self).store().settled()
                },
                Action::Finish => {
                    &&& old(self).draining() || (old(self).due(now) && old(self).pending().len()
                        == 0)
                    &&& final(self).pending() == old(self).pending()
                    &&& final(self).draining()
                    &&& final(self).last_emission() == old(self).last_emission()
                    &&& old(self).store().swept(now, &final(self).store())
                    &&& final(self).store().settled()
                },
            },
    {
        if !self.draining {
            let elapsed: u64 = match self.last {
                Some(last) => if now >= last {
                    now - last
                } else {
                    0
                },
                None => 0,
            };
            if self.last.is_some() && elapsed < self.delay {
                return Action::Wait(self.delay - elapsed);
            }
            let ghost queued = self.probes.pending();
            match self.probes.next() {
                Some(probe) => {
                    self.scanner.add_at(probe, now);
                    self.last = Some(now);
                    return Action::Send(probe);
                },
                None => {
                    assert(self.probes.pending() =~= queued);
                    self.draining = true;
                },
            }
        }
        if self.scanner.sweep(now) {
            Action::Finish
        } else {
            Action::Wait(self.delay)
        }
    }

    /// Takes a frame that the link-level receive socket has read into
    /// account. A frame that does not decode to a response changes nothing.
    pub fn receive(&mut self, frame: &[u8])
        ensures
            final(self).generator() == old(self).generator(),
            final(self).pending() == old(self).pending(),
            final(self).last_emission() == old(self).last_emission(),
            final(self).draining() == old(self).draining(),
            final(self).delay() == old(self).delay(),
            match crate::probes::response::decoded_frame(frame@) {
                Ok(response) => old(self).store().answered(response, &final(self).store()),
                Err(_) => old(self).store().unchanged(&final(self).store()),
            },
    {
        self.scanner.update_frame(frame);
    }

    /// Ends the run and hands out the report store.
    pub fn into_scanner(self) -> (scanner: Scanner)
        ensures
            scanner == self.store(),
    {
        self.scanner
    }
}

} // verus!
