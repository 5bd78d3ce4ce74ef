use vstd::prelude::*;

verus! {

/// The agent's tallies, exported read-only for scraping. Each counter stops
/// at `u64::MAX` rather than wrapping.
#[derive(Debug)]
pub struct Counters {
    pub queue_errors: u64,
    pub check_errors: u64,
    pub checks: u64,
}

pub open spec fn bumped(n: u64) -> u64 {
    if n < u64::MAX {
        (n + 1) as u64
    } else {
        n
    }
}

impl Counters {
    pub fn new() -> (r: Counters)
        ensures
            r.queue_errors == 0 && r.check_errors == 0 && r.checks == 0,
    {
        Counters { queue_errors: 0, check_errors: 0, checks: 0 }
    }

    /// The queue gave an error instead of a message.
    pub fn record_queue_error(&mut self)
        ensures
            final(self).queue_errors == bumped(old(self).queue_errors),
            final(self).check_errors == old(self).check_errors,
            final(self).checks == old(self).checks,
    {
        self.queue_errors = self.queue_errors.saturating_add(1);
    }

    /// A probe was started.
    pub fn record_check(&mut self)
        ensures
            final(self).checks == bumped(old(self).checks),
            final(self).queue_errors == old(self).queue_errors,
            final(self).check_errors == old(self).check_errors,
    {
        self.checks = self.checks.saturating_add(1);
    }

    /// A message could not be handled: its payload did not decode, its probe
    /// failed, or its points could not be written.
    pub fn record_check_error(&mut self)
        ensures
            final(self).check_errors == bumped(old(self).check_errors),
            final(self).queue_errors == old(self).queue_errors,
            final(self).checks == old(self).checks,
    {
        self.check_errors = self.check_errors.saturating_add(1);
    }
}

} // verus!
