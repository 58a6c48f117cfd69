//! The daemon's sampling loop, as steps: find a battery, read it once a
//! second, and look for a battery again when reading fails.

use vstd::prelude::*;
use crate::sample::BatterySample;
use crate::trend::{window, TrendData};

verus! {

/// Seconds between two readings of a battery.
pub const POLL_SECONDS: u64 = 1;

/// Seconds to wait before looking for a battery again.
pub const RESCAN_SECONDS: u64 = 10;

/// What the sampling loop does next.
#[derive(Debug)]
pub enum PollStep {
    /// Look for a battery.
    Scan,
    /// Read the battery at this sysfs path.
    Read(String),
}

/// How long the sampling loop waits before its next step.
#[derive(Clone, Copy, Debug, PartialEq, Eq)]
pub enum Pause {
    /// Wait `POLL_SECONDS`.
    Poll,
    /// Wait `RESCAN_SECONDS`.
    Rescan,
}

impl Pause {
    /// The length of the pause in seconds.
    pub fn seconds(self) -> (s: u64)
        ensures
            s == (match self {
                Pause::Poll => POLL_SECONDS,
                Pause::Rescan => RESCAN_SECONDS,
            }),
    {
        match self {
            Pause::Poll => POLL_SECONDS,
            Pause::Rescan => RESCAN_SECONDS,
        }
    }
}

/// The state of the sampling loop: the battery in use, if one was found.
pub struct Poller {
    pub battery: Option<String>,
}

impl Poller {
    /// No battery found yet.
    pub fn new() -> (p: Poller)
        ensures
            p.battery is None,
    {
        Poller { battery: None }
    }

    /// The next step: look for a battery while none is known, else read it.
    pub fn next_step(&self) -> (s: PollStep)
        ensures
            match self.battery {
                None => s is Scan,
                Some(b) => s matches PollStep::Read(path) && path@ == b@,
            },
    {
        match &self.battery {
            None => PollStep::Scan,
            Some(b) => PollStep::Read(b.clone()),
        }
    }

    /// After looking for a battery: with none found, wait and look again;
    /// with one found, read it at once (no pause).
    pub fn after_scan(&mut self, found: Option<String>) -> (pause: Option<Pause>)
        ensures
            match found {
                None => final(self).battery is None && pause == Some(Pause::Rescan),
                Some(b) => final(self).battery == Some(b) && pause is None,
            },
    {
        match found {
            None => {
                self.battery = None;
                Some(Pause::Rescan)
            },
            Some(b) => {
                self.battery = Some(b);
                None
            },
        }
    }

    /// After reading the battery: a sample joins the window and the next
    /// reading follows after `POLL_SECONDS`; a failed reading forgets the
    /// battery and the next search follows after `RESCAN_SECONDS`.
    pub fn after_read(&mut self, sample: Option<BatterySample>, trend: &mut TrendData) -> (pause: Pause)
        ensures
            match sample {
                Some(s) => {
                    &&& final(trend)@ == window(old(trend)@.push(s))
                    &&& final(self).battery == old(self).battery
                    &&& pause == Pause::Poll
                },
                None => {
                    &&& final(trend)@ == old(trend)@
                    &&& final(self).battery is None
                    &&& pause == Pause::Rescan
                },
            },
    {
        match sample {
            Some(s) => {
                trend.push(s);
                Pause::Poll
            },
            None => {
                self.battery = None;
                Pause::Rescan
            },
        }
    }
}

} // verus!
