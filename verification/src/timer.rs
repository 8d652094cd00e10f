//! The bare countdown: a count and its unit.
use crate::engine::Tima;
use crate::parser::texts;
use vstd::prelude::*;

verus! {

/// A countdown: how long to wait, in seconds or in minutes.
#[derive(Clone, Copy, Debug, PartialEq, Eq, Structural)]
pub struct Timer {
    /// The count, in seconds or in minutes.
    pub max_count: u64,
    /// Whether the count is in minutes.
    pub minutes: bool,
}

impl Timer {
    /// The countdown of a configuration: its count and its unit.
    pub open spec fn of(tmr: Tima) -> Timer {
        Timer { max_count: tmr.max_count, minutes: tmr.minutes }
    }

    /// The length of the countdown in seconds: the count, times 60 where the
    /// count is in minutes.
    pub open spec fn seconds(self) -> nat {
        if self.minutes {
            (self.max_count * 60) as nat
        } else {
            self.max_count as nat
        }
    }

    /// A countdown of `max_count` seconds.
    pub fn new(max_count: u64) -> (tmr: Timer)
        ensures
            tmr == (Timer { max_count, minutes: false }),
    {
        Timer { max_count, minutes: false }
    }

    /// Resolves the arguments of a run and keeps the countdown.
    pub fn init(args: Vec<String>) -> (tmr: Timer)
        ensures
            tmr == Timer::of(Tima::resolve(texts(args@))),
    {
        Tima::init(args).timer()
    }

    /// The length of the countdown in seconds, where it fits in 64 bits.
    pub fn total_seconds(&self) -> (total: Option<u64>)
        ensures
            total == if self.seconds() <= u64::MAX {
                Some(self.seconds() as u64)
            } else {
                None
            },
    {
        if self.minutes {
            self.max_count.checked_mul(60)
        } else {
            Some(self.max_count)
        }
    }
}

} // verus!
