//! A wall-clock budget for the anytime searches.  Expiry is read from the
//! system's monotonic clock, so nothing is promised about when an armed
//! clock expires; an unarmed clock provably never does.
use vstd::prelude::*;

use std::time::Duration;
use std::time::Instant;

verus! {

/// `std::time::Instant`, declared so a clock can hold its starting point.
#[verifier::external_type_specification]
#[verifier::external_body]
pub struct ExInstant(Instant);

/// Relies on std's `Instant::now`: a reading of the monotonic clock.
pub assume_specification[ Instant::now ]() -> (r: Instant);

/// Relies on std's `Instant::elapsed`: the time since that instant.
pub assume_specification[ Instant::elapsed ](i: &Instant) -> (r: Duration);

/// Relies on std's `Duration::as_millis`: the whole milliseconds the
/// duration contains.
pub assume_specification[ Duration::as_millis ](d: &Duration) -> (r: u128);

/// Relies on std's `Duration::from_millis`: a duration of that many
/// milliseconds.
pub assume_specification[ Duration::from_millis ](millis: u64) -> (r: Duration);

/// A deadline the searches poll.  An armed clock expires some time after
/// its budget has elapsed; an unarmed clock never expires, which makes a
/// search's result a function of its arguments alone.
pub struct SearchClock {
    start: Instant,
    budget_millis: u64,
    armed: bool,
}

impl SearchClock {
    /// Whether this clock imposes a deadline at all.
    pub closed spec fn is_armed(&self) -> bool {
        self.armed
    }

    /// A clock that starts now and expires once `budget_millis`
    /// milliseconds have elapsed.
    pub fn started(budget_millis: u64) -> (r: SearchClock)
        ensures
            r.is_armed(),
    {
        SearchClock { start: Instant::now(), budget_millis, armed: true }
    }

    /// A clock that never expires.
    pub fn unarmed() -> (r: SearchClock)
        ensures
            !r.is_armed(),
    {
        SearchClock { start: Instant::now(), budget_millis: 0, armed: false }
    }

    /// True once the budget has run out.  What an armed clock answers
    /// depends on the moment of the call; an unarmed one always says no.
    pub fn expired(&self) -> (r: bool)
        ensures
            !self.is_armed() ==> r == false,
    {
        if !self.armed {
            return false;
        }
        let elapsed = self.start.elapsed();
        elapsed.as_millis() > self.budget_millis as u128
    }
}

} // verus!
