//! A shared counter that reports when it reaches a threshold.
//!
//! The counter's decisions are made here; the UI layer delivers the event
//! that an increment returns and asks the view to redraw.

use vstd::prelude::*;

verus! {

/// Events emitted by CounterState when thresholds are crossed.
#[derive(Clone, Debug, PartialEq, Eq, Structural)]
pub enum CounterEvent {
    ThresholdReached(i32),
}

/// What an increment from `count` reports: the threshold event, carrying the
/// new count, exactly when the count goes from below `threshold` to at least it.
pub open spec fn increment_event(count: int, threshold: int) -> Option<CounterEvent> {
    if count < threshold && count + 1 >= threshold {
        Some(CounterEvent::ThresholdReached((count + 1) as i32))
    } else {
        None
    }
}

/// Shared counter state: a count and the threshold it watches for.
pub struct CounterState {
    count: i32,
    threshold: i32,
}

impl CounterState {
    pub closed spec fn spec_count(&self) -> int {
        self.count as int
    }

    pub closed spec fn spec_threshold(&self) -> int {
        self.threshold as int
    }

    pub fn new(threshold: i32) -> (s: Self)
        ensures
            s.spec_count() == 0,
            s.spec_threshold() == threshold,
    {
        CounterState { count: 0, threshold }
    }

    pub fn count(&self) -> (c: i32)
        ensures
            c == self.spec_count(),
    {
        self.count
    }

    pub fn threshold(&self) -> (t: i32)
        ensures
            t == self.spec_threshold(),
    {
        self.threshold
    }

    /// Increment the counter. Returns `ThresholdReached` with the new count
    /// exactly when the count was below the threshold and now reaches it.
    pub fn increment(&mut self) -> (event: Option<CounterEvent>)
        requires
            old(self).spec_count() < i32::MAX,
        ensures
            final(self).spec_count() == old(self).spec_count() + 1,
            final(self).spec_threshold() == old(self).spec_threshold(),
            event == increment_event(old(self).spec_count(), old(self).spec_threshold()),
    {
        let was_below = self.count < self.threshold;
        self.count = self.count + 1;
        if was_below && self.count >= self.threshold {
            Some(CounterEvent::ThresholdReached(self.count))
        } else {
            None
        }
    }

    /// Decrement the counter.
    pub fn decrement(&mut self)
        requires
            old(self).spec_count() > i32::MIN,
        ensures
            final(self).spec_count() == old(self).spec_count() - 1,
            final(self).spec_threshold() == old(self).spec_threshold(),
    {
        self.count = self.count - 1;
    }

    /// Set count directly (for testing).
    pub fn set_count(&mut self, value: i32)
        ensures
            final(self).spec_count() == value,
            final(self).spec_threshold() == old(self).spec_threshold(),
    {
        self.count = value;
    }
}

/// The threshold is reported once on the way up: an increment reports
/// `ThresholdReached` exactly when the new count equals the threshold, so the
/// increment right after one that reports does not report.
pub proof fn law_threshold_reported_once(count: int, threshold: int)
    ensures
        increment_event(count, threshold) is Some ==> increment_event(count + 1, threshold) is None,
        increment_event(count, threshold) is Some <==> count + 1 == threshold,
{
}

} // verus!
