//! A millisecond clock that never runs backwards.

use std::time::Duration;
use std::time::Instant;
use vstd::prelude::*;

verus! {

/// `std::time::Instant`: a moment on the machine's monotonic timer. It is
/// carried as it is; nothing in the library reads what is inside.
#[verifier::external_type_specification]
#[verifier::external_body]
pub struct ExInstant(std::time::Instant);

/// `std::time::Instant::now`: the present moment. Nothing is claimed of it.
#[verifier::external_body]
fn instant_now() -> (t: Instant) {
    Instant::now()
}

/// `std::time::Instant::saturating_duration_since`: the time from `earlier`
/// to `later`, zero where `earlier` is the later one. Nothing is claimed of
/// the duration.
#[verifier::external_body]
fn instant_since(later: &Instant, earlier: &Instant) -> (d: Duration) {
    later.saturating_duration_since(*earlier)
}

/// `std::time::Duration::as_millis`: the whole milliseconds in a duration.
/// Nothing is claimed of the number.
#[verifier::external_body]
fn duration_millis(d: &Duration) -> (ms: u128) {
    d.as_millis()
}

/// The later of the last reading and a fresh measurement.
pub fn later_of(last: u128, measured: u128) -> (t: u128)
    ensures
        t >= last,
        t >= measured,
        t == last || t == measured,
{
    if measured > last {
        measured
    } else {
        last
    }
}

/// Milliseconds since the clock was made. Each reading is at least the one
/// before it, whatever the machine's timer reports.
pub struct Clock {
    origin: Instant,
    last: u128,
}

impl Clock {
    /// The latest reading handed out, in milliseconds.
    pub closed spec fn reading(&self) -> int {
        self.last as int
    }

    /// A clock whose time starts now, at zero.
    pub fn new() -> (c: Clock)
        ensures
            c.reading() == 0,
    {
        Clock { origin: instant_now(), last: 0 }
    }

    /// Reads the clock.
    pub fn now_ms(&mut self) -> (t: u128)
        ensures
            t == final(self).reading(),
            final(self).reading() >= old(self).reading(),
    {
        let present: Instant = instant_now();
        let gone: Duration = instant_since(&present, &self.origin);
        let measured: u128 = duration_millis(&gone);
        let t: u128 = later_of(self.last, measured);
        self.last = t;
        t
    }
}

} // verus!
