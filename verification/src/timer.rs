//! The start/stop timer. A `Timespan` accumulates whole seconds of
//! running time across start/stop cycles, read off a monotonic clock.
//! The clock itself is trusted; everything that is done with a clock
//! reading is verified.

use vstd::prelude::*;
use web_time::Instant;

verus! {

#[verifier::external_type_specification]
#[verifier::external_body]
pub struct ExInstant(Instant);

/// Relies on web_time::Instant::now (std::time::Instant::now on native
/// targets): a reading of the monotonic clock. Nothing is assumed about
/// the reading itself.
#[verifier::external_body]
fn monotonic_now() -> Instant {
    Instant::now()
}

/// Relies on web_time::Instant::saturating_duration_since and
/// Duration::as_secs: the whole seconds from `earlier` to `later`,
/// zero when `later` is not after `earlier`; it never panics. Nothing
/// is assumed about the value returned.
#[verifier::external_body]
fn whole_secs_between(earlier: &Instant, later: &Instant) -> u64 {
    later.saturating_duration_since(*earlier).as_secs()
}

/// Addition of whole-second counts, capped at the largest count.
pub open spec fn sat_add(a: u64, b: u64) -> u64 {
    if a + b > u64::MAX {
        u64::MAX
    } else {
        (a + b) as u64
    }
}

/// The timer: accumulated whole seconds, and the instant it was last
/// started when it is running.
pub struct Timespan {
    pub elapsed: u64,
    pub start: Option<Instant>,
}

impl Timespan {
    /// Whether the timer is running.
    pub open spec fn spec_is_running(self) -> bool {
        self.start is Some
    }

    /// A fresh, stopped timer with nothing accumulated.
    pub fn new() -> (r: Self)
        ensures
            r.elapsed == 0,
            !r.spec_is_running(),
    {
        Timespan { elapsed: 0, start: None }
    }

    /// Start the timer; a running timer is left as it is.
    pub fn start(&mut self)
        ensures
            final(self).elapsed == old(self).elapsed,
            final(self).spec_is_running(),
            old(self).spec_is_running() ==> *final(self) == *old(self),
    {
        if self.start.is_none() {
            self.start = Some(monotonic_now());
        }
    }

    /// Fold a measured running interval of `secs` whole seconds into the
    /// accumulated total and leave the timer stopped. This is the whole
    /// effect of a stop, for any value the clock may have measured.
    pub fn accumulate(&mut self, secs: u64)
        requires
            old(self).spec_is_running(),
        ensures
            final(self).elapsed == sat_add(old(self).elapsed, secs),
            !final(self).spec_is_running(),
    {
        self.elapsed = self.elapsed.saturating_add(secs);
        self.start = None;
    }

    /// Stop the timer, adding the whole seconds of the running interval
    /// to the accumulated total; a stopped timer is left as it is.
    pub fn stop(&mut self)
        ensures
            !old(self).spec_is_running() ==> *final(self) == *old(self),
            old(self).spec_is_running() ==> {
                &&& !final(self).spec_is_running()
                &&& exists|d: u64| final(self).elapsed == sat_add(old(self).elapsed, d)
            },
            final(self).elapsed >= old(self).elapsed,
            !final(self).spec_is_running(),
            old(self).spec_is_running() || *final(self) == *old(self),
    {
        match self.start {
            Some(st) => {
                let now = monotonic_now();
                let d = whole_secs_between(&st, &now);
                self.accumulate(d);
            },
            None => {},
        }
    }

    /// Start a stopped timer, stop a running one.
    pub fn start_or_stop(&mut self)
        ensures
            final(self).spec_is_running() == !old(self).spec_is_running(),
            !old(self).spec_is_running() ==> final(self).elapsed == old(self).elapsed,
            old(self).spec_is_running() ==> exists|d: u64|
                final(self).elapsed == sat_add(old(self).elapsed, d),
    {
        if !self.is_running() {
            self.start();
        } else {
            self.stop();
        }
    }

    /// Discard everything, running time included, and leave the timer
    /// stopped at zero.
    pub fn reset(&mut self)
        ensures
            final(self).elapsed == 0,
            !final(self).spec_is_running(),
    {
        self.elapsed = 0;
        self.start = None;
    }

    /// The whole seconds elapsed so far: the accumulated total, plus the
    /// current running interval when the timer is running.
    pub fn elapsed(&self) -> (r: u64)
        ensures
            !self.spec_is_running() ==> r == self.elapsed,
            self.spec_is_running() ==> exists|d: u64| r == sat_add(self.elapsed, d),
            r >= self.elapsed,
    {
        match &self.start {
            Some(st) => {
                let now = monotonic_now();
                let d = whole_secs_between(st, &now);
                let r = self.elapsed.saturating_add(d);
                proof {
                    assert(r == sat_add(self.elapsed, d));
                }
                r
            },
            None => self.elapsed,
        }
    }

    /// Whether the timer is running.
    pub fn is_running(&self) -> (r: bool)
        ensures
            r == self.spec_is_running(),
    {
        self.start.is_some()
    }
}

impl Default for Timespan {
    /// A fresh, stopped timer with nothing accumulated.
    fn default() -> (r: Self)
        ensures
            r.elapsed == 0,
            !r.spec_is_running(),
    {
        Timespan::new()
    }
}

/// The sum of a sequence of whole-second interval measurements.
pub open spec fn sum_secs(ds: Seq<u64>) -> int
    decreases ds.len(),
{
    if ds.len() == 0 {
        0
    } else {
        sum_secs(ds.drop_last()) + ds.last()
    }
}

/// The accumulated total after folding a sequence of measured intervals
/// into a starting total, the way consecutive stops do.
pub open spec fn after_stops(e0: u64, ds: Seq<u64>) -> u64
    decreases ds.len(),
{
    if ds.len() == 0 {
        e0
    } else {
        sat_add(after_stops(e0, ds.drop_last()), ds.last())
    }
}

/// Law: a timer that starts from total `e0` and is stopped after running
/// intervals whose whole-second floors are `ds` ends with total
/// `e0 + sum(ds)` — each interval contributes exactly its own floor —
/// as long as that sum fits in the counter.
pub proof fn lemma_elapsed_is_sum_of_floors(e0: u64, ds: Seq<u64>)
    requires
        e0 + sum_secs(ds) <= u64::MAX,
    ensures
        after_stops(e0, ds) == e0 + sum_secs(ds),
    decreases ds.len(),
{
    if ds.len() == 0 {
    } else {
        assert(sum_secs(ds.drop_last()) >= 0) by {
            lemma_sum_secs_nonneg(ds.drop_last());
        }
        lemma_elapsed_is_sum_of_floors(e0, ds.drop_last());
    }
}

/// The sum of interval measurements is never negative.
proof fn lemma_sum_secs_nonneg(ds: Seq<u64>)
    ensures
        sum_secs(ds) >= 0,
    decreases ds.len(),
{
    if ds.len() == 0 {
    } else {
        lemma_sum_secs_nonneg(ds.drop_last());
    }
}

/// Law: starting a stopped timer and then stopping it again with no
/// whole second of wall clock in between leaves the accumulated total
/// exactly as it was — no spurious accumulation. `t0` is the timer
/// before the start, `t1` the timer after the start, `t2` the timer
/// after a stop that measured zero whole seconds.
pub proof fn lemma_no_spurious_accumulation(t0: Timespan, t1: Timespan, t2: Timespan)
    requires
        !t0.spec_is_running(),
        t1.elapsed == t0.elapsed,
        t1.spec_is_running(),
        t2.elapsed == sat_add(t1.elapsed, 0),
        !t2.spec_is_running(),
    ensures
        t2.elapsed == t0.elapsed,
{
}

} // verus!
