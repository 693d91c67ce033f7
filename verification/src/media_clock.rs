//! Clock of the network, on which all timestamps are based.
//!
//! The clock daemon tells how the clock of the network relates to the clock of this machine. What
//! the relation gives at a moment is floating point arithmetic, so it comes here as a number of
//! nanoseconds.

use crate::common::{clock_diff, clock_modulus, wrapped_diff, Clock, ClockDiff};
use crate::real_time_box_channel::RealTimeBoxReceiver;
use vstd::prelude::*;

verus! {

/// High-precision clock (nanoseconds)
pub type FineClock = u64;

/// Signed version of the high-precision clock. For clock deltas.
pub type FineClockDiff = i64;

/// A moment of a clock.
#[derive(Debug, Clone, Copy, PartialEq, Eq, Structural)]
pub struct Timestamp {
    pub seconds: i64,
    pub nanos: u32,
}

pub fn timestamp_to_clock_value(ts: Timestamp) -> (value: FineClock)
    ensures
        value == (ts.seconds * 1_000_000_000 + ts.nanos) % clock_modulus(),
{
    let s: u64 = ts.seconds as u64;
    proof {
        let seconds = ts.seconds;
        assert(seconds >= 0 ==> (seconds as u64) == seconds) by (bit_vector);
        assert(seconds < 0 ==> (seconds as u64) == seconds + 0x1_0000_0000_0000_0000) by (bit_vector);
        let m = clock_modulus();
        let p = s as int * 1_000_000_000;
        // both products leave the same remainder
        assert((ts.seconds * 1_000_000_000) % m == p % m) by {
            if ts.seconds < 0 {
                assert(p == 1_000_000_000 * m + ts.seconds * 1_000_000_000);
                vstd::arithmetic::div_mod::lemma_mod_multiples_vanish(
                    1_000_000_000,
                    ts.seconds * 1_000_000_000,
                    m,
                );
            }
        }
        vstd::arithmetic::div_mod::lemma_add_mod_noop(ts.seconds * 1_000_000_000, ts.nanos as int, m);
        vstd::arithmetic::div_mod::lemma_small_mod(ts.nanos as nat, m as nat);
    }
    s.wrapping_mul(1_000_000_000).wrapping_add(ts.nanos as FineClock)
}

/// How the clock of the network relates to a clock of this machine.
#[derive(Debug, Clone, Copy, PartialEq, Eq, Structural)]
pub struct ClockOverlay {
    pub clock_id: i64,
    pub last_sync: i64,
    pub shift: i64,
    /// the bits of a floating point number
    pub freq_scale: u64,
}

/// Hands over overlays to a realtime thread.
pub type RealTimeClockReceiver = RealTimeBoxReceiver<Option<ClockOverlay>>;

pub struct MediaClock {
    overlay: Option<ClockOverlay>,
}

/// A number of nanoseconds in units of a timebase.
pub open spec fn in_timebase(ns: FineClock, timebase_hz: u64) -> u64 {
    (ns * timebase_hz / 1_000_000_000 % clock_modulus()) as u64
}

/// The time of a timebase in nanoseconds.
pub open spec fn in_nanoseconds(timestamp: u64, timebase_hz: u64) -> FineClock {
    (timestamp * 1_000_000_000 / timebase_hz as int % clock_modulus()) as FineClock
}

/// A quotient rounded towards zero.
pub open spec fn truncated_quotient(a: int, b: int) -> int {
    if a >= 0 {
        a / b
    } else {
        -((-a) / b)
    }
}

impl MediaClock {
    pub closed spec fn spec_overlay(&self) -> Option<ClockOverlay> {
        self.overlay
    }

    /// The safe variant of the clock is not supported.
    pub fn new(use_safe_clock: bool) -> (clock: Self)
        requires
            !use_safe_clock,
        ensures
            clock.spec_overlay() is None,
    {
        Self { overlay: None }
    }

    pub fn is_ready(&self) -> (ready: bool)
        ensures
            ready == (self.spec_overlay() is Some),
    {
        self.overlay.is_some()
    }

    pub fn get_overlay(&self) -> (overlay: &Option<ClockOverlay>)
        ensures
            *overlay == self.spec_overlay(),
    {
        &self.overlay
    }

    pub fn update_overlay(&mut self, overlay: ClockOverlay)
        ensures
            final(self).spec_overlay() == Some(overlay),
    {
        self.overlay = Some(overlay);
    }

    /// Takes over an overlay which has just been received; `None`: the clock of the network is
    /// not known yet.
    pub fn adopt(&mut self, updated: bool, received: &Option<ClockOverlay>)
        ensures
            final(self).spec_overlay() == if updated && *received is Some {
                *received
            } else {
                old(self).spec_overlay()
            },
    {
        if updated {
            if let Some(overlay) = received {
                self.update_overlay(*overlay);
            }
        }
    }

    /// Takes over the latest overlay if there is a new one, which is up to the sender's thread;
    /// `adopt` says what becomes of each.
    pub fn refresh(&mut self, receiver: &mut RealTimeClockReceiver) -> (updated: bool)
        ensures
            final(receiver).places() == old(receiver).places(),
            !updated ==> final(receiver).current() == old(receiver).current(),
            final(self).spec_overlay() == if updated && final(receiver).current() is Some {
                final(receiver).current()
            } else {
                old(self).spec_overlay()
            },
    {
        let updated: bool = receiver.update();
        self.adopt(updated, receiver.get());
        updated
    }

    /// The time in units of a timebase when the clock of the network shows `now_ns`; `None` as
    /// long as the clock is not ready.
    pub fn now_in_timebase(&self, now_ns: FineClock, timebase_hz: u64) -> (now: Option<u64>)
        ensures
            now is Some <==> self.spec_overlay() is Some,
            now is Some ==> now->0 == in_timebase(now_ns, timebase_hz),
            now is Some && now_ns * timebase_hz < 0x1_0000_0000_0000_0000 * 1_000_000_000 ==> now->0
                * 1_000_000_000 <= now_ns * timebase_hz < (now->0 + 1) * 1_000_000_000,
    {
        if self.overlay.is_none() {
            return None;
        }
        proof {
            timebase_counts_whole_units(now_ns, timebase_hz);
        }
        Some(convert_to_timebase(now_ns, timebase_hz))
    }

    /// As `now_in_timebase`, for clocks which wrap around.
    pub fn wrapping_now_in_timebase(&self, now_ns: FineClock, timebase_hz: u64) -> (now: Option<Clock>)
        ensures
            now is Some <==> self.spec_overlay() is Some,
            now is Some ==> now->0 == in_timebase(now_ns, timebase_hz),
    {
        self.now_in_timebase(now_ns, timebase_hz)
    }

    /// How many nanoseconds of the clock of the network remain until the timestamp; `None` as long
    /// as the clock is not ready. The clock of this machine has to be corrected for its frequency
    /// (see `corrected_duration`).
    pub fn remaining_until(&self, now_ns: FineClock, timestamp: u64, timebase_hz: u64) -> (remaining: Option<
        FineClockDiff,
    >)
        requires
            timebase_hz > 0,
        ensures
            remaining is Some <==> self.spec_overlay() is Some,
            remaining is Some ==> remaining->0 == clock_diff(in_nanoseconds(timestamp, timebase_hz), now_ns),
    {
        if self.overlay.is_none() {
            return None;
        }
        let product: u128 = timestamp as u128 * 1_000_000_000u128;
        let until_ns: FineClock = (product / timebase_hz as u128 % 0x1_0000_0000_0000_0000u128) as FineClock;
        Some(wrapped_diff(until_ns, now_ns))
    }

    /// How many nanoseconds of the clock of the network pass from one timestamp until another one;
    /// `None` as long as the clock is not ready.
    pub fn nanoseconds_from_until(&self, from: Clock, until: Clock, timebase_hz: u64) -> (duration: Option<
        FineClockDiff,
    >)
        requires
            0 < timebase_hz <= i64::MAX,
            i64::MIN <= clock_diff(until, from) * 1_000_000_000 <= i64::MAX,
        ensures
            duration is Some <==> self.spec_overlay() is Some,
            duration is Some ==> duration->0 == truncated_quotient(
                clock_diff(until, from) * 1_000_000_000,
                timebase_hz as int,
            ),
    {
        if self.overlay.is_none() {
            return None;
        }
        let duration_in_tb: ClockDiff = wrapped_diff(until, from);
        let ns: i64 = duration_in_tb * 1_000_000_000;
        if ns >= 0 {
            let q: u64 = ns as u64 / timebase_hz;
            proof {
                lemma_quotient_at_most(ns as int, timebase_hz as int);
            }
            Some(q as i64)
        } else {
            let magnitude: u64 = (-(ns as i128)) as u64;
            let q: u64 = magnitude / timebase_hz;
            proof {
                lemma_quotient_at_most(-(ns as int), timebase_hz as int);
            }
            Some((-(q as i128)) as i64)
        }
    }

    /// How long to wait until the timestamp, in nanoseconds of the clock of this machine; `None` as
    /// long as the clock is not ready. `correction` is what `remaining_until` says times the
    /// deviation of the frequency.
    pub fn system_clock_duration_until(
        &self,
        now_ns: FineClock,
        timestamp: u64,
        timebase_hz: u64,
        correction: FineClockDiff,
    ) -> (duration: Option<u64>)
        requires
            timebase_hz > 0,
            i64::MIN <= clock_diff(in_nanoseconds(timestamp, timebase_hz), now_ns) - correction <= i64::MAX,
        ensures
            duration is Some <==> self.spec_overlay() is Some,
            duration is Some ==> duration->0 == waiting_time(
                clock_diff(in_nanoseconds(timestamp, timebase_hz), now_ns),
                correction as int,
            ),
    {
        match self.remaining_until(now_ns, timestamp, timebase_hz) {
            Some(remaining) => Some(corrected_duration(remaining, correction)),
            None => None,
        }
    }

    /// How long to wait from one timestamp until another one, in nanoseconds of the clock of this
    /// machine; `None` as long as the clock is not ready. `correction` is what
    /// `nanoseconds_from_until` says times the deviation of the frequency.
    pub fn system_clock_duration_from_until(
        &self,
        from: Clock,
        until: Clock,
        timebase_hz: u64,
        correction: FineClockDiff,
    ) -> (duration: Option<u64>)
        requires
            0 < timebase_hz <= i64::MAX,
            i64::MIN <= clock_diff(until, from) * 1_000_000_000 <= i64::MAX,
            i64::MIN <= truncated_quotient(
                clock_diff(until, from) * 1_000_000_000,
                timebase_hz as int,
            ) - correction <= i64::MAX,
        ensures
            duration is Some <==> self.spec_overlay() is Some,
            duration is Some ==> duration->0 == waiting_time(
                truncated_quotient(clock_diff(until, from) * 1_000_000_000, timebase_hz as int),
                correction as int,
            ),
    {
        match self.nanoseconds_from_until(from, until, timebase_hz) {
            Some(remaining) => Some(corrected_duration(remaining, correction)),
            None => None,
        }
    }
}

proof fn lemma_quotient_at_most(a: int, b: int)
    requires
        0 <= a,
        0 < b,
    ensures
        0 <= a / b <= a,
{
    vstd::arithmetic::div_mod::lemma_div_nonincreasing(a, b);
    vstd::arithmetic::div_mod::lemma_div_pos_is_pos(a, b);
}

fn convert_to_timebase(ns: FineClock, timebase_hz: u64) -> (value: u64)
    ensures
        value == in_timebase(ns, timebase_hz),
{
    assert(ns * timebase_hz <= 0xffff_ffff_ffff_ffff * 0xffff_ffff_ffff_ffff) by (nonlinear_arith)
        requires
            0 <= ns <= 0xffff_ffff_ffff_ffff,
            0 <= timebase_hz <= 0xffff_ffff_ffff_ffff,
    ;
    let product: u128 = ns as u128 * timebase_hz as u128;
    (product / 1_000_000_000u128 % 0x1_0000_0000_0000_0000u128) as u64
}

/// What remains after the correction; nothing if it is over.
pub open spec fn waiting_time(remaining: int, correction: int) -> int {
    if remaining > correction {
        remaining - correction
    } else {
        0
    }
}

/// How long to wait, in nanoseconds of the clock of this machine, for `remaining` nanoseconds of
/// the clock of the network; `correction` is `remaining` times the deviation of the frequency.
pub fn corrected_duration(remaining: FineClockDiff, correction: FineClockDiff) -> (duration: u64)
    requires
        i64::MIN <= remaining - correction <= i64::MAX,
    ensures
        duration == waiting_time(remaining as int, correction as int),
{
    let duration: FineClockDiff = remaining - correction;
    if duration > 0 {
        duration as u64
    } else {
        0
    }
}

/// Later on the clock of the network is never earlier in a timebase, as long as neither wraps around.
pub proof fn timebase_is_monotonic(a: FineClock, b: FineClock, timebase_hz: u64)
    requires
        a <= b,
        b * timebase_hz / 1_000_000_000 < clock_modulus(),
    ensures
        in_timebase(a, timebase_hz) <= in_timebase(b, timebase_hz),
{
    assert(a * timebase_hz <= b * timebase_hz) by (nonlinear_arith)
        requires
            0 <= a <= b,
            0 <= timebase_hz,
    ;
    assert(0 <= a * timebase_hz) by (nonlinear_arith)
        requires
            0 <= a,
            0 <= timebase_hz,
    ;
    vstd::arithmetic::div_mod::lemma_div_is_ordered(a * timebase_hz, b * timebase_hz, 1_000_000_000);
    vstd::arithmetic::div_mod::lemma_small_mod(
        (a * timebase_hz / 1_000_000_000) as nat,
        clock_modulus() as nat,
    );
    vstd::arithmetic::div_mod::lemma_small_mod(
        (b * timebase_hz / 1_000_000_000) as nat,
        clock_modulus() as nat,
    );
}

/// The time in a timebase counts the whole units which have passed: no more than fit in the time, and
/// no unit less. Where there are more than 64 bits can hold, whole turns are left out.
pub proof fn timebase_counts_whole_units(ns: FineClock, timebase_hz: u64)
    ensures
        exists|turns: int|
            0 <= turns && #[trigger] passed_units(in_timebase(ns, timebase_hz), turns) * 1_000_000_000 <= ns
                * timebase_hz < (passed_units(in_timebase(ns, timebase_hz), turns) + 1) * 1_000_000_000,
        ns * timebase_hz < 0x1_0000_0000_0000_0000 * 1_000_000_000 ==> in_timebase(ns, timebase_hz)
            * 1_000_000_000 <= ns * timebase_hz < (in_timebase(ns, timebase_hz) + 1) * 1_000_000_000,
{
    let product = ns * timebase_hz;
    assert(0 <= product) by (nonlinear_arith)
        requires
            product == ns * timebase_hz,
            0 <= ns,
            0 <= timebase_hz,
    ;
    let units = product / 1_000_000_000;
    let m = clock_modulus();
    vstd::arithmetic::div_mod::lemma_fundamental_div_mod(units, m);
    vstd::arithmetic::div_mod::lemma_div_pos_is_pos(units, m);
    let turns = units / m;
    assert(turns * 0x1_0000_0000_0000_0000 == m * turns);
    assert(passed_units(in_timebase(ns, timebase_hz), turns) == units);
    if product < 0x1_0000_0000_0000_0000 * 1_000_000_000 {
        vstd::arithmetic::div_mod::lemma_small_mod(units as nat, m as nat);
    }
}

/// What a 64-bit number stands for which has gone round so many times.
pub open spec fn passed_units(number: u64, turns: int) -> int {
    number + turns * 0x1_0000_0000_0000_0000
}

/// A whole number of seconds is that many times the units of a second.
pub proof fn seconds_are_whole_units(seconds: u64, timebase_hz: u64)
    requires
        seconds * 1_000_000_000 <= u64::MAX,
        seconds * timebase_hz <= u64::MAX,
    ensures
        in_timebase((seconds * 1_000_000_000) as u64, timebase_hz) == seconds * timebase_hz,
{
    let ns = (seconds * 1_000_000_000) as u64;
    let units = seconds * timebase_hz;
    assert(ns * timebase_hz == units * 1_000_000_000) by (nonlinear_arith)
        requires
            ns == seconds * 1_000_000_000,
            units == seconds * timebase_hz,
    ;
    timebase_counts_whole_units(ns, timebase_hz);
}

/// The moment of a timestamp in nanoseconds is not after the timestamp, and less than a nanosecond
/// before it. Where there are more than 64 bits can hold, whole turns are left out.
pub proof fn nanoseconds_reach_the_timestamp(timestamp: u64, timebase_hz: u64)
    requires
        timebase_hz > 0,
    ensures
        exists|turns: int|
            0 <= turns && #[trigger] passed_units(in_nanoseconds(timestamp, timebase_hz), turns) * timebase_hz
                <= timestamp * 1_000_000_000 < (passed_units(in_nanoseconds(timestamp, timebase_hz), turns) + 1)
                * timebase_hz,
        timestamp * 1_000_000_000 < 0x1_0000_0000_0000_0000 * timebase_hz ==> in_nanoseconds(
            timestamp,
            timebase_hz,
        ) * timebase_hz <= timestamp * 1_000_000_000 < (in_nanoseconds(timestamp, timebase_hz) + 1) * timebase_hz,
{
    let hz = timebase_hz as int;
    let product = timestamp * 1_000_000_000;
    let ns = product / hz;
    let m = clock_modulus();
    vstd::arithmetic::div_mod::lemma_fundamental_div_mod(product, hz);
    vstd::arithmetic::div_mod::lemma_mod_bound(product, hz);
    vstd::arithmetic::div_mod::lemma_div_pos_is_pos(product, hz);
    assert(ns * hz <= product < (ns + 1) * hz) by (nonlinear_arith)
        requires
            product == hz * ns + product % hz,
            0 <= product % hz < hz,
    ;
    vstd::arithmetic::div_mod::lemma_fundamental_div_mod(ns, m);
    vstd::arithmetic::div_mod::lemma_div_pos_is_pos(ns, m);
    let turns = ns / m;
    assert(turns * 0x1_0000_0000_0000_0000 == m * turns);
    assert(passed_units(in_nanoseconds(timestamp, timebase_hz), turns) == ns);
    if product < 0x1_0000_0000_0000_0000 * hz {
        assert(ns < 0x1_0000_0000_0000_0000) by (nonlinear_arith)
            requires
                ns * hz <= product,
                product < 0x1_0000_0000_0000_0000 * hz,
                hz > 0,
        ;
        vstd::arithmetic::div_mod::lemma_small_mod(ns as nat, m as nat);
    }
}

/// Adding what remains to the time which the clock shows gives the moment of the timestamp, as long
/// as it is less than half of the range of the clock away.
pub proof fn remaining_time_leads_to_the_timestamp(now_ns: FineClock, timestamp: u64, timebase_hz: u64, until: int)
    requires
        timebase_hz > 0,
        0 <= until < 0x1_0000_0000_0000_0000,
        until * timebase_hz <= timestamp * 1_000_000_000 < (until + 1) * timebase_hz,
        -0x8000_0000_0000_0000 <= until - now_ns < 0x8000_0000_0000_0000,
    ensures
        clock_diff(in_nanoseconds(timestamp, timebase_hz), now_ns) == until - now_ns,
{
    let hz = timebase_hz as int;
    let product = timestamp * 1_000_000_000;
    assert(product < 0x1_0000_0000_0000_0000 * hz) by (nonlinear_arith)
        requires
            product < (until + 1) * hz,
            until + 1 <= 0x1_0000_0000_0000_0000,
            hz > 0,
    ;
    nanoseconds_reach_the_timestamp(timestamp, timebase_hz);
    let v = in_nanoseconds(timestamp, timebase_hz) as int;
    assert(v == until) by (nonlinear_arith)
        requires
            v * hz <= product < (v + 1) * hz,
            until * hz <= product < (until + 1) * hz,
            hz > 0,
    ;
    crate::common::lemma_signed_residue_within_turn(v - now_ns, clock_modulus());
}

/// A duration in units of a timebase is as long in nanoseconds, but for less than one which is left
/// out; a time which lies before is negative.
pub proof fn durations_are_as_long_in_nanoseconds(units: int, timebase_hz: int)
    requires
        timebase_hz > 0,
    ensures
        units >= 0 ==> 0 <= truncated_quotient(units * 1_000_000_000, timebase_hz) && truncated_quotient(
            units * 1_000_000_000,
            timebase_hz,
        ) * timebase_hz <= units * 1_000_000_000 < (truncated_quotient(units * 1_000_000_000, timebase_hz) + 1)
            * timebase_hz,
        truncated_quotient(-units * 1_000_000_000, timebase_hz) == -truncated_quotient(
            units * 1_000_000_000,
            timebase_hz,
        ),
{
    let a = units * 1_000_000_000;
    assert(-units * 1_000_000_000 == -a);
    if a >= 0 {
        let q = a / timebase_hz;
        vstd::arithmetic::div_mod::lemma_fundamental_div_mod(a, timebase_hz);
        vstd::arithmetic::div_mod::lemma_mod_bound(a, timebase_hz);
        vstd::arithmetic::div_mod::lemma_div_pos_is_pos(a, timebase_hz);
        assert(q * timebase_hz <= a < (q + 1) * timebase_hz) by (nonlinear_arith)
            requires
                a == timebase_hz * q + a % timebase_hz,
                0 <= a % timebase_hz < timebase_hz,
        ;
    }
    assert(0int / timebase_hz == 0) by {
        vstd::arithmetic::div_mod::lemma_basic_div(0, timebase_hz);
    }
}

/// Nobody waits for what is over; otherwise the waiting time and the correction make up what remains.
pub proof fn waiting_time_makes_up_what_remains(remaining: int, correction: int)
    ensures
        waiting_time(remaining, correction) >= 0,
        remaining >= correction ==> waiting_time(remaining, correction) + correction == remaining,
        remaining <= correction ==> waiting_time(remaining, correction) == 0,
{
}

} // verus!
