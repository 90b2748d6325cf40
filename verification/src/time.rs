//! Points in time and spans of time, counted in nanoseconds.

use crate::decimal::{parse_u128, parse_unsigned};
use crate::error::{Error, ErrorKind, Result};
use std::time::{SystemTime, SystemTimeError, UNIX_EPOCH};
use vstd::prelude::*;
use vstd::string::StringExecFns;

verus! {

pub const NANOS_PER_SEC: u128 = 1_000_000_000;

/// The longest span a [`Duration`] holds, in nanoseconds: every second that
/// 64 bits can count, and one nanosecond less than one second more.
pub const MAX_NANOS: u128 = 18_446_744_073_709_551_615_999_999_999;

/// A span of time of whole seconds, counted in 64 bits, and nanoseconds below
/// one second. As a point in time it is the span since the epoch.
#[derive(Clone, Copy, Debug, PartialEq, Eq)]
pub struct Duration {
    nanos: u128,
}

impl View for Duration {
    type V = nat;

    /// The span in nanoseconds.
    closed spec fn view(&self) -> nat {
        self.nanos as nat
    }
}

/// The sum of two spans in nanoseconds, held at the longest span.
pub open spec fn saturating_sum(a: nat, b: nat) -> nat {
    if a + b >= MAX_NANOS {
        MAX_NANOS as nat
    } else {
        a + b
    }
}

impl Duration {
    #[verifier::type_invariant]
    spec fn bounded(self) -> bool {
        self.nanos <= MAX_NANOS
    }

    /// The empty span; as a point in time, the epoch.
    pub fn zero() -> (d: Duration)
        ensures
            d@ == 0,
    {
        Duration { nanos: 0 }
    }

    /// The longest span.
    pub fn max() -> (d: Duration)
        ensures
            d@ == MAX_NANOS,
    {
        Duration { nanos: MAX_NANOS }
    }

    pub fn from_secs(secs: u64) -> (d: Duration)
        ensures
            d@ == secs * NANOS_PER_SEC,
    {
        Duration { nanos: secs as u128 * NANOS_PER_SEC }
    }

    /// A span of `secs` seconds and `nanos` nanoseconds.
    pub fn new(secs: u64, nanos: u32) -> (d: Duration)
        requires
            nanos < NANOS_PER_SEC,
        ensures
            d@ == secs * NANOS_PER_SEC + nanos,
    {
        Duration { nanos: secs as u128 * NANOS_PER_SEC + nanos as u128 }
    }

    pub fn as_nanos(&self) -> (n: u128)
        ensures
            n == self@,
            n <= MAX_NANOS,
    {
        proof {
            use_type_invariant(self);
        }
        self.nanos
    }

    pub fn as_secs(&self) -> (s: u64)
        ensures
            s == self@ / NANOS_PER_SEC as nat,
    {
        proof {
            use_type_invariant(self);
        }
        (self.nanos / NANOS_PER_SEC) as u64
    }

    pub fn subsec_nanos(&self) -> (n: u32)
        ensures
            n == self@ % NANOS_PER_SEC as nat,
    {
        (self.nanos % NANOS_PER_SEC) as u32
    }

    /// The sum of two spans, or the longest span where the sum exceeds it.
    pub fn saturating_add(self, rhs: Duration) -> (d: Duration)
        ensures
            d@ == saturating_sum(self@, rhs@),
    {
        proof {
            use_type_invariant(self);
            use_type_invariant(rhs);
        }
        let sum: u128 = self.nanos + rhs.nanos;
        if sum >= MAX_NANOS {
            Duration { nanos: MAX_NANOS }
        } else {
            Duration { nanos: sum }
        }
    }
}

/// Splits a count of nanoseconds into seconds and the nanoseconds below one
/// second. Fails where the seconds need more than 64 bits.
pub fn duration_from_nanos(nanos: u128) -> (r: Result<Duration>)
    ensures
        nanos <= MAX_NANOS ==> r is Ok && r->Ok_0@ == nanos,
        nanos > MAX_NANOS ==> r is Err && r->Err_0.kind() == ErrorKind::Arithmetic,
{
    let secs: u128 = nanos / NANOS_PER_SEC;
    let sub: u128 = nanos % NANOS_PER_SEC;
    if secs > u64::MAX as u128 {
        return Err(Error::Arithmetic("Seconds too high to fit in a u64"));
    }
    Ok(Duration { nanos: secs * NANOS_PER_SEC + sub })
}

/// What reading a timestamp from its decimal text gives: the count of
/// nanoseconds, or the kind of the failure.
pub open spec fn timestamp_of(text: Seq<u8>) -> core::result::Result<nat, ErrorKind> {
    match parse_unsigned(text, u128::MAX as nat) {
        None => Err(ErrorKind::ParseMetadata),
        Some(n) => if n <= MAX_NANOS {
            Ok(n)
        } else {
            Err(ErrorKind::Arithmetic)
        },
    }
}

/// Reads a timestamp written as a decimal count of nanoseconds.
pub fn duration_from_nano_string(input: &[u8]) -> (r: Result<Duration>)
    ensures
        match timestamp_of(input@) {
            Ok(n) => r is Ok && r->Ok_0@ == n,
            Err(k) => r is Err && r->Err_0.kind() == k,
        },
{
    match parse_u128(input) {
        Some(nanos) => duration_from_nanos(nanos),
        None => Err(Error::ParseMetadata(String::from_str("Failed to parse timestamp"))),
    }
}

/// `std::time::SystemTime`, an instant read from the clock. It is carried
/// as it comes; nothing is claimed of what it holds.
#[verifier::external_type_specification]
#[verifier::external_body]
pub struct ExSystemTime(SystemTime);

/// `std::time::SystemTimeError`, the failure of an instant that lies before
/// another. It is carried as it comes; nothing is claimed of what it holds.
#[verifier::external_type_specification]
#[verifier::external_body]
pub struct ExSystemTimeError(SystemTimeError);

/// `SystemTime::now`. The instant depends on the clock: nothing is claimed of it.
#[verifier::external_body]
fn system_now() -> SystemTime {
    SystemTime::now()
}

/// `SystemTime::duration_since`, taken from the epoch and handed on as whole
/// seconds and the nanoseconds beyond them, which `Duration::subsec_nanos`
/// keeps below one second. It fails where the instant lies before the epoch.
#[verifier::external_body]
fn since_epoch(instant: SystemTime) -> (r: core::result::Result<(u64, u32), SystemTimeError>)
    ensures
        r matches Ok((_, sub)) ==> sub < NANOS_PER_SEC,
{
    match instant.duration_since(UNIX_EPOCH) {
        Ok(d) => Ok((d.as_secs(), d.subsec_nanos())),
        Err(e) => Err(e),
    }
}

/// The time on the system clock, as the span since the epoch. Fails only
/// where the clock is set before the epoch.
pub fn unix_time_now() -> (r: Result<Duration>)
    ensures
        r is Err ==> r->Err_0.kind() == ErrorKind::SystemTime,
{
    time_of_reading(since_epoch(system_now()))
}

/// The time that a reading of the clock comes to, in nanoseconds, or the
/// kind of the failure: a reading of seconds and nanoseconds since the
/// epoch is their sum, which must be a span that a [`Duration`] holds; an
/// instant before the epoch is no time.
pub open spec fn reading_outcome(
    reading: core::result::Result<(u64, u32), SystemTimeError>,
) -> core::result::Result<nat, ErrorKind> {
    match reading {
        Ok((secs, sub)) => if secs * NANOS_PER_SEC + sub <= MAX_NANOS {
            Ok((secs * NANOS_PER_SEC + sub) as nat)
        } else {
            Err(ErrorKind::Arithmetic)
        },
        Err(_) => Err(ErrorKind::SystemTime),
    }
}

/// Turns a reading of the clock into a time: the seconds and nanoseconds
/// since the epoch into the span that they make, and the failure of a clock
/// that is set before the epoch into the failure of this crate.
pub fn time_of_reading(reading: core::result::Result<(u64, u32), SystemTimeError>) -> (r: Result<
    Duration,
>)
    ensures
        match reading_outcome(reading) {
            Ok(nanos) => r is Ok && r->Ok_0@ == nanos,
            Err(kind) => r is Err && r->Err_0.kind() == kind,
        },
{
    match reading {
        Ok((secs, sub)) => duration_from_nanos(secs as u128 * NANOS_PER_SEC + sub as u128),
        Err(e) => Err(Error::SystemTime(e.to_string())),
    }
}

} // verus!
