//! Microsecond timestamps with the fixed-width big-endian encoding whose
//! byte order matches numeric order, plus the time-bucket and freshness
//! arithmetic shared by both credential formats.

use crate::wire::{be8, push_be8};
use vstd::prelude::*;

verus! {

/// Length of a time bucket, in microseconds: 30 seconds.
pub const TIME_INTERVAL: u64 = 30_000_000;

/// Tolerated clock skew for the structured token, in microseconds:
/// 45 seconds in the past or the future.
pub const TIMESTAMP_WINDOW: u64 = 45_000_000;

/// A microsecond-resolution instant.
#[derive(Clone, Copy, Debug, PartialEq, Eq, Structural)]
pub struct Timestamp {
    micros: u64,
}

impl View for Timestamp {
    type V = u64;

    closed spec fn view(&self) -> u64 {
        self.micros
    }
}

/// The 30-second bucket an instant falls in.
pub open spec fn bucket_of(micros: u64) -> u64 {
    micros / TIME_INTERVAL
}

/// The first bucket the replay caches retain at time `now`: two whole
/// intervals behind the present.
pub open spec fn gc_threshold(now: u64) -> u64 {
    if bucket_of(now) >= 2 {
        (bucket_of(now) - 2) as u64
    } else {
        0
    }
}

/// More than the tolerated window ahead of `now`.
pub open spec fn too_far_in_the_future(ts: u64, now: u64) -> bool {
    ts > now && ts - now > TIMESTAMP_WINDOW
}

/// More than the tolerated window behind `now`.
pub open spec fn expired(ts: u64, now: u64) -> bool {
    now > ts && now - ts > TIMESTAMP_WINDOW
}

/// Inside the tolerated window around `now`.
pub open spec fn fresh(ts: u64, now: u64) -> bool {
    !too_far_in_the_future(ts, now) && !expired(ts, now)
}

impl Timestamp {
    /// Relies on `std::time::SystemTime::now`: the current instant, in
    /// microseconds since the Unix epoch; nothing is promised of the value.
    #[verifier::external_body]
    pub fn now() -> Timestamp {
        let micros = std::time::SystemTime::now().duration_since(std::time::UNIX_EPOCH).map(
            |d| d.as_micros() as u64,
        ).unwrap_or(0);
        Timestamp { micros }
    }

    pub fn from_micros(micros: u64) -> (r: Timestamp)
        ensures
            r@ == micros,
    {
        Timestamp { micros }
    }

    pub fn into_inner(self) -> (r: u64)
        ensures
            r == self@,
    {
        self.micros
    }

    /// The 8-byte big-endian encoding; byte-lexicographic order equals
    /// numeric order.
    pub fn to_bytes(&self) -> (r: Vec<u8>)
        ensures
            r@ == be8(self@),
    {
        let mut out: Vec<u8> = Vec::new();
        push_be8(&mut out, self.micros);
        out
    }

    /// This instant moved `d` microseconds into the past, stopping at zero.
    pub fn sub_micros(&self, d: u64) -> (r: Timestamp)
        ensures
            r@ == if self@ >= d {
                (self@ - d) as u64
            } else {
                0u64
            },
    {
        if self.micros >= d {
            Timestamp { micros: self.micros - d }
        } else {
            Timestamp { micros: 0 }
        }
    }

    /// This instant moved `d` microseconds into the future, stopping at the
    /// largest representable instant.
    pub fn add_micros(&self, d: u64) -> (r: Timestamp)
        ensures
            r@ == if self@ + d <= u64::MAX {
                (self@ + d) as u64
            } else {
                u64::MAX
            },
    {
        if self.micros <= u64::MAX - d {
            Timestamp { micros: self.micros + d }
        } else {
            Timestamp { micros: u64::MAX }
        }
    }
}

} // verus!
