//! Points in time and identifiers.
//!
//! Instants are kept as microseconds since the Unix epoch (`i64`), inside the
//! range that `chrono::DateTime<Utc>` can represent; identifiers are the
//! 128-bit values of UUIDs.
use vstd::prelude::*;

verus! {

/// Seconds of the earliest instant `chrono` represents (-262143-01-01T00:00:00Z).
pub const MIN_TIMESTAMP_SECS: i64 = -8334601315200;

/// Seconds of the latest whole second `chrono` represents (+262142-12-31T23:59:59Z).
pub const MAX_TIMESTAMP_SECS: i64 = 8210266876799;

/// The earliest representable instant, in microseconds.
pub const MIN_TIMESTAMP_MICROS: i64 = -8334601315200000000;

/// The latest representable instant, in microseconds.
pub const MAX_TIMESTAMP_MICROS: i64 = 8210266876799999999;

/// An instant, in microseconds since 1970-01-01T00:00:00Z.
pub type Timestamp = i64;

/// A UUID, as its 128-bit big-endian value.
pub type Uid = u128;

pub open spec fn in_time_range(t: int) -> bool {
    MIN_TIMESTAMP_MICROS <= t <= MAX_TIMESTAMP_MICROS
}

/// The instant `secs` seconds after the epoch, when it is representable.
pub open spec fn instant_of_secs(secs: int) -> Option<i64> {
    if MIN_TIMESTAMP_SECS <= secs <= MAX_TIMESTAMP_SECS {
        Some((secs * 1_000_000) as i64)
    } else {
        None
    }
}

/// Whole seconds of an instant, rounded down (`DateTime::timestamp`).
pub open spec fn secs_of(t: int) -> int {
    t / 1_000_000
}

/// `chrono::Utc::now()`, in microseconds.
///
/// Claimed: the result lies between the epoch and the latest instant that
/// `chrono` represents (`Utc::now` panics on a clock set before the epoch
/// and unwraps `DateTime::from_timestamp`). Nothing else is said of it: it
/// is the wall clock.
#[verifier::external_body]
pub(crate) fn now_micros() -> (t: Timestamp)
    ensures
        0 <= t <= MAX_TIMESTAMP_MICROS,
{
    chrono::Utc::now().timestamp_micros()
}

/// `chrono::DateTime::from_timestamp(secs, 0)`, in microseconds.
///
/// Claimed, from the source of chrono 0.4: the call succeeds exactly for the
/// seconds between -262143-01-01 and +262142-12-31T23:59:59, and the instant
/// it gives is `secs` whole seconds after the epoch.
#[verifier::external_body]
pub(crate) fn instant_from_secs(secs: i64) -> (r: Option<Timestamp>)
    ensures
        r == instant_of_secs(secs as int),
{
    match chrono::DateTime::from_timestamp(secs, 0) {
        Some(d) => Some(d.timestamp_micros()),
        None => None,
    }
}

/// Whole seconds of an instant, rounded down.
pub fn secs_of_instant(t: Timestamp) -> (s: i64)
    ensures
        s == secs_of(t as int),
{
    if t >= 0 {
        t / 1_000_000
    } else {
        let m: i64 = -(t + 1);
        let q: i64 = m / 1_000_000;
        assert(secs_of(t as int) == -q - 1) by (nonlinear_arith)
            requires
                m == -(t + 1),
                q == m / 1_000_000,
                m >= 0,
        ;
        -q - 1
    }
}

/// `uuid::Uuid::new_v4()`, as its 128-bit value.
///
/// Claimed, from the source of uuid 1.x: the value is random except for the
/// version nibble (4) and the RFC 4122 variant bits (`10`), which `new_v4`
/// sets by masking.
#[verifier::external_body]
pub(crate) fn new_uid() -> (id: Uid)
    ensures
        (id >> 76u128) & 0xf == 4,
        (id >> 62u128) & 0x3 == 2,
{
    uuid::Uuid::new_v4().as_u128()
}

} // verus!
