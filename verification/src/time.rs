//! Spans of time and points in time, in nanoseconds.

use vstd::prelude::*;

verus! {

/// Nanoseconds in a second.
pub const NANOS_PER_SEC: u128 = 1_000_000_000;

/// The longest span: all 64 bits of seconds and the last nanosecond of a second.
pub const MAX_NANOS: u128 = 18_446_744_073_709_551_615_999_999_999;

/// A span of time.
#[derive(Clone, Copy, Debug, PartialEq, Eq, Structural)]
pub struct Duration {
    /// The length of the span in nanoseconds.
    pub nanos: u128,
}

impl Duration {
    /// A span has at most 64 bits of seconds.
    pub open spec fn wf(self) -> bool {
        self.nanos <= MAX_NANOS
    }

    /// A whole number of seconds.
    pub fn from_secs(secs: u64) -> (r: Duration)
        ensures
            r.nanos == secs * NANOS_PER_SEC,
            r.wf(),
    {
        Duration { nanos: secs as u128 * NANOS_PER_SEC }
    }
}

/// A point in time, in nanoseconds since the Unix epoch; negative before it.
#[derive(Clone, Copy, Debug, PartialEq, Eq, Structural)]
pub struct Timestamp {
    pub nanos: i128,
}

impl Timestamp {
    /// A point in time is no further from the epoch than the longest span.
    pub open spec fn wf(self) -> bool {
        -MAX_NANOS <= self.nanos <= MAX_NANOS
    }
}

/// The clock of the system, read with `std::time::SystemTime::now`. The reading is no
/// further from the epoch than the longest span; nothing else is stated of it.
#[verifier::external_body]
pub(crate) fn system_now() -> (r: Timestamp)
    ensures
        r.wf(),
{
    let nanos = match std::time::SystemTime::now().duration_since(std::time::UNIX_EPOCH) {
        Ok(after) => after.as_nanos() as i128,
        Err(before) => -(before.duration().as_nanos() as i128),
    };
    Timestamp { nanos }
}

/// The first second that has five digits in its year.
pub const YEAR_10000_SECS: u64 = 253_402_300_800;

/// The text that `humantime` writes for a point in time.
pub uninterp spec fn rfc3339_text(secs: u64, nanos: u32) -> Seq<char>;

/// Writes a point in time with `humantime::format_rfc3339`, in the form of RFC 3339. The text
/// depends on the time and nothing else; which digits it has is not stated. It can be written
/// for the years from 1970 to 9999.
#[verifier::external_body]
fn format_rfc3339(secs: u64, nanos: u32) -> (r: String)
    requires
        secs < YEAR_10000_SECS,
        nanos < NANOS_PER_SEC,
    ensures
        r@ == rfc3339_text(secs, nanos),
{
    humantime::format_rfc3339(std::time::UNIX_EPOCH + std::time::Duration::new(secs, nanos)).to_string()
}

/// The points in time that can be written with a year of four digits.
pub open spec fn printable(t: Timestamp) -> bool {
    0 <= t.nanos < YEAR_10000_SECS * NANOS_PER_SEC
}

/// The text for a printable point in time.
pub open spec fn timestamp_text(t: Timestamp) -> Seq<char> {
    rfc3339_text(
        (t.nanos as u128 / NANOS_PER_SEC) as u64,
        (t.nanos as u128 % NANOS_PER_SEC) as u32,
    )
}

/// Tests whether a point in time can be written.
pub fn is_printable(t: Timestamp) -> (r: bool)
    ensures
        r == printable(t),
{
    0 <= t.nanos && (t.nanos as u128) < 253_402_300_800_000_000_000
}

/// Writes a point in time, such as `2026-07-15T10:00:00Z`.
pub fn rfc3339(t: Timestamp) -> (r: String)
    requires
        printable(t),
    ensures
        r@ == timestamp_text(t),
{
    let n: u128 = t.nanos as u128;
    format_rfc3339((n / NANOS_PER_SEC) as u64, (n % NANOS_PER_SEC) as u32)
}

/// A point in time is written by its seconds since the epoch and the nanoseconds after that; it
/// can be written from the epoch on, up to the end of the year 9999.
pub proof fn law_timestamp_text(secs: u64, nanos: u32, t: Timestamp)
    requires
        nanos < 1_000_000_000,
    ensures
        secs < 253_402_300_800 ==> ({
            let at = Timestamp { nanos: (secs * 1_000_000_000 + nanos) as i128 };
            printable(at) && timestamp_text(at) == rfc3339_text(secs, nanos)
        }),
        printable(t) <==> 0 <= t.nanos && t.nanos as int / 1_000_000_000 < 253_402_300_800,
{
}

} // verus!
