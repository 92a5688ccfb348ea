//! The time of day.
use vstd::prelude::*;

verus! {

/// `SystemTime::now` of std: the time since the Unix epoch, or none for a clock that is set
/// before it, in whole seconds and nanoseconds of the next one. The clock decides the result;
/// there are fewer than a billion nanoseconds.
#[verifier::external_body]
fn since_epoch() -> (time: (u64, u32))
    ensures
        time.1 < 1_000_000_000,
{
    let time = std::time::SystemTime::now().duration_since(std::time::UNIX_EPOCH).unwrap_or_default();
    (time.as_secs(), time.subsec_nanos())
}

/// The time since the Unix epoch in whole seconds. The clock decides the result.
pub(crate) fn unix_seconds() -> u64 {
    since_epoch().0
}

/// A time in milliseconds, in 64 bits.
pub open spec fn in_millis(seconds: u64, nanos: u32) -> u64 {
    ((seconds * 1_000 + nanos as int / 1_000_000) % 0x1_0000_0000_0000_0000) as u64
}

/// A time in milliseconds.
pub fn millis_of(seconds: u64, nanos: u32) -> (millis: u64)
    ensures
        millis == in_millis(seconds, nanos),
{
    let wide: u128 = seconds as u128 * 1_000 + (nanos / 1_000_000) as u128;
    (wide % 0x1_0000_0000_0000_0000) as u64
}

/// The time since the Unix epoch in milliseconds. The clock decides the result.
pub(crate) fn unix_millis() -> u64 {
    let (seconds, nanos) = since_epoch();
    millis_of(seconds, nanos)
}

/// A time in milliseconds has a thousand of them for each second, and the whole ones of the rest.
pub proof fn law_second_has_a_thousand_millis(seconds: u64, nanos: u32)
    requires
        seconds <= 0x20_0000_0000_0000,
    ensures
        in_millis(seconds, nanos) == seconds * 1000 + nanos as int / 1_000_000,
{
}

} // verus!
