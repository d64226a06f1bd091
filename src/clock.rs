use vstd::prelude::*;

verus! {

/// Nanoseconds from `prev` to `now`: none when the clock went back, and at
/// most `u64::MAX`.
pub open spec fn elapsed_nanos(prev: int, now: int) -> int {
    if now <= prev {
        0
    } else if now - prev > u64::MAX {
        u64::MAX as int
    } else {
        now - prev
    }
}

/// The current time in nanoseconds since the Unix epoch.
///
/// Relies on `std::time::SystemTime::now` and `SystemTime::duration_since`
/// with `UNIX_EPOCH`; a clock set before the epoch reads as 0. Nothing is
/// promised of the value: it is whatever the system clock says.
#[verifier::external_body]
pub fn get_time() -> (t: u128) {
    match std::time::SystemTime::now().duration_since(std::time::UNIX_EPOCH) {
        Ok(d) => d.as_nanos(),
        Err(_) => 0,
    }
}

/// Nanoseconds from `prev` to `now`, as `elapsed_nanos` states.
pub fn elapsed(prev: u128, now: u128) -> (r: u64)
    ensures
        r == elapsed_nanos(prev as int, now as int),
{
    if now <= prev {
        0
    } else if now - prev > u64::MAX as u128 {
        u64::MAX
    } else {
        (now - prev) as u64
    }
}

/// Reads the clock and returns the new reading with the time elapsed since
/// the reading `prev`.
pub fn tick(prev: u128) -> (r: (u128, u64))
    ensures
        r.1 == elapsed_nanos(prev as int, r.0 as int),
{
    let now = get_time();
    (now, elapsed(prev, now))
}

} // verus!
