//! Time and chance, as the game logic sees them.
//!
//! Every timestamp the library keeps is a `std::time::Instant`; the logic
//! never reads one directly but asks how many milliseconds have passed since
//! it, and the functions that decide on a timeout take that number as an
//! argument so that they can be stated exactly.
use vstd::prelude::*;

verus! {

/// `std::time::Instant`, carried through the game state as an opaque value.
#[verifier::external_type_specification]
#[verifier::external_body]
pub struct ExInstant(std::time::Instant);

/// Calls `std::time::Instant::now`. Nothing is claimed of the instant it
/// returns: it depends on the clock.
#[verifier::external_body]
pub fn now() -> (t: std::time::Instant) {
    std::time::Instant::now()
}

/// `std::time::SystemTime`, read only to seed a choice.
#[verifier::external_type_specification]
#[verifier::external_body]
pub struct ExSystemTime(std::time::SystemTime);

/// Calls `std::time::Instant::elapsed` on `since`: the time that passed since
/// that instant. Nothing is claimed of it: it depends on the clock.
#[verifier::external_body]
fn elapsed(since: &std::time::Instant) -> (d: std::time::Duration) {
    since.elapsed()
}

/// Calls `std::time::Duration::as_millis` on `d`, as a `u64`. Nothing is
/// claimed of the number: the durations it is given come from the clock.
#[verifier::external_body]
fn whole_millis(d: &std::time::Duration) -> (ms: u64) {
    d.as_millis() as u64
}

/// Calls `std::time::SystemTime::now`. Nothing is claimed of the time it
/// returns: it depends on the clock.
#[verifier::external_body]
fn system_now() -> (t: std::time::SystemTime) {
    std::time::SystemTime::now()
}

/// Calls `std::time::SystemTime::duration_since` with `UNIX_EPOCH` on `t`:
/// the time since the epoch, or `None` where `t` lies before it. Nothing is
/// claimed of which: it depends on the clock.
#[verifier::external_body]
fn since_epoch(t: &std::time::SystemTime) -> (d: Option<std::time::Duration>) {
    match t.duration_since(std::time::UNIX_EPOCH) {
        Ok(d) => Some(d),
        Err(_) => None,
    }
}

/// Calls `std::time::Duration::subsec_nanos` on `d`: the nanoseconds past
/// its whole seconds, which std documents as less than one billion.
#[verifier::external_body]
fn subsec_nanos(d: &std::time::Duration) -> (n: u32)
    ensures
        n < 1_000_000_000,
{
    d.subsec_nanos()
}

/// The whole milliseconds that passed since `since`. Nothing is claimed of
/// the number: it depends on the clock.
pub fn elapsed_millis(since: &std::time::Instant) -> (ms: u64) {
    let d = elapsed(since);
    whole_millis(&d)
}

/// The nanoseconds past the current second of the system clock, or `None`
/// when the clock reads a time before the epoch.
pub fn clock_nanos() -> (n: Option<u32>)
    ensures
        n matches Some(v) ==> v < 1_000_000_000,
{
    let t = system_now();
    match since_epoch(&t) {
        Some(d) => Some(subsec_nanos(&d)),
        None => None,
    }
}

} // verus!
