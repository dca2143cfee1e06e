//! The wall clock.

use vstd::prelude::*;

verus! {

/// Calls `SystemTime::elapsed` on the Unix epoch.
///
/// The time since the Unix epoch, or nothing where the clock stands before it.
/// Nothing is claimed of the reading.
#[verifier::external_body]
fn since_epoch() -> (r: Option<std::time::Duration>) {
    std::time::UNIX_EPOCH.elapsed().ok()
}

/// Calls `Duration::as_millis`.
///
/// The whole milliseconds of a span of time. Nothing is claimed of their number:
/// a span is opaque here, and comes from the clock.
#[verifier::external_body]
fn whole_millis(d: &std::time::Duration) -> (r: u128) {
    d.as_millis()
}

/// The milliseconds since the Unix epoch, or nothing where the clock stands
/// before it.
pub(crate) fn epoch_millis() -> (r: Option<u128>) {
    match since_epoch() {
        Some(d) => Some(whole_millis(&d)),
        None => None,
    }
}

/// A clock reading as a 64-bit number: zero where there is none, clamped where
/// it does not fit.
pub open spec fn reading(millis: Option<u128>) -> u64 {
    match millis {
        None => 0,
        Some(m) => if m > u64::MAX {
            u64::MAX
        } else {
            m as u64
        },
    }
}

/// A clock reading as a 64-bit number.
pub fn reading_of(millis: Option<u128>) -> (r: u64)
    ensures
        r == reading(millis),
{
    match millis {
        None => 0,
        Some(m) => if m > 0xffff_ffff_ffff_ffff {
            u64::MAX
        } else {
            m as u64
        },
    }
}

/// Milliseconds since the Unix epoch, or zero where the clock cannot be read.
pub fn now_ms() -> (r: u64)
    ensures
        exists|millis: Option<u128>| r == #[trigger] reading(millis),
{
    let millis = epoch_millis();
    reading_of(millis)
}

} // verus!
