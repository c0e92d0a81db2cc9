//! Fresh identifiers and wall-clock time.

use std::time::{Duration, SystemTime, SystemTimeError, UNIX_EPOCH};
use vstd::prelude::*;

verus! {

#[verifier::external_type_specification]
#[verifier::external_body]
pub struct ExSystemTime(SystemTime);

#[verifier::external_type_specification]
#[verifier::external_body]
pub struct ExSystemTimeError(SystemTimeError);

/// `uuid::Uuid::new_v4()`, as its 128-bit value. The uuid crate draws the
/// bits at random and then sets the version nibble to 4 and the variant bits
/// to `10`; nothing else about the value is claimed.
#[verifier::external_body]
fn random_uuid_bits() -> (bits: u128)
    ensures
        bits & 0xF000_C000_0000_0000_0000u128 == 0x4000_8000_0000_0000_0000u128,
{
    uuid::Uuid::new_v4().as_u128()
}

/// A fresh random (version 4) identifier; never the nil identifier.
pub fn new_id() -> (id: u128)
    ensures
        id != 0,
        id & 0xF000_C000_0000_0000_0000u128 == 0x4000_8000_0000_0000_0000u128,
{
    let bits = random_uuid_bits();
    assert(bits & 0xF000_C000_0000_0000_0000u128 == 0x4000_8000_0000_0000_0000u128 ==> bits != 0)
        by (bit_vector);
    bits
}

/// `std::time::SystemTime::now()`; the value depends on the machine's clock.
#[verifier::external_body]
fn system_now() -> SystemTime {
    SystemTime::now()
}

/// `SystemTime::duration_since(UNIX_EPOCH)`; it fails when the clock is set
/// before 1970. Nothing is claimed of the duration.
#[verifier::external_body]
fn since_unix_epoch(time: &SystemTime) -> Result<Duration, SystemTimeError> {
    time.duration_since(UNIX_EPOCH)
}

/// `Duration::as_millis`; nothing is claimed of the value.
#[verifier::external_body]
fn duration_millis(duration: &Duration) -> u128 {
    duration.as_millis()
}

/// Milliseconds since the Unix epoch from the clock's reading: the elapsed
/// milliseconds saturated to `u64`, or 0 when the clock reads a time before
/// the epoch (`None`).
pub fn epoch_millis(elapsed: Option<u128>) -> (ms: u64)
    ensures
        ms == match elapsed {
            Some(millis) => if millis > u64::MAX { u64::MAX } else { millis as u64 },
            None => 0u64,
        },
{
    match elapsed {
        Some(millis) => if millis > u64::MAX as u128 {
            u64::MAX
        } else {
            millis as u64
        },
        None => 0,
    }
}

/// Milliseconds since the Unix epoch, saturated to `u64`, or 0 when the clock
/// reads a time before the epoch. The value depends on the machine's clock,
/// so nothing is claimed of it.
pub fn unix_ms() -> (ms: u64) {
    let now = system_now();
    let elapsed = match since_unix_epoch(&now) {
        Ok(duration) => Some(duration_millis(&duration)),
        Err(_) => None,
    };
    epoch_millis(elapsed)
}

} // verus!
