//! The two sources of values that no argument decides: random identifiers and the clock.

use vstd::prelude::*;

verus! {

/// The version bits say "random" and the variant bits are those of RFC 9562. Such an id is not
/// zero.
pub open spec fn is_random_id(id: u128) -> bool {
    &&& (id as int / 0x1000_0000_0000_0000_0000) % 16 == 4
    &&& (id as int / 0x4000_0000_0000_0000) % 4 == 2
}

/// `uuid::Uuid::new_v4`, as the 128-bit value of the identifier that it makes: random, with the
/// version and variant bits of a random identifier. That two calls give different values is
/// likely and not stated. The call panics where the system has no random bytes to give.
#[verifier::external_body]
pub(crate) fn random_id() -> (r: u128)
    ensures
        is_random_id(r),
{
    uuid::Uuid::new_v4().as_u128()
}

/// A new identifier.
pub fn new_id() -> (r: u128)
    ensures
        is_random_id(r),
        r != 0,
{
    random_id()
}

/// The seconds that `SystemTime::now` is past the Unix epoch; none where the clock stands before
/// it. The time decides, so nothing is stated of the result.
#[verifier::external_body]
fn seconds_past_epoch() -> (r: Option<u64>) {
    std::time::SystemTime::now().duration_since(std::time::UNIX_EPOCH).ok().map(|d| d.as_secs())
}

/// A reading of the clock as Unix seconds: 0 for a clock that stands before the epoch.
pub open spec fn unix_seconds_of(reading: Option<u64>) -> i64 {
    match reading {
        Some(s) => s as i64,
        None => 0,
    }
}

/// A reading of the clock as Unix seconds: 0 for a clock that stands before the epoch.
pub fn unix_seconds(reading: Option<u64>) -> (r: i64)
    ensures
        r == unix_seconds_of(reading),
{
    match reading {
        Some(s) => s as i64,
        None => 0,
    }
}

/// The time in Unix seconds.
pub fn now_unix() -> (r: i64)
    ensures
        exists|reading: Option<u64>| r == #[trigger] unix_seconds_of(reading),
{
    let reading = seconds_past_epoch();
    unix_seconds(reading)
}

} // verus!
