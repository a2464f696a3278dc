//! A NetworkTables 4 server and client core: the protocol's data model, the
//! MessagePack framing of values, and the state kept by servers and clients.

use vstd::prelude::*;

pub mod bimap;
pub mod client;
pub mod frc_type;
pub mod int_map;
pub mod msgpack;
pub mod name_map;
pub mod protocol;
pub mod server;
pub mod text;

verus! {

/// A unit type that represents a successful operation.
#[derive(Debug, Clone, Copy, PartialEq, Eq, Hash, Default)]
pub struct NtSuccess;

/// Hands a result on unchanged; a failure is what a caller reports.
pub fn log_result<T, E>(result: Result<T, E>) -> (r: Result<T, E>)
    ensures
        r == result,
{
    result
}

/// A fresh id from the counter `seed`: its value, after which it moves on by
/// one, wrapping at the top.
pub fn generate_uid(seed: &mut u64) -> (uid: u64)
    ensures
        uid == *old(seed),
        *final(seed) == (if *old(seed) == u64::MAX { 0 } else { (*old(seed) + 1) as u64 }),
{
    let uid = *seed;
    *seed = seed.wrapping_add(1);
    uid
}

/// The type of points in the system's time.
#[verifier::external_type_specification]
#[verifier::external_body]
pub struct ExSystemTime(std::time::SystemTime);

/// Calls `SystemTime::now`: the system clock's current time, of which nothing
/// is promised.
#[verifier::external_body]
fn system_now() -> std::time::SystemTime {
    std::time::SystemTime::now()
}

/// Calls `SystemTime::duration_since` with the Unix epoch; `None` where it
/// fails, which it does for a time before the epoch.
#[verifier::external_body]
fn since_unix_epoch(t: &std::time::SystemTime) -> Option<core::time::Duration> {
    t.duration_since(std::time::UNIX_EPOCH).ok()
}

/// Calls `Duration::as_micros`: the whole microseconds of a duration, of which
/// nothing is stated since a duration's contents are not modelled.
#[verifier::external_body]
fn whole_micros(d: &core::time::Duration) -> u128 {
    d.as_micros()
}

/// A count of microseconds as a `u64`: `None` if it does not fit.
pub fn micros_to_u64(us: u128) -> (r: Option<u64>)
    ensures
        r == (if us <= u64::MAX { Some(us as u64) } else { None::<u64> }),
{
    if us <= 0xffff_ffff_ffff_ffffu128 {
        Some(us as u64)
    } else {
        None
    }
}

/// The microseconds since the Unix epoch, by the system clock; `None` if the
/// clock is before the epoch or the count does not fit in a `u64` (see
/// `micros_to_u64`). What the clock reads is not modelled, so no contract
/// states the result.
pub fn now() -> Option<u64> {
    match since_unix_epoch(&system_now()) {
        Some(d) => {
            let us = whole_micros(&d);
            micros_to_u64(us)
        },
        None => None,
    }
}


} // verus!
