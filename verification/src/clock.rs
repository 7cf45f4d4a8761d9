//! The wall clock and fresh identifiers.
use vstd::prelude::*;

verus! {

#[verifier::external_type_specification]
#[verifier::external_body]
pub struct ExSystemTime(std::time::SystemTime);

/// `std::time::SystemTime::now()`: a reading of the system clock. Nothing is
/// stated of it: the clock may read any time, before the Unix epoch too.
#[verifier::external_body]
fn system_now() -> (t: std::time::SystemTime) {
    std::time::SystemTime::now()
}

/// `SystemTime::duration_since(UNIX_EPOCH)`: the time from the Unix epoch to
/// `t`, or `None` where `t` lies before the epoch (the call's `Err`). What the
/// duration holds is not stated.
#[verifier::external_body]
fn since_unix_epoch(t: std::time::SystemTime) -> (d: Option<core::time::Duration>) {
    match t.duration_since(std::time::UNIX_EPOCH) {
        Ok(d) => Some(d),
        Err(_) => None,
    }
}

/// `Duration::as_secs`: the whole seconds of `d`. Nothing is stated of the
/// value beyond its type.
#[verifier::external_body]
fn whole_seconds(d: core::time::Duration) -> (s: u64) {
    d.as_secs()
}

/// Whole seconds since the Unix epoch as an `i64`: `None` when they do not fit.
pub fn unix_seconds(secs: u64) -> (r: Option<i64>)
    ensures
        r == (if secs <= i64::MAX as u64 { Some(secs as i64) } else { None::<i64> }),
{
    if secs <= 9_223_372_036_854_775_807u64 {
        Some(secs as i64)
    } else {
        None
    }
}

/// The current Unix time in whole seconds, read from the system clock.
///
/// `None` when the clock reads before the Unix epoch, or so far after it that
/// the seconds do not fit in an `i64` (see `unix_seconds`); which reading
/// comes back is the clock's, so nothing more is stated.
pub fn unix_now() -> (r: Option<i64>)
    ensures
        r matches Some(t) ==> t >= 0,
{
    match since_unix_epoch(system_now()) {
        Some(d) => unix_seconds(whole_seconds(d)),
        None => None,
    }
}

pub open spec fn is_lower_hex_digit(c: char) -> bool {
    ('0' <= c && c <= '9') || ('a' <= c && c <= 'f')
}

/// The hyphenated lower-case form of a UUID: 36 characters, `-` at positions
/// 8, 13, 18 and 23, lower-case hexadecimal digits elsewhere.
pub open spec fn is_uuid_text(s: Seq<char>) -> bool {
    &&& s.len() == 36
    &&& forall|i: int| 0 <= i < 36 ==>
        if i == 8 || i == 13 || i == 18 || i == 23 { s[i] == '-' } else { is_lower_hex_digit(#[trigger] s[i]) }
}

/// `uuid::Uuid::new_v4().to_string()`: a random UUID, written hyphenated in
/// lower case. Which UUID comes out is not stated.
#[verifier::external_body]
pub(crate) fn new_uuid_v4() -> (s: String)
    ensures
        is_uuid_text(s@),
{
    uuid::Uuid::new_v4().to_string()
}

/// A fresh identifier for a stored memory (a random UUID).
pub fn new_memory_id() -> (s: String)
    ensures
        is_uuid_text(s@),
{
    new_uuid_v4()
}

} // verus!
