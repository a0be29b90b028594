//! Where the clock and fresh ids are read. The contracts of the core types stay clock-free; this
//! module stamps wall-clock time and mints run/trace ids.

use vstd::prelude::*;
use std::time::{Duration, SystemTime};

verus! {

#[verifier::external_type_specification]
#[verifier::external_body]
pub struct ExSystemTime(std::time::SystemTime);

/// Trusted: `SystemTime::now`. The wall clock; nothing is stated of the value it reads.
#[verifier::external_body]
fn system_now() -> (t: SystemTime) {
    SystemTime::now()
}

/// Trusted: `SystemTime::duration_since` against `UNIX_EPOCH`; `None` when `t` lies before the
/// epoch. Nothing is stated of the duration: the time is opaque here.
#[verifier::external_body]
fn since_unix_epoch(t: &SystemTime) -> (r: Option<Duration>) {
    t.duration_since(std::time::UNIX_EPOCH).ok()
}

/// Trusted: `Duration::as_millis`. The duration is opaque here, so nothing is stated of the count.
#[verifier::external_body]
fn whole_millis(d: &Duration) -> (r: u128) {
    d.as_millis()
}

/// Trusted: `Duration::as_secs`. The duration is opaque here, so nothing is stated of the count.
#[verifier::external_body]
fn whole_secs(d: &Duration) -> (r: u64) {
    d.as_secs()
}

/// Unix epoch milliseconds; `0` when the system clock reads before the epoch. The value depends
/// on the clock alone, so no contract pins it.
pub fn now_millis() -> (r: i64) {
    let t = system_now();
    match since_unix_epoch(&t) {
        Some(d) => {
            let ms = whole_millis(&d);
            #[verifier::truncate]
            (ms as i64)
        },
        None => 0,
    }
}

/// Unix seconds now; `0` when the system clock reads before the epoch (never a panic).
pub fn now_epoch_s() -> (r: u64) {
    let t = system_now();
    match since_unix_epoch(&t) {
        Some(d) => whole_secs(&d),
        None => 0,
    }
}

/// Whether `c` is a lowercase hexadecimal digit.
pub open spec fn is_lower_hex(c: char) -> bool {
    ('0' <= c && c <= '9') || ('a' <= c && c <= 'f')
}

/// Trusted: `uuid::Uuid::new_v4()` rendered with `.simple()`. The id is random; what the uuid crate
/// documents of its simple form is stated: 32 lowercase hex digits.
#[verifier::external_body]
fn random_uuid_simple() -> (r: String)
    ensures
        r@.len() == 32,
        forall|i: int| 0 <= i < r@.len() ==> is_lower_hex(#[trigger] r@[i]),
{
    uuid::Uuid::new_v4().simple().to_string()
}

/// A fresh 12-hex-char run/trace id: the first 12 digits of a random v4 uuid.
pub fn new_trace_id() -> (r: String)
    ensures
        r@.len() == 12,
        forall|i: int| 0 <= i < r@.len() ==> is_lower_hex(#[trigger] r@[i]),
{
    let full = random_uuid_simple();
    let v = crate::text::chars_of(full.as_str());
    let r = crate::text::string_at(&v, 0, 12);
    assert(forall|i: int| 0 <= i < 12 ==> r@[i] == full@[i]);
    r
}

} // verus!
