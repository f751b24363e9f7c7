//! Wall-clock access. The engine itself only ever works on injected
//! instants; these helpers obtain an instant (or the local date) from the
//! system clock and hand back plain values the verified operations accept,
//! whatever the clock returns.

use vstd::prelude::*;
use chrono::Datelike;
use crate::model::{valid_instant, MAX_INSTANT};
use crate::store::Store;

verus! {

/// Relies on `chrono::Utc::now` and `chrono::DateTime::timestamp`: the
/// current instant as whole seconds since the Unix epoch. Nothing is promised
/// of the value — the system clock may jump either way between calls.
#[verifier::external_body]
fn now_epoch_seconds() -> i64 {
    chrono::Utc::now().timestamp()
}

/// Relies on `chrono::Local::now` and the `chrono::Datelike` accessors
/// `year`, `month` and `day`: the caller's local calendar date. chrono
/// documents `month` as ranging over 1..=12 and `day` over 1..=31; nothing
/// more is promised.
#[verifier::external_body]
fn local_date_parts() -> (r: (i32, u32, u32))
    ensures
        1 <= r.1 <= 12,
        1 <= r.2 <= 31,
{
    let today = chrono::Local::now();
    (today.year(), today.month(), today.day())
}

/// Sortable key of a calendar date: year, month and day packed into one
/// integer that orders exactly as the date does.
pub fn date_key(year: i32, month: u32, day: u32) -> (k: i64)
    requires
        1 <= month <= 12,
        1 <= day <= 31,
    ensures
        k == (year as int) * 10000 + (month as int) * 100 + (day as int),
{
    (year as i64) * 10000 + (month as i64) * 100 + (day as i64)
}

/// Today's local date as a sortable key, in the shape `date_key` gives it.
/// The value depends on the system clock and the local time zone, so nothing
/// is promised of it.
pub fn today_date_key() -> i64 {
    let (y, m, d) = local_date_parts();
    date_key(y, m, d)
}

impl Store {
    /// The current wall-clock instant, clamped into the engine's valid range
    /// and never before this store's clock, so every operation accepts it
    /// whatever the system clock returned.
    pub fn observe_now(&self) -> (n: i64)
        requires
            self.wf(),
        ensures
            valid_instant(n),
            n >= self.clock,
    {
        let t = now_epoch_seconds();
        if t < self.clock {
            self.clock
        } else if t > MAX_INSTANT {
            MAX_INSTANT
        } else {
            t
        }
    }
}

} // verus!
