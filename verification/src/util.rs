//! Conversion of epoch-second timestamps to display text.

use chrono::TimeZone;
use vstd::prelude::*;

verus! {

/// The least epoch-second value the date formatter accepts
/// (0000-01-01 00:00:00 UTC).
pub const MIN_FORMAT_EPOCH: i64 = -62_167_219_200;

/// The greatest epoch-second value the date formatter accepts
/// (9999-12-31 23:59:59 UTC).
pub const MAX_FORMAT_EPOCH: i64 = 253_402_300_799;

/// The `YYYY-MM-DD HH:MM` rendering of an epoch-second instant at UTC.
/// The text is a function of `sec` alone: the same instant always renders
/// the same way, on every machine.
pub uninterp spec fn utc_datetime_text(sec: i64) -> Seq<char>;

/// Relies on chrono's `FixedOffset::east_opt(0)`, `TimeZone::timestamp_opt`
/// and `DateTime::format` with `"%Y-%m-%d %H:%M"`: for instants within years
/// 0000..=9999 the conversion is defined, fixed at offset +00:00 (no local
/// time is consulted), and each field is zero-padded to its fixed width, so
/// the text has exactly 16 characters.
#[verifier::external_body]
pub fn time_from_utc_seconds(sec: i64) -> (r: String)
    requires
        MIN_FORMAT_EPOCH <= sec <= MAX_FORMAT_EPOCH,
    ensures
        r@ == utc_datetime_text(sec),
        r@.len() == 16,
{
    let time = chrono::FixedOffset::east_opt(0).unwrap().timestamp_opt(sec, 0).unwrap();
    format!("{}", time.format("%Y-%m-%d %H:%M"))
}

} // verus!
