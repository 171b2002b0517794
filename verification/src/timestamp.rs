//! Timestamp normalization: raw numeric candidates become epoch
//! milliseconds, and epoch milliseconds become RFC 3339 strings.
use vstd::prelude::*;

verus! {

/// The boundary above which a raw value is taken as absolute epoch
/// milliseconds.
pub const ABSOLUTE_MS_FLOOR: i64 = 1_000_000_000_000;

/// The boundary above which a composer-creation value is taken as
/// denominated in seconds rather than being a relative offset.
pub const SECONDS_FLOOR: i64 = 1_000_000_000;

/// What `resolve_timestamp` returns: non-positive or absent raw values
/// are unresolvable; values above 10^12 are already epoch milliseconds;
/// smaller values are offsets from the base, resolvable only when a base
/// is known. The offset sum saturates at `i64::MAX`.
pub open spec fn resolve_ts(raw: Option<i64>, base_epoch_ms: i64) -> Option<i64> {
    match raw {
        Option::None => Option::None,
        Option::Some(v) => if v <= 0 {
            Option::None
        } else if v > 1_000_000_000_000 {
            Option::Some(v)
        } else if base_epoch_ms > 0 {
            Option::Some(
                if base_epoch_ms + v > i64::MAX {
                    i64::MAX
                } else {
                    (base_epoch_ms + v) as i64
                },
            )
        } else {
            Option::None
        },
    }
}

/// Resolves a raw numeric timestamp against a session's base epoch.
pub fn resolve_timestamp(raw: Option<i64>, base_epoch_ms: i64) -> (r: Option<i64>)
    ensures
        r == resolve_ts(raw, base_epoch_ms),
{
    match raw {
        Option::None => Option::None,
        Option::Some(v) => {
            if v <= 0 {
                Option::None
            } else if v > ABSOLUTE_MS_FLOOR {
                Option::Some(v)
            } else if base_epoch_ms > 0 {
                if base_epoch_ms <= i64::MAX - v {
                    Option::Some(base_epoch_ms + v)
                } else {
                    Option::Some(i64::MAX)
                }
            } else {
                Option::None
            }
        },
    }
}

/// What a composer-creation value resolves to: values above 10^12 are
/// epoch milliseconds, values above 10^9 are epoch seconds and scale by
/// 1000, anything smaller is not a creation time.
pub open spec fn composer_ms(v: i64) -> Option<i64> {
    if v > 1_000_000_000_000 {
        Option::Some(v)
    } else if v > 1_000_000_000 {
        Option::Some((v * 1000) as i64)
    } else {
        Option::None
    }
}

/// Resolves a composer-creation value to epoch milliseconds.
pub fn composer_created_ms(v: i64) -> (r: Option<i64>)
    ensures
        r == composer_ms(v),
{
    if v > ABSOLUTE_MS_FLOOR {
        Option::Some(v)
    } else if v > SECONDS_FLOOR {
        Option::Some(v * 1000)
    } else {
        Option::None
    }
}

/// The RFC 3339 UTC rendering of an epoch-millisecond value, or the
/// empty sequence where the value is out of the calendar's range.
pub uninterp spec fn iso_of_ms(ms: int) -> Seq<char>;

/// Relies on chrono's `DateTime::from_timestamp_millis` and
/// `DateTime::to_rfc3339`: the rendering depends on the millisecond
/// value alone; an out-of-range value gives `None`, which this function
/// renders as the empty string.
#[verifier::external_body]
pub(crate) fn ms_to_iso(ms: i64) -> (r: String)
    ensures
        r@ == iso_of_ms(ms as int),
{
    chrono::DateTime::<chrono::Utc>::from_timestamp_millis(ms)
        .map(|d| d.to_rfc3339())
        .unwrap_or_default()
}

} // verus!
