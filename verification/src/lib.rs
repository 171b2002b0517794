//! Turns the append-only activity logs of two coding-assistant tools —
//! one line-oriented JSON log, one SQLite-backed key-value store — into
//! a normalized model of conversation sessions, merges same-project
//! containers across the two sources, and rolls everything up into
//! per-project and global usage metrics: tokens, estimated cost, lines
//! touched, tool invocations, and a daily activity timeline.
//!
//! Reading the logs from disk, querying the stores, and presenting the
//! results are left to thin callers outside this crate; everything
//! here works on plain values and is verified.
pub mod cursor;
pub mod format;
pub mod json;
pub mod metrics;
pub mod models;
pub mod parser;
pub mod scanner;
pub mod text;
pub mod theme;
pub mod timestamp;
pub mod ui;

use vstd::prelude::*;

verus! {

/// Saturating addition on `u64`: every accumulator in this crate adds
/// counters with this operation, so totals never overflow or panic.
pub open spec fn sat_add(a: u64, b: u64) -> u64 {
    if a + b > u64::MAX {
        u64::MAX
    } else {
        (a + b) as u64
    }
}

/// Executable counterpart of `sat_add`.
pub fn sat_add64(a: u64, b: u64) -> (r: u64)
    ensures
        r == sat_add(a, b),
{
    if a <= u64::MAX - b {
        a + b
    } else {
        u64::MAX
    }
}

/// Saturating addition on `i64`, for signed millisecond accumulators.
pub open spec fn sat_add_i64(a: i64, b: i64) -> i64 {
    if a + b > i64::MAX {
        i64::MAX
    } else if a + b < i64::MIN {
        i64::MIN
    } else {
        (a + b) as i64
    }
}

/// Executable counterpart of `sat_add_i64`.
pub fn sat_add64i(a: i64, b: i64) -> (r: i64)
    ensures
        r == sat_add_i64(a, b),
{
    if b >= 0 {
        if a <= i64::MAX - b {
            a + b
        } else {
            i64::MAX
        }
    } else {
        if a >= i64::MIN - b {
            a + b
        } else {
            i64::MIN
        }
    }
}

/// Saturating addition on `usize`, for entity counters.
pub open spec fn sat_add_usize(a: usize, b: usize) -> usize {
    if a + b > usize::MAX {
        usize::MAX
    } else {
        (a + b) as usize
    }
}

/// Executable counterpart of `sat_add_usize`.
pub fn sat_addus(a: usize, b: usize) -> (r: usize)
    ensures
        r == sat_add_usize(a, b),
{
    if a <= usize::MAX - b {
        a + b
    } else {
        usize::MAX
    }
}

/// The value of an optional counter, absent read as zero.
pub open spec fn opt0(o: Option<u64>) -> u64 {
    match o {
        Some(v) => v,
        None => 0,
    }
}

/// Executable counterpart of `opt0`.
pub fn opt_or_zero(o: &Option<u64>) -> (r: u64)
    ensures
        r == opt0(*o),
{
    match o {
        Some(v) => *v,
        None => 0,
    }
}

} // verus!
