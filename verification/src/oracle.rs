//! Price freshness: when a primary price is too old to use, and when the
//! fallback source must answer instead.

use vstd::prelude::*;

verus! {

/// Age of a price updated at `updated_at_secs`, seen at `now_secs`; a price
/// stamped in the future has age zero.
pub open spec fn price_age(updated_at_secs: u64, now_secs: u64) -> int {
    if now_secs > updated_at_secs {
        now_secs - updated_at_secs
    } else {
        0
    }
}

/// Whether a price updated at `updated_at_secs` is older than `max_age_secs`
/// relative to `now_secs`.
pub fn is_stale(updated_at_secs: u64, now_secs: u64, max_age_secs: u64) -> (stale: bool)
    ensures
        stale == (price_age(updated_at_secs, now_secs) > max_age_secs),
        stale == (now_secs > updated_at_secs + max_age_secs),
{
    now_secs.saturating_sub(updated_at_secs) > max_age_secs
}

/// Whether a primary-with-fallback oracle answers with the primary price:
/// only when the primary returned a price (`Some(updated_at_secs)`) that is
/// not stale; otherwise the secondary is asked.
pub fn use_primary(primary_updated_at: Option<u64>, now_secs: u64, max_age_secs: u64) -> (primary:
    bool)
    ensures
        primary == (primary_updated_at matches Some(t) && price_age(t, now_secs) <= max_age_secs),
        primary == (primary_updated_at matches Some(t) && now_secs <= t + max_age_secs),
{
    match primary_updated_at {
        Some(t) => !is_stale(t, now_secs, max_age_secs),
        None => false,
    }
}

} // verus!
