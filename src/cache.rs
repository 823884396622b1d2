//! Whether a cached artifact may be used instead of fetching the source again.

use vstd::prelude::*;

verus! {

/// How old a cached artifact may be, in seconds: two days.
pub const MAX_CACHE_AGE_SECS: u64 = 2 * 86400;

#[derive(Debug, Clone, Copy, PartialEq, Eq, Structural)]
pub enum Freshness {
    Fresh,
    Stale,
}

/// Fresh where the artifact exists (`age_secs` is its age) and is younger
/// than `max_age_secs`; stale otherwise.
pub fn cache_status(age_secs: Option<u64>, max_age_secs: u64) -> (r: Freshness)
    ensures
        r == match age_secs {
            Some(a) => if a < max_age_secs {
                Freshness::Fresh
            } else {
                Freshness::Stale
            },
            None => Freshness::Stale,
        },
{
    match age_secs {
        Some(a) => {
            if a < max_age_secs {
                Freshness::Fresh
            } else {
                Freshness::Stale
            }
        },
        None => Freshness::Stale,
    }
}

} // verus!
