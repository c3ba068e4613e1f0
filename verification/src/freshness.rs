//! Cache freshness: decides, from two modification timestamps, whether
//! a repository's on-disk file-manifest cache must be re-extracted from its
//! source archive.
//!
//! The decision is purely a comparison of timestamps (given here as
//! nanoseconds since some fixed epoch); the caller reads the timestamps and
//! performs the extraction.

use vstd::prelude::*;

verus! {

/// What the freshness decision knows of one repository's cache directory:
/// whether it exists, and if so its modification timestamp.
pub struct CacheState {
    pub exists: bool,
    pub mtime: u128,
}

/// A missing cache is always stale; an existing one is stale exactly when
/// the source archive is strictly newer than it.
pub open spec fn spec_needs_extraction(cache: CacheState, archive_mtime: u128) -> bool {
    !cache.exists || archive_mtime > cache.mtime
}

/// Decide whether the cache must be re-extracted from the archive.
pub fn needs_extraction(cache: &CacheState, archive_mtime: u128) -> (stale: bool)
    ensures
        stale == spec_needs_extraction(*cache, archive_mtime),
{
    !cache.exists || archive_mtime > cache.mtime
}

/// Model of one conditional refresh: if the cache is reported stale,
/// the caller extracts, which leaves an existing cache stamped with the
/// current time `now`; otherwise the cache is untouched. The second result
/// says whether an extraction was performed.
pub open spec fn spec_refresh(cache: CacheState, archive_mtime: u128, now: u128) -> (CacheState, bool) {
    if spec_needs_extraction(cache, archive_mtime) {
        (CacheState { exists: true, mtime: now }, true)
    } else {
        (cache, false)
    }
}

/// Freshness is idempotent: once a refresh has run at a time no earlier
/// than the archive's timestamp, and the archive's timestamp has not
/// changed, a second refresh extracts nothing and leaves the cache exactly
/// as the first left it. In particular the two runs together extract at
/// most once.
pub proof fn lemma_refresh_idempotent(
    cache: CacheState,
    archive_mtime: u128,
    now1: u128,
    now2: u128,
)
    requires
        archive_mtime <= now1,
    ensures
        ({
            let (c1, _did1) = spec_refresh(cache, archive_mtime, now1);
            let (c2, did2) = spec_refresh(c1, archive_mtime, now2);
            c2 == c1 && !did2
        }),
{
}

} // verus!
