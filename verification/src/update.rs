//! Release update notices: which published release to tell the user about, and when the
//! cached answer is fresh enough to reuse.
use vstd::prelude::*;

use crate::plugin::{is_semver, semver_greater, semver_text};
use crate::text::{chars_of, concat, string_from_chars};

verus! {

/// A release the user can update to.
#[derive(Debug, Clone, PartialEq, Eq)]
pub struct UpdateAvailable {
    pub version: String,
    pub release_url: String,
}

/// The latest published release, as the release feed describes it.
#[derive(Debug, PartialEq, Eq)]
pub struct ReleaseInfo {
    pub version: String,
    pub release_url: String,
}

impl Clone for ReleaseInfo {
    fn clone(&self) -> (res: Self)
        ensures
            res == *self,
    {
        ReleaseInfo { version: self.version.clone(), release_url: self.release_url.clone() }
    }
}

/// The last answer of the release feed, and when it was asked (seconds since the Unix epoch).
#[derive(Debug, Clone, PartialEq, Eq)]
pub struct UpdateCache {
    pub checked_at: u64,
    pub release: Option<ReleaseInfo>,
}

/// How long a cached answer is reused, in seconds.
pub const CACHE_TTL_SECONDS: u64 = 86400;

/// `s` without its leading `v` characters.
pub open spec fn without_leading_v(s: Seq<char>) -> Seq<char>
    decreases s.len(),
{
    if s.len() > 0 && s[0] == 'v' {
        without_leading_v(s.drop_first())
    } else {
        s
    }
}

/// `s` without its leading `v` characters.
pub fn trim_leading_v(s: &str) -> (res: String)
    ensures
        res@ == without_leading_v(s@),
{
    let chars = chars_of(s);
    let mut i: usize = 0;
    assert(chars@.skip(0) =~= chars@);
    while i < chars.len() && chars[i] == 'v'
        invariant
            i <= chars@.len(),
            chars@ == s@,
            without_leading_v(s@) == without_leading_v(chars@.skip(i as int)),
        decreases chars.len() - i,
    {
        assert(chars@.skip(i as int).drop_first() =~= chars@.skip(i + 1));
        i = i + 1;
    }
    let rest = vstd::slice::slice_subrange(chars.as_slice(), i, chars.len());
    assert(rest@ =~= chars@.skip(i as int));
    string_from_chars(rest)
}

/// The page of a release: the one the feed gives, or the project's release page for its tag.
pub open spec fn release_page(release: ReleaseInfo) -> Seq<char> {
    if release.release_url@.len() == 0 {
        "https://github.com/drl990114/cleanr/releases/tag/v"@ + without_leading_v(release.version@)
    } else {
        release.release_url@
    }
}

impl ReleaseInfo {
    /// The page of this release.
    pub fn release_url(&self) -> (res: String)
        ensures
            res@ == release_page(*self),
    {
        if chars_of(self.release_url.as_str()).len() == 0 {
            let version = trim_leading_v(self.version.as_str());
            concat("https://github.com/drl990114/cleanr/releases/tag/v", version.as_str())
        } else {
            self.release_url.clone()
        }
    }
}

/// The release worth a notice: one whose version, without leading `v`, is a semantic version
/// greater than the current one.
pub open spec fn notice_for(current: Seq<char>, release: ReleaseInfo) -> Option<(Seq<char>, Seq<char>)> {
    let c = without_leading_v(current);
    let l = without_leading_v(release.version@);
    if is_semver(c) && is_semver(l) && semver_greater(l, c) {
        Some((semver_text(l), release_page(release)))
    } else {
        None
    }
}

/// The update notice for `release`, if it is newer than `current_version`.
pub fn newer_release(current_version: &str, release: ReleaseInfo) -> (res: Option<UpdateAvailable>)
    ensures
        match notice_for(current_version@, release) {
            Some((v, url)) => res matches Some(u) && u.version@ == v && u.release_url@ == url,
            None => res is None,
        },
{
    let current = trim_leading_v(current_version);
    let latest = trim_leading_v(release.version.as_str());
    if !crate::plugin::version_parses(current.as_str()) || !crate::plugin::version_parses(latest.as_str()) {
        return None;
    }
    if !crate::plugin::version_greater(latest.as_str(), current.as_str()) {
        return None;
    }
    Some(UpdateAvailable { version: crate::plugin::version_text(latest.as_str()), release_url: release.release_url() })
}

/// A cached answer is reused while less than the time to live has passed since it was asked.
pub open spec fn cache_fresh(now: u64, checked_at: u64, ttl: u64) -> bool {
    (if now >= checked_at { now - checked_at } else { 0 }) < ttl
}

/// What an update check does next.
#[derive(Debug, Clone, PartialEq, Eq)]
pub enum UpdateStep {
    /// Reuse the cached release.
    UseCached(Option<ReleaseInfo>),
    /// Ask the release feed.
    Fetch,
}

/// Decide whether the cached answer can be reused at `now`.
pub fn plan_update_check(cached: Option<UpdateCache>, now: u64, ttl: u64) -> (res: UpdateStep)
    ensures
        match cached {
            Some(c) => if cache_fresh(now, c.checked_at, ttl) { res == UpdateStep::UseCached(c.release) } else { res == UpdateStep::Fetch },
            None => res == UpdateStep::Fetch,
        },
{
    match cached {
        Some(c) => {
            if now.saturating_sub(c.checked_at) < ttl {
                UpdateStep::UseCached(c.release)
            } else {
                UpdateStep::Fetch
            }
        },
        None => UpdateStep::Fetch,
    }
}

/// After asking the release feed at `now`: the answer to cache and the release to compare.
/// A failed request keeps the cached release, if any, and records the attempt.
pub fn after_fetch(cached: Option<UpdateCache>, fetched: Option<ReleaseInfo>, now: u64) -> (res: (UpdateCache, Option<ReleaseInfo>))
    ensures
        res.0.checked_at == now,
        res.0.release == res.1,
        fetched is Some ==> res.1 == fetched,
        fetched is None ==> res.1 == match cached { Some(c) => c.release, None => None },
{
    let release = match fetched {
        Some(r) => Some(r),
        None => match cached {
            Some(c) => c.release,
            None => None,
        },
    };
    let copy = match &release {
        Some(r) => Some(r.clone()),
        None => None,
    };
    (UpdateCache { checked_at: now, release: copy }, release)
}

} // verus!
