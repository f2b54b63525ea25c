//! Cache-first resolution of requested resources.
//!
//! One resolve operation runs in two decision steps around the caller's I/O:
//! first [`resolve_before_discovery`] decides, from the tolerantly loaded
//! cache, whether the request is already answered (empty request, or a fresh
//! cache that resolves every token); if not, the caller performs live
//! discovery and hands the outcome to [`resolve_after_discovery`], which
//! falls back to a stale cache before reporting the discovery failure.
//!
//! [`resolve_from_cache_only`] is the strict path for callers that must
//! never touch the network: a missing, corrupt, or expired cache is a hard
//! error.

use vstd::prelude::*;

use crate::ApiResource;
use crate::cache::DiscoveryCacheFile;
use crate::cache::cache_age;
use crate::cache::spec_cache_age;
use crate::cache::spec_is_fresh;
use crate::codec::decode_discovery_cache;
use crate::codec::spec_decode_cache;
use crate::error::ResolveError;
use crate::resolve::ResourceTargetSpec;
use crate::resolve::match_all_targets;
use crate::resolve::resolve_all;
use crate::resolve::spec_all_of;
use crate::resolve::spec_any_of;
use crate::retry::RemoteError;
use crate::strutil::lex_sorted;

verus! {

/// What the cache-first step decided.
#[derive(Debug)]
pub enum CacheFirstResolution {
    /// The request is answered without any network access.
    Resolved(Vec<ApiResource>),
    /// The cache could not answer the request; live discovery is needed.
    NeedsLiveDiscovery,
}

/// The cache-first step of a resolve operation.
///
/// An empty request resolves to an empty result at once. Otherwise, when a
/// cache was loaded, is fresh at `now` under `ttl_secs`, and resolves every
/// token, its result is final; in every other case live discovery is
/// needed.
pub fn resolve_before_discovery(
    targets: &Vec<String>,
    cache: &Option<DiscoveryCacheFile>,
    now: u64,
    ttl_secs: Option<u64>,
) -> (r: CacheFirstResolution)
    ensures
        targets.deep_view().len() == 0 ==> (r matches CacheFirstResolution::Resolved(v)
            && v.deep_view() == Seq::<crate::ResourceModel>::empty()),
        targets.deep_view().len() > 0 ==> (match cache {
            Some(c) => ({
                let (res, unres) = spec_all_of(targets.deep_view(), c@.resources);
                if spec_is_fresh(now, c@.updated_at, ttl_secs) && unres.len() == 0 {
                    r matches CacheFirstResolution::Resolved(v) && v.deep_view() == res
                } else {
                    r is NeedsLiveDiscovery
                }
            }),
            None => r is NeedsLiveDiscovery,
        }),
{
    if targets.len() == 0 {
        let empty: Vec<ApiResource> = Vec::new();
        proof {
            assert(empty.deep_view() =~= Seq::<crate::ResourceModel>::empty());
        }
        return CacheFirstResolution::Resolved(empty);
    }
    match cache {
        Some(c) => {
            if c.is_fresh(now, ttl_secs) {
                match match_all_targets(targets, &c.resources) {
                    Ok(v) => CacheFirstResolution::Resolved(v),
                    Err(_) => CacheFirstResolution::NeedsLiveDiscovery,
                }
            } else {
                CacheFirstResolution::NeedsLiveDiscovery
            }
        },
        None => CacheFirstResolution::NeedsLiveDiscovery,
    }
}

/// The step after live discovery.
///
/// On a successful discovery the fresh list answers the request and any
/// resolution error propagates. On a failed discovery a previously loaded
/// cache, even a stale one, still answers the request when it resolves
/// every token; otherwise the discovery error itself is reported, wrapped
/// as [`ResolveError::DiscoveryFailed`].
pub fn resolve_after_discovery(
    targets: &Vec<String>,
    cache: &Option<DiscoveryCacheFile>,
    live: &Result<Vec<ApiResource>, RemoteError>,
) -> (r: Result<Vec<ApiResource>, ResolveError>)
    ensures
        match live {
            Ok(rs) => ({
                let (res, unres) = spec_all_of(targets.deep_view(), rs.deep_view());
                &&& unres.len() == 0 ==> (r matches Ok(v) && v.deep_view() == res)
                &&& unres.len() > 0 ==> (r matches Err(ResolveError::UnresolvedResources {
                    tokens,
                }) && tokens.deep_view().to_multiset() == unres.to_multiset() && lex_sorted(
                    tokens.deep_view(),
                ))
            }),
            Err(e) => (match cache {
                Some(c) => ({
                    let (res, unres) = spec_all_of(targets.deep_view(), c@.resources);
                    if unres.len() == 0 {
                        r matches Ok(v) && v.deep_view() == res
                    } else {
                        r matches Err(ResolveError::DiscoveryFailed { error }) && error == *e
                    }
                }),
                None => r matches Err(ResolveError::DiscoveryFailed { error }) && error == *e,
            }),
        },
{
    match live {
        Ok(rs) => match_all_targets(targets, rs),
        Err(e) => match cache {
            Some(c) => match match_all_targets(targets, &c.resources) {
                Ok(v) => Ok(v),
                Err(_) => Err(ResolveError::DiscoveryFailed { error: *e }),
            },
            None => Err(ResolveError::DiscoveryFailed { error: *e }),
        },
    }
}

/// Strict, network-free resolution against the cache alone.
///
/// `content` is what could be read from `cache_path` (`None` when the file
/// could not be read). A missing or malformed cache is a hard
/// [`ResolveError::CacheUnreadable`]; a cache older than `ttl_secs` is a
/// hard [`ResolveError::CacheExpired`] carrying the path, the measured age
/// and the configured TTL; otherwise the target specification is resolved
/// against the cached descriptor list.
pub fn resolve_from_cache_only(
    target_spec: &ResourceTargetSpec,
    cache_path: &str,
    content: &Option<String>,
    now: u64,
    ttl_secs: Option<u64>,
) -> (r: Result<Vec<ApiResource>, ResolveError>)
    ensures
        content is None ==> (r matches Err(ResolveError::CacheUnreadable)),
        content matches Some(text) ==> (match spec_decode_cache(text@) {
            None => r matches Err(ResolveError::CacheUnreadable),
            Some(m) => {
                if !spec_is_fresh(now, m.updated_at, ttl_secs) {
                    r matches Err(ResolveError::CacheExpired { path, age_secs, ttl_secs: t })
                        && path@ == cache_path@ && age_secs == spec_cache_age(now, m.updated_at)
                        && ttl_secs == Some(t)
                } else {
                    match target_spec {
                        ResourceTargetSpec::AllResources => r matches Ok(v) && v.deep_view()
                            == m.resources,
                        ResourceTargetSpec::AllOf(tokens) => ({
                            let (res, unres) = spec_all_of(tokens.deep_view(), m.resources);
                            &&& unres.len() == 0 ==> (r matches Ok(v) && v.deep_view() == res)
                            &&& unres.len() > 0 ==> (r matches Err(
                                ResolveError::UnresolvedResources { tokens: failed },
                            ) && failed.deep_view().to_multiset() == unres.to_multiset()
                                && lex_sorted(failed.deep_view()))
                        }),
                        ResourceTargetSpec::AnyOf(tokens) => ({
                            let res = spec_any_of(tokens.deep_view(), m.resources);
                            &&& res.len() > 0 ==> (r matches Ok(v) && v.deep_view() == res)
                            &&& res.len() == 0 ==> (r matches Err(
                                ResolveError::NoResourcesResolved { tokens: failed },
                            ) && failed.deep_view() == tokens.deep_view())
                        }),
                    }
                }
            },
        }),
{
    let text = match content {
        None => {
            return Err(ResolveError::CacheUnreadable);
        },
        Some(text) => text,
    };
    let file = match decode_discovery_cache(text.as_str()) {
        None => {
            return Err(ResolveError::CacheUnreadable);
        },
        Some(file) => file,
    };
    if let Some(ttl) = ttl_secs {
        let age = cache_age(now, file.updated_at);
        if age > ttl {
            return Err(
                ResolveError::CacheExpired {
                    path: cache_path.to_owned(),
                    age_secs: age,
                    ttl_secs: ttl,
                },
            );
        }
    }
    resolve_all(target_spec, &file.resources)
}

} // verus!
