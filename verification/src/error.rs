//! Error taxonomy for cache access and resource resolution.

use vstd::prelude::*;

use crate::retry::RemoteError;

verus! {

/// Why cache-backed resolution failed.
#[derive(Debug)]
pub enum ResolveError {
    /// The cache file was missing, unreadable, or malformed.
    CacheUnreadable,
    /// The cache at `path` was older than the configured TTL.
    CacheExpired { path: String, age_secs: u64, ttl_secs: u64 },
    /// Tokens that every-token resolution could not resolve, in
    /// lexicographic order; always the complete list, not just the first.
    UnresolvedResources { tokens: Vec<String> },
    /// Any-token resolution resolved nothing; `tokens` names every token
    /// that was attempted.
    NoResourcesResolved { tokens: Vec<String> },
    /// Live discovery failed and no cache could rescue the call; carries the
    /// remote error unchanged.
    DiscoveryFailed { error: RemoteError },
}

} // verus!
