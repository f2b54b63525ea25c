use kubex::cache::DiscoveryCacheFile;
use kubex::discover::{resolve_after_discovery, resolve_before_discovery, CacheFirstResolution};
use kubex::{ApiResource, RemoteError, ResolveError};

fn descriptors() -> Vec<ApiResource> {
    vec![
        ApiResource {
            group: None,
            version: Some("v1".to_string()),
            kind: "Pod".to_string(),
            name: "pods".to_string(),
            singular_name: "pod".to_string(),
            short_names: vec!["po".to_string()],
            namespaced: true,
        },
        ApiResource {
            group: None,
            version: Some("v1".to_string()),
            kind: "Service".to_string(),
            name: "services".to_string(),
            singular_name: "service".to_string(),
            short_names: vec!["svc".to_string()],
            namespaced: true,
        },
    ]
}

fn snapshot(updated_at: u64) -> DiscoveryCacheFile {
    DiscoveryCacheFile {
        updated_at,
        resources: descriptors(),
    }
}

#[test]
fn empty_targets_resolve_without_any_cache_or_network() {
    let r = resolve_before_discovery(&Vec::new(), &None, 0, Some(600));
    match r {
        CacheFirstResolution::Resolved(v) => assert_eq!(v, Vec::new()),
        other => panic!("expected an immediate empty result, got {:?}", other),
    }
}

#[test]
fn a_fresh_cache_answers_without_discovery() {
    let cache = Some(snapshot(1_000));
    let targets = vec!["pods".to_string(), "svc".to_string()];
    match resolve_before_discovery(&targets, &cache, 1_300, Some(600)) {
        CacheFirstResolution::Resolved(v) => assert_eq!(v, descriptors()),
        other => panic!("expected a cache hit, got {:?}", other),
    }
}

#[test]
fn a_stale_cache_defers_to_live_discovery() {
    let cache = Some(snapshot(1_000));
    let targets = vec!["pods".to_string()];
    match resolve_before_discovery(&targets, &cache, 2_000, Some(600)) {
        CacheFirstResolution::NeedsLiveDiscovery => {}
        other => panic!("expected live discovery, got {:?}", other),
    }
    // So does a missing cache, and a fresh cache that cannot resolve.
    match resolve_before_discovery(&targets, &None, 2_000, Some(600)) {
        CacheFirstResolution::NeedsLiveDiscovery => {}
        other => panic!("expected live discovery, got {:?}", other),
    }
    let bogus = vec!["bogus".to_string()];
    match resolve_before_discovery(&bogus, &cache, 1_300, Some(600)) {
        CacheFirstResolution::NeedsLiveDiscovery => {}
        other => panic!("expected live discovery, got {:?}", other),
    }
}

#[test]
fn without_a_ttl_any_cache_age_counts_as_fresh() {
    let cache = Some(snapshot(0));
    let targets = vec!["pods".to_string()];
    match resolve_before_discovery(&targets, &cache, u64::MAX, None) {
        CacheFirstResolution::Resolved(v) => assert_eq!(v, vec![descriptors()[0].clone()]),
        other => panic!("expected a cache hit, got {:?}", other),
    }
}

#[test]
fn successful_discovery_answers_and_propagates_resolution_errors() {
    let targets = vec!["svc".to_string()];
    let live: Result<Vec<ApiResource>, RemoteError> = Ok(descriptors());
    let resolved = resolve_after_discovery(&targets, &None, &live).expect("svc resolves");
    assert_eq!(resolved, vec![descriptors()[1].clone()]);

    let targets = vec!["bogus".to_string()];
    match resolve_after_discovery(&targets, &Some(snapshot(0)), &live) {
        Err(ResolveError::UnresolvedResources { tokens }) => {
            assert_eq!(tokens, vec!["bogus".to_string()]);
        }
        other => panic!("expected UnresolvedResources, got {:?}", other),
    }
}

#[test]
fn failed_discovery_still_succeeds_via_a_stale_cache() {
    let targets = vec!["pods".to_string()];
    let live: Result<Vec<ApiResource>, RemoteError> =
        Err(RemoteError::Api { code: 503 });
    let cache = Some(snapshot(1));
    let resolved =
        resolve_after_discovery(&targets, &cache, &live).expect("the stale cache rescues");
    assert_eq!(resolved, vec![descriptors()[0].clone()]);
}

#[test]
fn failed_discovery_without_a_cache_reports_the_discovery_error() {
    let targets = vec!["pods".to_string()];
    let live: Result<Vec<ApiResource>, RemoteError> =
        Err(RemoteError::Api { code: 503 });
    match resolve_after_discovery(&targets, &None, &live) {
        Err(ResolveError::DiscoveryFailed { error }) => {
            assert_eq!(error, RemoteError::Api { code: 503 });
        }
        other => panic!("expected DiscoveryFailed, got {:?}", other),
    }
    // A cache that cannot resolve does not rescue either.
    let cache = Some(snapshot(1));
    let bogus = vec!["bogus".to_string()];
    match resolve_after_discovery(&bogus, &cache, &live) {
        Err(ResolveError::DiscoveryFailed { error }) => {
            assert_eq!(error, RemoteError::Api { code: 503 });
        }
        other => panic!("expected DiscoveryFailed, got {:?}", other),
    }
}
