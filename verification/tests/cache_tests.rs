use kubex::cache::{
    cache_age, discovery_cache_file_name, discovery_cache_path, sanitize_context,
    DiscoveryCacheFile,
};
use kubex::codec::{decode_discovery_cache, encode_discovery_cache};
use kubex::discover::resolve_from_cache_only;
use kubex::resolve::ResourceTargetSpec;
use kubex::{ApiResource, ResolveError};

fn sample_resources() -> Vec<ApiResource> {
    vec![
        ApiResource {
            group: Some("apps".to_string()),
            version: Some("v1".to_string()),
            kind: "Deployment".to_string(),
            name: "deployments".to_string(),
            singular_name: "deployment".to_string(),
            short_names: vec!["deploy".to_string()],
            namespaced: true,
        },
        ApiResource {
            group: None,
            version: Some("v1".to_string()),
            kind: "Namespace".to_string(),
            name: "namespaces".to_string(),
            singular_name: "namespace".to_string(),
            short_names: vec!["ns".to_string()],
            namespaced: false,
        },
    ]
}

#[test]
fn encode_produces_the_documented_text() {
    let file = DiscoveryCacheFile {
        updated_at: 1234,
        resources: vec![sample_resources()[0].clone()],
    };
    let text = encode_discovery_cache(&file);
    assert_eq!(
        text,
        "{\"updated_at\":1234,\"resources\":[{\"group\":\"apps\",\"version\":\"v1\",\
         \"kind\":\"Deployment\",\"name\":\"deployments\",\"singularName\":\"deployment\",\
         \"shortNames\":[\"deploy\"],\"namespaced\":true}]}"
    );
}

#[test]
fn save_then_load_round_trips_an_equal_descriptor_list() {
    let file = DiscoveryCacheFile {
        updated_at: 1_700_000_000,
        resources: sample_resources(),
    };
    let text = encode_discovery_cache(&file);
    let loaded = decode_discovery_cache(&text).expect("encoder output must decode");
    assert_eq!(loaded, file);
}

#[test]
fn round_trip_keeps_escaped_and_empty_values() {
    let file = DiscoveryCacheFile {
        updated_at: 0,
        resources: vec![ApiResource {
            group: None,
            version: None,
            kind: "We\"ird\\Kind".to_string(),
            name: String::new(),
            singular_name: "x".to_string(),
            short_names: vec![String::new(), "a\\b".to_string()],
            namespaced: false,
        }],
    };
    let text = encode_discovery_cache(&file);
    let loaded = decode_discovery_cache(&text).expect("escapes must decode");
    assert_eq!(loaded, file);

    let empty = DiscoveryCacheFile {
        updated_at: u64::MAX,
        resources: Vec::new(),
    };
    let text = encode_discovery_cache(&empty);
    let loaded = decode_discovery_cache(&text).expect("empty snapshot must decode");
    assert_eq!(loaded, empty);
}

#[test]
fn decode_rejects_malformed_content() {
    assert!(decode_discovery_cache("").is_none());
    assert!(decode_discovery_cache("not json").is_none());
    assert!(decode_discovery_cache("{\"updated_at\":12,\"resources\":[]}x").is_none());
    assert!(decode_discovery_cache("{\"updated_at\":-1,\"resources\":[]}").is_none());
    assert!(decode_discovery_cache("{\"updated_at\":99999999999999999999999,\"resources\":[]}")
        .is_none());
    assert!(decode_discovery_cache("{\"resources\":[],\"updated_at\":12}").is_none());
}

#[test]
fn freshness_follows_the_ttl() {
    let file = DiscoveryCacheFile {
        updated_at: 1_000_000,
        resources: Vec::new(),
    };
    let ttl_secs = Some(600);
    // Fresh immediately after save.
    assert!(file.is_fresh(1_000_000, ttl_secs));
    assert!(file.is_fresh(1_000_600, ttl_secs));
    // Stale once the clock advances past the TTL.
    assert!(!file.is_fresh(1_000_601, ttl_secs));
    // Without a TTL the snapshot is always usable.
    assert!(file.is_fresh(u64::MAX, None));
    // A timestamp in the future counts as age zero.
    assert_eq!(cache_age(999_999, 1_000_000), 0);
    assert!(file.is_fresh(999_000, ttl_secs));
}

#[test]
fn context_names_are_normalized_into_safe_cache_keys() {
    assert_eq!(sanitize_context("dev-cluster_1"), "dev-cluster_1");
    assert_eq!(sanitize_context("gke_proj/region:ctx"), "gke_proj_region_ctx");
    assert_eq!(sanitize_context("../../etc/passwd"), "______etc_passwd");
    assert_eq!(discovery_cache_file_name("a/b"), "a_b.json");
}

#[test]
fn cache_path_ends_with_the_normalized_file_name() {
    if let Some(path) = discovery_cache_path("my ctx") {
        assert!(path.ends_with("/keye/my_ctx.json"));
    }
}

#[test]
fn cache_only_resolution_fails_hard_on_missing_or_corrupt_cache() {
    let spec = ResourceTargetSpec::AllResources;
    match resolve_from_cache_only(&spec, "/tmp/cache.json", &None, 0, None) {
        Err(ResolveError::CacheUnreadable) => {}
        other => panic!("expected CacheUnreadable, got {:?}", other),
    }
    match resolve_from_cache_only(&spec, "/tmp/cache.json", &Some("garbage".to_string()), 0, None)
    {
        Err(ResolveError::CacheUnreadable) => {}
        other => panic!("expected CacheUnreadable, got {:?}", other),
    }
}

#[test]
fn cache_only_resolution_reports_expiry_with_path_age_and_ttl() {
    let file = DiscoveryCacheFile {
        updated_at: 1_000,
        resources: sample_resources(),
    };
    let text = encode_discovery_cache(&file);
    let spec = ResourceTargetSpec::AllOf(vec!["deploy".to_string()]);
    match resolve_from_cache_only(&spec, "/cfg/keye/dev.json", &Some(text), 1_700, Some(600)) {
        Err(ResolveError::CacheExpired {
            path,
            age_secs,
            ttl_secs,
        }) => {
            assert_eq!(path, "/cfg/keye/dev.json");
            assert_eq!(age_secs, 700);
            assert_eq!(ttl_secs, 600);
        }
        other => panic!("expected CacheExpired, got {:?}", other),
    }
}

#[test]
fn cache_only_resolution_resolves_against_a_usable_cache() {
    let file = DiscoveryCacheFile {
        updated_at: 1_000,
        resources: sample_resources(),
    };
    let text = encode_discovery_cache(&file);
    let spec = ResourceTargetSpec::AllOf(vec!["deploy".to_string()]);
    let resolved = resolve_from_cache_only(&spec, "p", &Some(text.clone()), 1_600, Some(600))
        .expect("cache is exactly at the TTL boundary");
    assert_eq!(resolved, vec![sample_resources()[0].clone()]);

    // An unresolvable token is a resolution error, not a cache error.
    let spec = ResourceTargetSpec::AllOf(vec!["bogus".to_string()]);
    match resolve_from_cache_only(&spec, "p", &Some(text), 1_600, Some(600)) {
        Err(ResolveError::UnresolvedResources { tokens }) => {
            assert_eq!(tokens, vec!["bogus".to_string()]);
        }
        other => panic!("expected UnresolvedResources, got {:?}", other),
    }
}
