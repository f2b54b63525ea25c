use kubex::resolve::{match_all_targets, resolve_all, resolve_any_targets, ResourceTargetSpec};
use kubex::{find_resource, match_resource, ApiResource, ResolveError};

fn descriptor(
    group: Option<&str>,
    kind: &str,
    name: &str,
    singular: &str,
    shorts: &[&str],
) -> ApiResource {
    ApiResource {
        group: group.map(|g| g.to_string()),
        version: Some("v1".to_string()),
        kind: kind.to_string(),
        name: name.to_string(),
        singular_name: singular.to_string(),
        short_names: shorts.iter().map(|s| s.to_string()).collect(),
        namespaced: true,
    }
}

fn pod_and_service() -> Vec<ApiResource> {
    vec![
        descriptor(None, "Pod", "pods", "pod", &["po"]),
        descriptor(None, "Service", "services", "service", &["svc"]),
    ]
}

#[test]
fn match_resource_accepts_each_form() {
    let deploy = descriptor(Some("apps"), "Deployment", "deployments", "deployment", &["deploy"]);
    assert!(match_resource("deployments", &deploy));
    assert!(match_resource("deployment", &deploy));
    assert!(match_resource("deploy", &deploy));
    assert!(match_resource("deployments.apps", &deploy));
    assert!(!match_resource("deployments.extensions", &deploy));
    assert!(!match_resource("dep", &deploy));

    let pod = descriptor(None, "Pod", "pods", "pod", &["po"]);
    assert!(match_resource("pods", &pod));
    assert!(!match_resource("pods.", &pod));
}

#[test]
fn find_resource_returns_the_first_match_in_list_order() {
    let list = pod_and_service();
    let hit = find_resource("svc", &list).expect("svc should resolve");
    assert_eq!(hit, list[1]);
    let hit = find_resource("pods", &list).expect("pods should resolve");
    assert_eq!(hit, list[0]);
    assert!(find_resource("bogus", &list).is_none());
}

#[test]
fn all_of_resolves_every_token() {
    let list = pod_and_service();
    let targets = vec!["pods".to_string(), "svc".to_string()];
    let resolved = match_all_targets(&targets, &list).expect("both tokens should resolve");
    assert_eq!(resolved, list);
}

#[test]
fn all_of_fails_naming_the_unresolved_token() {
    let list = pod_and_service();
    let targets = vec!["pods".to_string(), "bogus".to_string()];
    match match_all_targets(&targets, &list) {
        Err(ResolveError::UnresolvedResources { tokens }) => {
            assert_eq!(tokens, vec!["bogus".to_string()]);
        }
        other => panic!("expected UnresolvedResources, got {:?}", other),
    }
}

#[test]
fn all_of_reports_every_unresolved_token_sorted() {
    let list = pod_and_service();
    let targets = vec![
        "zeta".to_string(),
        "pods".to_string(),
        "alpha".to_string(),
        "midway".to_string(),
    ];
    match match_all_targets(&targets, &list) {
        Err(ResolveError::UnresolvedResources { tokens }) => {
            assert_eq!(
                tokens,
                vec!["alpha".to_string(), "midway".to_string(), "zeta".to_string()]
            );
        }
        other => panic!("expected UnresolvedResources, got {:?}", other),
    }
}

#[test]
fn all_of_deduplicates_by_plural_name_in_first_token_order() {
    let list = pod_and_service();
    let targets = vec!["svc".to_string(), "pods".to_string(), "po".to_string()];
    let resolved = match_all_targets(&targets, &list).expect("all tokens resolve");
    assert_eq!(resolved, vec![list[1].clone(), list[0].clone()]);
}

#[test]
fn any_of_keeps_the_tokens_that_resolve() {
    let list = pod_and_service();
    let targets = vec!["po".to_string(), "bogus".to_string()];
    let resolved = resolve_any_targets(&targets, &list).expect("one token resolves");
    assert_eq!(resolved, vec![list[0].clone()]);
}

#[test]
fn any_of_fails_only_when_nothing_resolves() {
    let list = pod_and_service();
    let targets = vec!["bogus".to_string(), "missing".to_string()];
    match resolve_any_targets(&targets, &list) {
        Err(ResolveError::NoResourcesResolved { tokens }) => {
            assert_eq!(tokens, targets);
        }
        other => panic!("expected NoResourcesResolved, got {:?}", other),
    }
}

#[test]
fn any_of_deduplicates_by_name_group_version() {
    let list = pod_and_service();
    let targets = vec!["pods".to_string(), "po".to_string(), "svc".to_string()];
    let resolved = resolve_any_targets(&targets, &list).expect("tokens resolve");
    assert_eq!(resolved, list);
}

#[test]
fn resolve_all_dispatches_on_the_target_spec() {
    let list = pod_and_service();

    let all = resolve_all(&ResourceTargetSpec::AllResources, &list).expect("never fails");
    assert_eq!(all, list);

    let spec = ResourceTargetSpec::AllOf(vec!["pods".to_string(), "svc".to_string()]);
    let resolved = resolve_all(&spec, &list).expect("both resolve");
    assert_eq!(resolved, list);

    let spec = ResourceTargetSpec::AnyOf(vec!["po".to_string(), "bogus".to_string()]);
    let resolved = resolve_all(&spec, &list).expect("one resolves");
    assert_eq!(resolved, vec![list[0].clone()]);
}

#[test]
fn empty_all_of_resolves_to_nothing() {
    let list = pod_and_service();
    let resolved = match_all_targets(&Vec::new(), &list).expect("no tokens, no failures");
    assert_eq!(resolved, Vec::new());
}
