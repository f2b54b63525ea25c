use kubex::claputil::{
    context_arg, context_completions, context_name_completions, namespace_completions,
};
use kubex::strutil::{sort_strings, str_eq, str_le, str_starts_with};
use kubex::{determine_context, determine_namespace, ContextError, KubeContext};

fn entry(name: &str, cluster: &str, namespace: Option<&str>) -> KubeContext {
    KubeContext {
        name: name.to_string(),
        cluster: cluster.to_string(),
        namespace: namespace.map(|n| n.to_string()),
    }
}

#[test]
fn explicit_context_wins_over_the_configuration() {
    let r = determine_context(&Some("dev".to_string()), &Some("prod".to_string()));
    assert_eq!(r, Ok("dev".to_string()));
}

#[test]
fn current_context_is_the_fallback() {
    let r = determine_context(&None, &Some("prod".to_string()));
    assert_eq!(r, Ok("prod".to_string()));
    let r = determine_context(&None, &None);
    assert_eq!(r, Err(ContextError::CurrentContextUnset));
}

#[test]
fn namespace_prefers_explicit_then_context_then_default() {
    let contexts = vec![
        entry("dev", "c1", Some("team-a")),
        entry("prod", "c2", None),
    ];
    assert_eq!(
        determine_namespace(Some("given".to_string()), "dev", &contexts),
        "given"
    );
    assert_eq!(determine_namespace(None, "dev", &contexts), "team-a");
    assert_eq!(determine_namespace(None, "prod", &contexts), "default");
    assert_eq!(determine_namespace(None, "unknown", &contexts), "default");
    assert_eq!(determine_namespace(None, "dev", &Vec::new()), "default");
}

#[test]
fn namespace_uses_the_first_entry_with_the_name() {
    let contexts = vec![
        entry("dev", "c1", Some("first")),
        entry("dev", "c2", Some("second")),
    ];
    assert_eq!(determine_namespace(None, "dev", &contexts), "first");
}

#[test]
fn context_arg_describes_the_flag() {
    let arg = context_arg();
    assert_eq!(arg.id, "context");
    assert_eq!(arg.long, "context");
    assert_eq!(arg.value_name, "CONTEXT");
    assert_eq!(arg.help, "Override the Kubernetes context to target");
}

#[test]
fn namespace_completions_filter_by_prefix_in_order() {
    let names = vec![
        "kube-system".to_string(),
        "default".to_string(),
        "kube-public".to_string(),
    ];
    assert_eq!(
        namespace_completions(&names, "kube-"),
        vec!["kube-system".to_string(), "kube-public".to_string()]
    );
    assert_eq!(namespace_completions(&names, ""), names);
    assert_eq!(namespace_completions(&names, "zzz"), Vec::<String>::new());
}

#[test]
fn context_name_completions_filter_by_prefix() {
    let contexts = vec![
        entry("dev-a", "c1", None),
        entry("prod", "c2", None),
        entry("dev-b", "c3", None),
    ];
    assert_eq!(
        context_name_completions(&contexts, "dev"),
        vec!["dev-a".to_string(), "dev-b".to_string()]
    );
}

#[test]
fn rich_completions_put_the_current_context_first_with_details() {
    let contexts = vec![
        entry("dev", "dev-cluster", Some("team-a")),
        entry("prod", "prod-cluster", None),
        entry("stage", "stage-cluster", Some("qa")),
    ];
    let current = Some("prod".to_string());
    let candidates = context_completions(&contexts, &current, "");
    assert_eq!(candidates.len(), 3);
    assert_eq!(candidates[0].value, "prod");
    assert!(candidates[0].is_current);
    assert_eq!(candidates[0].help, "[current] cluster=prod-cluster");
    assert_eq!(candidates[1].value, "dev");
    assert!(!candidates[1].is_current);
    assert_eq!(candidates[1].help, "cluster=dev-cluster namespace=team-a");
    assert_eq!(candidates[2].value, "stage");
    assert_eq!(candidates[2].help, "cluster=stage-cluster namespace=qa");
}

#[test]
fn rich_completions_respect_the_prefix() {
    let contexts = vec![
        entry("dev", "c1", None),
        entry("prod", "c2", None),
    ];
    let current = Some("prod".to_string());
    let candidates = context_completions(&contexts, &current, "d");
    assert_eq!(candidates.len(), 1);
    assert_eq!(candidates[0].value, "dev");
    assert!(!candidates[0].is_current);
}

#[test]
fn string_helpers_compare_and_sort() {
    assert!(str_eq("abc", "abc"));
    assert!(!str_eq("abc", "abd"));
    assert!(!str_eq("abc", "ab"));
    assert!(str_starts_with("deployments", "deploy"));
    assert!(!str_starts_with("deploy", "deployments"));
    assert!(str_le("alpha", "beta"));
    assert!(str_le("alpha", "alpha"));
    assert!(str_le("ab", "abc"));
    assert!(!str_le("beta", "alpha"));

    let words = vec![
        "pear".to_string(),
        "apple".to_string(),
        "orange".to_string(),
        "apple".to_string(),
    ];
    assert_eq!(
        sort_strings(&words),
        vec![
            "apple".to_string(),
            "apple".to_string(),
            "orange".to_string(),
            "pear".to_string(),
        ]
    );
}
