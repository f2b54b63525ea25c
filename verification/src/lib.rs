//! Resilient, cache-aware access to a remote cluster's API surface for
//! command-line tooling: a retry/backoff engine that classifies failures as
//! transient or fatal, and a discovery cache with token-to-descriptor
//! resolution backed by a locally persisted, TTL-bounded snapshot.

use vstd::prelude::*;

pub mod cache;
pub mod claputil;
pub mod codec;
pub mod discover;
pub mod error;
pub mod resolve;
pub mod resource;
pub mod retry;
pub mod strutil;

pub use error::ResolveError;
pub use resolve::ResourceTargetSpec;
pub use resolve::match_all_targets;
pub use resolve::resolve_all;
pub use resource::ApiResource;
pub use resource::ResourceModel;
pub use resource::spec_find_resource;
pub use resource::spec_matches;
pub use retry::RemoteError;
pub use retry::RetryLimit;
pub use retry::RetryPolicy;
pub use retry::default_retryable_error;

use strutil::str_eq;
use vstd::string::StringExecFns;

verus! {

/// Spec-level shape of a kubeconfig context entry.
pub ghost struct KubeContextModel {
    pub name: Seq<char>,
    pub cluster: Seq<char>,
    pub namespace: Option<Seq<char>>,
}

/// One named context from the configuration reader: the context's name, the
/// cluster it points at, and its default namespace, when one is set.
#[derive(Debug)]
pub struct KubeContext {
    /// The context's name.
    pub name: String,
    /// The cluster the context selects.
    pub cluster: String,
    /// The context's default namespace, when one is configured.
    pub namespace: Option<String>,
}

impl View for KubeContext {
    type V = KubeContextModel;

    open spec fn view(&self) -> KubeContextModel {
        KubeContextModel {
            name: self.name@,
            cluster: self.cluster@,
            namespace: self.namespace.deep_view(),
        }
    }
}

impl DeepView for KubeContext {
    type V = KubeContextModel;

    open spec fn deep_view(&self) -> KubeContextModel {
        self.view()
    }
}

/// Why a context could not be determined.
#[derive(Debug, Clone, Copy, PartialEq, Eq, Structural)]
pub enum ContextError {
    /// No context was given and the configuration sets no current context.
    CurrentContextUnset,
}

/// Detects the target context from an explicit `context` argument and the
/// configuration's current context.
///
/// Context determination follows this priority:
/// 1. Uses the context if explicitly specified.
/// 2. Falls back to the configuration's current context.
///
/// # Errors
/// Fails when neither an explicit context nor a current context is set.
pub fn determine_context(context: &Option<String>, current_context: &Option<String>) -> (r: Result<
    String,
    ContextError,
>)
    ensures
        context matches Some(c) ==> (r matches Ok(s) && s@ == c@),
        context is None ==> (match current_context {
            Some(c) => r matches Ok(s) && s@ == c@,
            None => r == Err::<String, ContextError>(ContextError::CurrentContextUnset),
        }),
{
    match context {
        Some(c) => Ok(c.clone()),
        None => match current_context {
            Some(c) => Ok(c.clone()),
            None => Err(ContextError::CurrentContextUnset),
        },
    }
}

/// The first context entry named `context`, if any.
pub open spec fn spec_find_context(contexts: Seq<KubeContextModel>, context: Seq<char>) -> Option<
    KubeContextModel,
>
    decreases contexts.len(),
{
    if contexts.len() == 0 {
        None
    } else if contexts[0].name == context {
        Some(contexts[0])
    } else {
        spec_find_context(contexts.drop_first(), context)
    }
}

/// The namespace that `determine_namespace` selects.
pub open spec fn spec_determine_namespace(
    namespace: Option<Seq<char>>,
    context: Seq<char>,
    contexts: Seq<KubeContextModel>,
) -> Seq<char> {
    match namespace {
        Some(ns) => ns,
        None => match spec_find_context(contexts, context) {
            Some(entry) => match entry.namespace {
                Some(ns) => ns,
                None => "default"@,
            },
            None => "default"@,
        },
    }
}

/// Determines the target namespace.
///
/// Namespace determination follows this priority:
/// 1. Uses the namespace if explicitly specified.
/// 2. Uses the default namespace of the entry for `context` in `contexts`.
/// 3. Uses `"default"`.
pub fn determine_namespace(namespace: Option<String>, context: &str, contexts: &Vec<
    KubeContext,
>) -> (r: String)
    ensures
        r@ == spec_determine_namespace(namespace.deep_view(), context@, contexts.deep_view()),
{
    if let Some(ns) = &namespace {
        return ns.clone();
    }
    let ghost all = contexts.deep_view();
    proof {
        assert(all.skip(0) =~= all);
    }
    let mut i: usize = 0;
    while i < contexts.len()
        invariant
            namespace is None,
            i <= contexts@.len(),
            all == contexts.deep_view(),
            all.len() == contexts@.len(),
            spec_find_context(all.skip(i as int), context@) == spec_find_context(all, context@),
        decreases contexts@.len() - i,
    {
        proof {
            assert(all.skip(i as int)[0] == all[i as int]);
            assert(all.skip(i as int).drop_first() =~= all.skip(i as int + 1));
        }
        if str_eq(contexts[i].name.as_str(), context) {
            proof {
                assert(all[i as int] == contexts@[i as int]@);
                assert(all[i as int].name == context@);
                assert(spec_find_context(all.skip(i as int), context@) == Some(all[i as int]));
            }
            match &contexts[i].namespace {
                Some(ns) => {
                    proof {
                        assert(all[i as int].namespace == Some(ns@));
                    }
                    return ns.clone();
                },
                None => {
                    proof {
                        assert(all[i as int].namespace is None);
                    }
                    return default_namespace();
                },
            }
        }
        i = i + 1;
    }
    proof {
        assert(all.skip(i as int).len() == 0);
    }
    default_namespace()
}

fn default_namespace() -> (r: String)
    ensures
        r@ == "default"@,
{
    let s: &str = "default";
    s.to_owned()
}

/// Finds and returns the descriptor that `target` names from the list of
/// `api_resources`: the first one, in list order, that `match_resource`
/// accepts, or `None` when no descriptor matches.
pub fn find_resource(target: &str, api_resources: &Vec<ApiResource>) -> (r: Option<ApiResource>)
    ensures
        match r {
            Some(res) => spec_find_resource(api_resources.deep_view(), target@) == Some(res@),
            None => spec_find_resource(api_resources.deep_view(), target@) is None,
        },
{
    let ghost all = api_resources.deep_view();
    proof {
        assert(all.skip(0) =~= all);
    }
    let mut i: usize = 0;
    while i < api_resources.len()
        invariant
            i <= api_resources@.len(),
            all == api_resources.deep_view(),
            all.len() == api_resources@.len(),
            spec_find_resource(all.skip(i as int), target@) == spec_find_resource(all, target@),
        decreases api_resources@.len() - i,
    {
        proof {
            assert(all.skip(i as int)[0] == all[i as int]);
            assert(all.skip(i as int).drop_first() =~= all.skip(i as int + 1));
        }
        if match_resource(target, &api_resources[i]) {
            return Some(api_resources[i].clone());
        }
        i = i + 1;
    }
    proof {
        assert(all.skip(i as int).len() == 0);
    }
    None
}

/// Checks if the given descriptor matches the `target` resource name.
/// Matching is done against the resource's plural name, singular name,
/// short names, and group-qualified `<plural>.<group>` name.
pub fn match_resource(target: &str, api_resource: &ApiResource) -> (r: bool)
    ensures
        r == spec_matches(target@, api_resource@),
{
    if str_eq(api_resource.name.as_str(), target) {
        return true;
    }
    if str_eq(api_resource.singular_name.as_str(), target) {
        return true;
    }
    let mut i: usize = 0;
    while i < api_resource.short_names.len()
        invariant
            i <= api_resource.short_names@.len(),
            forall|j: int|
                0 <= j < i ==> #[trigger] api_resource.short_names.deep_view()[j] != target@,
        decreases api_resource.short_names@.len() - i,
    {
        if str_eq(api_resource.short_names[i].as_str(), target) {
            proof {
                assert(api_resource@.short_names[i as int] == target@);
            }
            return true;
        }
        i = i + 1;
    }
    match &api_resource.group {
        Some(group) => {
            let qualified = api_resource.name.clone().concat(".").concat(group.as_str());
            proof {
                assert(qualified@ == api_resource@.name + "."@ + api_resource@.group->0);
            }
            str_eq(qualified.as_str(), target)
        },
        None => false,
    }
}

} // verus!
