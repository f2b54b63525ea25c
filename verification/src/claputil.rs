//! The pure core of the interactive completion layer.
//!
//! These functions compute completion candidates from plain values; the
//! command-line shell around the library reads the configuration, calls
//! them, and renders the candidates. They are best-effort consumers and
//! impose no contract beyond what is stated here.

use vstd::prelude::*;

use crate::KubeContext;
use crate::KubeContextModel;
use crate::strutil::spec_starts_with;
use crate::strutil::str_eq;
use crate::strutil::str_starts_with;
use vstd::string::StringExecFns;

verus! {

/// The settings of the `--context` command-line argument; the shell layer
/// turns this into its argument type and attaches the dynamic completer.
#[derive(Debug)]
pub struct ContextArg {
    /// The argument's identifier.
    pub id: String,
    /// The long flag, without the leading dashes.
    pub long: String,
    /// The placeholder shown for the value.
    pub value_name: String,
    /// The help line.
    pub help: String,
}

/// The `--context` argument: overrides the context to target, with
/// kubeconfig-aware completions.
pub fn context_arg() -> (a: ContextArg)
    ensures
        a.id@ == "context"@,
        a.long@ == "context"@,
        a.value_name@ == "CONTEXT"@,
        a.help@ == "Override the Kubernetes context to target"@,
{
    ContextArg {
        id: "context".to_owned(),
        long: "context".to_owned(),
        value_name: "CONTEXT".to_owned(),
        help: "Override the Kubernetes context to target".to_owned(),
    }
}

/// The names in `names` that start with `prefix`, in input order.
pub open spec fn spec_matching_names(names: Seq<Seq<char>>, prefix: Seq<char>) -> Seq<Seq<char>>
    decreases names.len(),
{
    if names.len() == 0 {
        Seq::empty()
    } else {
        let rest = spec_matching_names(names.drop_first(), prefix);
        if spec_starts_with(names[0], prefix) {
            seq![names[0]] + rest
        } else {
            rest
        }
    }
}

/// Completion for namespaces: the names that start with `prefix`, kept in
/// input order.
pub fn namespace_completions(names: &Vec<String>, prefix: &str) -> (r: Vec<String>)
    ensures
        r.deep_view() == spec_matching_names(names.deep_view(), prefix@),
{
    let ghost all = names.deep_view();
    let mut out: Vec<String> = Vec::new();
    let mut i: usize = 0;
    proof {
        assert(all.skip(0) =~= all);
        assert(out.deep_view() =~= Seq::<Seq<char>>::empty());
        assert(out.deep_view() + spec_matching_names(all, prefix@) =~= spec_matching_names(
            all,
            prefix@,
        ));
    }
    while i < names.len()
        invariant
            i <= names@.len(),
            all == names.deep_view(),
            all.len() == names@.len(),
            spec_matching_names(all, prefix@) == out.deep_view() + spec_matching_names(
                all.skip(i as int),
                prefix@,
            ),
        decreases names@.len() - i,
    {
        proof {
            assert(all.skip(i as int)[0] == all[i as int]);
            assert(all.skip(i as int).drop_first() =~= all.skip(i as int + 1));
            assert(all[i as int] == names@[i as int]@);
        }
        if str_starts_with(names[i].as_str(), prefix) {
            let ghost before = out.deep_view();
            out.push(names[i].clone());
            proof {
                assert(out.deep_view() =~= before.push(all[i as int]));
                assert(before.push(all[i as int]) + spec_matching_names(
                    all.skip(i as int + 1),
                    prefix@,
                ) =~= before + (seq![all[i as int]] + spec_matching_names(
                    all.skip(i as int + 1),
                    prefix@,
                )));
            }
        }
        i = i + 1;
    }
    proof {
        assert(all.skip(i as int).len() == 0);
        assert(out.deep_view() + spec_matching_names(all.skip(i as int), prefix@) =~=
        out.deep_view());
    }
    out
}

/// The context names in `contexts` that start with `prefix`, in input
/// order.
pub open spec fn spec_matching_context_names(
    contexts: Seq<KubeContextModel>,
    prefix: Seq<char>,
) -> Seq<Seq<char>>
    decreases contexts.len(),
{
    if contexts.len() == 0 {
        Seq::empty()
    } else {
        let rest = spec_matching_context_names(contexts.drop_first(), prefix);
        if spec_starts_with(contexts[0].name, prefix) {
            seq![contexts[0].name] + rest
        } else {
            rest
        }
    }
}

/// Plain completion for contexts: the context names that start with
/// `prefix`, kept in input order.
pub fn context_name_completions(contexts: &Vec<KubeContext>, prefix: &str) -> (r: Vec<String>)
    ensures
        r.deep_view() == spec_matching_context_names(contexts.deep_view(), prefix@),
{
    let ghost all = contexts.deep_view();
    let mut out: Vec<String> = Vec::new();
    let mut i: usize = 0;
    proof {
        assert(all.skip(0) =~= all);
        assert(out.deep_view() =~= Seq::<Seq<char>>::empty());
        assert(out.deep_view() + spec_matching_context_names(all, prefix@)
            =~= spec_matching_context_names(all, prefix@));
    }
    while i < contexts.len()
        invariant
            i <= contexts@.len(),
            all == contexts.deep_view(),
            all.len() == contexts@.len(),
            spec_matching_context_names(all, prefix@) == out.deep_view()
                + spec_matching_context_names(all.skip(i as int), prefix@),
        decreases contexts@.len() - i,
    {
        proof {
            assert(all.skip(i as int)[0] == all[i as int]);
            assert(all.skip(i as int).drop_first() =~= all.skip(i as int + 1));
            assert(all[i as int] == contexts@[i as int]@);
        }
        if str_starts_with(contexts[i].name.as_str(), prefix) {
            let ghost before = out.deep_view();
            out.push(contexts[i].name.clone());
            proof {
                assert(out.deep_view() =~= before.push(all[i as int].name));
                assert(before.push(all[i as int].name) + spec_matching_context_names(
                    all.skip(i as int + 1),
                    prefix@,
                ) =~= before + (seq![all[i as int].name] + spec_matching_context_names(
                    all.skip(i as int + 1),
                    prefix@,
                )));
            }
        }
        i = i + 1;
    }
    proof {
        assert(all.skip(i as int).len() == 0);
        assert(out.deep_view() + spec_matching_context_names(all.skip(i as int), prefix@) =~=
        out.deep_view());
    }
    out
}

/// Spec-level shape of one rich completion candidate.
pub ghost struct CandidateModel {
    pub value: Seq<char>,
    pub help: Seq<char>,
    pub is_current: bool,
}

/// One rich completion candidate for the `--context` argument: the context
/// name, a help line describing it, and whether it is the current context
/// (shown first).
#[derive(Debug)]
pub struct ContextCandidate {
    /// The completion value: the context's name.
    pub value: String,
    /// The help line: `[current]` for the current context, the cluster,
    /// and the default namespace when one is set, separated by spaces.
    pub help: String,
    /// Whether this is the configuration's current context.
    pub is_current: bool,
}

impl View for ContextCandidate {
    type V = CandidateModel;

    open spec fn view(&self) -> CandidateModel {
        CandidateModel { value: self.value@, help: self.help@, is_current: self.is_current }
    }
}

impl DeepView for ContextCandidate {
    type V = CandidateModel;

    open spec fn deep_view(&self) -> CandidateModel {
        self.view()
    }
}

/// Whether `current` names `entry`.
pub open spec fn spec_is_current(entry: KubeContextModel, current: Option<Seq<char>>) -> bool {
    current matches Some(name) && name == entry.name
}

/// The help line of a candidate for `entry`.
pub open spec fn spec_candidate_help(entry: KubeContextModel, is_current: bool) -> Seq<char> {
    (if is_current {
        "[current] "@
    } else {
        Seq::<char>::empty()
    }) + "cluster="@ + entry.cluster + (match entry.namespace {
        Some(ns) => " namespace="@ + ns,
        None => Seq::<char>::empty(),
    })
}

/// The candidate built for `entry`.
pub open spec fn spec_candidate(entry: KubeContextModel, is_current: bool) -> CandidateModel {
    CandidateModel {
        value: entry.name,
        help: spec_candidate_help(entry, is_current),
        is_current,
    }
}

/// Rich context completion, one entry at a time: entries whose name starts
/// with `prefix` become candidates in input order, except the current
/// context, which moves to the front of what has been gathered so far.
pub open spec fn spec_context_candidates_step(
    contexts: Seq<KubeContextModel>,
    current: Option<Seq<char>>,
    prefix: Seq<char>,
    acc: Seq<CandidateModel>,
) -> Seq<CandidateModel>
    decreases contexts.len(),
{
    if contexts.len() == 0 {
        acc
    } else {
        let entry = contexts[0];
        let next = if spec_starts_with(entry.name, prefix) {
            let cand = spec_candidate(entry, spec_is_current(entry, current));
            if spec_is_current(entry, current) {
                seq![cand] + acc
            } else {
                acc.push(cand)
            }
        } else {
            acc
        };
        spec_context_candidates_step(contexts.drop_first(), current, prefix, next)
    }
}

/// Rich context completion of `contexts`, started empty.
pub open spec fn spec_context_candidates(
    contexts: Seq<KubeContextModel>,
    current: Option<Seq<char>>,
    prefix: Seq<char>,
) -> Seq<CandidateModel> {
    spec_context_candidates_step(contexts, current, prefix, Seq::empty())
}

fn make_candidate(entry: &KubeContext, is_current: bool) -> (c: ContextCandidate)
    ensures
        c@ == spec_candidate(entry@, is_current),
{
    let mut help = String::new();
    if is_current {
        help.append("[current] ");
    }
    help.append("cluster=");
    help.append(entry.cluster.as_str());
    if let Some(ns) = &entry.namespace {
        help.append(" namespace=");
        help.append(ns.as_str());
    }
    proof {
        assert(help@ =~= spec_candidate_help(entry@, is_current));
    }
    ContextCandidate { value: entry.name.clone(), help, is_current }
}

/// Rich completion for the `--context` argument: every context whose name
/// starts with `prefix` becomes a candidate carrying a descriptive help
/// line, with the current context first.
pub fn context_completions(
    contexts: &Vec<KubeContext>,
    current_context: &Option<String>,
    prefix: &str,
) -> (r: Vec<ContextCandidate>)
    ensures
        r.deep_view() == spec_context_candidates(
            contexts.deep_view(),
            current_context.deep_view(),
            prefix@,
        ),
{
    let ghost all = contexts.deep_view();
    let ghost cur = current_context.deep_view();
    let mut out: Vec<ContextCandidate> = Vec::new();
    let mut i: usize = 0;
    proof {
        assert(all.skip(0) =~= all);
        assert(out.deep_view() =~= Seq::<CandidateModel>::empty());
    }
    while i < contexts.len()
        invariant
            i <= contexts@.len(),
            all == contexts.deep_view(),
            cur == current_context.deep_view(),
            all.len() == contexts@.len(),
            spec_context_candidates_step(all.skip(i as int), cur, prefix@, out.deep_view())
                == spec_context_candidates(all, cur, prefix@),
        decreases contexts@.len() - i,
    {
        proof {
            assert(all.skip(i as int)[0] == all[i as int]);
            assert(all.skip(i as int).drop_first() =~= all.skip(i as int + 1));
            assert(all[i as int] == contexts@[i as int]@);
        }
        if str_starts_with(contexts[i].name.as_str(), prefix) {
            let is_current = match current_context {
                Some(name) => str_eq(name.as_str(), contexts[i].name.as_str()),
                None => false,
            };
            proof {
                assert(is_current == spec_is_current(all[i as int], cur));
            }
            let cand = make_candidate(&contexts[i], is_current);
            let ghost before = out.deep_view();
            let ghost cm = cand@;
            if is_current {
                out.insert(0, cand);
                proof {
                    assert(out.deep_view() =~= seq![cm] + before);
                }
            } else {
                out.push(cand);
                proof {
                    assert(out.deep_view() =~= before.push(cm));
                }
            }
        }
        i = i + 1;
    }
    proof {
        assert(all.skip(i as int).len() == 0);
    }
    out
}

} // verus!
