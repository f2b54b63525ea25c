//! Token-to-descriptor resolution policies.
//!
//! A [`ResourceTargetSpec`] says which resources a caller wants: everything,
//! every one of a list of tokens, or any of a list of tokens. Resolution
//! matches tokens against descriptors with [`crate::match_resource`]
//! semantics and deduplicates the results.

use vstd::prelude::*;

use crate::ApiResource;
use crate::error::ResolveError;
use crate::match_resource;
use crate::resource::ResourceModel;
use crate::resource::spec_find_resource;
use crate::strutil::lex_sorted;
use crate::strutil::opt_str_eq;
use crate::strutil::sort_strings;
use crate::strutil::str_eq;

verus! {

/// Which resources a caller asks for.
#[derive(Debug)]
pub enum ResourceTargetSpec {
    /// No filtering: every known resource.
    AllResources,
    /// Every token must resolve.
    AllOf(Vec<String>),
    /// At least one token must resolve.
    AnyOf(Vec<String>),
}

/// Whether some descriptor in `rs` has the plural name `name`.
pub open spec fn spec_contains_name(rs: Seq<ResourceModel>, name: Seq<char>) -> bool {
    exists|i: int| 0 <= i < rs.len() && rs[i].name == name
}

/// Whether `a` and `b` share the composite key of name, group and version.
pub open spec fn spec_same_key(a: ResourceModel, b: ResourceModel) -> bool {
    a.name == b.name && a.group == b.group && a.version == b.version
}

/// Whether some descriptor in `rs` shares `r`'s (name, group, version) key.
pub open spec fn spec_contains_key(rs: Seq<ResourceModel>, r: ResourceModel) -> bool {
    exists|i: int| 0 <= i < rs.len() && spec_same_key(rs[i], r)
}

/// Every-token resolution, one token at a time: each resolved token adds its
/// descriptor unless one with the same plural name is already there (so the
/// result keeps first-token order); each unresolved token is recorded.
pub open spec fn spec_all_of_step(
    targets: Seq<Seq<char>>,
    rs: Seq<ResourceModel>,
    resolved: Seq<ResourceModel>,
    unresolved: Seq<Seq<char>>,
) -> (Seq<ResourceModel>, Seq<Seq<char>>)
    decreases targets.len(),
{
    if targets.len() == 0 {
        (resolved, unresolved)
    } else {
        match spec_find_resource(rs, targets[0]) {
            Some(r) => {
                let next = if spec_contains_name(resolved, r.name) {
                    resolved
                } else {
                    resolved.push(r)
                };
                spec_all_of_step(targets.drop_first(), rs, next, unresolved)
            },
            None => spec_all_of_step(
                targets.drop_first(),
                rs,
                resolved,
                unresolved.push(targets[0]),
            ),
        }
    }
}

/// Every-token resolution of `targets` against `rs`, started empty.
pub open spec fn spec_all_of(targets: Seq<Seq<char>>, rs: Seq<ResourceModel>) -> (
    Seq<ResourceModel>,
    Seq<Seq<char>>,
) {
    spec_all_of_step(targets, rs, Seq::empty(), Seq::empty())
}

/// Any-token resolution, one token at a time: each resolved token adds its
/// descriptor unless one with the same (name, group, version) key is already
/// there; unresolved tokens are skipped.
pub open spec fn spec_any_of_step(
    targets: Seq<Seq<char>>,
    rs: Seq<ResourceModel>,
    resolved: Seq<ResourceModel>,
) -> Seq<ResourceModel>
    decreases targets.len(),
{
    if targets.len() == 0 {
        resolved
    } else {
        match spec_find_resource(rs, targets[0]) {
            Some(r) => {
                let next = if spec_contains_key(resolved, r) {
                    resolved
                } else {
                    resolved.push(r)
                };
                spec_any_of_step(targets.drop_first(), rs, next)
            },
            None => spec_any_of_step(targets.drop_first(), rs, resolved),
        }
    }
}

/// Any-token resolution of `targets` against `rs`, started empty.
pub open spec fn spec_any_of(targets: Seq<Seq<char>>, rs: Seq<ResourceModel>) -> Seq<
    ResourceModel,
> {
    spec_any_of_step(targets, rs, Seq::empty())
}

fn contains_name(rs: &Vec<ApiResource>, name: &str) -> (r: bool)
    ensures
        r == spec_contains_name(rs.deep_view(), name@),
{
    let mut i: usize = 0;
    while i < rs.len()
        invariant
            i <= rs@.len(),
            forall|j: int| 0 <= j < i ==> (#[trigger] rs.deep_view()[j]).name != name@,
        decreases rs@.len() - i,
    {
        if str_eq(rs[i].name.as_str(), name) {
            proof {
                assert(rs.deep_view()[i as int].name == name@);
            }
            return true;
        }
        i = i + 1;
    }
    false
}

fn contains_key(rs: &Vec<ApiResource>, r: &ApiResource) -> (res: bool)
    ensures
        res == spec_contains_key(rs.deep_view(), r@),
{
    let mut i: usize = 0;
    while i < rs.len()
        invariant
            i <= rs@.len(),
            forall|j: int| 0 <= j < i ==> !spec_same_key(#[trigger] rs.deep_view()[j], r@),
        decreases rs@.len() - i,
    {
        let same = str_eq(rs[i].name.as_str(), r.name.as_str()) && opt_str_eq(
            &rs[i].group,
            &r.group,
        ) && opt_str_eq(&rs[i].version, &r.version);
        if same {
            proof {
                assert(spec_same_key(rs.deep_view()[i as int], r@));
            }
            return true;
        }
        proof {
            assert(!spec_same_key(rs.deep_view()[i as int], r@));
        }
        i = i + 1;
    }
    false
}

/// Resolves every token of `targets` against `resources`.
///
/// On success, the result holds the resolved descriptors, deduplicated by
/// plural name, in first-token order. When any token fails to resolve, the
/// whole call fails and the error names the complete list of unresolved
/// tokens, in lexicographic order.
pub fn match_all_targets(targets: &Vec<String>, resources: &Vec<ApiResource>) -> (r: Result<
    Vec<ApiResource>,
    ResolveError,
>)
    ensures
        ({
            let (res, unres) = spec_all_of(targets.deep_view(), resources.deep_view());
            &&& unres.len() == 0 ==> (r matches Ok(v) && v.deep_view() == res)
            &&& unres.len() > 0 ==> (r matches Err(ResolveError::UnresolvedResources { tokens })
                && tokens.deep_view().to_multiset() == unres.to_multiset() && lex_sorted(
                tokens.deep_view(),
            ))
        }),
{
    let ghost tv = targets.deep_view();
    let ghost rv = resources.deep_view();
    let mut resolved: Vec<ApiResource> = Vec::new();
    let mut unresolved: Vec<String> = Vec::new();
    let mut i: usize = 0;
    proof {
        assert(tv.skip(0) =~= tv);
        assert(resolved.deep_view() =~= Seq::<ResourceModel>::empty());
        assert(unresolved.deep_view() =~= Seq::<Seq<char>>::empty());
    }
    while i < targets.len()
        invariant
            i <= targets@.len(),
            tv == targets.deep_view(),
            rv == resources.deep_view(),
            tv.len() == targets@.len(),
            spec_all_of_step(tv.skip(i as int), rv, resolved.deep_view(), unresolved.deep_view())
                == spec_all_of(tv, rv),
        decreases targets@.len() - i,
    {
        proof {
            assert(tv.skip(i as int)[0] == tv[i as int]);
            assert(tv.skip(i as int).drop_first() =~= tv.skip(i as int + 1));
            assert(tv[i as int] == targets@[i as int]@);
        }
        match crate::find_resource(targets[i].as_str(), resources) {
            Some(found) => {
                let ghost fv = found@;
                if !contains_name(&resolved, found.name.as_str()) {
                    let ghost before = resolved.deep_view();
                    resolved.push(found);
                    proof {
                        assert(resolved.deep_view() =~= before.push(fv));
                    }
                }
            },
            None => {
                let ghost before = unresolved.deep_view();
                unresolved.push(targets[i].clone());
                proof {
                    assert(unresolved.deep_view() =~= before.push(tv[i as int]));
                }
            },
        }
        i = i + 1;
    }
    proof {
        assert(tv.skip(i as int).len() == 0);
    }
    if unresolved.len() == 0 {
        proof {
            assert(unresolved.deep_view().len() == 0);
        }
        Ok(resolved)
    } else {
        proof {
            assert(unresolved.deep_view().len() > 0);
        }
        let tokens = sort_strings(&unresolved);
        Err(ResolveError::UnresolvedResources { tokens })
    }
}

/// Resolves the tokens of `targets` independently against `resources`,
/// keeping the successes.
///
/// The result holds the descriptors of the tokens that resolved,
/// deduplicated by the composite (name, group, version) key, in
/// first-success order. Fails only when no token resolved, naming every
/// attempted token in input order.
pub fn resolve_any_targets(targets: &Vec<String>, resources: &Vec<ApiResource>) -> (r: Result<
    Vec<ApiResource>,
    ResolveError,
>)
    ensures
        ({
            let res = spec_any_of(targets.deep_view(), resources.deep_view());
            &&& res.len() > 0 ==> (r matches Ok(v) && v.deep_view() == res)
            &&& res.len() == 0 ==> (r matches Err(ResolveError::NoResourcesResolved { tokens })
                && tokens.deep_view() == targets.deep_view())
        }),
{
    let ghost tv = targets.deep_view();
    let ghost rv = resources.deep_view();
    let mut resolved: Vec<ApiResource> = Vec::new();
    let mut i: usize = 0;
    proof {
        assert(tv.skip(0) =~= tv);
        assert(resolved.deep_view() =~= Seq::<ResourceModel>::empty());
    }
    while i < targets.len()
        invariant
            i <= targets@.len(),
            tv == targets.deep_view(),
            rv == resources.deep_view(),
            tv.len() == targets@.len(),
            spec_any_of_step(tv.skip(i as int), rv, resolved.deep_view()) == spec_any_of(tv, rv),
        decreases targets@.len() - i,
    {
        proof {
            assert(tv.skip(i as int)[0] == tv[i as int]);
            assert(tv.skip(i as int).drop_first() =~= tv.skip(i as int + 1));
            assert(tv[i as int] == targets@[i as int]@);
        }
        match crate::find_resource(targets[i].as_str(), resources) {
            Some(found) => {
                if !contains_key(&resolved, &found) {
                    let ghost before = resolved.deep_view();
                    let ghost fv = found@;
                    resolved.push(found);
                    proof {
                        assert(resolved.deep_view() =~= before.push(fv));
                    }
                }
            },
            None => {},
        }
        i = i + 1;
    }
    proof {
        assert(tv.skip(i as int).len() == 0);
    }
    if resolved.len() > 0 {
        proof {
            assert(resolved.deep_view().len() > 0);
        }
        Ok(resolved)
    } else {
        proof {
            assert(resolved.deep_view().len() == 0);
        }
        let tokens = clone_strings(targets);
        Err(ResolveError::NoResourcesResolved { tokens })
    }
}

fn clone_strings(v: &Vec<String>) -> (r: Vec<String>)
    ensures
        r.deep_view() == v.deep_view(),
{
    let mut out: Vec<String> = Vec::new();
    let mut i: usize = 0;
    while i < v.len()
        invariant
            i <= v@.len(),
            out@.len() == i,
            forall|k: int| 0 <= k < i ==> out@[k] == v@[k],
        decreases v@.len() - i,
    {
        out.push(v[i].clone());
        i = i + 1;
    }
    proof {
        assert(out@ =~= v@);
        assert(out.deep_view() =~= v.deep_view());
    }
    out
}

fn clone_resources(v: &Vec<ApiResource>) -> (r: Vec<ApiResource>)
    ensures
        r.deep_view() == v.deep_view(),
{
    let mut out: Vec<ApiResource> = Vec::new();
    let mut i: usize = 0;
    while i < v.len()
        invariant
            i <= v@.len(),
            out.deep_view().len() == i,
            forall|k: int| 0 <= k < i ==> out.deep_view()[k] == v.deep_view()[k],
        decreases v@.len() - i,
    {
        let ghost before = out.deep_view();
        let item = v[i].clone();
        let ghost iv = item@;
        proof {
            assert(iv == v.deep_view()[i as int]);
        }
        out.push(item);
        proof {
            assert(out.deep_view() =~= before.push(iv));
        }
        i = i + 1;
    }
    proof {
        assert(out.deep_view() =~= v.deep_view());
    }
    out
}

/// Resolves a whole target specification against `resources`:
/// `AllResources` returns the full list unmodified, `AllOf` resolves every
/// token, `AnyOf` keeps whichever tokens resolve.
pub fn resolve_all(target_spec: &ResourceTargetSpec, resources: &Vec<ApiResource>) -> (r: Result<
    Vec<ApiResource>,
    ResolveError,
>)
    ensures
        match target_spec {
            ResourceTargetSpec::AllResources => r matches Ok(v) && v.deep_view()
                == resources.deep_view(),
            ResourceTargetSpec::AllOf(targets) => ({
                let (res, unres) = spec_all_of(targets.deep_view(), resources.deep_view());
                &&& unres.len() == 0 ==> (r matches Ok(v) && v.deep_view() == res)
                &&& unres.len() > 0 ==> (r matches Err(ResolveError::UnresolvedResources {
                    tokens,
                }) && tokens.deep_view().to_multiset() == unres.to_multiset() && lex_sorted(
                    tokens.deep_view(),
                ))
            }),
            ResourceTargetSpec::AnyOf(targets) => ({
                let res = spec_any_of(targets.deep_view(), resources.deep_view());
                &&& res.len() > 0 ==> (r matches Ok(v) && v.deep_view() == res)
                &&& res.len() == 0 ==> (r matches Err(ResolveError::NoResourcesResolved {
                    tokens,
                }) && tokens.deep_view() == targets.deep_view())
            }),
        },
{
    match target_spec {
        ResourceTargetSpec::AllResources => Ok(clone_resources(resources)),
        ResourceTargetSpec::AllOf(targets) => match_all_targets(targets, resources),
        ResourceTargetSpec::AnyOf(targets) => resolve_any_targets(targets, resources),
    }
}

} // verus!
