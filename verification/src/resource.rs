//! Canonical API resource descriptors and token matching.
//!
//! An [`ApiResource`] is an immutable value describing one remote API
//! resource type: group and version (both optional), kind, plural name,
//! singular name, short names, and whether the resource is namespaced. It is
//! sourced from the remote cluster and never locally mutated.

use vstd::prelude::*;

use crate::strutil::opt_str_eq;
use crate::strutil::str_eq;

verus! {

/// Spec-level shape of a descriptor: every text field as a character
/// sequence.
pub ghost struct ResourceModel {
    pub group: Option<Seq<char>>,
    pub version: Option<Seq<char>>,
    pub kind: Seq<char>,
    pub name: Seq<char>,
    pub singular_name: Seq<char>,
    pub short_names: Seq<Seq<char>>,
    pub namespaced: bool,
}

/// Canonical record of one remote API resource type.
#[derive(Debug)]
pub struct ApiResource {
    /// API group; `None` for the core group.
    pub group: Option<String>,
    /// API version within the group, when known.
    pub version: Option<String>,
    /// Object kind, e.g. `Pod`.
    pub kind: String,
    /// Plural resource name, e.g. `pods`.
    pub name: String,
    /// Singular resource name, e.g. `pod`.
    pub singular_name: String,
    /// Short aliases, e.g. `po`.
    pub short_names: Vec<String>,
    /// Whether the resource lives in a namespace.
    pub namespaced: bool,
}

impl View for ApiResource {
    type V = ResourceModel;

    open spec fn view(&self) -> ResourceModel {
        ResourceModel {
            group: self.group.deep_view(),
            version: self.version.deep_view(),
            kind: self.kind@,
            name: self.name@,
            singular_name: self.singular_name@,
            short_names: self.short_names.deep_view(),
            namespaced: self.namespaced,
        }
    }
}

impl DeepView for ApiResource {
    type V = ResourceModel;

    open spec fn deep_view(&self) -> ResourceModel {
        self.view()
    }
}

impl Clone for ApiResource {
    fn clone(&self) -> (r: Self)
        ensures
            r@ == self@,
    {
        let group = match &self.group {
            Some(g) => Some(g.clone()),
            None => None,
        };
        let version = match &self.version {
            Some(v) => Some(v.clone()),
            None => None,
        };
        let mut short_names: Vec<String> = Vec::new();
        let mut i: usize = 0;
        while i < self.short_names.len()
            invariant
                i <= self.short_names@.len(),
                short_names@.len() == i,
                forall|k: int| 0 <= k < i ==> short_names@[k] == self.short_names@[k],
            decreases self.short_names@.len() - i,
        {
            short_names.push(self.short_names[i].clone());
            i = i + 1;
        }
        proof {
            assert(short_names@ =~= self.short_names@);
            assert(short_names.deep_view() =~= self.short_names.deep_view());
        }
        ApiResource {
            group,
            version,
            kind: self.kind.clone(),
            name: self.name.clone(),
            singular_name: self.singular_name.clone(),
            short_names,
            namespaced: self.namespaced,
        }
    }
}

/// Whether `a` and `b` hold the same characters, element for element.
fn string_vec_eq(a: &Vec<String>, b: &Vec<String>) -> (r: bool)
    ensures
        r == (a.deep_view() == b.deep_view()),
{
    if a.len() != b.len() {
        proof {
            assert(a.deep_view().len() != b.deep_view().len());
        }
        return false;
    }
    let mut i: usize = 0;
    while i < a.len()
        invariant
            a@.len() == b@.len(),
            i <= a@.len(),
            forall|j: int| 0 <= j < i ==> a.deep_view()[j] == b.deep_view()[j],
        decreases a@.len() - i,
    {
        if !str_eq(a[i].as_str(), b[i].as_str()) {
            proof {
                assert(a.deep_view()[i as int] != b.deep_view()[i as int]);
            }
            return false;
        }
        i = i + 1;
    }
    proof {
        assert(a.deep_view() =~= b.deep_view());
    }
    true
}

impl PartialEq for ApiResource {
    /// Descriptors are equal when every field holds the same text.
    fn eq(&self, other: &Self) -> (r: bool) {
        opt_str_eq(&self.group, &other.group) && opt_str_eq(&self.version, &other.version)
            && str_eq(self.kind.as_str(), other.kind.as_str()) && str_eq(
            self.name.as_str(),
            other.name.as_str(),
        ) && str_eq(self.singular_name.as_str(), other.singular_name.as_str())
            && string_vec_eq(&self.short_names, &other.short_names) && self.namespaced
            == other.namespaced
    }
}

impl vstd::std_specs::cmp::PartialEqSpecImpl for ApiResource {
    open spec fn obeys_eq_spec() -> bool {
        true
    }

    open spec fn eq_spec(&self, other: &Self) -> bool {
        self@ == other@
    }
}

/// Whether `target` names the descriptor `r`: the plural name, the singular
/// name, any short name, or the group-qualified `<plural>.<group>` form.
pub open spec fn spec_matches(target: Seq<char>, r: ResourceModel) -> bool {
    ||| r.name == target
    ||| r.singular_name == target
    ||| exists|i: int| 0 <= i < r.short_names.len() && r.short_names[i] == target
    ||| (r.group matches Some(g) && r.name + "."@ + g == target)
}

/// The first descriptor in `rs` that `target` matches, if any.
pub open spec fn spec_find_resource(rs: Seq<ResourceModel>, target: Seq<char>) -> Option<
    ResourceModel,
>
    decreases rs.len(),
{
    if rs.len() == 0 {
        None
    } else if spec_matches(target, rs[0]) {
        Some(rs[0])
    } else {
        spec_find_resource(rs.drop_first(), target)
    }
}

} // verus!
