//! The on-disk discovery snapshot and its freshness rules.
//!
//! A [`DiscoveryCacheFile`] is a timestamped snapshot of the descriptor
//! list, persisted under a per-application configuration directory, one file
//! per normalized context name. Freshness is `(now - snapshot timestamp) <=
//! ttl`, evaluated only when a TTL is supplied; an absent TTL means the
//! snapshot is always usable.

use vstd::prelude::*;

use crate::ApiResource;
use crate::resource::ResourceModel;
use crate::strutil::push_char;

verus! {

/// Spec-level shape of a snapshot.
pub ghost struct CacheModel {
    pub updated_at: u64,
    pub resources: Seq<ResourceModel>,
}

/// The discovery cache snapshot: the timestamp (seconds since the Unix
/// epoch) of when the API resources were captured, and the list of
/// resources discovered from the cluster.
#[derive(Debug)]
pub struct DiscoveryCacheFile {
    /// When the resources were captured, in seconds since the Unix epoch.
    pub updated_at: u64,
    /// The captured descriptor list.
    pub resources: Vec<ApiResource>,
}

impl View for DiscoveryCacheFile {
    type V = CacheModel;

    open spec fn view(&self) -> CacheModel {
        CacheModel { updated_at: self.updated_at, resources: self.resources.deep_view() }
    }
}

impl DeepView for DiscoveryCacheFile {
    type V = CacheModel;

    open spec fn deep_view(&self) -> CacheModel {
        self.view()
    }
}

fn resource_vec_eq(a: &Vec<ApiResource>, b: &Vec<ApiResource>) -> (r: bool)
    ensures
        r == (a.deep_view() == b.deep_view()),
{
    if a.len() != b.len() {
        proof {
            assert(a.deep_view().len() != b.deep_view().len());
        }
        return false;
    }
    let mut i: usize = 0;
    while i < a.len()
        invariant
            a@.len() == b@.len(),
            i <= a@.len(),
            forall|j: int| 0 <= j < i ==> a.deep_view()[j] == b.deep_view()[j],
        decreases a@.len() - i,
    {
        if !(a[i] == b[i]) {
            proof {
                assert(a.deep_view()[i as int] != b.deep_view()[i as int]);
            }
            return false;
        }
        i = i + 1;
    }
    proof {
        assert(a.deep_view() =~= b.deep_view());
    }
    true
}

impl PartialEq for DiscoveryCacheFile {
    /// Snapshots are equal when the timestamp and every descriptor agree.
    fn eq(&self, other: &Self) -> (r: bool) {
        self.updated_at == other.updated_at && resource_vec_eq(&self.resources, &other.resources)
    }
}

impl vstd::std_specs::cmp::PartialEqSpecImpl for DiscoveryCacheFile {
    open spec fn obeys_eq_spec() -> bool {
        true
    }

    open spec fn eq_spec(&self, other: &Self) -> bool {
        self@ == other@
    }
}

/// The snapshot's age: how many seconds `now` lies past `updated_at`, or
/// zero for a timestamp in the future.
pub open spec fn spec_cache_age(now: u64, updated_at: u64) -> u64 {
    if now >= updated_at {
        (now - updated_at) as u64
    } else {
        0
    }
}

/// Whether a snapshot taken at `updated_at` is still fresh at `now`: always
/// when no TTL is supplied, otherwise when its age is at most the TTL.
pub open spec fn spec_is_fresh(now: u64, updated_at: u64, ttl_secs: Option<u64>) -> bool {
    match ttl_secs {
        None => true,
        Some(ttl) => spec_cache_age(now, updated_at) <= ttl,
    }
}

/// The snapshot's age in seconds at time `now`.
pub fn cache_age(now: u64, updated_at: u64) -> (r: u64)
    ensures
        r == spec_cache_age(now, updated_at),
{
    if now >= updated_at {
        now - updated_at
    } else {
        0
    }
}

impl DiscoveryCacheFile {
    /// Whether this snapshot is still fresh at time `now` under `ttl_secs`.
    pub fn is_fresh(&self, now: u64, ttl_secs: Option<u64>) -> (r: bool)
        ensures
            r == spec_is_fresh(now, self.updated_at, ttl_secs),
    {
        match ttl_secs {
            None => true,
            Some(ttl) => cache_age(now, self.updated_at) <= ttl,
        }
    }
}

/// Whether the cache key keeps `c` as it is: ASCII alphanumerics, `-` and
/// `_`; every other character is replaced to prevent path traversal or
/// collisions.
pub open spec fn spec_keeps_char(c: char) -> bool {
    ||| 97 <= (c as u32) <= 122  // 'a' ..= 'z'
    ||| 65 <= (c as u32) <= 90  // 'A' ..= 'Z'
    ||| 48 <= (c as u32) <= 57  // '0' ..= '9'
    ||| c == '-'
    ||| c == '_'
}

/// The normalized form of a context name: kept characters unchanged, all
/// others replaced by `_`.
pub open spec fn spec_sanitize(s: Seq<char>) -> Seq<char> {
    s.map_values(|c: char| if spec_keeps_char(c) { c } else { '_' })
}

/// Normalizes a context name into a safe cache key.
pub fn sanitize_context(context: &str) -> (r: String)
    ensures
        r@ == spec_sanitize(context@),
{
    let n = context.unicode_len();
    let mut out = String::new();
    let mut i: usize = 0;
    while i < n
        invariant
            n == context@.len(),
            i <= n,
            out@.len() == i,
            forall|k: int|
                0 <= k < i ==> out@[k] == (if spec_keeps_char(context@[k]) {
                    context@[k]
                } else {
                    '_'
                }),
        decreases n - i,
    {
        let c = context.get_char(i);
        let cv = c as u32;
        let keep = (97 <= cv && cv <= 122) || (65 <= cv && cv <= 90) || (48 <= cv && cv <= 57)
            || c == '-' || c == '_';
        proof {
            assert(keep == spec_keeps_char(c));
        }
        if keep {
            push_char(&mut out, c);
        } else {
            push_char(&mut out, '_');
        }
        i = i + 1;
    }
    proof {
        assert(out@ =~= spec_sanitize(context@));
    }
    out
}

/// The file name of the cache for `context`: the normalized context name
/// with a `.json` extension.
pub fn discovery_cache_file_name(context: &str) -> (r: String)
    ensures
        r@ == spec_sanitize(context@) + ".json"@,
{
    let mut out = sanitize_context(context);
    out.append(".json");
    out
}

/// Relies on `dirs::config_dir`: the platform's per-user configuration
/// directory. The result depends on the environment, so nothing is promised
/// of it; a directory whose path is not valid Unicode counts as absent.
#[verifier::external_body]
fn config_dir_path() -> Option<String> {
    dirs::config_dir().and_then(|path| path.into_os_string().into_string().ok())
}

/// The default path of the discovery cache for `context`:
/// `<config-dir>/keye/<sanitized-context>.json`, or `None` when the
/// platform reports no configuration directory.
pub fn discovery_cache_path(context: &str) -> (r: Option<String>)
    ensures
        r matches Some(p) ==> exists|dir: Seq<char>|
            p@ == dir + "/keye/"@ + spec_sanitize(context@) + ".json"@,
{
    match config_dir_path() {
        None => None,
        Some(dir) => {
            let ghost base = dir@;
            let mut path = dir;
            path.append("/keye/");
            let name = discovery_cache_file_name(context);
            path.append(name.as_str());
            proof {
                assert(path@ == base + "/keye/"@ + (spec_sanitize(context@) + ".json"@));
                assert(path@ == base + "/keye/"@ + spec_sanitize(context@) + ".json"@);
            }
            Some(path)
        },
    }
}

} // verus!
