//! Small verified string utilities: equality and lexicographic order on
//! `str` values (by Unicode code point), and an insertion sort for string
//! vectors, used to report unresolved tokens in a stable order.

use vstd::multiset::Multiset;
use vstd::prelude::*;
use vstd::string::StrSliceExecFns;

verus! {

/// Relies on `String::push`: appends exactly the one character at the end,
/// leaving the rest of the string unchanged.
#[verifier::external_body]
pub fn push_char(s: &mut String, c: char)
    ensures
        final(s)@ == old(s)@.push(c),
{
    s.push(c);
}

/// Whether two strings hold the same characters.
pub fn str_eq(a: &str, b: &str) -> (r: bool)
    ensures
        r == (a@ == b@),
{
    let n = a.unicode_len();
    let m = b.unicode_len();
    if n != m {
        return false;
    }
    let mut i: usize = 0;
    while i < n
        invariant
            n == a@.len(),
            n == b@.len(),
            i <= n,
            forall|j: int| 0 <= j < i ==> a@[j] == b@[j],
        decreases n - i,
    {
        if a.get_char(i) != b.get_char(i) {
            return false;
        }
        i = i + 1;
    }
    proof {
        assert(a@ =~= b@);
    }
    true
}

/// Whether two optional strings hold the same characters, or are both
/// absent.
pub fn opt_str_eq(a: &Option<String>, b: &Option<String>) -> (r: bool)
    ensures
        r == (a.deep_view() == b.deep_view()),
{
    match (a, b) {
        (Some(x), Some(y)) => str_eq(x.as_str(), y.as_str()),
        (None, None) => true,
        _ => false,
    }
}

/// Whether `p` is a prefix of `s`.
pub open spec fn spec_starts_with(s: Seq<char>, p: Seq<char>) -> bool {
    p.len() <= s.len() && s.take(p.len() as int) == p
}

/// Whether `s` starts with `prefix`.
pub fn str_starts_with(s: &str, prefix: &str) -> (r: bool)
    ensures
        r == spec_starts_with(s@, prefix@),
{
    let n = s.unicode_len();
    let m = prefix.unicode_len();
    if m > n {
        return false;
    }
    let mut i: usize = 0;
    while i < m
        invariant
            n == s@.len(),
            m == prefix@.len(),
            m <= n,
            i <= m,
            forall|j: int| 0 <= j < i ==> s@[j] == prefix@[j],
        decreases m - i,
    {
        if s.get_char(i) != prefix.get_char(i) {
            proof {
                assert(s@.take(m as int)[i as int] == s@[i as int]);
                assert(s@.take(m as int) != prefix@);
            }
            return false;
        }
        i = i + 1;
    }
    proof {
        assert(s@.take(m as int) =~= prefix@);
    }
    true
}

/// Lexicographic order on character sequences, by code point; a prefix
/// sorts before its extensions.
pub open spec fn spec_lex_leq(a: Seq<char>, b: Seq<char>) -> bool
    decreases a.len(),
{
    if a.len() == 0 {
        true
    } else if b.len() == 0 {
        false
    } else if (a[0] as u32) != (b[0] as u32) {
        (a[0] as u32) < (b[0] as u32)
    } else {
        spec_lex_leq(a.drop_first(), b.drop_first())
    }
}

/// Whether a sequence of strings is in lexicographic order.
pub open spec fn lex_sorted(s: Seq<Seq<char>>) -> bool {
    forall|i: int, j: int|
        #![trigger s[i], s[j]]
        0 <= i < j < s.len() ==> spec_lex_leq(s[i], s[j])
}

/// Whether `a` sorts at or before `b` in lexicographic order.
pub fn str_le(a: &str, b: &str) -> (r: bool)
    ensures
        r == spec_lex_leq(a@, b@),
{
    let n = a.unicode_len();
    let m = b.unicode_len();
    let mut i: usize = 0;
    proof {
        assert(a@.skip(0) =~= a@);
        assert(b@.skip(0) =~= b@);
    }
    loop
        invariant
            n == a@.len(),
            m == b@.len(),
            i <= n,
            i <= m,
            spec_lex_leq(a@, b@) == spec_lex_leq(a@.skip(i as int), b@.skip(i as int)),
        decreases n - i,
    {
        proof {
            assert(a@.skip(i as int).len() == n - i);
            assert(b@.skip(i as int).len() == m - i);
        }
        if i == n {
            return true;
        }
        if i == m {
            return false;
        }
        let ca = a.get_char(i);
        let cb = b.get_char(i);
        proof {
            assert(a@.skip(i as int)[0] == a@[i as int]);
            assert(b@.skip(i as int)[0] == b@[i as int]);
        }
        if (ca as u32) == (cb as u32) {
            proof {
                assert(a@.skip(i as int).drop_first() =~= a@.skip(i as int + 1));
                assert(b@.skip(i as int).drop_first() =~= b@.skip(i as int + 1));
            }
            i = i + 1;
        } else {
            return (ca as u32) < (cb as u32);
        }
    }
}

proof fn lemma_lex_leq_total(a: Seq<char>, b: Seq<char>)
    ensures
        spec_lex_leq(a, b) || spec_lex_leq(b, a),
    decreases a.len(),
{
    if a.len() > 0 && b.len() > 0 && (a[0] as u32) == (b[0] as u32) {
        lemma_lex_leq_total(a.drop_first(), b.drop_first());
    }
}

proof fn lemma_lex_leq_trans(a: Seq<char>, b: Seq<char>, c: Seq<char>)
    requires
        spec_lex_leq(a, b),
        spec_lex_leq(b, c),
    ensures
        spec_lex_leq(a, c),
    decreases a.len(),
{
    if a.len() > 0 && b.len() > 0 && c.len() > 0 && (a[0] as u32) == (b[0] as u32) && (b[0] as u32)
        == (c[0] as u32) {
        lemma_lex_leq_trans(a.drop_first(), b.drop_first(), c.drop_first());
    }
}

/// The strings of `v`, in lexicographic order.
///
/// The result holds exactly the strings of `v` (as a multiset) and is
/// sorted by [`spec_lex_leq`].
pub fn sort_strings(v: &Vec<String>) -> (r: Vec<String>)
    ensures
        r.deep_view().to_multiset() == v.deep_view().to_multiset(),
        lex_sorted(r.deep_view()),
{
    broadcast use vstd::seq_lib::group_to_multiset_ensures;

    let mut out: Vec<String> = Vec::new();
    let mut idx: usize = 0;
    proof {
        assert(v.deep_view().take(0) =~= Seq::<Seq<char>>::empty());
        assert(out.deep_view() =~= Seq::<Seq<char>>::empty());
        assert(Seq::<Seq<char>>::empty().to_multiset() =~= Multiset::<Seq<char>>::empty());
    }
    while idx < v.len()
        invariant
            idx <= v@.len(),
            v.deep_view().len() == v@.len(),
            out.deep_view().to_multiset() == v.deep_view().take(idx as int).to_multiset(),
            lex_sorted(out.deep_view()),
        decreases v@.len() - idx,
    {
        let x = v[idx].clone();
        proof {
            assert(x@ == v.deep_view()[idx as int]);
        }
        let mut j: usize = 0;
        loop
            invariant
                j <= out@.len(),
                out.deep_view().len() == out@.len(),
                forall|k: int| 0 <= k < j ==> spec_lex_leq(#[trigger] out.deep_view()[k], x@),
            ensures
                j <= out@.len(),
                forall|k: int| 0 <= k < j ==> spec_lex_leq(#[trigger] out.deep_view()[k], x@),
                j < out@.len() ==> !spec_lex_leq(out.deep_view()[j as int], x@),
            decreases out@.len() - j,
        {
            if j == out.len() {
                proof {
                    assert(j == out@.len());
                }
                break;
            }
            proof {
                assert(out.deep_view()[j as int] == out@[j as int]@);
            }
            if !str_le(&out[j], &x) {
                break;
            }
            j = j + 1;
        }
        let ghost old_out = out.deep_view();
        proof {
            if j < out@.len() {
                lemma_lex_leq_total(old_out[j as int], x@);
                assert(spec_lex_leq(x@, old_out[j as int]));
            }
        }
        out.insert(j, x);
        proof {
            let new_out = out.deep_view();
            assert(new_out =~= old_out.insert(j as int, x@)) by {
                assert(out@ == out@);
                assert forall|k: int| 0 <= k < new_out.len() implies new_out[k] == old_out.insert(
                    j as int,
                    x@,
                )[k] by {
                    assert(new_out[k] == out@[k]@);
                }
            }
            // The inserted sequence keeps the multiset, with `x@` added once.
            let s = old_out.insert(j as int, x@);
            s.to_multiset_ensures();
            assert(s.remove(j as int) =~= old_out);
            assert(s.remove(j as int).to_multiset() =~= s.to_multiset().remove(s[j as int]));
            assert(s[j as int] == x@);
            assert(s.contains(x@)) by {
                assert(0 <= j < s.len() && s[j as int] == x@);
            }
            assert(s.to_multiset().count(x@) > 0);
            assert(s.to_multiset() =~= old_out.to_multiset().insert(x@));
            let t = v.deep_view().take(idx as int);
            t.to_multiset_ensures();
            assert(v.deep_view().take(idx as int + 1) =~= t.push(x@));
            assert(t.push(x@).to_multiset() =~= t.to_multiset().insert(x@));
            assert(v.deep_view().take(idx as int + 1).to_multiset() =~= t.to_multiset().insert(
                x@,
            ));
            // Sortedness is preserved around the insertion point.
            assert forall|p: int, q: int|
                #![trigger s[p], s[q]]
                0 <= p < q < s.len() implies spec_lex_leq(s[p], s[q]) by {
                if q < j {
                    assert(s[p] == old_out[p] && s[q] == old_out[q]);
                    assert(spec_lex_leq(old_out[p], old_out[q]));
                } else if q == j {
                    assert(s[p] == old_out[p] && s[q] == x@);
                    assert(spec_lex_leq(old_out[p], x@));
                } else if p < j {
                    assert(s[p] == old_out[p] && s[q] == old_out[q - 1]);
                    assert(q - 1 > p);
                    assert(spec_lex_leq(old_out[p], old_out[q - 1]));
                } else if p == j {
                    assert(s[p] == x@ && s[q] == old_out[q - 1]);
                    assert(q - 1 >= j && j < old_out.len());
                    assert(spec_lex_leq(x@, old_out[j as int]));
                    if q - 1 > j {
                        assert(spec_lex_leq(old_out[j as int], old_out[q - 1]));
                        lemma_lex_leq_trans(x@, old_out[j as int], old_out[q - 1]);
                    }
                } else {
                    assert(s[p] == old_out[p - 1] && s[q] == old_out[q - 1]);
                    assert(spec_lex_leq(old_out[p - 1], old_out[q - 1]));
                }
            }
            assert(lex_sorted(s));
        }
        idx = idx + 1;
    }
    proof {
        assert(v.deep_view().take(idx as int) =~= v.deep_view());
    }
    out
}

} // verus!
