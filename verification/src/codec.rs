//! The cache file format.
//!
//! A snapshot is written as one JSON object with a fixed key order and no
//! whitespace: `{"updated_at":<seconds>,"resources":[{...},...]}`, each
//! resource as `{"group":...,"version":...,"kind":...,"name":...,
//! "singularName":...,"shortNames":[...],"namespaced":...}` with `group` and
//! `version` either a string or `null`. Inside strings, `"` and `\` are
//! escaped with a backslash; every other character stands for itself.
//!
//! Both directions are defined by spec functions here: the executable
//! encoder produces exactly [`spec_encode_cache`], the executable decoder
//! accepts exactly what [`spec_decode_cache`] accepts, and decoding an
//! encoded snapshot gives the snapshot back ([`lemma_codec_round_trip`]).

use vstd::prelude::*;

use crate::ApiResource;
use crate::cache::CacheModel;
use crate::cache::DiscoveryCacheFile;
use crate::resource::ResourceModel;
use crate::strutil::push_char;
use vstd::string::StringExecFns;

verus! {

// ---------------------------------------------------------------------------
// Encoding, as spec functions.
// ---------------------------------------------------------------------------
/// How one character appears inside an encoded string.
pub open spec fn esc_char(c: char) -> Seq<char> {
    if c == '"' || c == '\\' {
        seq!['\\', c]
    } else {
        seq![c]
    }
}

/// A string's characters with `"` and `\` escaped.
pub open spec fn spec_escape(s: Seq<char>) -> Seq<char>
    decreases s.len(),
{
    if s.len() == 0 {
        Seq::empty()
    } else {
        esc_char(s[0]) + spec_escape(s.drop_first())
    }
}

/// A quoted, escaped string.
pub open spec fn spec_encode_string(s: Seq<char>) -> Seq<char> {
    seq!['"'] + spec_escape(s) + seq!['"']
}

/// The decimal digit character for `d` (which must be below ten).
pub open spec fn digit_char(d: nat) -> char {
    if d == 0 {
        '0'
    } else if d == 1 {
        '1'
    } else if d == 2 {
        '2'
    } else if d == 3 {
        '3'
    } else if d == 4 {
        '4'
    } else if d == 5 {
        '5'
    } else if d == 6 {
        '6'
    } else if d == 7 {
        '7'
    } else if d == 8 {
        '8'
    } else {
        '9'
    }
}

/// `n` in decimal, most significant digit first.
pub open spec fn spec_encode_nat(n: nat) -> Seq<char>
    decreases n,
{
    if n < 10 {
        seq![digit_char(n)]
    } else {
        spec_encode_nat(n / 10).push(digit_char(n % 10))
    }
}

/// `true` or `false`.
pub open spec fn spec_encode_bool(b: bool) -> Seq<char> {
    if b {
        "true"@
    } else {
        "false"@
    }
}

/// A string, or `null` when absent.
pub open spec fn spec_encode_opt_string(o: Option<Seq<char>>) -> Seq<char> {
    match o {
        None => "null"@,
        Some(s) => spec_encode_string(s),
    }
}

/// The comma-separated items of a string array.
pub open spec fn spec_encode_string_items(l: Seq<Seq<char>>) -> Seq<char>
    decreases l.len(),
{
    if l.len() == 0 {
        Seq::empty()
    } else if l.len() == 1 {
        spec_encode_string(l[0])
    } else {
        spec_encode_string(l[0]) + seq![','] + spec_encode_string_items(l.drop_first())
    }
}

/// A bracketed string array.
pub open spec fn spec_encode_string_list(l: Seq<Seq<char>>) -> Seq<char> {
    seq!['['] + spec_encode_string_items(l) + seq![']']
}

/// One resource object, keys in fixed order.
pub open spec fn spec_encode_resource(r: ResourceModel) -> Seq<char> {
    "{\"group\":"@ + spec_encode_opt_string(r.group) + ",\"version\":"@
        + spec_encode_opt_string(r.version) + ",\"kind\":"@ + spec_encode_string(r.kind)
        + ",\"name\":"@ + spec_encode_string(r.name) + ",\"singularName\":"@
        + spec_encode_string(r.singular_name) + ",\"shortNames\":"@ + spec_encode_string_list(
        r.short_names,
    ) + ",\"namespaced\":"@ + spec_encode_bool(r.namespaced) + "}"@
}

/// The comma-separated items of the resource array.
pub open spec fn spec_encode_resource_items(l: Seq<ResourceModel>) -> Seq<char>
    decreases l.len(),
{
    if l.len() == 0 {
        Seq::empty()
    } else if l.len() == 1 {
        spec_encode_resource(l[0])
    } else {
        spec_encode_resource(l[0]) + seq![','] + spec_encode_resource_items(l.drop_first())
    }
}

/// The whole snapshot object.
pub open spec fn spec_encode_cache(m: CacheModel) -> Seq<char> {
    "{\"updated_at\":"@ + spec_encode_nat(m.updated_at as nat) + ",\"resources\":"@ + seq!['[']
        + spec_encode_resource_items(m.resources) + seq![']'] + "}"@
}

// ---------------------------------------------------------------------------
// The executable encoder.
// ---------------------------------------------------------------------------
proof fn lemma_escape_snoc(s: Seq<char>, c: char)
    ensures
        spec_escape(s.push(c)) == spec_escape(s) + esc_char(c),
    decreases s.len(),
{
    if s.len() == 0 {
        assert(s.push(c)[0] == c);
        assert(s.push(c).drop_first() =~= Seq::<char>::empty());
        assert(spec_escape(s.push(c)) == esc_char(c) + spec_escape(Seq::<char>::empty()));
        assert(spec_escape(s.push(c)) =~= esc_char(c));
        assert(spec_escape(s) + esc_char(c) =~= esc_char(c));
    } else {
        assert(s.push(c).drop_first() =~= s.drop_first().push(c));
        lemma_escape_snoc(s.drop_first(), c);
        assert(s.push(c)[0] == s[0]);
        assert(spec_escape(s.push(c)) == esc_char(s[0]) + (spec_escape(s.drop_first()) + esc_char(
            c,
        )));
        assert(esc_char(s[0]) + (spec_escape(s.drop_first()) + esc_char(c)) =~= (esc_char(s[0])
            + spec_escape(s.drop_first())) + esc_char(c));
    }
}

fn push_escaped(out: &mut String, s: &str)
    ensures
        final(out)@ == old(out)@ + spec_escape(s@),
{
    let n = s.unicode_len();
    let mut i: usize = 0;
    proof {
        assert(s@.take(0) =~= Seq::<char>::empty());
        assert(old(out)@ + spec_escape(s@.take(0)) =~= old(out)@);
    }
    while i < n
        invariant
            n == s@.len(),
            i <= n,
            out@ == old(out)@ + spec_escape(s@.take(i as int)),
        decreases n - i,
    {
        let c = s.get_char(i);
        if c == '"' || c == '\\' {
            push_char(out, '\\');
        }
        push_char(out, c);
        proof {
            assert(s@.take(i as int + 1) =~= s@.take(i as int).push(s@[i as int]));
            lemma_escape_snoc(s@.take(i as int), s@[i as int]);
            if c == '"' || c == '\\' {
                assert((old(out)@ + spec_escape(s@.take(i as int))).push('\\').push(c) =~= old(
                    out,
                )@ + (spec_escape(s@.take(i as int)) + esc_char(c)));
            } else {
                assert((old(out)@ + spec_escape(s@.take(i as int))).push(c) =~= old(out)@ + (
                spec_escape(s@.take(i as int)) + esc_char(c)));
            }
        }
        i = i + 1;
    }
    proof {
        assert(s@.take(i as int) =~= s@);
    }
}

fn push_string(out: &mut String, s: &str)
    ensures
        final(out)@ == old(out)@ + spec_encode_string(s@),
{
    push_char(out, '"');
    push_escaped(out, s);
    push_char(out, '"');
    proof {
        assert(old(out)@.push('"') =~= old(out)@ + seq!['"']);
        assert(((old(out)@ + seq!['"']) + spec_escape(s@)).push('"') =~= old(out)@ + (seq!['"']
            + spec_escape(s@) + seq!['"']));
    }
}

fn digit_of(d: u64) -> (c: char)
    requires
        d < 10,
    ensures
        c == digit_char(d as nat),
{
    if d == 0 {
        '0'
    } else if d == 1 {
        '1'
    } else if d == 2 {
        '2'
    } else if d == 3 {
        '3'
    } else if d == 4 {
        '4'
    } else if d == 5 {
        '5'
    } else if d == 6 {
        '6'
    } else if d == 7 {
        '7'
    } else if d == 8 {
        '8'
    } else {
        '9'
    }
}

fn push_u64(out: &mut String, n: u64)
    ensures
        final(out)@ == old(out)@ + spec_encode_nat(n as nat),
    decreases n,
{
    if n < 10 {
        push_char(out, digit_of(n));
        proof {
            assert(old(out)@.push(digit_char(n as nat)) =~= old(out)@ + seq![
                digit_char(n as nat),
            ]);
        }
    } else {
        push_u64(out, n / 10);
        push_char(out, digit_of(n % 10));
        proof {
            assert((old(out)@ + spec_encode_nat(n as nat / 10)).push(digit_char(n as nat % 10))
                =~= old(out)@ + spec_encode_nat(n as nat / 10).push(digit_char(n as nat % 10)));
        }
    }
}

fn push_bool(out: &mut String, b: bool)
    ensures
        final(out)@ == old(out)@ + spec_encode_bool(b),
{
    if b {
        out.append("true");
    } else {
        out.append("false");
    }
}

fn push_opt_string(out: &mut String, o: &Option<String>)
    ensures
        final(out)@ == old(out)@ + spec_encode_opt_string(o.deep_view()),
{
    match o {
        None => out.append("null"),
        Some(s) => push_string(out, s.as_str()),
    }
}

fn push_string_list(out: &mut String, l: &Vec<String>)
    ensures
        final(out)@ == old(out)@ + spec_encode_string_list(l.deep_view()),
{
    push_char(out, '[');
    let ghost items = l.deep_view();
    let n = l.len();
    let mut i: usize = 0;
    proof {
        assert(items.skip(0) =~= items);
        assert(out@ =~= old(out)@ + seq!['[']);
    }
    while i < n
        invariant
            n == l@.len(),
            items == l.deep_view(),
            items.len() == n,
            i <= n,
            out@ + spec_encode_string_items(items.skip(i as int)) == old(out)@ + seq!['[']
                + spec_encode_string_items(items),
        decreases n - i,
    {
        let ghost pre = out@;
        proof {
            assert(items.skip(i as int)[0] == items[i as int]);
            assert(items.skip(i as int).drop_first() =~= items.skip(i as int + 1));
            assert(items[i as int] == l@[i as int]@);
        }
        push_string(out, l[i].as_str());
        i = i + 1;
        if i < n {
            push_char(out, ',');
            proof {
                assert((pre + spec_encode_string(items[i - 1])).push(',') =~= pre + (
                spec_encode_string(items[i - 1]) + seq![',']));
                assert(spec_encode_string_items(items.skip(i - 1)) == spec_encode_string(items[i
                    - 1]) + seq![','] + spec_encode_string_items(items.skip(i as int)));
                assert(out@ + spec_encode_string_items(items.skip(i as int)) =~= pre + (
                spec_encode_string(items[i - 1]) + seq![','] + spec_encode_string_items(
                    items.skip(i as int),
                )));
                assert(pre + (spec_encode_string(items[i - 1]) + seq![',']
                    + spec_encode_string_items(items.skip(i as int))) =~= pre + (
                spec_encode_string(items[i - 1]) + (seq![','] + spec_encode_string_items(
                    items.skip(i as int),
                ))));
                assert(pre + spec_encode_string_items(items.skip(i - 1)) =~= pre + (
                spec_encode_string(items[i - 1]) + (seq![','] + spec_encode_string_items(
                    items.skip(i as int),
                ))));
            }
        } else {
            proof {
                assert(items.skip(i - 1).len() == 1);
                assert(spec_encode_string_items(items.skip(i - 1)) == spec_encode_string(items[i
                    - 1]));
                assert(items.skip(i as int).len() == 0);
                assert(out@ + spec_encode_string_items(items.skip(i as int)) =~= out@);
            }
        }
    }
    push_char(out, ']');
    proof {
        assert(items.skip(i as int).len() == 0);
        assert(out@ =~= old(out)@ + spec_encode_string_list(items));
    }
}

fn push_resource(out: &mut String, r: &ApiResource)
    ensures
        final(out)@ == old(out)@ + spec_encode_resource(r@),
{
    out.append("{\"group\":");
    push_opt_string(out, &r.group);
    out.append(",\"version\":");
    push_opt_string(out, &r.version);
    out.append(",\"kind\":");
    push_string(out, r.kind.as_str());
    out.append(",\"name\":");
    push_string(out, r.name.as_str());
    out.append(",\"singularName\":");
    push_string(out, r.singular_name.as_str());
    out.append(",\"shortNames\":");
    push_string_list(out, &r.short_names);
    out.append(",\"namespaced\":");
    push_bool(out, r.namespaced);
    out.append("}");
    proof {
        assert(out@ =~= old(out)@ + spec_encode_resource(r@));
    }
}

/// Encodes a snapshot into the cache file text.
pub fn encode_discovery_cache(file: &DiscoveryCacheFile) -> (r: String)
    ensures
        r@ == spec_encode_cache(file@),
{
    let mut out = String::new();
    out.append("{\"updated_at\":");
    push_u64(&mut out, file.updated_at);
    out.append(",\"resources\":");
    push_char(&mut out, '[');
    let ghost items = file.resources.deep_view();
    let ghost head = out@;
    let n = file.resources.len();
    let mut i: usize = 0;
    proof {
        assert(items.skip(0) =~= items);
    }
    while i < n
        invariant
            n == file.resources@.len(),
            items == file.resources.deep_view(),
            items.len() == n,
            i <= n,
            out@ + spec_encode_resource_items(items.skip(i as int)) == head
                + spec_encode_resource_items(items),
        decreases n - i,
    {
        let ghost pre = out@;
        proof {
            assert(items.skip(i as int)[0] == items[i as int]);
            assert(items.skip(i as int).drop_first() =~= items.skip(i as int + 1));
            assert(items[i as int] == file.resources@[i as int]@);
        }
        push_resource(&mut out, &file.resources[i]);
        i = i + 1;
        if i < n {
            push_char(&mut out, ',');
            proof {
                assert(spec_encode_resource_items(items.skip(i - 1)) == spec_encode_resource(
                    items[i - 1],
                ) + seq![','] + spec_encode_resource_items(items.skip(i as int)));
                assert(out@ + spec_encode_resource_items(items.skip(i as int)) =~= pre
                    + spec_encode_resource_items(items.skip(i - 1)));
            }
        } else {
            proof {
                assert(items.skip(i - 1).len() == 1);
                assert(spec_encode_resource_items(items.skip(i - 1)) == spec_encode_resource(
                    items[i - 1],
                ));
                assert(items.skip(i as int).len() == 0);
                assert(out@ + spec_encode_resource_items(items.skip(i as int)) =~= pre
                    + spec_encode_resource_items(items.skip(i - 1)));
            }
        }
    }
    push_char(&mut out, ']');
    out.append("}");
    proof {
        assert(items.skip(i as int).len() == 0);
        assert(out@ =~= spec_encode_cache(file@));
    }
    out
}

// ---------------------------------------------------------------------------
// Parsing, as spec functions. Each parser consumes a prefix and hands back
// the value together with the unconsumed remainder, or `None`.
// ---------------------------------------------------------------------------
/// Consumes exactly `lit` from the front of `s`.
pub open spec fn spec_parse_lit(s: Seq<char>, lit: Seq<char>) -> Option<Seq<char>> {
    if lit.len() <= s.len() && s.take(lit.len() as int) == lit {
        Some(s.skip(lit.len() as int))
    } else {
        None
    }
}

/// Consumes an escaped string up to and including its closing quote.
pub open spec fn spec_parse_string_body(s: Seq<char>) -> Option<(Seq<char>, Seq<char>)>
    decreases s.len(),
{
    if s.len() == 0 {
        None
    } else if s[0] == '"' {
        Some((Seq::empty(), s.drop_first()))
    } else if s[0] == '\\' {
        if s.len() >= 2 && (s[1] == '"' || s[1] == '\\') {
            match spec_parse_string_body(s.skip(2)) {
                Some((t, rest)) => Some((seq![s[1]] + t, rest)),
                None => None,
            }
        } else {
            None
        }
    } else {
        match spec_parse_string_body(s.drop_first()) {
            Some((t, rest)) => Some((seq![s[0]] + t, rest)),
            None => None,
        }
    }
}

/// Consumes a quoted string.
pub open spec fn spec_parse_string(s: Seq<char>) -> Option<(Seq<char>, Seq<char>)> {
    if s.len() > 0 && s[0] == '"' {
        spec_parse_string_body(s.drop_first())
    } else {
        None
    }
}

/// Whether `c` is a decimal digit.
pub open spec fn is_digit(c: char) -> bool {
    48 <= (c as u32) <= 57  // '0' ..= '9'
}

/// The value of the digit `c`.
pub open spec fn digit_val(c: char) -> nat
    recommends
        is_digit(c),
{
    ((c as u32) - 48) as nat
}

/// Consumes digits greedily, folding them onto `acc`.
pub open spec fn spec_parse_digits(s: Seq<char>, acc: nat) -> (nat, Seq<char>)
    decreases s.len(),
{
    if s.len() > 0 && is_digit(s[0]) {
        spec_parse_digits(s.drop_first(), acc * 10 + digit_val(s[0]))
    } else {
        (acc, s)
    }
}

/// Consumes a decimal number that fits a `u64`.
pub open spec fn spec_parse_u64(s: Seq<char>) -> Option<(u64, Seq<char>)> {
    if s.len() > 0 && is_digit(s[0]) {
        let (v, rest) = spec_parse_digits(s, 0);
        if v <= u64::MAX {
            Some((v as u64, rest))
        } else {
            None
        }
    } else {
        None
    }
}

/// Consumes `true` or `false`.
pub open spec fn spec_parse_bool(s: Seq<char>) -> Option<(bool, Seq<char>)> {
    match spec_parse_lit(s, "true"@) {
        Some(rest) => Some((true, rest)),
        None => match spec_parse_lit(s, "false"@) {
            Some(rest) => Some((false, rest)),
            None => None,
        },
    }
}

/// Consumes a quoted string or `null`.
pub open spec fn spec_parse_opt_string(s: Seq<char>) -> Option<(Option<Seq<char>>, Seq<char>)> {
    if s.len() > 0 && s[0] == '"' {
        match spec_parse_string(s) {
            Some((v, rest)) => Some((Some(v), rest)),
            None => None,
        }
    } else {
        match spec_parse_lit(s, "null"@) {
            Some(rest) => Some((None, rest)),
            None => None,
        }
    }
}

proof fn lemma_parse_string_body_consumes(s: Seq<char>)
    ensures
        spec_parse_string_body(s) matches Some((t, rest)) ==> rest.len() < s.len(),
    decreases s.len(),
{
    if s.len() == 0 {
    } else if s[0] == '"' {
    } else if s[0] == '\\' {
        if s.len() >= 2 && (s[1] == '"' || s[1] == '\\') {
            lemma_parse_string_body_consumes(s.skip(2));
        }
    } else {
        lemma_parse_string_body_consumes(s.drop_first());
    }
}

pub proof fn lemma_parse_string_consumes(s: Seq<char>)
    ensures
        spec_parse_string(s) matches Some((t, rest)) ==> rest.len() + 2 <= s.len(),
{
    if s.len() > 0 && s[0] == '"' {
        lemma_parse_string_body_consumes(s.drop_first());
    }
}

/// Consumes the elements of a string array after the opening bracket, up to
/// and including the closing bracket; there must be at least one element.
pub open spec fn spec_parse_string_items(s: Seq<char>) -> Option<(Seq<Seq<char>>, Seq<char>)>
    decreases s.len(),
{
    match spec_parse_string(s) {
        Some((v, rest)) => {
            if rest.len() > 0 && rest[0] == ',' {
                proof {
                    lemma_parse_string_consumes(s);
                }
                match spec_parse_string_items(rest.drop_first()) {
                    Some((vs, rest2)) => Some((seq![v] + vs, rest2)),
                    None => None,
                }
            } else if rest.len() > 0 && rest[0] == ']' {
                Some((seq![v], rest.drop_first()))
            } else {
                None
            }
        },
        None => None,
    }
}

/// Consumes a whole bracketed string array.
pub open spec fn spec_parse_string_list(s: Seq<char>) -> Option<(Seq<Seq<char>>, Seq<char>)> {
    if s.len() >= 2 && s[0] == '[' && s[1] == ']' {
        Some((Seq::empty(), s.skip(2)))
    } else if s.len() >= 1 && s[0] == '[' {
        spec_parse_string_items(s.drop_first())
    } else {
        None
    }
}

proof fn lemma_parse_string_items_consumes(s: Seq<char>)
    ensures
        spec_parse_string_items(s) matches Some((vs, rest)) ==> rest.len() < s.len(),
    decreases s.len(),
{
    lemma_parse_string_consumes(s);
    match spec_parse_string(s) {
        Some((v, rest)) => {
            if rest.len() > 0 && rest[0] == ',' {
                lemma_parse_string_items_consumes(rest.drop_first());
            }
        },
        None => {},
    }
}

proof fn lemma_parse_string_list_consumes(s: Seq<char>)
    ensures
        spec_parse_string_list(s) matches Some((vs, rest)) ==> rest.len() < s.len(),
{
    if s.len() >= 2 && s[0] == '[' && s[1] == ']' {
    } else if s.len() >= 1 && s[0] == '[' {
        lemma_parse_string_items_consumes(s.drop_first());
    }
}

proof fn lemma_parse_opt_string_consumes(s: Seq<char>)
    ensures
        spec_parse_opt_string(s) matches Some((v, rest)) ==> rest.len() < s.len(),
{
    reveal_strlit("null");
    if s.len() > 0 && s[0] == '"' {
        lemma_parse_string_consumes(s);
    } else {
        assert("null"@.len() == 4);
    }
}

proof fn lemma_parse_bool_consumes(s: Seq<char>)
    ensures
        spec_parse_bool(s) matches Some((b, rest)) ==> rest.len() < s.len(),
{
    reveal_strlit("true");
    reveal_strlit("false");
    assert("true"@.len() == 4);
    assert("false"@.len() == 5);
}

/// Consumes one resource object.
pub open spec fn spec_parse_resource(s: Seq<char>) -> Option<(ResourceModel, Seq<char>)> {
    match spec_parse_lit(s, "{\"group\":"@) {
        None => None,
        Some(s1) => match spec_parse_opt_string(s1) {
            None => None,
            Some((group, s2)) => match spec_parse_lit(s2, ",\"version\":"@) {
                None => None,
                Some(s3) => match spec_parse_opt_string(s3) {
                    None => None,
                    Some((version, s4)) => match spec_parse_lit(s4, ",\"kind\":"@) {
                        None => None,
                        Some(s5) => match spec_parse_string(s5) {
                            None => None,
                            Some((kind, s6)) => match spec_parse_lit(s6, ",\"name\":"@) {
                                None => None,
                                Some(s7) => match spec_parse_string(s7) {
                                    None => None,
                                    Some((name, s8)) => match spec_parse_lit(
                                        s8,
                                        ",\"singularName\":"@,
                                    ) {
                                        None => None,
                                        Some(s9) => match spec_parse_string(s9) {
                                            None => None,
                                            Some((singular_name, s10)) => match spec_parse_lit(
                                                s10,
                                                ",\"shortNames\":"@,
                                            ) {
                                                None => None,
                                                Some(s11) => match spec_parse_string_list(s11) {
                                                    None => None,
                                                    Some((short_names, s12)) => match spec_parse_lit(
                                                        s12,
                                                        ",\"namespaced\":"@,
                                                    ) {
                                                        None => None,
                                                        Some(s13) => match spec_parse_bool(s13) {
                                                            None => None,
                                                            Some((namespaced, s14)) => match spec_parse_lit(
                                                                s14,
                                                                "}"@,
                                                            ) {
                                                                None => None,
                                                                Some(s15) => Some(
                                                                    (
                                                                        ResourceModel {
                                                                            group,
                                                                            version,
                                                                            kind,
                                                                            name,
                                                                            singular_name,
                                                                            short_names,
                                                                            namespaced,
                                                                        },
                                                                        s15,
                                                                    ),
                                                                ),
                                                            },
                                                        },
                                                    },
                                                },
                                            },
                                        },
                                    },
                                },
                            },
                        },
                    },
                },
            },
        },
    }
}

pub proof fn lemma_parse_resource_consumes(s: Seq<char>)
    ensures
        spec_parse_resource(s) matches Some((r, rest)) ==> rest.len() < s.len(),
{
    if spec_parse_resource(s) is Some {
        let s1 = spec_parse_lit(s, "{\"group\":"@)->0;
        lemma_parse_opt_string_consumes(s1);
        let s2 = (spec_parse_opt_string(s1)->0).1;
        let s3 = spec_parse_lit(s2, ",\"version\":"@)->0;
        lemma_parse_opt_string_consumes(s3);
        let s4 = (spec_parse_opt_string(s3)->0).1;
        let s5 = spec_parse_lit(s4, ",\"kind\":"@)->0;
        lemma_parse_string_consumes(s5);
        let s6 = (spec_parse_string(s5)->0).1;
        let s7 = spec_parse_lit(s6, ",\"name\":"@)->0;
        lemma_parse_string_consumes(s7);
        let s8 = (spec_parse_string(s7)->0).1;
        let s9 = spec_parse_lit(s8, ",\"singularName\":"@)->0;
        lemma_parse_string_consumes(s9);
        let s10 = (spec_parse_string(s9)->0).1;
        let s11 = spec_parse_lit(s10, ",\"shortNames\":"@)->0;
        lemma_parse_string_list_consumes(s11);
        let s12 = (spec_parse_string_list(s11)->0).1;
        let s13 = spec_parse_lit(s12, ",\"namespaced\":"@)->0;
        lemma_parse_bool_consumes(s13);
    }
}

/// Consumes the elements of the resource array after the opening bracket,
/// up to and including the closing bracket; at least one element.
pub open spec fn spec_parse_resource_items(s: Seq<char>) -> Option<
    (Seq<ResourceModel>, Seq<char>),
>
    decreases s.len(),
{
    match spec_parse_resource(s) {
        Some((r, rest)) => {
            if rest.len() > 0 && rest[0] == ',' {
                proof {
                    lemma_parse_resource_consumes(s);
                }
                match spec_parse_resource_items(rest.drop_first()) {
                    Some((rs, rest2)) => Some((seq![r] + rs, rest2)),
                    None => None,
                }
            } else if rest.len() > 0 && rest[0] == ']' {
                Some((seq![r], rest.drop_first()))
            } else {
                None
            }
        },
        None => None,
    }
}

/// Consumes the whole bracketed resource array.
pub open spec fn spec_parse_resource_list(s: Seq<char>) -> Option<
    (Seq<ResourceModel>, Seq<char>),
> {
    if s.len() >= 2 && s[0] == '[' && s[1] == ']' {
        Some((Seq::empty(), s.skip(2)))
    } else if s.len() >= 1 && s[0] == '[' {
        spec_parse_resource_items(s.drop_first())
    } else {
        None
    }
}

/// Consumes one whole snapshot object.
pub open spec fn spec_parse_cache(s: Seq<char>) -> Option<(CacheModel, Seq<char>)> {
    match spec_parse_lit(s, "{\"updated_at\":"@) {
        None => None,
        Some(s1) => match spec_parse_u64(s1) {
            None => None,
            Some((updated_at, s2)) => match spec_parse_lit(s2, ",\"resources\":"@) {
                None => None,
                Some(s3) => match spec_parse_resource_list(s3) {
                    None => None,
                    Some((resources, s4)) => match spec_parse_lit(s4, "}"@) {
                        None => None,
                        Some(s5) => Some((CacheModel { updated_at, resources }, s5)),
                    },
                },
            },
        },
    }
}

/// What the decoder accepts: exactly one snapshot object and nothing after
/// it.
pub open spec fn spec_decode_cache(s: Seq<char>) -> Option<CacheModel> {
    match spec_parse_cache(s) {
        Some((m, rest)) => if rest.len() == 0 {
            Some(m)
        } else {
            None
        },
        None => None,
    }
}

// ---------------------------------------------------------------------------
// The round trip: every parser accepts what the matching encoder wrote.
// ---------------------------------------------------------------------------
proof fn lemma_parse_lit_rt(lit: Seq<char>, rest: Seq<char>)
    ensures
        spec_parse_lit(lit + rest, lit) == Some(rest),
{
    assert((lit + rest).take(lit.len() as int) =~= lit);
    assert((lit + rest).skip(lit.len() as int) =~= rest);
}

proof fn lemma_parse_string_body_rt(v: Seq<char>, rest: Seq<char>)
    ensures
        spec_parse_string_body(spec_escape(v) + seq!['"'] + rest) == Some((v, rest)),
    decreases v.len(),
{
    let s = spec_escape(v) + seq!['"'] + rest;
    if v.len() == 0 {
        assert(s =~= seq!['"'] + rest);
        assert(s[0] == '"');
        assert(s.drop_first() =~= rest);
        assert(v =~= Seq::<char>::empty());
    } else {
        let c = v[0];
        let tail = spec_escape(v.drop_first()) + seq!['"'] + rest;
        assert(spec_escape(v) == esc_char(c) + spec_escape(v.drop_first()));
        lemma_parse_string_body_rt(v.drop_first(), rest);
        if c == '"' || c == '\\' {
            assert(s =~= seq!['\\', c] + tail);
            assert(s[0] == '\\');
            assert(s[1] == c);
            assert(s.len() >= 2);
            assert(s.skip(2) =~= tail);
            assert(seq![c] + v.drop_first() =~= v);
        } else {
            assert(s =~= seq![c] + tail);
            assert(s[0] == c);
            assert(s.drop_first() =~= tail);
            assert(seq![c] + v.drop_first() =~= v);
        }
    }
}

proof fn lemma_parse_string_rt(v: Seq<char>, rest: Seq<char>)
    ensures
        spec_parse_string(spec_encode_string(v) + rest) == Some((v, rest)),
{
    let s = spec_encode_string(v) + rest;
    assert(s =~= seq!['"'] + (spec_escape(v) + seq!['"'] + rest));
    assert(s[0] == '"');
    assert(s.drop_first() =~= spec_escape(v) + seq!['"'] + rest);
    lemma_parse_string_body_rt(v, rest);
}

/// Digits folded most-significant first onto `acc`, as the parser does.
spec fn fold_digits(acc: nat, ds: Seq<char>) -> nat
    decreases ds.len(),
{
    if ds.len() == 0 {
        acc
    } else {
        fold_digits(acc * 10 + digit_val(ds[0]), ds.drop_first())
    }
}

spec fn all_digits(ds: Seq<char>) -> bool {
    forall|i: int| 0 <= i < ds.len() ==> is_digit(#[trigger] ds[i])
}

proof fn lemma_parse_digits_split(ds: Seq<char>, rest: Seq<char>, acc: nat)
    requires
        all_digits(ds),
    ensures
        spec_parse_digits(ds + rest, acc) == spec_parse_digits(rest, fold_digits(acc, ds)),
    decreases ds.len(),
{
    if ds.len() == 0 {
        assert(ds + rest =~= rest);
    } else {
        let s = ds + rest;
        assert(s[0] == ds[0]);
        assert(is_digit(ds[0]));
        assert(s.drop_first() =~= ds.drop_first() + rest);
        assert(all_digits(ds.drop_first())) by {
            assert forall|i: int| 0 <= i < ds.drop_first().len() implies is_digit(
                #[trigger] ds.drop_first()[i],
            ) by {
                assert(ds.drop_first()[i] == ds[i + 1]);
            }
        }
        lemma_parse_digits_split(ds.drop_first(), rest, acc * 10 + digit_val(ds[0]));
    }
}

proof fn lemma_fold_concat(acc: nat, a: Seq<char>, b: Seq<char>)
    ensures
        fold_digits(acc, a + b) == fold_digits(fold_digits(acc, a), b),
    decreases a.len(),
{
    if a.len() == 0 {
        assert(a + b =~= b);
    } else {
        assert((a + b)[0] == a[0]);
        assert((a + b).drop_first() =~= a.drop_first() + b);
        lemma_fold_concat(acc * 10 + digit_val(a[0]), a.drop_first(), b);
    }
}

proof fn lemma_digit_char_val(d: nat)
    requires
        d < 10,
    ensures
        is_digit(digit_char(d)),
        digit_val(digit_char(d)) == d,
{
}

proof fn lemma_encode_nat_digits(n: nat)
    ensures
        all_digits(spec_encode_nat(n)),
        spec_encode_nat(n).len() >= 1,
    decreases n,
{
    if n < 10 {
        lemma_digit_char_val(n);
    } else {
        lemma_encode_nat_digits(n / 10);
        lemma_digit_char_val(n % 10);
        let ds = spec_encode_nat(n / 10).push(digit_char(n % 10));
        assert forall|i: int| 0 <= i < ds.len() implies is_digit(#[trigger] ds[i]) by {
            if i < spec_encode_nat(n / 10).len() {
                assert(ds[i] == spec_encode_nat(n / 10)[i]);
            } else {
                assert(ds[i] == digit_char(n % 10));
            }
        }
    }
}

proof fn lemma_fold_encode(n: nat)
    ensures
        fold_digits(0, spec_encode_nat(n)) == n,
    decreases n,
{
    if n < 10 {
        lemma_digit_char_val(n);
        let ds = spec_encode_nat(n);
        assert(ds == seq![digit_char(n)]);
        assert(ds[0] == digit_char(n));
        assert(ds.drop_first() =~= Seq::<char>::empty());
        assert(fold_digits(0, ds) == fold_digits(0 * 10 + digit_val(ds[0]), ds.drop_first()));
        assert(fold_digits(0, ds) == digit_val(digit_char(n)));
    } else {
        lemma_fold_encode(n / 10);
        lemma_digit_char_val(n % 10);
        let hi = spec_encode_nat(n / 10);
        let d = digit_char(n % 10);
        assert(hi.push(d) =~= hi + seq![d]);
        lemma_fold_concat(0, hi, seq![d]);
        assert(seq![d][0] == d);
        assert(seq![d].drop_first() =~= Seq::<char>::empty());
        assert(fold_digits(n / 10, seq![d]) == fold_digits(
            (n / 10) * 10 + digit_val(d),
            seq![d].drop_first(),
        ));
        assert(fold_digits((n / 10) * 10 + digit_val(d), seq![d].drop_first()) == (n / 10) * 10
            + digit_val(d));
        assert((n / 10) * 10 + n % 10 == n);
        assert(fold_digits(0, spec_encode_nat(n)) == fold_digits(0, hi + seq![d]));
    }
}

proof fn lemma_parse_u64_rt(n: u64, rest: Seq<char>)
    requires
        rest.len() == 0 || !is_digit(rest[0]),
    ensures
        spec_parse_u64(spec_encode_nat(n as nat) + rest) == Some((n, rest)),
{
    let ds = spec_encode_nat(n as nat);
    lemma_encode_nat_digits(n as nat);
    let s = ds + rest;
    assert(s[0] == ds[0]);
    assert(is_digit(ds[0]));
    lemma_parse_digits_split(ds, rest, 0);
    lemma_fold_encode(n as nat);
    assert(spec_parse_digits(rest, n as nat) == (n as nat, rest));
}

proof fn lemma_parse_bool_rt(b: bool, rest: Seq<char>)
    ensures
        spec_parse_bool(spec_encode_bool(b) + rest) == Some((b, rest)),
{
    reveal_strlit("true");
    reveal_strlit("false");
    if b {
        lemma_parse_lit_rt("true"@, rest);
    } else {
        let s = "false"@ + rest;
        assert(s[0] == 'f');
        assert("true"@[0] == 't');
        if "true"@.len() <= s.len() {
            assert(s.take("true"@.len() as int)[0] == 'f');
            assert(s.take("true"@.len() as int) != "true"@);
        }
        lemma_parse_lit_rt("false"@, rest);
    }
}

proof fn lemma_parse_opt_string_rt(o: Option<Seq<char>>, rest: Seq<char>)
    ensures
        spec_parse_opt_string(spec_encode_opt_string(o) + rest) == Some((o, rest)),
{
    match o {
        None => {
            reveal_strlit("null");
            let s = "null"@ + rest;
            assert(s[0] == 'n');
            assert(s[0] != '"');
            lemma_parse_lit_rt("null"@, rest);
        },
        Some(v) => {
            let s = spec_encode_string(v) + rest;
            assert(s =~= seq!['"'] + (spec_escape(v) + seq!['"'] + rest));
            assert(s[0] == '"');
            lemma_parse_string_rt(v, rest);
        },
    }
}

proof fn lemma_parse_string_items_rt(l: Seq<Seq<char>>, rest: Seq<char>)
    requires
        l.len() >= 1,
    ensures
        spec_parse_string_items(spec_encode_string_items(l) + seq![']'] + rest) == Some(
            (l, rest),
        ),
    decreases l.len(),
{
    let s = spec_encode_string_items(l) + seq![']'] + rest;
    if l.len() == 1 {
        let tail = seq![']'] + rest;
        assert(s =~= spec_encode_string(l[0]) + tail);
        lemma_parse_string_rt(l[0], tail);
        assert(tail[0] == ']');
        assert(tail[0] != ',');
        assert(tail.drop_first() =~= rest);
        assert(seq![l[0]] =~= l);
    } else {
        let tail = seq![','] + (spec_encode_string_items(l.drop_first()) + seq![']'] + rest);
        assert(s =~= spec_encode_string(l[0]) + tail);
        lemma_parse_string_rt(l[0], tail);
        assert(tail[0] == ',');
        assert(tail.drop_first() =~= spec_encode_string_items(l.drop_first()) + seq![']'] + rest);
        lemma_parse_string_items_rt(l.drop_first(), rest);
        assert(seq![l[0]] + l.drop_first() =~= l);
    }
}

proof fn lemma_parse_string_list_rt(l: Seq<Seq<char>>, rest: Seq<char>)
    ensures
        spec_parse_string_list(spec_encode_string_list(l) + rest) == Some((l, rest)),
{
    let s = spec_encode_string_list(l) + rest;
    if l.len() == 0 {
        assert(s =~= seq!['[', ']'] + rest);
        assert(s[0] == '[' && s[1] == ']');
        assert(s.skip(2) =~= rest);
        assert(l =~= Seq::<Seq<char>>::empty());
    } else {
        assert(s =~= seq!['['] + (spec_encode_string_items(l) + seq![']'] + rest));
        assert(s[0] == '[');
        assert(spec_encode_string(l[0]).len() >= 2);
        assert(spec_encode_string_items(l)[0] == spec_encode_string(l[0])[0]);
        assert(spec_encode_string(l[0])[0] == '"');
        assert(s[1] == '"');
        assert(s[1] != ']');
        assert(s.drop_first() =~= spec_encode_string_items(l) + seq![']'] + rest);
        lemma_parse_string_items_rt(l, rest);
    }
}

#[verifier::rlimit(100)]
#[verifier::spinoff_prover]
proof fn lemma_parse_resource_rt(r: ResourceModel, rest: Seq<char>)
    ensures
        spec_parse_resource(spec_encode_resource(r) + rest) == Some((r, rest)),
{
    let t14 = "}"@ + rest;
    let t13 = spec_encode_bool(r.namespaced) + t14;
    let t12 = ",\"namespaced\":"@ + t13;
    let t11 = spec_encode_string_list(r.short_names) + t12;
    let t10 = ",\"shortNames\":"@ + t11;
    let t9 = spec_encode_string(r.singular_name) + t10;
    let t8 = ",\"singularName\":"@ + t9;
    let t7 = spec_encode_string(r.name) + t8;
    let t6 = ",\"name\":"@ + t7;
    let t5 = spec_encode_string(r.kind) + t6;
    let t4 = ",\"kind\":"@ + t5;
    let t3 = spec_encode_opt_string(r.version) + t4;
    let t2 = ",\"version\":"@ + t3;
    let t1 = spec_encode_opt_string(r.group) + t2;
    let s = spec_encode_resource(r) + rest;
    assert(s =~= "{\"group\":"@ + t1);
    lemma_parse_lit_rt("{\"group\":"@, t1);
    lemma_parse_opt_string_rt(r.group, t2);
    lemma_parse_lit_rt(",\"version\":"@, t3);
    lemma_parse_opt_string_rt(r.version, t4);
    lemma_parse_lit_rt(",\"kind\":"@, t5);
    lemma_parse_string_rt(r.kind, t6);
    lemma_parse_lit_rt(",\"name\":"@, t7);
    lemma_parse_string_rt(r.name, t8);
    lemma_parse_lit_rt(",\"singularName\":"@, t9);
    lemma_parse_string_rt(r.singular_name, t10);
    lemma_parse_lit_rt(",\"shortNames\":"@, t11);
    lemma_parse_string_list_rt(r.short_names, t12);
    lemma_parse_lit_rt(",\"namespaced\":"@, t13);
    lemma_parse_bool_rt(r.namespaced, t14);
    lemma_parse_lit_rt("}"@, rest);
}

#[verifier::rlimit(100)]
#[verifier::spinoff_prover]
proof fn lemma_parse_resource_items_rt(l: Seq<ResourceModel>, rest: Seq<char>)
    requires
        l.len() >= 1,
    ensures
        spec_parse_resource_items(spec_encode_resource_items(l) + seq![']'] + rest) == Some(
            (l, rest),
        ),
    decreases l.len(),
{
    let s = spec_encode_resource_items(l) + seq![']'] + rest;
    if l.len() == 1 {
        let tail = seq![']'] + rest;
        assert(s =~= spec_encode_resource(l[0]) + tail);
        lemma_parse_resource_rt(l[0], tail);
        assert(tail[0] == ']');
        assert(tail[0] != ',');
        assert(tail.drop_first() =~= rest);
        assert(seq![l[0]] =~= l);
    } else {
        let tail = seq![','] + (spec_encode_resource_items(l.drop_first()) + seq![']'] + rest);
        assert(s =~= spec_encode_resource(l[0]) + tail);
        lemma_parse_resource_rt(l[0], tail);
        assert(tail[0] == ',');
        assert(tail.drop_first() =~= spec_encode_resource_items(l.drop_first()) + seq![']']
            + rest);
        lemma_parse_resource_items_rt(l.drop_first(), rest);
        assert(seq![l[0]] + l.drop_first() =~= l);
    }
}

proof fn lemma_parse_resource_list_rt(l: Seq<ResourceModel>, rest: Seq<char>)
    ensures
        spec_parse_resource_list(seq!['['] + spec_encode_resource_items(l) + seq![']'] + rest)
            == Some((l, rest)),
{
    reveal_strlit("{\"group\":");
    let s = seq!['['] + spec_encode_resource_items(l) + seq![']'] + rest;
    if l.len() == 0 {
        assert(s =~= seq!['[', ']'] + rest);
        assert(s[0] == '[' && s[1] == ']');
        assert(s.skip(2) =~= rest);
        assert(l =~= Seq::<ResourceModel>::empty());
    } else {
        assert(s[0] == '[');
        assert("{\"group\":"@.len() == 9);
        assert(spec_encode_resource(l[0])[0] == "{\"group\":"@[0]);
        assert("{\"group\":"@[0] == '{');
        assert(spec_encode_resource_items(l)[0] == spec_encode_resource(l[0])[0]);
        assert(s[1] == spec_encode_resource_items(l)[0]);
        assert(s[1] != ']');
        assert(s.drop_first() =~= spec_encode_resource_items(l) + seq![']'] + rest);
        lemma_parse_resource_items_rt(l, rest);
    }
}

proof fn lemma_parse_cache_rt(m: CacheModel, rest: Seq<char>)
    ensures
        spec_parse_cache(spec_encode_cache(m) + rest) == Some((m, rest)),
{
    reveal_strlit(",\"resources\":");
    let t4 = "}"@ + rest;
    let t3 = seq!['['] + spec_encode_resource_items(m.resources) + seq![']'] + t4;
    let t2 = ",\"resources\":"@ + t3;
    let t1 = spec_encode_nat(m.updated_at as nat) + t2;
    let s = spec_encode_cache(m) + rest;
    assert(s =~= "{\"updated_at\":"@ + t1);
    lemma_parse_lit_rt("{\"updated_at\":"@, t1);
    assert(t2[0] == ',');
    assert(!is_digit(','));
    lemma_parse_u64_rt(m.updated_at, t2);
    lemma_parse_lit_rt(",\"resources\":"@, t3);
    lemma_parse_resource_list_rt(m.resources, t4);
    lemma_parse_lit_rt("}"@, rest);
}

/// Save then load round-trips: decoding an encoded snapshot gives the
/// snapshot back, for every snapshot.
pub proof fn lemma_codec_round_trip(m: CacheModel)
    ensures
        spec_decode_cache(spec_encode_cache(m)) == Some(m),
{
    lemma_parse_cache_rt(m, Seq::empty());
    assert(spec_encode_cache(m) + Seq::<char>::empty() =~= spec_encode_cache(m));
}

// ---------------------------------------------------------------------------
// The executable decoder. Each function implements the spec parser of the
// same shape exactly, reading characters from position `i` of `s`.
// ---------------------------------------------------------------------------
fn p_lit(s: &str, i: usize, n: usize, lit: &str) -> (r: Option<usize>)
    requires
        n == s@.len(),
        i <= n,
    ensures
        match spec_parse_lit(s@.skip(i as int), lit@) {
            Some(rest) => r matches Some(j) && i <= j <= n && s@.skip(j as int) == rest,
            None => r is None,
        },
{
    let m = lit.unicode_len();
    if n - i < m {
        proof {
            assert(s@.skip(i as int).len() < lit@.len());
        }
        return None;
    }
    let mut k: usize = 0;
    while k < m
        invariant
            n == s@.len(),
            m == lit@.len(),
            i <= n,
            m <= n - i,
            k <= m,
            forall|q: int| 0 <= q < k ==> s@[i + q] == lit@[q],
        decreases m - k,
    {
        if s.get_char(i + k) != lit.get_char(k) {
            proof {
                assert(s@.skip(i as int).take(m as int)[k as int] == s@[i + k]);
                assert(s@.skip(i as int).take(m as int) != lit@);
            }
            return None;
        }
        k = k + 1;
    }
    proof {
        assert(s@.skip(i as int).take(m as int) =~= lit@);
        assert(s@.skip(i as int).skip(m as int) =~= s@.skip(i as int + m as int));
    }
    Some(i + m)
}

fn p_string(s: &str, i: usize, n: usize) -> (r: Option<(String, usize)>)
    requires
        n == s@.len(),
        i <= n,
    ensures
        match spec_parse_string(s@.skip(i as int)) {
            Some((v, rest)) => r matches Some((val, j)) && val@ == v && i <= j <= n && s@.skip(
                j as int,
            ) == rest,
            None => r is None,
        },
{
    if i == n {
        return None;
    }
    proof {
        assert(s@.skip(i as int)[0] == s@[i as int]);
    }
    if s.get_char(i) != '"' {
        return None;
    }
    proof {
        assert(s@.skip(i as int).drop_first() =~= s@.skip(i as int + 1));
    }
    let mut out = String::new();
    let mut cur: usize = i + 1;
    loop
        invariant
            n == s@.len(),
            i + 1 <= cur <= n,
            spec_parse_string(s@.skip(i as int)) == spec_parse_string_body(
                s@.skip(i as int + 1),
            ),
            (match spec_parse_string_body(s@.skip(cur as int)) {
                Some((t, rest)) => spec_parse_string_body(s@.skip(i as int + 1)) == Some(
                    (out@ + t, rest),
                ),
                None => spec_parse_string_body(s@.skip(i as int + 1)) is None,
            }),
        decreases n - cur,
    {
        if cur == n {
            proof {
                assert(s@.skip(cur as int).len() == 0);
            }
            return None;
        }
        proof {
            assert(s@.skip(cur as int)[0] == s@[cur as int]);
            assert(s@.skip(cur as int).len() == n - cur);
        }
        let c = s.get_char(cur);
        if c == '"' {
            proof {
                assert(s@.skip(cur as int).drop_first() =~= s@.skip(cur as int + 1));
                assert(out@ + Seq::<char>::empty() =~= out@);
            }
            return Some((out, cur + 1));
        }
        if c == '\\' {
            if cur + 1 == n {
                return None;
            }
            proof {
                assert(s@.skip(cur as int)[1] == s@[cur as int + 1]);
            }
            let c2 = s.get_char(cur + 1);
            if c2 != '"' && c2 != '\\' {
                return None;
            }
            proof {
                assert(s@.skip(cur as int).skip(2) =~= s@.skip(cur as int + 2));
            }
            let ghost before = out@;
            push_char(&mut out, c2);
            proof {
                match spec_parse_string_body(s@.skip(cur as int + 2)) {
                    Some((t2, rest2)) => {
                        assert(before.push(c2) + t2 =~= before + (seq![c2] + t2));
                    },
                    None => {},
                }
            }
            cur = cur + 2;
        } else {
            proof {
                assert(s@.skip(cur as int).drop_first() =~= s@.skip(cur as int + 1));
            }
            let ghost before = out@;
            push_char(&mut out, c);
            proof {
                match spec_parse_string_body(s@.skip(cur as int + 1)) {
                    Some((t2, rest2)) => {
                        assert(before.push(c) + t2 =~= before + (seq![c] + t2));
                    },
                    None => {},
                }
            }
            cur = cur + 1;
        }
    }
}

fn p_u64(s: &str, i: usize, n: usize) -> (r: Option<(u64, usize)>)
    requires
        n == s@.len(),
        i <= n,
    ensures
        match spec_parse_u64(s@.skip(i as int)) {
            Some((v, rest)) => r matches Some((val, j)) && val == v && i <= j <= n && s@.skip(
                j as int,
            ) == rest,
            None => r is None,
        },
{
    if i == n {
        return None;
    }
    proof {
        assert(s@.skip(i as int)[0] == s@[i as int]);
    }
    let c0 = s.get_char(i);
    let cv0 = c0 as u32;
    if !(48 <= cv0 && cv0 <= 57) {
        return None;
    }
    let mut cur: usize = i;
    let mut acc: u64 = 0;
    let mut overflow: bool = false;
    let ghost mut gacc: nat = 0nat;
    proof {
        assert(spec_parse_digits(s@.skip(i as int), 0) == spec_parse_digits(
            s@.skip(i as int),
            gacc,
        ));
    }
    loop
        invariant
            n == s@.len(),
            i <= cur <= n,
            spec_parse_digits(s@.skip(i as int), 0) == spec_parse_digits(
                s@.skip(cur as int),
                gacc,
            ),
            !overflow ==> acc == gacc,
            overflow ==> gacc > u64::MAX,
        ensures
            i <= cur <= n,
            spec_parse_digits(s@.skip(i as int), 0) == (gacc, s@.skip(cur as int)),
            !overflow ==> acc == gacc,
            overflow ==> gacc > u64::MAX,
        decreases n - cur,
    {
        if cur == n {
            proof {
                assert(s@.skip(cur as int).len() == 0);
                assert(spec_parse_digits(s@.skip(cur as int), gacc) == (gacc, s@.skip(
                    cur as int,
                )));
            }
            break;
        }
        proof {
            assert(s@.skip(cur as int)[0] == s@[cur as int]);
            assert(s@.skip(cur as int).len() == n - cur);
        }
        let c = s.get_char(cur);
        let cv = c as u32;
        if !(48 <= cv && cv <= 57) {
            proof {
                assert(!is_digit(s@.skip(cur as int)[0]));
                assert(spec_parse_digits(s@.skip(cur as int), gacc) == (gacc, s@.skip(
                    cur as int,
                )));
            }
            break;
        }
        let dv: u64 = ((cv - 48) as u64);
        proof {
            assert(s@.skip(cur as int).drop_first() =~= s@.skip(cur as int + 1));
            assert(digit_val(s@[cur as int]) == dv as nat);
        }
        let wide: u128 = acc as u128 * 10 + dv as u128;
        let ghost old_gacc = gacc;
        proof {
            gacc = gacc * 10 + (dv as nat);
            if overflow {
                assert(old_gacc * 10 >= old_gacc) by (nonlinear_arith)
                    requires
                        old_gacc >= 0,
                ;
            }
        }
        if overflow {
        } else if wide > u64::MAX as u128 {
            overflow = true;
            proof {
                assert(gacc == wide as nat);
            }
        } else {
            acc = wide as u64;
        }
        cur = cur + 1;
    }
    // The digit run has been consumed; `gacc` is its value.
    if overflow {
        return None;
    }
    proof {
        assert(spec_parse_u64(s@.skip(i as int)) == Some((acc, s@.skip(cur as int))));
    }
    Some((acc, cur))
}

fn p_bool(s: &str, i: usize, n: usize) -> (r: Option<(bool, usize)>)
    requires
        n == s@.len(),
        i <= n,
    ensures
        match spec_parse_bool(s@.skip(i as int)) {
            Some((v, rest)) => r matches Some((val, j)) && val == v && i <= j <= n && s@.skip(
                j as int,
            ) == rest,
            None => r is None,
        },
{
    match p_lit(s, i, n, "true") {
        Some(j) => Some((true, j)),
        None => match p_lit(s, i, n, "false") {
            Some(j) => Some((false, j)),
            None => None,
        },
    }
}

fn p_opt_string(s: &str, i: usize, n: usize) -> (r: Option<(Option<String>, usize)>)
    requires
        n == s@.len(),
        i <= n,
    ensures
        match spec_parse_opt_string(s@.skip(i as int)) {
            Some((v, rest)) => r matches Some((val, j)) && val.deep_view() == v && i <= j <= n
                && s@.skip(j as int) == rest,
            None => r is None,
        },
{
    if i < n {
        proof {
            assert(s@.skip(i as int)[0] == s@[i as int]);
        }
        if s.get_char(i) == '"' {
            return match p_string(s, i, n) {
                Some((v, j)) => Some((Some(v), j)),
                None => None,
            };
        }
    }
    match p_lit(s, i, n, "null") {
        Some(j) => Some((None, j)),
        None => None,
    }
}

fn p_string_items(s: &str, i: usize, n: usize) -> (r: Option<(Vec<String>, usize)>)
    requires
        n == s@.len(),
        i <= n,
    ensures
        match spec_parse_string_items(s@.skip(i as int)) {
            Some((vs, rest)) => r matches Some((val, j)) && val.deep_view() == vs && i <= j <= n
                && s@.skip(j as int) == rest,
            None => r is None,
        },
{
    let mut out: Vec<String> = Vec::new();
    let mut cur: usize = i;
    proof {
        assert(out.deep_view() =~= Seq::<Seq<char>>::empty());
    }
    loop
        invariant
            n == s@.len(),
            i <= cur <= n,
            (match spec_parse_string_items(s@.skip(cur as int)) {
                Some((vs, rest)) => spec_parse_string_items(s@.skip(i as int)) == Some(
                    (out.deep_view() + vs, rest),
                ),
                None => spec_parse_string_items(s@.skip(i as int)) is None,
            }),
        decreases n - cur,
    {
        let parsed = p_string(s, cur, n);
        proof {
            lemma_parse_string_consumes(s@.skip(cur as int));
        }
        match parsed {
            None => {
                return None;
            },
            Some((v, j)) => {
                let ghost vv = v@;
                if j == n {
                    proof {
                        assert(s@.skip(j as int).len() == 0);
                    }
                    return None;
                }
                proof {
                    assert(s@.skip(j as int)[0] == s@[j as int]);
                    assert(s@.skip(j as int).drop_first() =~= s@.skip(j as int + 1));
                }
                let c = s.get_char(j);
                if c == ',' {
                    let ghost before = out.deep_view();
                    out.push(v);
                    proof {
                        assert(out.deep_view() =~= before.push(vv));
                        match spec_parse_string_items(s@.skip(j as int + 1)) {
                            Some((vs2, rest2)) => {
                                assert(before.push(vv) + vs2 =~= before + (seq![vv] + vs2));
                            },
                            None => {},
                        }
                    }
                    cur = j + 1;
                } else if c == ']' {
                    let ghost before = out.deep_view();
                    out.push(v);
                    proof {
                        assert(out.deep_view() =~= before.push(vv));
                        assert(before.push(vv) =~= before + seq![vv]);
                    }
                    return Some((out, j + 1));
                } else {
                    return None;
                }
            },
        }
    }
}

fn p_string_list(s: &str, i: usize, n: usize) -> (r: Option<(Vec<String>, usize)>)
    requires
        n == s@.len(),
        i <= n,
    ensures
        match spec_parse_string_list(s@.skip(i as int)) {
            Some((vs, rest)) => r matches Some((val, j)) && val.deep_view() == vs && i <= j <= n
                && s@.skip(j as int) == rest,
            None => r is None,
        },
{
    if i == n {
        return None;
    }
    proof {
        assert(s@.skip(i as int)[0] == s@[i as int]);
        assert(s@.skip(i as int).len() == n - i);
    }
    if s.get_char(i) != '[' {
        return None;
    }
    if i + 1 < n {
        proof {
            assert(s@.skip(i as int)[1] == s@[i as int + 1]);
        }
        if s.get_char(i + 1) == ']' {
            proof {
                assert(s@.skip(i as int).skip(2) =~= s@.skip(i as int + 2));
            }
            let out: Vec<String> = Vec::new();
            proof {
                assert(out.deep_view() =~= Seq::<Seq<char>>::empty());
            }
            return Some((out, i + 2));
        }
    }
    proof {
        assert(s@.skip(i as int).drop_first() =~= s@.skip(i as int + 1));
    }
    p_string_items(s, i + 1, n)
}

#[verifier::rlimit(100)]
#[verifier::spinoff_prover]
fn p_resource(s: &str, i: usize, n: usize) -> (r: Option<(ApiResource, usize)>)
    requires
        n == s@.len(),
        i <= n,
    ensures
        match spec_parse_resource(s@.skip(i as int)) {
            Some((v, rest)) => r matches Some((val, j)) && val@ == v && i <= j <= n && s@.skip(
                j as int,
            ) == rest,
            None => r is None,
        },
{
    let j1 = match p_lit(s, i, n, "{\"group\":") {
        Some(j) => j,
        None => {
            return None;
        },
    };
    let (group, j2) = match p_opt_string(s, j1, n) {
        Some(v) => v,
        None => {
            return None;
        },
    };
    let j3 = match p_lit(s, j2, n, ",\"version\":") {
        Some(j) => j,
        None => {
            return None;
        },
    };
    let (version, j4) = match p_opt_string(s, j3, n) {
        Some(v) => v,
        None => {
            return None;
        },
    };
    let j5 = match p_lit(s, j4, n, ",\"kind\":") {
        Some(j) => j,
        None => {
            return None;
        },
    };
    let (kind, j6) = match p_string(s, j5, n) {
        Some(v) => v,
        None => {
            return None;
        },
    };
    let j7 = match p_lit(s, j6, n, ",\"name\":") {
        Some(j) => j,
        None => {
            return None;
        },
    };
    let (name, j8) = match p_string(s, j7, n) {
        Some(v) => v,
        None => {
            return None;
        },
    };
    let j9 = match p_lit(s, j8, n, ",\"singularName\":") {
        Some(j) => j,
        None => {
            return None;
        },
    };
    let (singular_name, j10) = match p_string(s, j9, n) {
        Some(v) => v,
        None => {
            return None;
        },
    };
    let j11 = match p_lit(s, j10, n, ",\"shortNames\":") {
        Some(j) => j,
        None => {
            return None;
        },
    };
    let (short_names, j12) = match p_string_list(s, j11, n) {
        Some(v) => v,
        None => {
            return None;
        },
    };
    let j13 = match p_lit(s, j12, n, ",\"namespaced\":") {
        Some(j) => j,
        None => {
            return None;
        },
    };
    let (namespaced, j14) = match p_bool(s, j13, n) {
        Some(v) => v,
        None => {
            return None;
        },
    };
    let j15 = match p_lit(s, j14, n, "}") {
        Some(j) => j,
        None => {
            return None;
        },
    };
    let out = ApiResource { group, version, kind, name, singular_name, short_names, namespaced };
    Some((out, j15))
}

fn p_resource_items(s: &str, i: usize, n: usize) -> (r: Option<(Vec<ApiResource>, usize)>)
    requires
        n == s@.len(),
        i <= n,
    ensures
        match spec_parse_resource_items(s@.skip(i as int)) {
            Some((vs, rest)) => r matches Some((val, j)) && val.deep_view() == vs && i <= j <= n
                && s@.skip(j as int) == rest,
            None => r is None,
        },
{
    let mut out: Vec<ApiResource> = Vec::new();
    let mut cur: usize = i;
    proof {
        assert(out.deep_view() =~= Seq::<ResourceModel>::empty());
    }
    loop
        invariant
            n == s@.len(),
            i <= cur <= n,
            (match spec_parse_resource_items(s@.skip(cur as int)) {
                Some((vs, rest)) => spec_parse_resource_items(s@.skip(i as int)) == Some(
                    (out.deep_view() + vs, rest),
                ),
                None => spec_parse_resource_items(s@.skip(i as int)) is None,
            }),
        decreases n - cur,
    {
        let parsed = p_resource(s, cur, n);
        proof {
            lemma_parse_resource_consumes(s@.skip(cur as int));
        }
        match parsed {
            None => {
                return None;
            },
            Some((v, j)) => {
                let ghost vv = v@;
                if j == n {
                    proof {
                        assert(s@.skip(j as int).len() == 0);
                    }
                    return None;
                }
                proof {
                    assert(s@.skip(j as int)[0] == s@[j as int]);
                    assert(s@.skip(j as int).drop_first() =~= s@.skip(j as int + 1));
                }
                let c = s.get_char(j);
                if c == ',' {
                    let ghost before = out.deep_view();
                    out.push(v);
                    proof {
                        assert(out.deep_view() =~= before.push(vv));
                        match spec_parse_resource_items(s@.skip(j as int + 1)) {
                            Some((vs2, rest2)) => {
                                assert(before.push(vv) + vs2 =~= before + (seq![vv] + vs2));
                            },
                            None => {},
                        }
                    }
                    cur = j + 1;
                } else if c == ']' {
                    let ghost before = out.deep_view();
                    out.push(v);
                    proof {
                        assert(out.deep_view() =~= before.push(vv));
                        assert(before.push(vv) =~= before + seq![vv]);
                    }
                    return Some((out, j + 1));
                } else {
                    return None;
                }
            },
        }
    }
}

fn p_resource_list(s: &str, i: usize, n: usize) -> (r: Option<(Vec<ApiResource>, usize)>)
    requires
        n == s@.len(),
        i <= n,
    ensures
        match spec_parse_resource_list(s@.skip(i as int)) {
            Some((vs, rest)) => r matches Some((val, j)) && val.deep_view() == vs && i <= j <= n
                && s@.skip(j as int) == rest,
            None => r is None,
        },
{
    if i == n {
        return None;
    }
    proof {
        assert(s@.skip(i as int)[0] == s@[i as int]);
        assert(s@.skip(i as int).len() == n - i);
    }
    if s.get_char(i) != '[' {
        return None;
    }
    if i + 1 < n {
        proof {
            assert(s@.skip(i as int)[1] == s@[i as int + 1]);
        }
        if s.get_char(i + 1) == ']' {
            proof {
                assert(s@.skip(i as int).skip(2) =~= s@.skip(i as int + 2));
            }
            let out: Vec<ApiResource> = Vec::new();
            proof {
                assert(out.deep_view() =~= Seq::<ResourceModel>::empty());
            }
            return Some((out, i + 2));
        }
    }
    proof {
        assert(s@.skip(i as int).drop_first() =~= s@.skip(i as int + 1));
    }
    p_resource_items(s, i + 1, n)
}

fn p_cache(s: &str, i: usize, n: usize) -> (r: Option<(DiscoveryCacheFile, usize)>)
    requires
        n == s@.len(),
        i <= n,
    ensures
        match spec_parse_cache(s@.skip(i as int)) {
            Some((m, rest)) => r matches Some((val, j)) && val@ == m && i <= j <= n && s@.skip(
                j as int,
            ) == rest,
            None => r is None,
        },
{
    let j1 = match p_lit(s, i, n, "{\"updated_at\":") {
        Some(j) => j,
        None => {
            return None;
        },
    };
    let (updated_at, j2) = match p_u64(s, j1, n) {
        Some(v) => v,
        None => {
            return None;
        },
    };
    let j3 = match p_lit(s, j2, n, ",\"resources\":") {
        Some(j) => j,
        None => {
            return None;
        },
    };
    let (resources, j4) = match p_resource_list(s, j3, n) {
        Some(v) => v,
        None => {
            return None;
        },
    };
    let j5 = match p_lit(s, j4, n, "}") {
        Some(j) => j,
        None => {
            return None;
        },
    };
    Some((DiscoveryCacheFile { updated_at, resources }, j5))
}

/// Decodes the cache file text into a snapshot.
///
/// Returns the snapshot exactly when the text is a well-formed cache file
/// ([`spec_decode_cache`] accepts it), and `None` on any malformed input.
pub fn decode_discovery_cache(s: &str) -> (r: Option<DiscoveryCacheFile>)
    ensures
        match spec_decode_cache(s@) {
            Some(m) => r matches Some(f) && f@ == m,
            None => r is None,
        },
{
    let n = s.unicode_len();
    proof {
        assert(s@.skip(0) =~= s@);
    }
    match p_cache(s, 0, n) {
        None => None,
        Some((f, j)) => {
            if j == n {
                proof {
                    assert(s@.skip(j as int).len() == 0);
                }
                Some(f)
            } else {
                proof {
                    assert(s@.skip(j as int).len() != 0);
                }
                None
            }
        },
    }
}

} // verus!
