//! Classification of the differences between the observations of two resolvers.

use crate::difference::DifferenceKind;
use crate::fingerprint::{is_fingerprint_of, DiffFingerprint};
use crate::known_diffs::{
    has_kind_spec, key_matches, keys_of, lemma_unexplained_members, marked, unexplained_spec,
    KeyMatch, KnownDiffs,
};
use crate::text::{
    indexed_key, indexed_key_spec, is_infix, is_prefix, is_suffix, seq_less, split_dns_string, starts_with, str_less,
};
use crate::values::{contains_key, diff_keys, string_views, value_of, ValueMap, ValueV};
use vstd::prelude::*;

verus! {

/// `after` keeps the keys of `before`, and each key keeps its kinds, possibly with more after them.
pub open spec fn grows(
    before: Seq<(Seq<char>, Seq<DifferenceKind>)>,
    after: Seq<(Seq<char>, Seq<DifferenceKind>)>,
) -> bool {
    &&& after.len() == before.len()
    &&& forall|i: int|
        0 <= i < before.len() ==> (#[trigger] after[i]).0 == before[i].0 && before[i].1.len()
            <= after[i].1.len() && after[i].1.subrange(0, before[i].1.len() as int) == before[i].1
}

proof fn lemma_grows_refl(a: Seq<(Seq<char>, Seq<DifferenceKind>)>)
    ensures
        grows(a, a),
{
    assert forall|i: int| 0 <= i < a.len() implies a[i].1.subrange(0, a[i].1.len() as int)
        == a[i].1 by {
        assert(a[i].1.subrange(0, a[i].1.len() as int) =~= a[i].1);
    }
}

proof fn lemma_grows_trans(
    a: Seq<(Seq<char>, Seq<DifferenceKind>)>,
    b: Seq<(Seq<char>, Seq<DifferenceKind>)>,
    c: Seq<(Seq<char>, Seq<DifferenceKind>)>,
)
    requires
        grows(a, b),
        grows(b, c),
    ensures
        grows(a, c),
{
    assert forall|i: int| 0 <= i < a.len() implies (#[trigger] c[i]).0 == a[i].0 && a[i].1.len()
        <= c[i].1.len() && c[i].1.subrange(0, a[i].1.len() as int) == a[i].1 by {
        assert(b[i].1.subrange(0, a[i].1.len() as int) == a[i].1);
        assert(c[i].1.subrange(0, b[i].1.len() as int) == b[i].1);
        assert(c[i].1.subrange(0, a[i].1.len() as int) =~= b[i].1.subrange(
            0,
            a[i].1.len() as int,
        ));
    }
}

proof fn lemma_marked_grows(
    a: Seq<(Seq<char>, Seq<DifferenceKind>)>,
    b: Seq<(Seq<char>, Seq<DifferenceKind>)>,
    selected: spec_fn(int) -> bool,
    kind: DifferenceKind,
)
    requires
        marked(a, b, selected, kind),
    ensures
        grows(a, b),
{
    assert forall|i: int| 0 <= i < a.len() implies (#[trigger] b[i]).0 == a[i].0 && a[i].1.len()
        <= b[i].1.len() && b[i].1.subrange(0, a[i].1.len() as int) == a[i].1 by {
        assert(b[i].1.subrange(0, a[i].1.len() as int) =~= a[i].1);
    }
}

/// A kind that explains a key stays among its kinds when the table grows.
proof fn lemma_grows_keeps(
    a: Seq<(Seq<char>, Seq<DifferenceKind>)>,
    b: Seq<(Seq<char>, Seq<DifferenceKind>)>,
    i: int,
    kind: DifferenceKind,
)
    requires
        grows(a, b),
        0 <= i < a.len(),
        a[i].1.contains(kind),
    ensures
        b[i].1.contains(kind),
{
    let q = choose|q: int| 0 <= q < a[i].1.len() && a[i].1[q] == kind;
    assert(b[i].1.subrange(0, a[i].1.len() as int)[q] == kind);
}

/// What the rule of a name, a DNS id and auxiliary counts marks: every key that holds one of
/// them is explained by the matching kind.
pub open spec fn basic_rules_hold(kd: Seq<(Seq<char>, Seq<DifferenceKind>)>) -> bool {
    forall|i: int|
        0 <= i < kd.len() ==> {
            &&& (#[trigger] kd[i]).0 == ".resolver_name"@ ==> kd[i].1.contains(
                DifferenceKind::ResolverName,
            )
            &&& is_suffix(".header.id"@, kd[i].0) ==> kd[i].1.contains(DifferenceKind::DnsId)
            &&& is_infix(".#"@, kd[i].0) ==> kd[i].1.contains(DifferenceKind::MetaDiff)
        }
}

/// What the rules on coverage counters and cache probes mark: the counters where the resolvers
/// differ, and each cache probe that errored on either side.
pub open spec fn pair_rules_hold(
    kd: Seq<(Seq<char>, Seq<DifferenceKind>)>,
    left: Seq<(Seq<char>, ValueV)>,
    right: Seq<(Seq<char>, ValueV)>,
) -> bool {
    forall|i: int|
        0 <= i < kd.len() ==> {
            &&& ((#[trigger] kd[i]).0 == ".fuzz_result.counters"@ && value_of(left, ".resolver_name"@)
                != value_of(right, ".resolver_name"@) ==> kd[i].1.contains(
                DifferenceKind::IncomparableCounters,
            ))
            &&& (is_prefix(".fuzz_result.cache_state."@, kd[i].0) && (value_of(left, kd[i].0)
                == ValueV::Str("error"@) || value_of(right, kd[i].0) == ValueV::Str("error"@))
                ==> kd[i].1.contains(DifferenceKind::TodoCacheIgnoredForNow))
        }
}

/// Where a key is explained by QNAME minimisation, every cache-state key is explained as not
/// comparable.
pub open spec fn qname_cache_rule_holds(kd: Seq<(Seq<char>, Seq<DifferenceKind>)>) -> bool {
    has_kind_spec(kd, DifferenceKind::QnameMinimalization) ==> forall|i: int|
        0 <= i < kd.len() && is_prefix(".fuzz_result.cache_state."@, (#[trigger] kd[i]).0)
            ==> kd[i].1.contains(DifferenceKind::TodoCacheIgnoredForNow)
}

/// Whether a side recorded as many upstream queries as response indices.
pub open spec fn counts_consistent(m: Seq<(Seq<char>, ValueV)>) -> bool {
    value_of(m, ".fuzz_result.fuzzee_queries.#count"@) == value_of(
        m,
        ".fuzz_result.response_idxs.#count"@,
    )
}

fn counts_consistent_exec(m: &ValueMap) -> (r: bool)
    ensures
        r == counts_consistent(m@),
{
    m.get(".fuzz_result.fuzzee_queries.#count") == m.get(".fuzz_result.response_idxs.#count")
}

/// Whether the resolver name of a side is `name`.
fn resolver_is(m: &ValueMap, name: &str) -> (r: bool)
    ensures
        r == (value_of(m@, ".resolver_name"@) == ValueV::Str(name@)),
{
    m.is_str(".resolver_name", name)
}

/// The integer under `key`, 0 where there is none or it is negative.
fn count_at(m: &ValueMap, key: &str) -> (r: u64)
    ensures
        r == count_of(m@, key@),
{
    match m.get(key).as_i64() {
        Some(i) => if i >= 0 {
            i as u64
        } else {
            0
        },
        None => 0,
    }
}

/// Cookies are optional and random: a differing cookie value of an upstream query is not
/// comparable; a cookie present on one side only is unsupported on the other.
fn mark_cookies(kd: &mut KnownDiffs, diff_keys: &Vec<String>, left: &ValueMap, right: &ValueMap)
    ensures
        grows(old(kd)@, final(kd)@),
{
    proof {
        lemma_grows_refl(kd@);
    }
    let lq = count_at(left, ".fuzz_result.fuzzee_queries.#count");
    let rq = count_at(right, ".fuzz_result.fuzzee_queries.#count");
    let n = if lq < rq {
        lq
    } else {
        rq
    };
    let mut i: u64 = 0;
    while i < n
        invariant
            i <= n,
            grows(old(kd)@, kd@),
        decreases n - i,
    {
        let code = indexed_key(".fuzz_result.fuzzee_queries.", i, ".edns.Cookie.code");
        let value = indexed_key(".fuzz_result.fuzzee_queries.", i, ".edns.Cookie.value");
        let code_differs = contains_key(diff_keys, code.as_str());
        let value_differs = contains_key(diff_keys, value.as_str());
        let ghost before = kd@;
        if value_differs && !code_differs {
            kd.mark(value.as_str(), DifferenceKind::CookiesUncomparable);
            proof {
                lemma_marked_grows(before, kd@, |j: int| before[j].0 == value@, DifferenceKind::CookiesUncomparable);
            }
        } else if code_differs {
            kd.mark(code.as_str(), DifferenceKind::CookiesUnsupported);
            proof {
                lemma_marked_grows(before, kd@, |j: int| before[j].0 == code@, DifferenceKind::CookiesUnsupported);
            }
            if value_differs {
                let ghost mid = kd@;
                kd.mark(value.as_str(), DifferenceKind::CookiesUnsupported);
                proof {
                    lemma_marked_grows(mid, kd@, |j: int| mid[j].0 == value@, DifferenceKind::CookiesUnsupported);
                    lemma_grows_trans(before, mid, kd@);
                }
            }
        } else {
            proof {
                lemma_grows_refl(kd@);
            }
        }
        proof {
            lemma_grows_trans(old(kd)@, before, kd@);
        }
        i = i + 1;
    }
}

/// Cache probes that errored on either side are not compared.
fn mark_cache_errors(kd: &mut KnownDiffs, left: &ValueMap, right: &ValueMap)
    ensures
        grows(old(kd)@, final(kd)@),
        forall|i: int|
            0 <= i < old(kd)@.len() && is_prefix(".fuzz_result.cache_state."@, old(kd)@[i].0) && (
            value_of(left@, old(kd)@[i].0) == ValueV::Str("error"@) || value_of(
                right@,
                old(kd)@[i].0,
            ) == ValueV::Str("error"@)) ==> (#[trigger] final(kd)@[i]).1.contains(
                DifferenceKind::TodoCacheIgnoredForNow,
            ),
{
    proof {
        lemma_grows_refl(kd@);
    }
    let n = kd.len();
    let mut i: usize = 0;
    while i < n
        invariant
            n == kd@.len(),
            i <= n,
            grows(old(kd)@, kd@),
            forall|j: int|
                0 <= j < i && is_prefix(".fuzz_result.cache_state."@, old(kd)@[j].0) && (value_of(
                    left@,
                    old(kd)@[j].0,
                ) == ValueV::Str("error"@) || value_of(right@, old(kd)@[j].0) == ValueV::Str(
                    "error"@,
                )) ==> (#[trigger] kd@[j]).1.contains(DifferenceKind::TodoCacheIgnoredForNow),
        decreases n - i,
    {
        let key = kd.key_at(i).clone();
        if starts_with(key.as_str(), ".fuzz_result.cache_state.") && (left.is_str(
            key.as_str(),
            "error",
        ) || right.is_str(key.as_str(), "error")) {
            let ghost before = kd@;
            kd.mark_at(i, DifferenceKind::TodoCacheIgnoredForNow);
            proof {
                lemma_marked_grows(before, kd@, |j: int| j == i, DifferenceKind::TodoCacheIgnoredForNow);
                lemma_grows_trans(old(kd)@, before, kd@);
                assert(kd@[i as int].1.last() == DifferenceKind::TodoCacheIgnoredForNow);
                assert(kd@[i as int].1[kd@[i as int].1.len() - 1] == DifferenceKind::TodoCacheIgnoredForNow);
                assert forall|j: int|
                    0 <= j < i && (#[trigger] before[j]).1.contains(DifferenceKind::TodoCacheIgnoredForNow)
                    implies kd@[j].1.contains(DifferenceKind::TodoCacheIgnoredForNow) by {
                    lemma_grows_keeps(before, kd@, j, DifferenceKind::TodoCacheIgnoredForNow);
                }
            }
        }
        i = i + 1;
    }
}

/// Extended DNS errors are optional, and two resolvers do not send them.
fn mark_extended_errors(kd: &mut KnownDiffs, diff_keys: &Vec<String>, left: &ValueMap, right: &ValueMap)
    ensures
        grows(old(kd)@, final(kd)@),
{
    proof {
        lemma_grows_refl(kd@);
    }
    if contains_key(diff_keys, ".fuzz_result.fuzzee_response.edns.Code15.code") && (resolver_is(
        left,
        "unbound",
    ) || resolver_is(right, "unbound") || resolver_is(left, "pdns-recursor") || resolver_is(
        right,
        "pdns-recursor",
    )) {
        let ghost a = kd@;
        kd.mark(".fuzz_result.fuzzee_response.edns.Code15.code", DifferenceKind::ExtendedErrorsUnsupported);
        let ghost b = kd@;
        kd.mark(".fuzz_result.fuzzee_response.edns.Code15.error_code", DifferenceKind::ExtendedErrorsUnsupported);
        let ghost c = kd@;
        kd.mark(".fuzz_result.fuzzee_response.edns.Code15.error_value", DifferenceKind::ExtendedErrorsUnsupported);
        proof {
            lemma_marked_grows(a, b, |j: int| a[j].0 == ".fuzz_result.fuzzee_response.edns.Code15.code"@, DifferenceKind::ExtendedErrorsUnsupported);
            lemma_marked_grows(b, c, |j: int| b[j].0 == ".fuzz_result.fuzzee_response.edns.Code15.error_code"@, DifferenceKind::ExtendedErrorsUnsupported);
            lemma_marked_grows(c, kd@, |j: int| c[j].0 == ".fuzz_result.fuzzee_response.edns.Code15.error_value"@, DifferenceKind::ExtendedErrorsUnsupported);
            lemma_grows_trans(a, b, c);
            lemma_grows_trans(a, c, kd@);
        }
    }
}

/// Resolvers without EDNS differ on every EDNS key, on the checking-disabled bit, and by
/// exactly the one OPT record in the additional count.
fn mark_no_edns_support(kd: &mut KnownDiffs, left: &ValueMap, right: &ValueMap)
    ensures
        grows(old(kd)@, final(kd)@),
{
    proof {
        lemma_grows_refl(kd@);
    }
    if resolver_is(left, "maradns") || resolver_is(left, "resolved") || resolver_is(left, "trust-dns") {
        let ghost a = kd@;
        kd.mark_contains(".edns.", DifferenceKind::NoEdnsSupport);
        let ghost b = kd@;
        kd.mark_suffix(".header.checking_disabled", DifferenceKind::NoEdnsSupport);
        proof {
            lemma_marked_grows(a, b, |j: int| is_infix(".edns."@, a[j].0), DifferenceKind::NoEdnsSupport);
            lemma_marked_grows(b, kd@, |j: int| is_suffix(".header.checking_disabled"@, b[j].0), DifferenceKind::NoEdnsSupport);
            lemma_grows_trans(a, b, kd@);
        }
        let n = kd.len();
        let mut i: usize = 0;
        while i < n
            invariant
                n == kd@.len(),
                i <= n,
                grows(old(kd)@, kd@),
            decreases n - i,
        {
            let key = kd.key_at(i).clone();
            if crate::text::ends_with(key.as_str(), ".header.additional_count") {
                let l = left.get(key.as_str()).as_i64();
                let r = right.get(key.as_str()).as_i64();
                let off_by_one = match (l, r) {
                    (Some(x), Some(y)) => x < i64::MAX && x + 1 == y,
                    _ => false,
                };
                if off_by_one {
                    let ghost before = kd@;
                    kd.mark_at(i, DifferenceKind::NoEdnsSupport);
                    proof {
                        lemma_marked_grows(before, kd@, |j: int| j == i, DifferenceKind::NoEdnsSupport);
                        lemma_grows_trans(old(kd)@, before, kd@);
                    }
                }
            }
            i = i + 1;
        }
    }
}

/// The question section of upstream query `idx` of a side: count, name, class and type.
/// The integer under `key` where it is one and not negative, otherwise 0.
pub open spec fn count_of(m: Seq<(Seq<char>, ValueV)>, key: Seq<char>) -> int {
    match value_of(m, key) {
        ValueV::Int(i) => if i >= 0 {
            i as int
        } else {
            0
        },
        _ => 0,
    }
}

/// The key of field `field` of upstream query `i`.
pub open spec fn query_key(i: int, field: Seq<char>) -> Seq<char> {
    indexed_key_spec(".fuzz_result.fuzzee_queries."@, i as u64, field)
}

/// The question section of upstream query `i`: its count, and its first name, class and type.
pub open spec fn section_of(m: Seq<(Seq<char>, ValueV)>, i: int) -> (ValueV, ValueV, ValueV, ValueV) {
    (
        value_of(m, query_key(i, ".queries.#count"@)),
        value_of(m, query_key(i, ".queries.0.name"@)),
        value_of(m, query_key(i, ".queries.0.query_class"@)),
        value_of(m, query_key(i, ".queries.0.query_type"@)),
    )
}

/// The number of response indices of a side.
pub open spec fn response_count(m: Seq<(Seq<char>, ValueV)>) -> int {
    count_of(m, ".fuzz_result.response_idxs.#count"@)
}

/// `l` sent more upstream queries than `r`, which sent some, and every extra one repeats the
/// question of `l`'s last query, which also occurs among the shared ones.
pub open spec fn trailing_applies(l: Seq<(Seq<char>, ValueV)>, r: Seq<(Seq<char>, ValueV)>) -> bool {
    &&& response_count(l) > response_count(r) > 0
    &&& forall|i: int|
        response_count(r) <= i < response_count(l) - 1 ==> #[trigger] section_of(l, i) == section_of(
            l,
            response_count(l) - 1,
        )
    &&& exists|j: int| 0 <= j < response_count(r) && #[trigger] section_of(l, j) == section_of(l, response_count(l) - 1)
}

/// `key` belongs to upstream query `k`: its response index or one of its fields.
pub open spec fn trailing_key(key: Seq<char>, k: int) -> bool {
    key == indexed_key_spec(".fuzz_result.response_idxs."@, k as u64, ""@) || is_prefix(
        indexed_key_spec(".fuzz_result.fuzzee_queries."@, k as u64, "."@),
        key,
    )
}

/// Where the extra upstream queries of `l` are retransmissions, each of their keys is explained
/// as such.
pub open spec fn trailing_marked(
    kd: Seq<(Seq<char>, Seq<DifferenceKind>)>,
    l: Seq<(Seq<char>, ValueV)>,
    r: Seq<(Seq<char>, ValueV)>,
) -> bool {
    trailing_applies(l, r) ==> forall|i: int, k: int|
        0 <= i < kd.len() && response_count(r) <= k < response_count(l) && #[trigger] trailing_key(kd[i].0, k)
            ==> kd[i].1.contains(DifferenceKind::TrailingRetransmissions)
}

proof fn lemma_trailing_kept(
    a: Seq<(Seq<char>, Seq<DifferenceKind>)>,
    b: Seq<(Seq<char>, Seq<DifferenceKind>)>,
    l: Seq<(Seq<char>, ValueV)>,
    r: Seq<(Seq<char>, ValueV)>,
)
    requires
        grows(a, b),
        trailing_marked(a, l, r),
    ensures
        trailing_marked(b, l, r),
{
    if trailing_applies(l, r) {
        assert forall|i: int, k: int|
            0 <= i < b.len() && response_count(r) <= k < response_count(l) && #[trigger] trailing_key(b[i].0, k)
                implies b[i].1.contains(DifferenceKind::TrailingRetransmissions) by {
            assert(a[i].0 == b[i].0);
            lemma_grows_keeps(a, b, i, DifferenceKind::TrailingRetransmissions);
        }
    }
}

fn query_section(m: &ValueMap, idx: u64) -> (r: (crate::values::Value, crate::values::Value, crate::values::Value, crate::values::Value))
    ensures
        (r.0@, r.1@, r.2@, r.3@) == section_of(m@, idx as int),
{
    let count = m.get(indexed_key(".fuzz_result.fuzzee_queries.", idx, ".queries.#count").as_str());
    let name = m.get(indexed_key(".fuzz_result.fuzzee_queries.", idx, ".queries.0.name").as_str());
    let class = m.get(
        indexed_key(".fuzz_result.fuzzee_queries.", idx, ".queries.0.query_class").as_str(),
    );
    let ty = m.get(indexed_key(".fuzz_result.fuzzee_queries.", idx, ".queries.0.query_type").as_str());
    (count, name, class, ty)
}

fn same_section(
    a: &(crate::values::Value, crate::values::Value, crate::values::Value, crate::values::Value),
    b: &(crate::values::Value, crate::values::Value, crate::values::Value, crate::values::Value),
) -> (r: bool)
    ensures
        r == (a.0@ == b.0@ && a.1@ == b.1@ && a.2@ == b.2@ && a.3@ == b.3@),
{
    a.0 == b.0 && a.1 == b.1 && a.2 == b.2 && a.3 == b.3
}

/// Where `left` sent more upstream queries than `right` (which sent some), and all extra ones
/// repeat one question that already occurs among the shared ones, the extra ones are
/// retransmissions.
fn mark_trailing_retransmissions(kd: &mut KnownDiffs, left: &ValueMap, right: &ValueMap)
    ensures
        grows(old(kd)@, final(kd)@),
        trailing_marked(final(kd)@, left@, right@),
{
    proof {
        lemma_grows_refl(kd@);
    }
    let l = count_at(left, ".fuzz_result.response_idxs.#count");
    let r = count_at(right, ".fuzz_result.response_idxs.#count");
    if l > r && r > 0 {
        let last = query_section(left, l - 1);
        let ghost lastv = section_of(left@, l - 1);
        let mut all_identical = true;
        let mut i: u64 = r;
        while i < l - 1
            invariant
                r <= i,
                i <= l - 1,
                l > r,
                (last.0@, last.1@, last.2@, last.3@) == lastv,
                all_identical == forall|x: int| r <= x < i ==> #[trigger] section_of(left@, x) == lastv,
            decreases l - 1 - i,
        {
            let sec = query_section(left, i);
            if !same_section(&sec, &last) {
                all_identical = false;
            }
            proof {
                assert(all_identical == forall|x: int| r <= x < i + 1 ==> #[trigger] section_of(left@, x) == lastv);
            }
            i = i + 1;
        }
        if all_identical {
            let mut seen = false;
            let mut j: u64 = 0;
            while j < r
                invariant
                    j <= r,
                    (last.0@, last.1@, last.2@, last.3@) == lastv,
                    seen == exists|x: int| 0 <= x < j && #[trigger] section_of(left@, x) == lastv,
                decreases r - j,
            {
                let sec = query_section(left, j);
                if same_section(&sec, &last) {
                    seen = true;
                }
                proof {
                    if section_of(left@, j as int) == lastv {
                        assert(exists|x: int| 0 <= x < j + 1 && #[trigger] section_of(left@, x) == lastv);
                    }
                    assert(seen == exists|x: int| 0 <= x < j + 1 && #[trigger] section_of(left@, x) == lastv);
                }
                j = j + 1;
            }
            if seen {
                let ghost start = kd@;
                let mut k: u64 = r;
                while k < l
                    invariant
                        r <= k <= l,
                        grows(old(kd)@, kd@),
                        forall|x: int, kk: int|
                            0 <= x < kd@.len() && r <= kk < k && #[trigger] trailing_key(kd@[x].0, kk)
                                ==> kd@[x].1.contains(DifferenceKind::TrailingRetransmissions),
                    decreases l - k,
                {
                    let idx_key = indexed_key(".fuzz_result.response_idxs.", k, "");
                    let prefix = indexed_key(".fuzz_result.fuzzee_queries.", k, ".");
                    let ghost a = kd@;
                    kd.mark(idx_key.as_str(), DifferenceKind::TrailingRetransmissions);
                    let ghost b = kd@;
                    kd.mark_prefix(prefix.as_str(), DifferenceKind::TrailingRetransmissions);
                    proof {
                        lemma_marked_grows(a, b, |q: int| a[q].0 == idx_key@, DifferenceKind::TrailingRetransmissions);
                        lemma_marked_grows(b, kd@, |q: int| is_prefix(prefix@, b[q].0), DifferenceKind::TrailingRetransmissions);
                        lemma_grows_trans(a, b, kd@);
                        lemma_grows_trans(old(kd)@, a, kd@);
                        let fin = kd@;
                        assert forall|x: int, kk: int|
                            0 <= x < fin.len() && r <= kk < k + 1 && #[trigger] trailing_key(fin[x].0, kk)
                                implies fin[x].1.contains(DifferenceKind::TrailingRetransmissions) by {
                            assert(a[x].0 == fin[x].0);
                            if kk < k {
                                lemma_grows_keeps(a, fin, x, DifferenceKind::TrailingRetransmissions);
                            } else if fin[x].0 == idx_key@ {
                                assert(b[x].1 == a[x].1.push(DifferenceKind::TrailingRetransmissions));
                                assert(b[x].1[b[x].1.len() - 1] == DifferenceKind::TrailingRetransmissions);
                                lemma_grows_keeps(b, fin, x, DifferenceKind::TrailingRetransmissions);
                            } else {
                                assert(fin[x].1 == b[x].1.push(DifferenceKind::TrailingRetransmissions));
                                assert(fin[x].1[fin[x].1.len() - 1] == DifferenceKind::TrailingRetransmissions);
                            }
                        }
                    }
                    k = k + 1;
                }
            }
        }
    }
}

/// PowerDNS does not set the checking-disabled bit on its upstream queries.
fn mark_pdns_checking_disabled(kd: &mut KnownDiffs, side: &ValueMap)
    ensures
        grows(old(kd)@, final(kd)@),
{
    proof {
        lemma_grows_refl(kd@);
    }
    if resolver_is(side, "pdns-recursor") {
        let n = count_at(side, ".fuzz_result.fuzzee_queries.#count");
        let mut i: u64 = 0;
        while i < n
            invariant
                i <= n,
                grows(old(kd)@, kd@),
            decreases n - i,
        {
            let key = indexed_key(".fuzz_result.fuzzee_queries.", i, ".header.checking_disabled");
            let ghost a = kd@;
            kd.mark(key.as_str(), DifferenceKind::PdnsCheckingDisabled);
            proof {
                lemma_marked_grows(a, kd@, |q: int| a[q].0 == key@, DifferenceKind::PdnsCheckingDisabled);
                lemma_grows_trans(old(kd)@, a, kd@);
            }
            i = i + 1;
        }
    }
}

/// Marks `key` with `kind` where `cond` holds, keeping what was marked.
fn mark_when(kd: &mut KnownDiffs, key: &str, kind: DifferenceKind, cond: bool)
    ensures
        marked(old(kd)@, final(kd)@, |i: int| cond && old(kd)@[i].0 == key@, kind),
        grows(old(kd)@, final(kd)@),
{
    kd.mark_if(key, kind, cond);
    proof {
        lemma_marked_grows(old(kd)@, kd@, |i: int| cond && old(kd)@[i].0 == key@, kind);
    }
}

/// Marks every key starting with `prefix` with `kind` where `cond` holds.
fn mark_prefix_when(kd: &mut KnownDiffs, prefix: &str, kind: DifferenceKind, cond: bool)
    ensures
        grows(old(kd)@, final(kd)@),
{
    if cond {
        kd.mark_prefix(prefix, kind);
        proof {
            lemma_marked_grows(old(kd)@, kd@, |i: int| is_prefix(prefix@, old(kd)@[i].0), kind);
        }
    } else {
        proof {
            lemma_grows_refl(kd@);
        }
    }
}

/// Rules that concern one side and its resolver alone.
fn mark_single_side_rules(kd: &mut KnownDiffs, side: &ValueMap)
    ensures
        grows(old(kd)@, final(kd)@),
{
    let ghost s0 = kd@;
    mark_pdns_checking_disabled(kd, side);
    let ghost s1 = kd@;
    // PowerDNS answers clients with a buffer size of 512.
    let pdns_bufsize = resolver_is(side, "pdns-recursor") && side.is_int(
        ".fuzz_result.fuzzee_response.edns.max_payload",
        512,
    );
    mark_when(kd, ".fuzz_result.fuzzee_response.edns.max_payload", DifferenceKind::PdnsEdnsClientBufsize, pdns_bufsize);
    let ghost s2 = kd@;
    // BIND9 refuses queries of the HS class.
    let bind_refused = resolver_is(side, "bind9") && side.is_str(
        ".fuzz_result.fuzzee_response.header.response_code",
        "Refused",
    );
    mark_when(kd, ".fuzz_result.fuzzee_response.header.response_code", DifferenceKind::BindHsProhibited, bind_refused);
    let ghost s3 = kd@;
    // MaraDNS does nothing without the recursion-desired bit.
    let maradns = resolver_is(side, "maradns");
    let no_rd = maradns && side.is_bool(".fuzz_case.client_query.header.recursion_desired", false);
    mark_prefix_when(kd, ".fuzz_result", DifferenceKind::MaradnsNoRecursionDesired, no_rd);
    let ghost s4 = kd@;
    // MaraDNS does nothing for a query name with an embedded zero byte.
    let qname = side.get(".fuzz_case.client_query.queries.0.name");
    let embedded_zero = maradns && match qname.as_str() {
        Some(s) => crate::text::contains(s, "\\000"),
        None => false,
    };
    mark_prefix_when(kd, ".fuzz_result", DifferenceKind::MaradnsEmbeddedZero, embedded_zero);
    proof {
        lemma_grows_trans(s0, s1, s2);
        lemma_grows_trans(s0, s2, s3);
        lemma_grows_trans(s0, s3, s4);
        lemma_grows_trans(s0, s4, kd@);
    }
}


/// Appends `kind` to the keys that `pattern` selects under `mode`, where `cond` holds.
fn mark_matching_when(kd: &mut KnownDiffs, mode: KeyMatch, pattern: &str, kind: DifferenceKind, cond: bool)
    ensures
        grows(old(kd)@, final(kd)@),
        marked(old(kd)@, final(kd)@, |i: int| cond && key_matches(mode, pattern@, old(kd)@[i].0), kind),
{
    if cond {
        kd.mark_matching(mode, pattern, kind);
        proof {
            lemma_marked_grows(old(kd)@, kd@, |i: int| key_matches(mode, pattern@, old(kd)@[i].0), kind);
        }
    } else {
        proof {
            lemma_grows_refl(kd@);
            assert(marked(old(kd)@, kd@, |i: int| cond && key_matches(mode, pattern@, old(kd)@[i].0), kind));
        }
    }
}

/// Whether the response code of a side is one of the codes that refuse a client query.
fn refusing_code(m: &ValueMap) -> (r: bool)
    ensures
        r == (value_of(m@, ".fuzz_result.fuzzee_response.header.response_code"@) == ValueV::Str("FormErr"@)
            || value_of(m@, ".fuzz_result.fuzzee_response.header.response_code"@) == ValueV::Str("NotImp"@)
            || value_of(m@, ".fuzz_result.fuzzee_response.header.response_code"@) == ValueV::Str("Refused"@)),
{
    let code = m.get(".fuzz_result.fuzzee_response.header.response_code");
    code.is_str("FormErr") || code.is_str("NotImp") || code.is_str("Refused")
}

/// A FormErr to a client query with the truncation bit differs in the recursion-available bit
/// and the response code.
fn mark_formerr_on_truncated_query(kd: &mut KnownDiffs, diff_keys: &Vec<String>, side: &ValueMap)
    ensures
        grows(old(kd)@, final(kd)@),
{
    let cond = contains_key(diff_keys, ".fuzz_result.fuzzee_response.header.response_code")
        && side.is_str(".fuzz_result.fuzzee_response.header.response_code", "FormErr")
        && side.is_bool(".fuzz_case.client_query.header.truncated", true);
    let ghost s0 = kd@;
    mark_matching_when(kd, KeyMatch::Exact, ".fuzz_result.fuzzee_response.header.recursion_available", DifferenceKind::FormErrOnTruncatedQuery, cond);
    let ghost s1 = kd@;
    mark_matching_when(kd, KeyMatch::Exact, ".fuzz_result.fuzzee_response.header.response_code", DifferenceKind::FormErrOnTruncatedQuery, cond);
    proof {
        lemma_grows_trans(s0, s1, kd@);
    }
}

/// An error response that refuses the client query carries no records; where the other side
/// answered otherwise, its record sections and their counts are not comparable.
fn mark_error_without_records(kd: &mut KnownDiffs, left: &ValueMap, right: &ValueMap)
    ensures
        grows(old(kd)@, final(kd)@),
{
    let cond = refusing_code(left) && !left.same_at(right, ".fuzz_result.fuzzee_response.header.response_code");
    let ghost s0 = kd@;
    mark_matching_when(kd, KeyMatch::Prefix, ".fuzz_result.fuzzee_response.additionals", DifferenceKind::ErrorClientNoRrInAnswer, cond);
    let ghost s1 = kd@;
    mark_matching_when(kd, KeyMatch::Prefix, ".fuzz_result.fuzzee_response.answers", DifferenceKind::ErrorClientNoRrInAnswer, cond);
    let ghost s2 = kd@;
    mark_matching_when(kd, KeyMatch::Prefix, ".fuzz_result.fuzzee_response.name_servers", DifferenceKind::ErrorClientNoRrInAnswer, cond);
    let ghost s3 = kd@;
    mark_matching_when(kd, KeyMatch::Prefix, ".fuzz_result.fuzzee_response.header.additional_count", DifferenceKind::ErrorClientNoRrInAnswer, cond);
    let ghost s4 = kd@;
    mark_matching_when(kd, KeyMatch::Prefix, ".fuzz_result.fuzzee_response.header.answer_count", DifferenceKind::ErrorClientNoRrInAnswer, cond);
    let ghost s5 = kd@;
    mark_matching_when(kd, KeyMatch::Prefix, ".fuzz_result.fuzzee_response.header.name_server_count", DifferenceKind::ErrorClientNoRrInAnswer, cond);
    proof {
        lemma_grows_trans(s0, s1, s2);
        lemma_grows_trans(s0, s2, s3);
        lemma_grows_trans(s0, s3, s4);
        lemma_grows_trans(s0, s4, s5);
        lemma_grows_trans(s0, s5, kd@);
    }
}

/// A side that refused the client query without sending any upstream query cannot be compared
/// on upstream queries with a side that processed it.
fn mark_error_incomparable_queries(kd: &mut KnownDiffs, left: &ValueMap, right: &ValueMap)
    ensures
        grows(old(kd)@, final(kd)@),
{
    let cond = refusing_code(left) && left.is_int(".fuzz_result.response_idxs.#count", 0)
        && !left.same_at(right, ".fuzz_result.fuzzee_response.header.response_code");
    let ghost s0 = kd@;
    mark_matching_when(kd, KeyMatch::Prefix, ".fuzz_result.fuzzee_queries", DifferenceKind::ErrorClientQueryIncomparableFuzzeeQueries, cond);
    let ghost s1 = kd@;
    mark_matching_when(kd, KeyMatch::Prefix, ".fuzz_result.response_idxs.", DifferenceKind::ErrorClientQueryIncomparableFuzzeeQueries, cond);
    proof {
        lemma_grows_trans(s0, s1, kd@);
    }
}

/// Whether every value a side holds under the response prefix is missing.
fn response_all_missing(m: &ValueMap) -> (r: bool) {
    let mut i: usize = 0;
    while i < m.len()
        invariant
            i <= m@.len(),
        decreases m@.len() - i,
    {
        if starts_with(m.key_at(i).as_str(), ".fuzz_result.fuzzee_response") && !m.value_at(i).is_missing() {
            return false;
        }
        i = i + 1;
    }
    true
}

/// MaraDNS sometimes sends no response at all where others answer NODATA or ServFail; and where
/// it sent no upstream query, its upstream queries are not comparable.
fn mark_maradns_no_response(kd: &mut KnownDiffs, left: &ValueMap, right: &ValueMap)
    ensures
        grows(old(kd)@, final(kd)@),
{
    let maradns = resolver_is(left, "maradns");
    let no_response = maradns && response_all_missing(left)
        && right.is_int(".fuzz_result.fuzzee_response.header.answer_count", 0)
        && right.is_int(".fuzz_result.fuzzee_response.header.name_server_count", 0);
    let ghost s0 = kd@;
    mark_matching_when(kd, KeyMatch::Prefix, ".fuzz_result.fuzzee_response", DifferenceKind::MaradnsNoResponseServfail, no_response);
    let ghost s1 = kd@;
    let no_queries = maradns && left.is_int(".fuzz_result.response_idxs.#count", 0);
    mark_matching_when(kd, KeyMatch::Prefix, ".fuzz_result.fuzzee_queries.", DifferenceKind::MaradnsNoResponseServfail, no_queries);
    let ghost s2 = kd@;
    mark_matching_when(kd, KeyMatch::Prefix, ".fuzz_result.response_idxs.", DifferenceKind::MaradnsNoResponseServfail, no_queries);
    proof {
        lemma_grows_trans(s0, s1, s2);
        lemma_grows_trans(s0, s2, kd@);
    }
}

/// BIND9 leaves out the question section of a NotImp response.
fn mark_bind9_notimp_question(kd: &mut KnownDiffs, side: &ValueMap)
    ensures
        grows(old(kd)@, final(kd)@),
{
    let cond = resolver_is(side, "bind9") && side.is_str(".fuzz_result.fuzzee_response.header.response_code", "NotImp");
    let ghost s0 = kd@;
    mark_matching_when(kd, KeyMatch::Prefix, ".fuzz_result.fuzzee_response.queries.", DifferenceKind::Bind9NotImpMissingQuerySection, cond);
    let ghost s1 = kd@;
    mark_matching_when(kd, KeyMatch::Exact, ".fuzz_result.fuzzee_response.header.query_count", DifferenceKind::Bind9NotImpMissingQuerySection, cond);
    let ghost s2 = kd@;
    mark_matching_when(kd, KeyMatch::Exact, ".fuzz_result.fuzzee_response.header.recursion_desired", DifferenceKind::Bind9NotImpMissingQuerySection, cond);
    proof {
        lemma_grows_trans(s0, s1, s2);
        lemma_grows_trans(s0, s2, kd@);
    }
}

/// BIND9 9.11 answers clients with a 4096 buffer and queries upstream with a 512 buffer.
fn mark_bind9_11_bufsize(kd: &mut KnownDiffs, side: &ValueMap)
    ensures
        grows(old(kd)@, final(kd)@),
{
    let bind9_11 = resolver_is(side, "bind9_11");
    let client = bind9_11 && side.is_int(".fuzz_result.fuzzee_response.edns.max_payload", 4096);
    mark_matching_when(kd, KeyMatch::Exact, ".fuzz_result.fuzzee_response.edns.max_payload", DifferenceKind::Bind9_11EdnsClientBufsize, client);
    if bind9_11 {
        let n = count_at(side, ".fuzz_result.fuzzee_queries.#count");
        let mut i: u64 = 0;
        while i < n
            invariant
                i <= n,
                grows(old(kd)@, kd@),
            decreases n - i,
        {
            let key = indexed_key(".fuzz_result.fuzzee_queries.", i, ".edns.max_payload");
            let prefix = indexed_key(".fuzz_result.fuzzee_queries.", i, ".");
            let cond = side.is_int(key.as_str(), 512);
            let ghost a = kd@;
            mark_matching_when(kd, KeyMatch::Prefix, prefix.as_str(), DifferenceKind::Bind9_11EdnsServerBufsize, cond);
            proof {
                lemma_grows_trans(old(kd)@, a, kd@);
            }
            i = i + 1;
        }
    }
}

/// Unbound copies the AD and AA bits of the client query into a FormErr response.
fn mark_unbound_formerr_bits(kd: &mut KnownDiffs, side: &ValueMap)
    ensures
        grows(old(kd)@, final(kd)@),
{
    let formerr = resolver_is(side, "unbound") && side.is_str(".fuzz_result.fuzzee_response.header.response_code", "FormErr");
    let ad = formerr && side.is_bool(".fuzz_result.fuzzee_response.header.authentic_data", true)
        && side.is_bool(".fuzz_case.client_query.header.authentic_data", true);
    let ghost s0 = kd@;
    mark_matching_when(kd, KeyMatch::Exact, ".fuzz_result.fuzzee_response.header.authentic_data", DifferenceKind::UnboundFormErrCopiesAdAndAa, ad);
    let ghost s1 = kd@;
    let aa = formerr && side.is_bool(".fuzz_result.fuzzee_response.header.authoritative", true)
        && side.is_bool(".fuzz_case.client_query.header.authoritative", true);
    mark_matching_when(kd, KeyMatch::Exact, ".fuzz_result.fuzzee_response.header.authoritative", DifferenceKind::UnboundFormErrCopiesAdAndAa, aa);
    proof {
        lemma_grows_trans(s0, s1, kd@);
    }
}

/// Refused and ServFail are two ways of refusing, where a Refused trigger is present.
fn mark_refused_servfail(kd: &mut KnownDiffs, left: &ValueMap, right: &ValueMap)
    ensures
        grows(old(kd)@, final(kd)@),
{
    let rc = ".fuzz_result.fuzzee_response.header.response_code";
    let trigger = left.is_str(rc, "Refused") || left.is_str(".fuzz_case.client_query.queries.0.query_class", "NONE");
    let pair = (left.is_str(rc, "Refused") && right.is_str(rc, "ServFail")) || (left.is_str(rc, "ServFail")
        && right.is_str(rc, "Refused"));
    mark_matching_when(kd, KeyMatch::Exact, rc, DifferenceKind::RefusedCanBeServFail, trigger && pair);
}

/// BIND9 answers NotImp and FormErr with fixed payload size and flags.
fn mark_bind_error_constants(kd: &mut KnownDiffs, side: &ValueMap)
    ensures
        grows(old(kd)@, final(kd)@),
{
    let err = resolver_is(side, "bind9") && (side.is_str(".fuzz_result.fuzzee_response.header.response_code", "NotImp")
        || side.is_str(".fuzz_result.fuzzee_response.header.response_code", "FormErr"));
    let ghost s0 = kd@;
    let payload = err && side.is_int(".fuzz_result.fuzzee_response.edns.max_payload", 1232);
    mark_matching_when(kd, KeyMatch::Exact, ".fuzz_result.fuzzee_response.edns.max_payload", DifferenceKind::BindErrorsHaveHardcodedValues, payload);
    let ghost s1 = kd@;
    let cd = err && side.is_bool(".fuzz_result.fuzzee_response.header.checking_disabled", false);
    mark_matching_when(kd, KeyMatch::Exact, ".fuzz_result.fuzzee_response.header.checking_disabled", DifferenceKind::BindErrorsHaveHardcodedValues, cd);
    let ghost s2 = kd@;
    let rd = err && side.is_bool(".fuzz_result.fuzzee_response.header.recursion_desired", false);
    mark_matching_when(kd, KeyMatch::Exact, ".fuzz_result.fuzzee_response.header.recursion_desired", DifferenceKind::BindErrorsHaveHardcodedValues, rd);
    proof {
        lemma_grows_trans(s0, s1, s2);
        lemma_grows_trans(s0, s2, kd@);
    }
}

/// The PowerDNS recursor does not answer queries whose opcode is not Query.
fn mark_pdns_non_query(kd: &mut KnownDiffs, side: &ValueMap)
    ensures
        grows(old(kd)@, final(kd)@),
{
    let op = side.get(".fuzz_case.client_query.header.op_code");
    let non_query = match op.as_str() {
        Some(o) => !crate::text::str_equal(o, "query"),
        None => false,
    };
    let cond = resolver_is(side, "pdns-recursor") && non_query;
    mark_matching_when(kd, KeyMatch::Prefix, ".fuzz_result.fuzzee_response.", DifferenceKind::PdnsRecursorsNonQueryNoResponse, cond);
}

/// systemd-resolved answers ServFail where the other side answers NODATA.
fn mark_resolved_servfail(kd: &mut KnownDiffs, left: &ValueMap, right: &ValueMap)
    ensures
        grows(old(kd)@, final(kd)@),
{
    let rc = ".fuzz_result.fuzzee_response.header.response_code";
    let ac = ".fuzz_result.fuzzee_response.header.answer_count";
    let cond = resolver_is(left, "resolved") && left.is_str(rc, "ServFail") && right.is_str(rc, "NoError")
        && left.is_int(ac, 0) && right.is_int(ac, 0);
    mark_matching_when(kd, KeyMatch::Exact, rc, DifferenceKind::ResolvedServFailOnNoData, cond);
}

/// The rules that look at one side only, or at both in one order, applied in both orders.
fn mark_response_rules(kd: &mut KnownDiffs, diff_keys: &Vec<String>, left: &ValueMap, right: &ValueMap)
    ensures
        grows(old(kd)@, final(kd)@),
{
    let ghost s0 = kd@;
    mark_formerr_on_truncated_query(kd, diff_keys, left);
    let ghost s1 = kd@;
    mark_formerr_on_truncated_query(kd, diff_keys, right);
    let ghost s2 = kd@;
    mark_error_without_records(kd, left, right);
    let ghost s3 = kd@;
    mark_error_without_records(kd, right, left);
    let ghost s4 = kd@;
    mark_maradns_no_response(kd, left, right);
    let ghost s5 = kd@;
    mark_maradns_no_response(kd, right, left);
    let ghost s6 = kd@;
    mark_error_incomparable_queries(kd, left, right);
    let ghost s7 = kd@;
    mark_error_incomparable_queries(kd, right, left);
    let ghost s8 = kd@;
    mark_bind9_notimp_question(kd, left);
    let ghost s9 = kd@;
    mark_bind9_notimp_question(kd, right);
    let ghost s10 = kd@;
    mark_bind9_11_bufsize(kd, left);
    let ghost s11 = kd@;
    mark_bind9_11_bufsize(kd, right);
    let ghost s12 = kd@;
    mark_unbound_formerr_bits(kd, left);
    let ghost s13 = kd@;
    mark_unbound_formerr_bits(kd, right);
    let ghost s14 = kd@;
    mark_refused_servfail(kd, left, right);
    let ghost s15 = kd@;
    mark_bind_error_constants(kd, left);
    let ghost s16 = kd@;
    mark_bind_error_constants(kd, right);
    let ghost s17 = kd@;
    mark_pdns_non_query(kd, left);
    let ghost s18 = kd@;
    mark_pdns_non_query(kd, right);
    let ghost s19 = kd@;
    mark_resolved_servfail(kd, left, right);
    let ghost s20 = kd@;
    mark_resolved_servfail(kd, right, left);
    proof {
        lemma_grows_trans(s0, s1, s2);
        lemma_grows_trans(s0, s2, s3);
        lemma_grows_trans(s0, s3, s4);
        lemma_grows_trans(s0, s4, s5);
        lemma_grows_trans(s0, s5, s6);
        lemma_grows_trans(s0, s6, s7);
        lemma_grows_trans(s0, s7, s8);
        lemma_grows_trans(s0, s8, s9);
        lemma_grows_trans(s0, s9, s10);
        lemma_grows_trans(s0, s10, s11);
        lemma_grows_trans(s0, s11, s12);
        lemma_grows_trans(s0, s12, s13);
        lemma_grows_trans(s0, s13, s14);
        lemma_grows_trans(s0, s14, s15);
        lemma_grows_trans(s0, s15, s16);
        lemma_grows_trans(s0, s16, s17);
        lemma_grows_trans(s0, s17, s18);
        lemma_grows_trans(s0, s18, s19);
        lemma_grows_trans(s0, s19, s20);
        lemma_grows_trans(s0, s20, kd@);
    }
}


/// Whether `key` holds a positive integer.
fn int_positive(m: &ValueMap, key: &str) -> (r: bool)
    ensures
        r == (value_of(m@, key@) matches ValueV::Int(i) && i > 0),
{
    match m.get(key).as_i64() {
        Some(i) => i > 0,
        None => false,
    }
}

/// BIND9 attaches an extra NS record, and possibly its address, to successful answers.
/// `with_address` asks for exactly one additional A record, as BIND9 9.11 sends; otherwise the
/// additional record is optional.
fn mark_extra_ns(kd: &mut KnownDiffs, left: &ValueMap, right: &ValueMap, resolver: &str, with_address: bool, kind: DifferenceKind)
    ensures
        grows(old(kd)@, final(kd)@),
{
    let rc = ".fuzz_result.fuzzee_response.header.response_code";
    let ac = ".fuzz_result.fuzzee_response.header.answer_count";
    let adds = ".fuzz_result.fuzzee_response.additionals.#count";
    let one_address = left.is_int(adds, 1) && left.is_str(".fuzz_result.fuzzee_response.additionals.0.rr_type", "A");
    let additional_ok = if with_address {
        one_address
    } else {
        left.is_int(adds, 0) || one_address
    };
    let cond = resolver_is(left, resolver) && left.is_str(rc, "NoError") && right.is_str(rc, "NoError")
        && int_positive(left, ac) && left.same_at(right, ac)
        && left.is_int(".fuzz_result.fuzzee_response.name_servers.#count", 1)
        && right.is_int(".fuzz_result.fuzzee_response.name_servers.#count", 0)
        && left.is_str(".fuzz_result.fuzzee_response.name_servers.0.rr_type", "NS")
        && right.is_int(adds, 0) && additional_ok;
    let ghost s0 = kd@;
    mark_matching_when(kd, KeyMatch::Prefix, ".fuzz_result.fuzzee_response.name_servers.0.", kind, cond);
    let ghost s1 = kd@;
    mark_matching_when(kd, KeyMatch::Prefix, ".fuzz_result.fuzzee_response.additionals.0.", kind, cond);
    let ghost s2 = kd@;
    mark_matching_when(kd, KeyMatch::Exact, ".fuzz_result.fuzzee_response.header.name_server_count", kind, cond);
    let ghost s3 = kd@;
    mark_matching_when(kd, KeyMatch::Exact, ".fuzz_result.fuzzee_response.header.additional_count", kind, cond);
    proof {
        lemma_grows_trans(s0, s1, s2);
        lemma_grows_trans(s0, s2, s3);
        lemma_grows_trans(s0, s3, kd@);
    }
}

/// MaraDNS makes up an SOA record (TTL 0, primary name `z.<owner>`) for AAAA queries answered
/// with NODATA.
fn mark_maradns_fake_soa(kd: &mut KnownDiffs, left: &ValueMap, right: &ValueMap)
    ensures
        grows(old(kd)@, final(kd)@),
{
    let nsc = ".fuzz_result.fuzzee_response.header.name_server_count";
    let shape = resolver_is(left, "maradns") && left.is_int(nsc, 1) && right.is_int(nsc, 0)
        && left.is_str(".fuzz_result.fuzzee_response.queries.0.query_type", "AAAA")
        && left.is_str(".fuzz_result.fuzzee_response.name_servers.0.rr_type", "SOA")
        && left.is_int(".fuzz_result.fuzzee_response.name_servers.0.ttl", 0);
    let owner = left.get(".fuzz_result.fuzzee_response.name_servers.0.name_labels");
    let rdata = left.get(".fuzz_result.fuzzee_response.name_servers.0.rdata");
    let made_up = match (owner.as_str(), rdata.as_str()) {
        (Some(o), Some(r)) => {
            let mut prefix = String::from_str("z.");
            prefix.append(o);
            starts_with(r, prefix.as_str())
        },
        _ => false,
    };
    let cond = shape && made_up;
    let ghost s0 = kd@;
    mark_matching_when(kd, KeyMatch::Exact, nsc, DifferenceKind::MaradnsFakeSoaOnAAAA, cond);
    let ghost s1 = kd@;
    mark_matching_when(kd, KeyMatch::Prefix, ".fuzz_result.fuzzee_response.name_servers.0.", DifferenceKind::MaradnsFakeSoaOnAAAA, cond);
    proof {
        lemma_grows_trans(s0, s1, kd@);
    }
}

/// MaraDNS answers with class IN where the client asked for another class.
fn mark_maradns_class_in(kd: &mut KnownDiffs, side: &ValueMap)
    ensures
        grows(old(kd)@, final(kd)@),
{
    proof {
        lemma_grows_refl(kd@);
    }
    if resolver_is(side, "maradns") {
        let n = count_at(side, ".fuzz_result.fuzzee_response.queries.#count");
        let mut i: u64 = 0;
        while i < n
            invariant
                i <= n,
                grows(old(kd)@, kd@),
            decreases n - i,
        {
            let asked = indexed_key(".fuzz_case.client_query.queries.", i, ".query_class");
            let answered = indexed_key(".fuzz_result.fuzzee_response.queries.", i, ".query_class");
            let cond = !side.is_str(asked.as_str(), "IN") && side.is_str(answered.as_str(), "IN");
            let ghost a = kd@;
            mark_matching_when(kd, KeyMatch::Exact, answered.as_str(), DifferenceKind::MaradnsQueryClassNotIn, cond);
            proof {
                lemma_grows_trans(old(kd)@, a, kd@);
            }
            i = i + 1;
        }
    }
}

/// A ServFail where the other side answers NoError, because the scripted response that answered
/// the last upstream query has records of the wrong type or class: by type, where every record
/// has another type than asked for; by class, where some record has another class.
fn mark_servfail_wrong_answer(kd: &mut KnownDiffs, diff_keys: &Vec<String>, left: &ValueMap, right: &ValueMap, by_class: bool)
    ensures
        grows(old(kd)@, final(kd)@),
{
    proof {
        lemma_grows_refl(kd@);
    }
    let rc = ".fuzz_result.fuzzee_response.header.response_code";
    if !(contains_key(diff_keys, rc) && left.is_str(rc, "ServFail") && right.is_str(rc, "NoError")) {
        return;
    }
    let n = count_at(left, ".fuzz_result.fuzzee_queries.#count");
    if n == 0 {
        return;
    }
    let (asked_field, record_field, kind) = if by_class {
        (".queries.0.query_class", ".dns_class", DifferenceKind::ServFailOnWrongAuthnsAnswerClass)
    } else {
        (".queries.0.query_type", ".rr_type", DifferenceKind::ServFailOnWrongAuthnsAnswerType)
    };
    let asked = left.get(indexed_key(".fuzz_result.fuzzee_queries.", n - 1, asked_field).as_str());
    let idx = match left.get(indexed_key(".fuzz_result.response_idxs.", n - 1, "").as_str()).as_i64() {
        Some(i) => i,
        None => return,
    };
    if idx < 0 {
        return;
    }
    let answers_key = indexed_key(".fuzz_case.server_responses.", idx as u64, ".answers.#count");
    let count = match left.get(answers_key.as_str()).as_i64() {
        Some(c) => c,
        None => return,
    };
    let prefix = indexed_key(".fuzz_case.server_responses.", idx as u64, ".answers.");
    let mut all_differ = true;
    let mut any_differs = false;
    let mut i: i64 = 0;
    while i < count
        invariant
            0 <= i,
        decreases count - i,
    {
        let field = indexed_key(prefix.as_str(), i as u64, record_field);
        if left.get(field.as_str()) == asked {
            all_differ = false;
        } else {
            any_differs = true;
        }
        i = i + 1;
    }
    let cond = if by_class {
        any_differs
    } else {
        all_differ
    };
    let ghost s0 = kd@;
    mark_matching_when(kd, KeyMatch::Exact, rc, kind, cond);
    let ghost s1 = kd@;
    mark_matching_when(kd, KeyMatch::Prefix, ".fuzz_result.fuzzee_response.header.answer_count", kind, cond);
    let ghost s2 = kd@;
    mark_matching_when(kd, KeyMatch::Prefix, ".fuzz_result.fuzzee_response.answers", kind, cond);
    proof {
        lemma_grows_trans(s0, s1, s2);
        lemma_grows_trans(s0, s2, kd@);
        lemma_grows_trans(old(kd)@, s0, kd@);
    }
}

/// Unbound first asks upstream for type A, then repeats the question with the client's type:
/// one upstream query more than the other side, the last two alike but for the type.
fn mark_unbound_a_probe(kd: &mut KnownDiffs, left: &ValueMap, right: &ValueMap)
    ensures
        grows(old(kd)@, final(kd)@),
{
    proof {
        lemma_grows_refl(kd@);
    }
    let l = count_at(left, ".fuzz_result.response_idxs.#count");
    let r = count_at(right, ".fuzz_result.response_idxs.#count");
    if !(resolver_is(left, "unbound") && l >= 2 && r < l && l - 1 == r) {
        return;
    }
    let q = ".fuzz_result.fuzzee_queries.";
    let last_qc = left.get(indexed_key(q, l - 1, ".header.query_count").as_str());
    let prev_qc = left.get(indexed_key(q, l - 2, ".header.query_count").as_str());
    let counts = last_qc.is_int(1) && last_qc == prev_qc && last_qc == left.get(".fuzz_case.client_query.header.query_count");
    let last_name = left.get(indexed_key(q, l - 1, ".queries.0.name").as_str());
    let prev_name = left.get(indexed_key(q, l - 2, ".queries.0.name").as_str());
    let client_name = left.get(".fuzz_case.client_query.queries.0.name");
    let name_len = match last_name.as_str() {
        Some(n) => n.len(),
        None => 0,
    };
    let client_len = match client_name.as_str() {
        Some(n) => n.len(),
        None => 0,
    };
    let names = last_name == prev_name && name_len == client_len;
    let last_class = left.get(indexed_key(q, l - 1, ".queries.0.query_class").as_str());
    let classes = last_class == left.get(indexed_key(q, l - 2, ".queries.0.query_class").as_str())
        && last_class == left.get(".fuzz_case.client_query.queries.0.query_class");
    let probe_type = indexed_key(q, l - 2, ".queries.0.query_type");
    let types = left.is_str(probe_type.as_str(), "A") && left.get(
        indexed_key(q, l - 1, ".queries.0.query_type").as_str(),
    ) == left.get(".fuzz_case.client_query.queries.0.query_type");
    let cond = counts && names && classes && types;
    let ghost s0 = kd@;
    mark_matching_when(kd, KeyMatch::Prefix, indexed_key(q, l - 1, ".").as_str(), DifferenceKind::UnboundProbesUsingARecord, cond);
    let ghost s1 = kd@;
    mark_matching_when(kd, KeyMatch::Exact, indexed_key(".fuzz_result.response_idxs.", l - 1, "").as_str(), DifferenceKind::UnboundProbesUsingARecord, cond);
    let ghost s2 = kd@;
    mark_matching_when(kd, KeyMatch::Exact, probe_type.as_str(), DifferenceKind::UnboundProbesUsingARecord, cond);
    proof {
        lemma_grows_trans(s0, s1, s2);
        lemma_grows_trans(s0, s2, kd@);
        lemma_grows_trans(old(kd)@, s0, kd@);
    }
}


/// Whether `key` holds an integer of at most `bound`.
fn int_at_most(m: &ValueMap, key: &str, bound: i64) -> (r: bool)
    ensures
        r == (value_of(m@, key@) matches ValueV::Int(i) && i <= bound),
{
    match m.get(key).as_i64() {
        Some(i) => i <= bound,
        None => false,
    }
}

/// A client query without the recursion-desired bit gets the delegation of `fuzz.` to
/// `ns-fuzz.ns.` (127.97.1.1), whose TTLs run down, or nothing at all.
fn mark_no_rd_delegation(kd: &mut KnownDiffs, diff_keys: &Vec<String>, left: &ValueMap, right: &ValueMap)
    ensures
        grows(old(kd)@, final(kd)@),
{
    let ns_ttl = ".fuzz_result.fuzzee_response.name_servers.0.ttl";
    let ns_name = ".fuzz_result.fuzzee_response.name_servers.0.name_labels";
    let ns_rdata = ".fuzz_result.fuzzee_response.name_servers.0.rdata";
    let ad_ttl = ".fuzz_result.fuzzee_response.additionals.0.ttl";
    let ad_name = ".fuzz_result.fuzzee_response.additionals.0.name_labels";
    let ad_rdata = ".fuzz_result.fuzzee_response.additionals.0.rdata";
    let ttl_differs = contains_key(diff_keys, ns_ttl);
    let ns_cond = ttl_differs && left.is_str(ns_name, "fuzz.") && right.is_str(ns_name, "fuzz.")
        && left.is_str(ns_rdata, "ns-fuzz.ns.") && right.is_str(ns_rdata, "ns-fuzz.ns.")
        && int_at_most(left, ns_ttl, 86400) && int_at_most(right, ns_ttl, 86400);
    let ghost s0 = kd@;
    mark_matching_when(kd, KeyMatch::Exact, ns_ttl, DifferenceKind::ClientQueryWithoutRdBit, ns_cond);
    let ghost s1 = kd@;
    let ad_cond = ttl_differs && left.is_str(ad_name, "ns-fuzz.ns.") && right.is_str(ad_name, "ns-fuzz.ns.")
        && left.is_str(ad_rdata, "127.97.1.1") && right.is_str(ad_rdata, "127.97.1.1")
        && int_at_most(left, ad_ttl, 86400) && int_at_most(right, ad_ttl, 86400);
    mark_matching_when(kd, KeyMatch::Exact, ad_ttl, DifferenceKind::ClientQueryWithoutRdBit, ad_cond);
    let ghost s2 = kd@;
    let no_queries = left.is_int(".fuzz_result.response_idxs.#count", 0);
    let delegation = no_queries && left.is_int(".fuzz_result.fuzzee_response.name_servers.#count", 1)
        && left.is_str(ns_name, "fuzz.") && left.is_str(".fuzz_result.fuzzee_response.name_servers.0.rr_type", "NS")
        && left.is_str(ns_rdata, "ns-fuzz.ns.");
    mark_matching_when(kd, KeyMatch::Prefix, ".fuzz_result.fuzzee_response.name_servers.0.", DifferenceKind::ClientQueryWithoutRdBit, delegation);
    let ghost s3 = kd@;
    mark_matching_when(kd, KeyMatch::Exact, ".fuzz_result.fuzzee_response.header.name_server_count", DifferenceKind::ClientQueryWithoutRdBit, delegation);
    let ghost s4 = kd@;
    let glue = no_queries && left.is_int(".fuzz_result.fuzzee_response.additionals.#count", 1)
        && left.is_str(ad_name, "ns-fuzz.ns.") && left.is_str(".fuzz_result.fuzzee_response.additionals.0.rr_type", "A")
        && left.is_str(ad_rdata, "127.97.1.1");
    mark_matching_when(kd, KeyMatch::Prefix, ".fuzz_result.fuzzee_response.additionals.0.", DifferenceKind::ClientQueryWithoutRdBit, glue);
    let ghost s5 = kd@;
    mark_matching_when(kd, KeyMatch::Exact, ".fuzz_result.fuzzee_response.header.additional_count", DifferenceKind::ClientQueryWithoutRdBit, glue);
    proof {
        lemma_grows_trans(s0, s1, s2);
        lemma_grows_trans(s0, s2, s3);
        lemma_grows_trans(s0, s3, s4);
        lemma_grows_trans(s0, s4, s5);
        lemma_grows_trans(s0, s5, kd@);
    }
}


/// Whether the labels of `a` from position `a_from` on are those of `b`.
fn same_labels(a: &Vec<String>, a_from: usize, b: &Vec<String>) -> (r: bool)
    requires
        a_from <= a@.len(),
    ensures
        r == (string_views(a@).subrange(a_from as int, a@.len() as int) == string_views(b@)),
{
    let ghost sa = string_views(a@).subrange(a_from as int, a@.len() as int);
    if a.len() - a_from != b.len() {
        proof {
            assert(sa.len() != string_views(b@).len());
        }
        return false;
    }
    let n = a.len();
    let mut i: usize = 0;
    while i < b.len()
        invariant
            n == a@.len(),
            a_from <= a@.len(),
            a@.len() - a_from == b@.len(),
            sa == string_views(a@).subrange(a_from as int, a@.len() as int),
            i <= b@.len(),
            forall|j: int| 0 <= j < i ==> sa[j] == string_views(b@)[j],
        decreases b@.len() - i,
    {
        if !crate::text::str_equal(a[a_from + i].as_str(), b[i].as_str()) {
            proof {
                assert(sa[i as int] != string_views(b@)[i as int]);
            }
            return false;
        }
        i = i + 1;
    }
    proof {
        assert(sa =~= string_views(b@));
    }
    true
}

/// Marks the question name, type and response index of upstream query `i` with QNAME
/// minimisation; the type only where `with_type` holds.
fn mark_qname_step(kd: &mut KnownDiffs, name_key: &str, i: u64, with_type: bool)
    ensures
        grows(old(kd)@, final(kd)@),
{
    let ghost s0 = kd@;
    mark_matching_when(kd, KeyMatch::Exact, name_key, DifferenceKind::QnameMinimalization, true);
    let ghost s1 = kd@;
    mark_matching_when(kd, KeyMatch::Exact, indexed_key(".fuzz_result.fuzzee_queries.", i, ".queries.0.query_type").as_str(), DifferenceKind::QnameMinimalization, with_type);
    let ghost s2 = kd@;
    mark_matching_when(kd, KeyMatch::Exact, indexed_key(".fuzz_result.response_idxs.", i, "").as_str(), DifferenceKind::QnameMinimalization, true);
    proof {
        lemma_grows_trans(s0, s1, s2);
        lemma_grows_trans(s0, s2, kd@);
    }
}

/// Resolvers minimise the query name differently: an upstream name that is a suffix of the
/// other side's, asked with type NS or A; a `_.`-prefixed name and the full name after it;
/// trust-dns asking NS; or one side walking down one label per query where the other jumps.
fn mark_qname_minimisation(kd: &mut KnownDiffs, diff_keys: &Vec<String>, left: &ValueMap, right: &ValueMap)
    ensures
        grows(old(kd)@, final(kd)@),
{
    proof {
        lemma_grows_refl(kd@);
    }
    let client_name = left.get(".fuzz_case.client_query.queries.0.name");
    let client_len = match client_name.as_str() {
        Some(n) => n.len(),
        None => 0,
    };
    let lq = count_at(left, ".fuzz_result.fuzzee_queries.#count");
    let rq = count_at(right, ".fuzz_result.fuzzee_queries.#count");
    let shared = if lq < rq {
        lq
    } else {
        rq
    };
    let trust_dns = resolver_is(left, "trust-dns");
    let mut is_underscore = false;
    let mut i: u64 = 0;
    while i < shared
        invariant
            i <= shared,
            grows(old(kd)@, kd@),
        decreases shared - i,
    {
        let name_key = indexed_key(".fuzz_result.fuzzee_queries.", i, ".queries.0.name");
        let type_key = indexed_key(".fuzz_result.fuzzee_queries.", i, ".queries.0.query_type");
        let ghost a = kd@;
        proof {
            lemma_grows_refl(a);
        }
        if contains_key(diff_keys, name_key.as_str()) {
            let lv = left.get(name_key.as_str());
            let rv = right.get(name_key.as_str());
            match lv.as_str() {
                Some(l) => {
                    let r_name = match rv.as_str() {
                        Some(r) => r,
                        None => "",
                    };
                    let qtype = left.get(type_key.as_str());
                    if crate::text::ends_with(r_name, l) && (qtype.is_str("NS") || qtype.is_str("A")) {
                        let ghost b = kd@;
                        mark_qname_step(kd, name_key.as_str(), i, true);
                        proof {
                            lemma_grows_trans(a, b, kd@);
                        }
                    }
                    let prev_underscore = is_underscore;
                    let ghost c = kd@;
                    if starts_with(l, "_.") {
                        is_underscore = true;
                        mark_qname_step(kd, name_key.as_str(), i, false);
                    } else {
                        is_underscore = false;
                    }
                    proof {
                        if !is_underscore {
                            lemma_grows_refl(kd@);
                        }
                        lemma_grows_trans(a, c, kd@);
                    }
                    let ghost d = kd@;
                    if prev_underscore && !is_underscore && l.len() == client_len {
                        mark_qname_step(kd, name_key.as_str(), i, true);
                    } else {
                        proof {
                            lemma_grows_refl(kd@);
                        }
                    }
                    proof {
                        lemma_grows_trans(a, d, kd@);
                    }
                },
                None => {},
            }
        }
        let ghost e = kd@;
        let ns_trust_dns = contains_key(diff_keys, type_key.as_str()) && trust_dns && left.is_str(
            type_key.as_str(),
            "NS",
        );
        mark_matching_when(kd, KeyMatch::Exact, type_key.as_str(), DifferenceKind::QnameMinimalization, ns_trust_dns);
        let ghost f = kd@;
        mark_matching_when(kd, KeyMatch::Exact, indexed_key(".fuzz_result.response_idxs.", i, "").as_str(), DifferenceKind::QnameMinimalization, ns_trust_dns);
        proof {
            lemma_grows_trans(e, f, kd@);
            lemma_grows_trans(a, e, kd@);
            lemma_grows_trans(old(kd)@, a, kd@);
        }
        i = i + 1;
    }
    if lq > rq && rq > 0 {
        // One side walks down one label per upstream query after the shared part.
        let first = rq - 1;
        let mut prev = split_dns_string(left.get(indexed_key(".fuzz_result.fuzzee_queries.", first, ".queries.0.name").as_str()).as_str().unwrap_or(""));
        let mut all_steps = true;
        let mut idx: u64 = first + 1;
        while idx < lq
            invariant
                first + 1 <= idx <= lq,
            decreases lq - idx,
        {
            let this = split_dns_string(left.get(indexed_key(".fuzz_result.fuzzee_queries.", idx, ".queries.0.name").as_str()).as_str().unwrap_or(""));
            let step = prev.len() < this.len() && prev.len() + 1 == this.len() && same_labels(&this, 1, &prev);
            if !step {
                all_steps = false;
            }
            prev = this;
            idx = idx + 1;
        }
        if all_steps {
            let mut k: u64 = first + 1;
            while k < lq
                invariant
                    k <= lq,
                    grows(old(kd)@, kd@),
                decreases lq - k,
            {
                let ghost a = kd@;
                mark_matching_when(kd, KeyMatch::Prefix, indexed_key(".fuzz_result.fuzzee_queries.", k, ".").as_str(), DifferenceKind::QnameMinimalization, true);
                let ghost b = kd@;
                mark_matching_when(kd, KeyMatch::Exact, indexed_key(".fuzz_result.response_idxs.", k, "").as_str(), DifferenceKind::QnameMinimalization, true);
                proof {
                    lemma_grows_trans(a, b, kd@);
                    lemma_grows_trans(old(kd)@, a, kd@);
                }
                k = k + 1;
            }
        }
    }
}


/// Whether `a` and `b` agree but for their last ten characters, the zone label that differs
/// between a scripted record and what the resolver answered.
fn same_but_zone(a: &str, b: &str) -> (r: bool) {
    let n = a.unicode_len();
    let m = b.unicode_len();
    if n < 10 || m < 10 {
        return false;
    }
    crate::text::str_equal(a.substring_char(0, n - 10), b.substring_char(0, m - 10))
}

/// Whether scripted record `rr` of response `answer_idx` is the answer record under `answer_key`,
/// with the same TTL as that under `ttl_key`.
fn scripted_record_matches(right: &ValueMap, answer_idx: u64, rr: u64, answer_key: &str, ttl_key: &str) -> bool {
    let base = indexed_key(".fuzz_case.server_responses.", answer_idx, ".answers.");
    let field = |name: &str| -> (r: String) { indexed_key(base.as_str(), rr, name) };
    let mut answer_field = String::from_str(answer_key);
    answer_field.append(".dns_class");
    let class_ok = right.get(field(".dns_class").as_str()) == right.get(answer_field.as_str());
    let mut answer_type = String::from_str(answer_key);
    answer_type.append(".rr_type");
    let type_ok = right.get(field(".rr_type").as_str()) == right.get(answer_type.as_str());
    let mut answer_rdata = String::from_str(answer_key);
    answer_rdata.append(".rdata");
    let scripted_rdata = right.get(field(".rdata").as_str());
    let answered_rdata = right.get(answer_rdata.as_str());
    let rdata_ok = match scripted_rdata.as_str() {
        Some(sr) => sr.len() == match answered_rdata.as_str() {
            Some(ar) => ar.len(),
            None => 0,
        },
        None => scripted_rdata == answered_rdata,
    };
    let mut answer_name = String::from_str(answer_key);
    answer_name.append(".name_labels");
    let scripted_name = right.get(field(".name_labels").as_str());
    let answered_name = right.get(answer_name.as_str());
    let name_ok = match (scripted_name.as_str(), answered_name.as_str()) {
        (Some(o), Some(a)) => same_but_zone(o, a),
        _ => false,
    };
    class_ok && type_ok && rdata_ok && name_ok && right.get(field(".ttl").as_str()) == right.get(ttl_key)
}

/// Unbound caps TTLs at 86400 where the other side passes on the larger TTL of the scripted
/// record it received.
fn mark_max_ttl(kd: &mut KnownDiffs, diff_keys: &Vec<String>, left: &ValueMap, right: &ValueMap)
    ensures
        grows(old(kd)@, final(kd)@),
{
    proof {
        lemma_grows_refl(kd@);
    }
    if !resolver_is(left, "unbound") {
        return;
    }
    let responses = count_at(right, ".fuzz_result.response_idxs.#count");
    let mut k: usize = 0;
    while k < diff_keys.len()
        invariant
            k <= diff_keys@.len(),
            grows(old(kd)@, kd@),
        decreases diff_keys@.len() - k,
    {
        let ttl = diff_keys[k].as_str();
        let n = ttl.unicode_len();
        let capped = starts_with(ttl, ".fuzz_result.fuzzee_response.answers.") && crate::text::ends_with(ttl, ".ttl")
            && left.is_int(ttl, 86400) && !int_at_most(right, ttl, 86400)
            && right.get(ttl).as_i64().is_some();
        if capped && n >= 4 {
            let answer_key = ttl.substring_char(0, n - 4);
            let mut checked: Vec<i64> = Vec::new();
            let mut ri: u64 = 0;
            let mut stop = false;
            while ri < responses && !stop
                invariant
                    ri <= responses,
                    grows(old(kd)@, kd@),
                decreases responses - ri, if stop { 0int } else { 1int },
            {
                match right.get(indexed_key(".fuzz_result.response_idxs.", ri, "").as_str()).as_i64() {
                    None => {
                        stop = true;
                    },
                    Some(answer_idx) => {
                        let mut seen = false;
                        let mut c: usize = 0;
                        while c < checked.len()
                            invariant
                                c <= checked@.len(),
                            decreases checked@.len() - c,
                        {
                            if checked[c] == answer_idx {
                                seen = true;
                            }
                            c = c + 1;
                        }
                        if !seen && answer_idx >= 0 {
                            checked.push(answer_idx);
                            let count = count_at(right, indexed_key(".fuzz_case.server_responses.", answer_idx as u64, ".answers.#count").as_str());
                            let mut rr: u64 = 0;
                            while rr < count
                                invariant
                                    rr <= count,
                                    grows(old(kd)@, kd@),
                                decreases count - rr,
                            {
                                let matches = scripted_record_matches(right, answer_idx as u64, rr, answer_key, ttl);
                                let ghost a = kd@;
                                mark_matching_when(kd, KeyMatch::Exact, ttl, DifferenceKind::MaxTtlLimit, matches);
                                proof {
                                    lemma_grows_trans(old(kd)@, a, kd@);
                                }
                                rr = rr + 1;
                            }
                        } else if !seen {
                            checked.push(answer_idx);
                        }
                    },
                }
                ri = ri + 1;
            }
        }
        k = k + 1;
    }
}

/// Rules on the records of the response.
fn mark_record_rules(kd: &mut KnownDiffs, diff_keys: &Vec<String>, left: &ValueMap, right: &ValueMap)
    ensures
        grows(old(kd)@, final(kd)@),
        qname_cache_rule_holds(final(kd)@),
{
    let ghost s0 = kd@;
    mark_servfail_wrong_answer(kd, diff_keys, left, right, false);
    let ghost t1 = kd@;
    mark_servfail_wrong_answer(kd, diff_keys, right, left, false);
    let ghost t2 = kd@;
    mark_servfail_wrong_answer(kd, diff_keys, left, right, true);
    let ghost t3 = kd@;
    mark_servfail_wrong_answer(kd, diff_keys, right, left, true);
    let ghost s1 = kd@;
    mark_unbound_a_probe(kd, left, right);
    let ghost t4 = kd@;
    mark_unbound_a_probe(kd, right, left);
    let ghost s2 = kd@;
    mark_maradns_fake_soa(kd, left, right);
    let ghost s3 = kd@;
    mark_maradns_fake_soa(kd, right, left);
    let ghost s4 = kd@;
    mark_maradns_class_in(kd, left);
    let ghost s5 = kd@;
    mark_maradns_class_in(kd, right);
    let ghost s6 = kd@;
    mark_extra_ns(kd, left, right, "bind9_11", true, DifferenceKind::Bind9_11ExtraNsRecord);
    let ghost s7 = kd@;
    mark_extra_ns(kd, right, left, "bind9_11", true, DifferenceKind::Bind9_11ExtraNsRecord);
    let ghost s8 = kd@;
    mark_extra_ns(kd, left, right, "bind9", false, DifferenceKind::Bind9ExtraNsRecord);
    let ghost s9 = kd@;
    mark_extra_ns(kd, right, left, "bind9", false, DifferenceKind::Bind9ExtraNsRecord);
    let ghost s10 = kd@;
    mark_no_rd_delegation(kd, diff_keys, left, right);
    let ghost s11 = kd@;
    mark_no_rd_delegation(kd, diff_keys, right, left);
    let ghost s15 = kd@;
    mark_max_ttl(kd, diff_keys, left, right);
    let ghost s16 = kd@;
    mark_max_ttl(kd, diff_keys, right, left);
    let ghost s12 = kd@;
    mark_qname_minimisation(kd, diff_keys, left, right);
    let ghost s13 = kd@;
    mark_qname_minimisation(kd, diff_keys, right, left);
    let ghost s14 = kd@;
    // Cache probes are not comparable where the query names were minimised differently.
    let minimised = kd.has_kind(DifferenceKind::QnameMinimalization);
    mark_matching_when(kd, KeyMatch::Prefix, ".fuzz_result.cache_state.", DifferenceKind::TodoCacheIgnoredForNow, minimised);
    proof {
        let fin = kd@;
        if has_kind_spec(fin, DifferenceKind::QnameMinimalization) {
            let j = choose|j: int| 0 <= j < fin.len() && (#[trigger] fin[j]).1.contains(DifferenceKind::QnameMinimalization);
            let q = choose|q: int| 0 <= q < fin[j].1.len() && fin[j].1[q] == DifferenceKind::QnameMinimalization;
            if q < s14[j].1.len() {
                assert(fin[j].1[q] == s14[j].1[q]);
                assert(s14[j].1.contains(DifferenceKind::QnameMinimalization));
            }
            assert(minimised);
            assert forall|i: int| 0 <= i < fin.len() && is_prefix(".fuzz_result.cache_state."@, (#[trigger] fin[i]).0)
                implies fin[i].1.contains(DifferenceKind::TodoCacheIgnoredForNow) by {
                assert(fin[i].1 == s14[i].1.push(DifferenceKind::TodoCacheIgnoredForNow));
                assert(fin[i].1[s14[i].1.len() as int] == DifferenceKind::TodoCacheIgnoredForNow);
            }
        }
        lemma_grows_trans(s0, t1, t2);
        lemma_grows_trans(s0, t2, t3);
        lemma_grows_trans(s0, t3, s1);
        lemma_grows_trans(s1, t4, s2);
        lemma_grows_trans(s0, s1, s2);
        lemma_grows_trans(s0, s2, s3);
        lemma_grows_trans(s0, s3, s4);
        lemma_grows_trans(s0, s4, s5);
        lemma_grows_trans(s0, s5, s6);
        lemma_grows_trans(s0, s6, s7);
        lemma_grows_trans(s0, s7, s8);
        lemma_grows_trans(s0, s8, s9);
        lemma_grows_trans(s0, s9, s10);
        lemma_grows_trans(s0, s10, s11);
        lemma_grows_trans(s0, s11, s15);
        lemma_grows_trans(s0, s15, s16);
        lemma_grows_trans(s0, s16, s12);
        lemma_grows_trans(s0, s12, s13);
        lemma_grows_trans(s0, s13, s14);
        lemma_grows_trans(s0, s14, kd@);
    }
}

/// Classifies each differing key by the kinds of known difference that explain it.
///
/// The two sides are taken in the order of their resolver names.
pub fn search_known_differences(diff_keys: &Vec<String>, left: &ValueMap, right: &ValueMap) -> (r:
    KnownDiffs)
    ensures
        keys_of(r@) == string_views(diff_keys@),
        counts_consistent(left@) && counts_consistent(right@) ==> basic_rules_hold(r@)
            && pair_rules_hold(r@, left@, right@) && qname_cache_rule_holds(r@)
            && trailing_marked(r@, left@, right@) && trailing_marked(r@, right@, left@),
        !(counts_consistent(left@) && counts_consistent(right@)) ==> forall|i: int|
            0 <= i < r@.len() ==> (#[trigger] r@[i]).1.len() == 0,
{
    let swap = match (left.get(".resolver_name").as_str(), right.get(".resolver_name").as_str()) {
        (Some(a), Some(b)) => str_less(b, a),
        _ => false,
    };
    let (left, right) = if swap {
        (right, left)
    } else {
        (left, right)
    };
    let mut kd = KnownDiffs::from_keys(diff_keys);
    let ghost start = kd@;
    if !counts_consistent_exec(left) || !counts_consistent_exec(right) {
        return kd;
    }
    kd.mark(".resolver_name", DifferenceKind::ResolverName);
    let ghost s1 = kd@;
    kd.mark_suffix(".header.id", DifferenceKind::DnsId);
    let ghost s2 = kd@;
    kd.mark_contains(".#", DifferenceKind::MetaDiff);
    let ghost s3 = kd@;
    proof {
        lemma_marked_grows(start, s1, |i: int| start[i].0 == ".resolver_name"@, DifferenceKind::ResolverName);
        lemma_marked_grows(s1, s2, |i: int| is_suffix(".header.id"@, s1[i].0), DifferenceKind::DnsId);
        lemma_marked_grows(s2, s3, |i: int| is_infix(".#"@, s2[i].0), DifferenceKind::MetaDiff);
        assert forall|i: int| 0 <= i < s3.len() implies {
            &&& (#[trigger] s3[i]).0 == ".resolver_name"@ ==> s3[i].1.contains(
                DifferenceKind::ResolverName,
            )
            &&& is_suffix(".header.id"@, s3[i].0) ==> s3[i].1.contains(DifferenceKind::DnsId)
            &&& is_infix(".#"@, s3[i].0) ==> s3[i].1.contains(DifferenceKind::MetaDiff)
        } by {
            if s3[i].0 == ".resolver_name"@ {
                assert(s1[i].1.last() == DifferenceKind::ResolverName);
                assert(s1[i].1[s1[i].1.len() - 1] == DifferenceKind::ResolverName);
                lemma_grows_trans(s1, s2, s3);
                lemma_grows_keeps(s1, s3, i, DifferenceKind::ResolverName);
            }
            if is_suffix(".header.id"@, s3[i].0) {
                assert(s2[i].1[s2[i].1.len() - 1] == DifferenceKind::DnsId);
                lemma_grows_keeps(s2, s3, i, DifferenceKind::DnsId);
            }
            if is_infix(".#"@, s3[i].0) {
                assert(s3[i].1[s3[i].1.len() - 1] == DifferenceKind::MetaDiff);
            }
        }
        lemma_grows_trans(start, s1, s2);
        lemma_grows_trans(start, s2, s3);
    }
    // Coverage counters of different resolvers cannot be compared.
    let other_resolver = !left.same_at(right, ".resolver_name");
    mark_when(&mut kd, ".fuzz_result.counters", DifferenceKind::IncomparableCounters, other_resolver);
    let ghost s4 = kd@;
    // Recursion is indeterminate for query classes other than IN.
    let non_in = !left.is_str(".fuzz_case.client_query.queries.0.query_class", "IN");
    mark_when(&mut kd, ".fuzz_result.fuzzee_response.header.recursion_available", DifferenceKind::NonINRecursion, non_in);
    let ghost s5 = kd@;
    mark_cookies(&mut kd, diff_keys, left, right);
    let ghost s6 = kd@;
    mark_cache_errors(&mut kd, left, right);
    let ghost s7 = kd@;
    mark_extended_errors(&mut kd, diff_keys, left, right);
    let ghost s8 = kd@;
    mark_no_edns_support(&mut kd, left, right);
    let ghost s9 = kd@;
    mark_no_edns_support(&mut kd, right, left);
    let ghost s10 = kd@;
    mark_trailing_retransmissions(&mut kd, left, right);
    let ghost s11 = kd@;
    mark_trailing_retransmissions(&mut kd, right, left);
    let ghost s12 = kd@;
    mark_single_side_rules(&mut kd, left);
    let ghost s13 = kd@;
    mark_single_side_rules(&mut kd, right);
    let ghost s14 = kd@;
    mark_response_rules(&mut kd, diff_keys, left, right);
    let ghost s15 = kd@;
    mark_record_rules(&mut kd, diff_keys, left, right);
    proof {
        lemma_grows_trans(s3, s4, s5);
        lemma_grows_trans(s3, s5, s6);
        lemma_grows_trans(s3, s6, s7);
        lemma_grows_trans(s3, s7, s8);
        lemma_grows_trans(s3, s8, s9);
        lemma_grows_trans(s3, s9, s10);
        lemma_grows_trans(s3, s10, s11);
        lemma_grows_trans(s3, s11, s12);
        lemma_grows_trans(s3, s12, s13);
        lemma_grows_trans(s3, s13, s14);
        lemma_grows_trans(s3, s14, s15);
        lemma_grows_trans(s3, s15, kd@);
        lemma_grows_trans(s12, s13, s14);
        lemma_grows_trans(s12, s14, s15);
        lemma_grows_trans(s12, s15, kd@);
        lemma_grows_trans(s11, s12, kd@);
        lemma_trailing_kept(s11, kd@, left@, right@);
        lemma_trailing_kept(s12, kd@, right@, left@);
        lemma_grows_trans(s4, s5, s6);
        lemma_grows_trans(s7, s8, s9);
        lemma_grows_trans(s7, s9, s10);
        lemma_grows_trans(s7, s10, s11);
        lemma_grows_trans(s7, s11, s12);
        lemma_grows_trans(s7, s12, s13);
        lemma_grows_trans(s7, s13, s14);
        lemma_grows_trans(s7, s14, s15);
        lemma_grows_trans(s7, s15, kd@);
        lemma_grows_trans(s4, s6, s7);
        lemma_grows_trans(s4, s7, kd@);
        assert forall|i: int| 0 <= i < kd@.len() implies {
            &&& ((#[trigger] kd@[i]).0 == ".fuzz_result.counters"@ && value_of(left@, ".resolver_name"@)
                != value_of(right@, ".resolver_name"@) ==> kd@[i].1.contains(
                DifferenceKind::IncomparableCounters,
            ))
            &&& (is_prefix(".fuzz_result.cache_state."@, kd@[i].0) && (value_of(left@, kd@[i].0)
                == ValueV::Str("error"@) || value_of(right@, kd@[i].0) == ValueV::Str("error"@))
                ==> kd@[i].1.contains(DifferenceKind::TodoCacheIgnoredForNow))
        } by {
            if kd@[i].0 == ".fuzz_result.counters"@ && value_of(left@, ".resolver_name"@)
                != value_of(right@, ".resolver_name"@) {
                assert(s3[i].0 == ".fuzz_result.counters"@);
                assert(s4[i].1 == s3[i].1.push(DifferenceKind::IncomparableCounters));
                assert(s4[i].1[s4[i].1.len() - 1] == DifferenceKind::IncomparableCounters);
                lemma_grows_keeps(s4, kd@, i, DifferenceKind::IncomparableCounters);
            }
            if is_prefix(".fuzz_result.cache_state."@, kd@[i].0) && (value_of(left@, kd@[i].0)
                == ValueV::Str("error"@) || value_of(right@, kd@[i].0) == ValueV::Str("error"@)) {
                assert(s6[i].0 == kd@[i].0);
                assert(s7[i].1.contains(DifferenceKind::TodoCacheIgnoredForNow));
                lemma_grows_keeps(s7, kd@, i, DifferenceKind::TodoCacheIgnoredForNow);
            }
        }
        assert forall|i: int| 0 <= i < kd@.len() implies {
            &&& (#[trigger] kd@[i]).0 == ".resolver_name"@ ==> kd@[i].1.contains(
                DifferenceKind::ResolverName,
            )
            &&& is_suffix(".header.id"@, kd@[i].0) ==> kd@[i].1.contains(DifferenceKind::DnsId)
            &&& is_infix(".#"@, kd@[i].0) ==> kd@[i].1.contains(DifferenceKind::MetaDiff)
        } by {
            if s3[i].0 == ".resolver_name"@ {
                lemma_grows_keeps(s3, kd@, i, DifferenceKind::ResolverName);
            }
            if is_suffix(".header.id"@, s3[i].0) {
                lemma_grows_keeps(s3, kd@, i, DifferenceKind::DnsId);
            }
            if is_infix(".#"@, s3[i].0) {
                lemma_grows_keeps(s3, kd@, i, DifferenceKind::MetaDiff);
            }
        }
        assert(keys_of(kd@) =~= keys_of(start));
    }
    kd
}

/// What the classification of the differences between `first` and `second` guarantees: one
/// entry per differing key; where both sides recorded as many queries as response indices, the
/// rules on names, DNS ids, counts, counters, cache probes, QNAME minimisation and trailing
/// retransmissions hold; otherwise nothing is explained.
pub open spec fn classification_of(
    kd: Seq<(Seq<char>, Seq<DifferenceKind>)>,
    first: Seq<(Seq<char>, ValueV)>,
    second: Seq<(Seq<char>, ValueV)>,
) -> bool {
    &&& forall|k: Seq<char>| keys_of(kd).contains(k) <==> crate::values::differs(first, second, k)
    &&& counts_consistent(first) && counts_consistent(second) ==> basic_rules_hold(kd)
        && pair_rules_hold(kd, first, second) && qname_cache_rule_holds(kd)
        && trailing_marked(kd, first, second) && trailing_marked(kd, second, first)
    &&& !(counts_consistent(first) && counts_consistent(second)) ==> forall|i: int|
        0 <= i < kd.len() ==> (#[trigger] kd[i]).1.len() == 0
}

/// The outcome of comparing two resolvers on one case.
pub enum DifferenceResult {
    NoDifference,
    /// Every differing key is explained; the kinds that explain them, each once.
    KnownDifference(Vec<DifferenceKind>),
    /// Some differing key is unexplained.
    NewDifference(DiffFingerprint, KnownDiffs),
}

/// Every differing key of the table is explained by at least one kind.
pub open spec fn all_explained(kd: Seq<(Seq<char>, Seq<DifferenceKind>)>) -> bool {
    forall|i: int| 0 <= i < kd.len() ==> (#[trigger] kd[i]).1.len() > 0
}

/// The outcome for a table of known differences between `first` and `second`.
///
/// Where every key is explained, the outcome is the set of kinds; otherwise a fingerprint of the
/// unexplained keys, cache-state keys left out.
pub fn classify(known: KnownDiffs, first: &ValueMap, second: &ValueMap) -> (r: DifferenceResult)
    ensures
        all_explained(known@) ==> (r matches DifferenceResult::KnownDifference(kinds) && (forall|
            a: int,
            b: int,
        | 0 <= a < b < kinds@.len() ==> kinds@[a] != kinds@[b]) && forall|kind: DifferenceKind|
            kinds@.contains(kind) <==> has_kind_spec(known@, kind)),
        !all_explained(known@) ==> (r matches DifferenceResult::NewDifference(fp, kd) && kd@
            == known@ && is_fingerprint_of(fp@, unexplained_spec(known@), first@, second@)),
{
    let unexplained = known.unexplained_keys();
    proof {
        lemma_unexplained_members(known@);
    }
    if unexplained.len() == 0 {
        DifferenceResult::KnownDifference(known.get_total_set())
    } else {
        let fp = DiffFingerprint::new(&unexplained, first, second);
        DifferenceResult::NewDifference(fp, known)
    }
}

/// Compares the projections of two resolvers' results on one case.
///
/// `first` and `second` are the sides in the order of their resolver names.
pub fn diff_two_resolvers(first: &ValueMap, second: &ValueMap) -> (r: DifferenceResult)
    ensures
        !(r is NoDifference),
        r matches DifferenceResult::KnownDifference(kinds) ==> exists|kd: Seq<(Seq<char>, Seq<DifferenceKind>)>|
            #[trigger] classification_of(kd, first@, second@) && all_explained(kd) && (forall|a: int, b: int|
                0 <= a < b < kinds@.len() ==> kinds@[a] != kinds@[b]) && forall|kind: DifferenceKind|
                kinds@.contains(kind) <==> has_kind_spec(kd, kind),
        r matches DifferenceResult::NewDifference(fp, kd) ==> classification_of(kd@, first@, second@)
            && !all_explained(kd@) && is_fingerprint_of(fp@, unexplained_spec(kd@), first@, second@),
{
    let keys = diff_keys(first, second);
    let known = search_known_differences(&keys, first, second);
    let ghost kdv = known@;
    proof {
        assert forall|k: Seq<char>| keys_of(kdv).contains(k) <==> crate::values::differs(first@, second@, k) by {}
        assert(classification_of(kdv, first@, second@));
    }
    classify(known, first, second)
}

/// `p` is the ordered form of some pair of distinct positions below `n`.
pub open spec fn is_pair_of(names: Seq<Seq<char>>, p: (usize, usize), n: int) -> bool {
    exists|x: int, y: int| 0 <= x < y < n && p == ordered_pair(names, x, y)
}

/// Every unordered pair of distinct positions `a < b` of `names`, as `(first, second)` where the
/// name of `first` does not sort after the name of `second`; pairs in order of `(a, b)`.
pub open spec fn ordered_pair(names: Seq<Seq<char>>, a: int, b: int) -> (usize, usize) {
    if seq_less(names[b], names[a]) {
        (b as usize, a as usize)
    } else {
        (a as usize, b as usize)
    }
}

/// The resolver pairs to compare on one case: each pair of results once, its sides in the order
/// of their resolver names.
pub fn resolver_pairs(names: &Vec<String>) -> (r: Vec<(usize, usize)>)
    ensures
        forall|k: int|
            0 <= k < r@.len() ==> is_pair_of(string_views(names@), #[trigger] r@[k], names@.len() as int),
        forall|a: int, b: int|
            0 <= a < b < names@.len() ==> r@.contains(#[trigger] ordered_pair(string_views(names@), a, b)),
{
    let n = names.len();
    let mut out: Vec<(usize, usize)> = Vec::new();
    let mut a: usize = 0;
    while a < n
        invariant
            n == names@.len(),
            a <= n,
            forall|k: int|
                0 <= k < out@.len() ==> is_pair_of(string_views(names@), #[trigger] out@[k], n as int),
            forall|x: int, y: int|
                0 <= x < a && x < y < n ==> out@.contains(#[trigger] ordered_pair(string_views(names@), x, y)),
        decreases n - a,
    {
        let mut b: usize = a + 1;
        while b < n
            invariant
                n == names@.len(),
                a < n,
                a + 1 <= b <= n,
                forall|k: int|
                    0 <= k < out@.len() ==> is_pair_of(string_views(names@), #[trigger] out@[k], n as int),
                forall|x: int, y: int|
                    0 <= x < a && x < y < n ==> out@.contains(#[trigger] ordered_pair(string_views(names@), x, y)),
                forall|y: int|
                    a < y < b ==> out@.contains(#[trigger] ordered_pair(string_views(names@), a as int, y)),
            decreases n - b,
        {
            let pair = if str_less(names[b].as_str(), names[a].as_str()) {
                (b, a)
            } else {
                (a, b)
            };
            proof {
                assert(pair == ordered_pair(string_views(names@), a as int, b as int));
            }
            let ghost prev = out@;
            out.push(pair);
            proof {
                assert(out@[prev.len() as int] == pair);
                assert forall|k: int| 0 <= k < out@.len() implies is_pair_of(string_views(names@), #[trigger] out@[k], n as int) by {
                    if k < prev.len() {
                        assert(out@[k] == prev[k]);
                        assert(is_pair_of(string_views(names@), prev[k], n as int));
                    } else {
                        assert(out@[k] == ordered_pair(string_views(names@), a as int, b as int));
                        assert(0 <= a < b < n);
                    }
                }
                assert forall|x: int, y: int|
                    0 <= x < a && x < y < n implies out@.contains(#[trigger] ordered_pair(string_views(names@), x, y)) by {
                    let q = choose|q: int| 0 <= q < prev.len() && prev[q] == ordered_pair(string_views(names@), x, y);
                    assert(out@[q] == prev[q]);
                }
                assert forall|y: int| a < y < b + 1 implies out@.contains(#[trigger] ordered_pair(string_views(names@), a as int, y)) by {
                    if y < b {
                        let q = choose|q: int| 0 <= q < prev.len() && prev[q] == ordered_pair(string_views(names@), a as int, y);
                        assert(out@[q] == prev[q]);
                    }
                }
            }
            b = b + 1;
        }
        a = a + 1;
    }
    out
}

/// What re-running a case with an unexplained difference showed.
#[derive(Clone, Copy, Debug, PartialEq, Eq, Structural)]
pub enum Reproduction {
    /// The same fingerprint appeared again.
    SameFingerprint,
    /// Another unexplained difference appeared.
    OtherDifference,
    /// Only known differences, or none, appeared.
    Explained,
}

/// Compares the outcome of a re-run with the fingerprint found first.
pub fn reproduction_outcome(expected: &DiffFingerprint, rerun: &DifferenceResult) -> (r: Reproduction)
    ensures
        match rerun {
            DifferenceResult::NewDifference(fp, _) => if crate::fingerprint::fingerprint_equiv(fp@, expected@) {
                r == Reproduction::SameFingerprint
            } else {
                r == Reproduction::OtherDifference
            },
            _ => r == Reproduction::Explained,
        },
{
    match rerun {
        DifferenceResult::NewDifference(fp, _) => {
            if *fp == *expected {
                Reproduction::SameFingerprint
            } else {
                Reproduction::OtherDifference
            }
        },
        _ => Reproduction::Explained,
    }
}

/// `x + 1`, staying at `u64::MAX`.
pub open spec fn inc(x: u64) -> u64 {
    if x == u64::MAX {
        x
    } else {
        (x + 1) as u64
    }
}

/// Counts of the comparisons of one pair of resolvers, and of the re-runs of their new
/// differences.
#[derive(Clone, Copy, Debug, PartialEq, Eq, Structural)]
pub struct DifferenceStats {
    pub total: u64,
    pub no_diff: u64,
    pub insignificant: u64,
    pub significant: u64,
    pub repro_no_diff: u64,
    pub repro_insignificant: u64,
    pub repro_significant_other: u64,
    pub repro_significant: u64,
}

impl DifferenceStats {
    pub fn new() -> (r: DifferenceStats)
        ensures
            r == (DifferenceStats {
                total: 0,
                no_diff: 0,
                insignificant: 0,
                significant: 0,
                repro_no_diff: 0,
                repro_insignificant: 0,
                repro_significant_other: 0,
                repro_significant: 0,
            }),
    {
        DifferenceStats {
            total: 0,
            no_diff: 0,
            insignificant: 0,
            significant: 0,
            repro_no_diff: 0,
            repro_insignificant: 0,
            repro_significant_other: 0,
            repro_significant: 0,
        }
    }

    /// Counts one comparison: no difference, a known one, or a new one.
    pub fn record(&mut self, r: &DifferenceResult)
        ensures
            *final(self) == (match *r {
                DifferenceResult::NoDifference => DifferenceStats { total: inc(old(self).total), no_diff: inc(old(self).no_diff), ..*old(self) },
                DifferenceResult::KnownDifference(_) => DifferenceStats { total: inc(old(self).total), insignificant: inc(old(self).insignificant), ..*old(self) },
                DifferenceResult::NewDifference(_, _) => DifferenceStats { total: inc(old(self).total), significant: inc(old(self).significant), ..*old(self) },
            }),
    {
        self.total = self.total.saturating_add(1);
        match r {
            DifferenceResult::NoDifference => self.no_diff = self.no_diff.saturating_add(1),
            DifferenceResult::KnownDifference(_) => self.insignificant = self.insignificant.saturating_add(1),
            DifferenceResult::NewDifference(_, _) => self.significant = self.significant.saturating_add(1),
        }
    }

    /// Counts one re-run of a new difference with fingerprint `expected`.
    pub fn record_reproduction(&mut self, expected: &DiffFingerprint, rerun: &DifferenceResult)
        ensures
            *final(self) == (match *rerun {
                DifferenceResult::NoDifference => DifferenceStats { repro_no_diff: inc(old(self).repro_no_diff), ..*old(self) },
                DifferenceResult::KnownDifference(_) => DifferenceStats { repro_insignificant: inc(old(self).repro_insignificant), ..*old(self) },
                DifferenceResult::NewDifference(fp, _) => if crate::fingerprint::fingerprint_equiv(fp@, expected@) {
                    DifferenceStats { repro_significant: inc(old(self).repro_significant), ..*old(self) }
                } else {
                    DifferenceStats { repro_significant_other: inc(old(self).repro_significant_other), ..*old(self) }
                },
            }),
    {
        match rerun {
            DifferenceResult::NoDifference => self.repro_no_diff = self.repro_no_diff.saturating_add(1),
            _ => match reproduction_outcome(expected, rerun) {
                Reproduction::SameFingerprint => self.repro_significant = self.repro_significant.saturating_add(1),
                Reproduction::OtherDifference => self.repro_significant_other = self.repro_significant_other.saturating_add(1),
                Reproduction::Explained => self.repro_insignificant = self.repro_insignificant.saturating_add(1),
            },
        }
    }
}

} // verus!
