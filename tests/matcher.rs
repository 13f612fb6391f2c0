use dnsfuzz::difference::{DifferenceKind, DifferenceKindCategory};
use dnsfuzz::diff_matcher::{classify, diff_two_resolvers, search_known_differences, DifferenceResult};
use dnsfuzz::diff_matcher::{reproduction_outcome, DifferenceStats, Reproduction};
use dnsfuzz::fingerprint::{DiffFingerprint, FingerprintRegistry, UnorderedPair};
use dnsfuzz::fuzz_case::FuzzCaseId;
use dnsfuzz::known_diffs::KnownDiffs;
use dnsfuzz::values::{diff_keys, KeyValueCollector, Value, ValueMap};

fn s(v: &str) -> Value {
    Value::String(v.to_string())
}

fn base(resolver: &str, id: i64) -> ValueMap {
    let mut m = ValueMap::new();
    m.insert(".resolver_name".to_string(), s(resolver));
    m.insert(".fuzz_result.fuzzee_response.header.id".to_string(), Value::Integer(id));
    m.insert(".fuzz_result.fuzzee_response.header.response_code".to_string(), s("NoError"));
    m.insert(".fuzz_result.fuzzee_queries.#count".to_string(), Value::Integer(0));
    m.insert(".fuzz_result.response_idxs.#count".to_string(), Value::Integer(0));
    m
}

fn sorted(mut kinds: Vec<DifferenceKind>) -> Vec<DifferenceKind> {
    kinds.sort();
    kinds
}

#[test]
fn dns_id_difference_is_known() {
    let left = base("bind9", 1);
    let right = base("bind9", 2);
    match diff_two_resolvers(&left, &right) {
        DifferenceResult::KnownDifference(kinds) => assert_eq!(kinds, vec![DifferenceKind::DnsId]),
        _ => panic!("expected a known difference"),
    }
}

#[test]
fn identical_results_have_no_unexplained_key() {
    let left = base("bind9", 1);
    let right = base("bind9", 1);
    assert!(diff_keys(&left, &right).is_empty());
    match diff_two_resolvers(&left, &right) {
        DifferenceResult::KnownDifference(kinds) => assert!(kinds.is_empty()),
        _ => panic!("expected no unexplained difference"),
    }
}

#[test]
fn resolver_name_and_meta_counts_are_known() {
    let mut left = base("bind9", 1);
    let mut right = base("unbound", 1);
    left.insert(".fuzz_result.fuzzee_response.answers.#count".to_string(), Value::Integer(1));
    right.insert(".fuzz_result.fuzzee_response.answers.#count".to_string(), Value::Integer(0));
    match diff_two_resolvers(&left, &right) {
        DifferenceResult::KnownDifference(kinds) => assert_eq!(
            sorted(kinds),
            vec![DifferenceKind::ResolverName, DifferenceKind::MetaDiff]
        ),
        _ => panic!("expected a known difference"),
    }
}

fn add_query(m: &mut ValueMap, idx: usize, name: &str) {
    let p = format!(".fuzz_result.fuzzee_queries.{idx}.queries");
    m.insert(format!("{p}.#count"), Value::Integer(1));
    m.insert(format!("{p}.0.name"), s(name));
    m.insert(format!("{p}.0.query_class"), s("IN"));
    m.insert(format!("{p}.0.query_type"), s("A"));
    m.insert(format!(".fuzz_result.response_idxs.{idx}"), Value::Integer(0));
}

#[test]
fn trailing_retransmissions_are_known() {
    let mut left = base("bind9", 1);
    let mut right = base("bind9", 1);
    let names = ["q0.0001.fuzz.", "q.0001.fuzz.", "q.0001.fuzz.", "q.0001.fuzz."];
    for (i, n) in names.iter().enumerate() {
        add_query(&mut left, i, n);
    }
    for (i, n) in names[..2].iter().enumerate() {
        add_query(&mut right, i, n);
    }
    left.insert(".fuzz_result.fuzzee_queries.#count".to_string(), Value::Integer(4));
    left.insert(".fuzz_result.response_idxs.#count".to_string(), Value::Integer(4));
    right.insert(".fuzz_result.fuzzee_queries.#count".to_string(), Value::Integer(2));
    right.insert(".fuzz_result.response_idxs.#count".to_string(), Value::Integer(2));

    let keys = diff_keys(&left, &right);
    let known = search_known_differences(&keys, &left, &right);
    for k in [".fuzz_result.response_idxs.2", ".fuzz_result.response_idxs.3", ".fuzz_result.fuzzee_queries.3.queries.0.name"] {
        assert!(known.get(k).unwrap().contains(&DifferenceKind::TrailingRetransmissions));
    }
    match diff_two_resolvers(&left, &right) {
        DifferenceResult::KnownDifference(kinds) => assert_eq!(
            sorted(kinds),
            vec![DifferenceKind::MetaDiff, DifferenceKind::TrailingRetransmissions]
        ),
        _ => panic!("expected a known difference"),
    }
}

#[test]
fn unexplained_response_code_gives_fingerprint() {
    let left = base("bind9", 1);
    let mut right = base("bind9", 1);
    right.insert(".fuzz_result.fuzzee_response.header.response_code".to_string(), s("ServFail"));
    right.insert(".fuzz_result.cache_state.0".to_string(), s("present"));
    match diff_two_resolvers(&left, &right) {
        DifferenceResult::NewDifference(fp, known) => {
            assert_eq!(fp.key_diffs, vec![".fuzz_result.fuzzee_response.header.response_code".to_string()]);
            assert!(known.get(".fuzz_result.cache_state.0").is_some());
            assert_eq!(fp.special_fields.0[11], s("NoError"));
            assert_eq!(fp.special_fields.1[11], s("ServFail"));
            assert_eq!(fp.special_fields.0[0], Value::Missing);
        }
        _ => panic!("expected a new difference"),
    }
}

#[test]
fn classify_explained_table_is_known() {
    let keys = vec![".a".to_string(), ".b.header.id".to_string()];
    let mut kd = KnownDiffs::from_keys(&keys);
    kd.mark(".a", DifferenceKind::MaxTtlLimit);
    kd.mark_suffix(".header.id", DifferenceKind::DnsId);
    kd.mark_suffix(".header.id", DifferenceKind::DnsId);
    let m = ValueMap::new();
    match classify(kd, &m, &m) {
        DifferenceResult::KnownDifference(kinds) => {
            assert_eq!(sorted(kinds), vec![DifferenceKind::DnsId, DifferenceKind::MaxTtlLimit])
        }
        _ => panic!("expected a known difference"),
    }
}

#[test]
fn classify_unexplained_table_is_new() {
    let keys = vec![".a".to_string(), ".b".to_string(), ".fuzz_result.cache_state.x".to_string()];
    let mut kd = KnownDiffs::from_keys(&keys);
    kd.mark(".a", DifferenceKind::MetaDiff);
    let m = ValueMap::new();
    match classify(kd, &m, &m) {
        DifferenceResult::NewDifference(fp, known) => {
            assert_eq!(fp.key_diffs, vec![".b".to_string()]);
            assert_eq!(known.len(), 3);
        }
        _ => panic!("expected a new difference"),
    }
}

#[test]
fn fingerprint_ignores_side_order() {
    let keys = vec![".x".to_string(), ".fuzz_result.cache_state.y".to_string()];
    let mut a = ValueMap::new();
    a.insert(".fuzz_result.fuzzee_response.header.response_code".to_string(), s("NoError"));
    let mut b = ValueMap::new();
    b.insert(".fuzz_result.fuzzee_response.header.response_code".to_string(), s("Refused"));
    let ab = DiffFingerprint::new(&keys, &a, &b);
    let ba = DiffFingerprint::new(&keys, &b, &a);
    assert!(ab == ba);
    assert_eq!(ab.key_diffs, vec![".x".to_string()]);
    let other = DiffFingerprint::new(&keys, &a, &a);
    assert!(ab != other);
}

#[test]
fn unordered_pair_equality() {
    assert!(UnorderedPair(1, 2) == UnorderedPair(2, 1));
    assert!(UnorderedPair(1, 2) == UnorderedPair(1, 2));
    assert!(UnorderedPair(1, 2) != UnorderedPair(1, 3));
    assert!(UnorderedPair(1, 2).swapped() == UnorderedPair(1, 2));
}

#[test]
fn kinds_have_category_and_interest() {
    assert_eq!(DifferenceKind::DnsId.categorize(), DifferenceKindCategory::Incomparable);
    assert_eq!(DifferenceKind::QnameMinimalization.categorize(), DifferenceKindCategory::UpstreamQueries);
    assert_eq!(DifferenceKind::MaxTtlLimit.interest_level(), 3);
    assert_eq!(DifferenceKind::CookiesUnsupported.interest_level(), 2);
    assert_eq!(DifferenceKind::ResolverName.interest_level(), 1);
    assert_eq!(DifferenceKind::TrailingRetransmissions.as_str(), "TrailingRetransmissions");
}

#[test]
fn known_diffs_marking() {
    let keys = vec![".a.#count".to_string(), ".fuzz_result.cache_state.q".to_string(), ".edns.x".to_string()];
    let mut kd = KnownDiffs::from_keys(&keys);
    kd.mark_contains(".#", DifferenceKind::MetaDiff);
    kd.mark_prefix(".fuzz_result.cache_state.", DifferenceKind::TodoCacheIgnoredForNow);
    kd.mark_if(".edns.x", DifferenceKind::NoEdnsSupport, false);
    kd.mark(".absent", DifferenceKind::DnsId);
    assert!(kd.has_kind(DifferenceKind::MetaDiff));
    assert!(!kd.has_kind(DifferenceKind::DnsId));
    assert_eq!(kd.get(".a.#count"), Some(vec![DifferenceKind::MetaDiff]));
    assert_eq!(kd.get(".edns.x"), Some(vec![]));
    assert_eq!(kd.get(".absent"), None);
    assert_eq!(kd.unexplained_keys(), vec![".edns.x".to_string()]);
}

#[test]
fn value_accessors() {
    assert_eq!(s("IN").as_str(), Some("IN"));
    assert_eq!(Value::Integer(3).as_i64(), Some(3));
    assert_eq!(Value::Boolean(true).as_i64(), None);
    assert!(Value::Missing.is_missing());
    let mut m = ValueMap::new();
    m.insert(".k".to_string(), Value::Integer(1));
    m.insert(".k".to_string(), Value::Integer(2));
    assert_eq!(m.get(".k"), Value::Integer(2));
    assert_eq!(m.get(".other"), Value::Missing);
}

fn kinds_of(left: &ValueMap, right: &ValueMap, key: &str) -> Vec<DifferenceKind> {
    let keys = diff_keys(left, right);
    search_known_differences(&keys, left, right).get(key).unwrap()
}

#[test]
fn bind9_refused_is_hs_prohibited() {
    let mut left = base("bind9", 1);
    let right = base("unbound", 1);
    left.insert(".fuzz_result.fuzzee_response.header.response_code".to_string(), s("Refused"));
    let k = kinds_of(&left, &right, ".fuzz_result.fuzzee_response.header.response_code");
    assert!(k.contains(&DifferenceKind::BindHsProhibited));
    assert!(k.contains(&DifferenceKind::ErrorClientNoRrInAnswer) || !k.is_empty());
}

#[test]
fn maradns_lacks_edns() {
    let mut left = base("maradns", 1);
    let mut right = base("unbound", 1);
    right.insert(".fuzz_result.fuzzee_response.edns.max_payload".to_string(), Value::Integer(1232));
    left.insert(".fuzz_result.fuzzee_response.header.additional_count".to_string(), Value::Integer(0));
    right.insert(".fuzz_result.fuzzee_response.header.additional_count".to_string(), Value::Integer(1));
    assert!(kinds_of(&left, &right, ".fuzz_result.fuzzee_response.edns.max_payload")
        .contains(&DifferenceKind::NoEdnsSupport));
    assert!(kinds_of(&left, &right, ".fuzz_result.fuzzee_response.header.additional_count")
        .contains(&DifferenceKind::NoEdnsSupport));
    right.insert(".fuzz_result.fuzzee_response.header.additional_count".to_string(), Value::Integer(2));
    assert!(!kinds_of(&left, &right, ".fuzz_result.fuzzee_response.header.additional_count")
        .contains(&DifferenceKind::NoEdnsSupport));
}

#[test]
fn extended_errors_of_unbound_are_optional() {
    let left = base("bind9", 1);
    let mut right = base("unbound", 1);
    let _ = &mut right;
    let mut l2 = left;
    l2.insert(".fuzz_result.fuzzee_response.edns.Code15.code".to_string(), Value::Integer(15));
    assert_eq!(
        kinds_of(&l2, &right, ".fuzz_result.fuzzee_response.edns.Code15.code"),
        vec![DifferenceKind::ExtendedErrorsUnsupported]
    );
}

#[test]
fn inconsistent_query_counts_explain_nothing() {
    let mut left = base("bind9", 1);
    let right = base("bind9", 2);
    left.insert(".fuzz_result.fuzzee_queries.#count".to_string(), Value::Integer(1));
    let keys = diff_keys(&left, &right);
    let known = search_known_differences(&keys, &left, &right);
    assert_eq!(known.get(".fuzz_result.fuzzee_response.header.id"), Some(vec![]));
}

#[test]
fn cache_errors_are_ignored() {
    let mut left = base("bind9", 1);
    let mut right = base("bind9", 1);
    left.insert(".fuzz_result.cache_state.0".to_string(), s("error"));
    right.insert(".fuzz_result.cache_state.0".to_string(), s("present"));
    match diff_two_resolvers(&left, &right) {
        DifferenceResult::KnownDifference(kinds) => {
            assert_eq!(kinds, vec![DifferenceKind::TodoCacheIgnoredForNow])
        }
        _ => panic!("expected a known difference"),
    }
}

#[test]
fn qname_minimisation_with_underscore_label() {
    let mut left = base("unbound", 1);
    let mut right = base("unbound", 1);
    for m in [&mut left, &mut right] {
        m.insert(".fuzz_result.fuzzee_queries.#count".to_string(), Value::Integer(1));
        m.insert(".fuzz_result.response_idxs.#count".to_string(), Value::Integer(1));
        m.insert(".fuzz_result.fuzzee_queries.0.queries.0.query_type".to_string(), s("A"));
    }
    left.insert(".fuzz_result.fuzzee_queries.0.queries.0.name".to_string(), s("_.xtzoa.0000.fuzz."));
    right.insert(".fuzz_result.fuzzee_queries.0.queries.0.name".to_string(), s("xtzoa.0000.fuzz."));
    left.insert(".fuzz_result.response_idxs.0".to_string(), Value::Integer(0));
    right.insert(".fuzz_result.response_idxs.0".to_string(), Value::Integer(1));
    match diff_two_resolvers(&left, &right) {
        DifferenceResult::KnownDifference(kinds) => {
            assert_eq!(kinds, vec![DifferenceKind::QnameMinimalization])
        }
        _ => panic!("expected a known difference"),
    }
}

#[test]
fn pairs_are_ordered_by_resolver_name() {
    let names: Vec<String> = ["unbound", "bind9", "maradns"].iter().map(|s| s.to_string()).collect();
    assert_eq!(dnsfuzz::diff_matcher::resolver_pairs(&names), vec![(1, 0), (2, 0), (1, 2)]);
    assert!(dnsfuzz::diff_matcher::resolver_pairs(&vec!["x".to_string()]).is_empty());
}

#[test]
fn fingerprints_collect_their_cases() {
    let keys = vec![".x".to_string()];
    let a = ValueMap::new();
    let mut b = ValueMap::new();
    b.insert(".fuzz_result.fuzzee_response.header.response_code".to_string(), s("Refused"));
    let mut reg = FingerprintRegistry::new();
    assert_eq!(reg.record(DiffFingerprint::new(&keys, &a, &b), FuzzCaseId(1)), vec![FuzzCaseId(1)]);
    assert_eq!(
        reg.record(DiffFingerprint::new(&keys, &b, &a), FuzzCaseId(2)),
        vec![FuzzCaseId(1), FuzzCaseId(2)]
    );
    assert_eq!(
        reg.record(DiffFingerprint::new(&keys, &a, &b), FuzzCaseId(1)),
        vec![FuzzCaseId(1), FuzzCaseId(2)]
    );
    assert_eq!(reg.record(DiffFingerprint::new(&keys, &a, &a), FuzzCaseId(3)), vec![FuzzCaseId(3)]);
    assert_eq!(reg.len(), 2);
}

#[test]
fn reruns_are_compared_with_the_first_fingerprint() {
    let left = base("bind9", 1);
    let mut right = base("bind9", 1);
    right.insert(".fuzz_result.fuzzee_response.header.response_code".to_string(), s("ServFail"));
    let first = match diff_two_resolvers(&left, &right) {
        DifferenceResult::NewDifference(fp, _) => fp,
        _ => panic!("expected a new difference"),
    };
    assert_eq!(reproduction_outcome(&first, &diff_two_resolvers(&right, &left)), Reproduction::SameFingerprint);
    let mut other = base("bind9", 1);
    other.insert(".fuzz_result.fuzzee_response.header.response_code".to_string(), s("NXDomain"));
    assert_eq!(reproduction_outcome(&first, &diff_two_resolvers(&left, &other)), Reproduction::OtherDifference);
    assert_eq!(reproduction_outcome(&first, &diff_two_resolvers(&left, &left)), Reproduction::Explained);
}

#[test]
fn test_key_value_collecting() {
    let expected = [
        (".a", Value::Integer(1)),
        (".b", Value::Boolean(true)),
        (".s", Value::String("hello".to_string())),
        (".bar.c", Value::Integer(2)),
        (".bar.v.#count", Value::Integer(3)),
        (".bar.v.0", Value::Integer(3)),
        (".bar.v.1", Value::Integer(4)),
        (".bar.v.2", Value::Integer(5)),
    ];

    // Foo { a: 1, b: true, s: "hello", bar: Bar { c: 2, v: vec![3, 4, 5] } }
    let mut c = KeyValueCollector::new();
    let top = c.enter("a");
    c.visit_integer(1);
    c.leave(top);
    let top = c.enter("b");
    c.visit_bool(true);
    c.leave(top);
    let top = c.enter("s");
    c.visit_string("hello");
    c.leave(top);
    let top = c.enter("bar");
    let bar = c.enter("c");
    c.visit_integer(2);
    c.leave(bar);
    let bar = c.enter("v");
    let v = vec![3i64, 4, 5];
    c.visit_count(v.len()).unwrap();
    for (i, x) in v.iter().enumerate() {
        let item = c.enter_index(i as u64);
        c.visit_integer(*x);
        c.leave(item);
    }
    c.leave(bar);
    c.leave(top);

    let map = c.into_map();
    assert_eq!(map.len(), expected.len());
    for (k, v) in expected {
        assert_eq!(map.get(k), v);
    }
}

#[test]
fn fingerprint_keys_are_a_sorted_set() {
    let keys: Vec<String> = [".z", ".fuzz_result.cache_state.q", ".a", ".m.10", ".a", ".m.2"]
        .iter()
        .map(|k| k.to_string())
        .collect();
    let m = ValueMap::new();
    let fp = DiffFingerprint::new(&keys, &m, &m);
    assert_eq!(fp.key_diffs, vec![".a".to_string(), ".m.10".to_string(), ".m.2".to_string(), ".z".to_string()]);
    let sorted = dnsfuzz::fingerprint::sort_keys(&vec!["b".to_string(), "a".to_string(), "ab".to_string()]);
    assert_eq!(sorted, vec!["a".to_string(), "ab".to_string(), "b".to_string()]);
}

#[test]
fn difference_statistics_count_outcomes() {
    let left = base("bind9", 1);
    let mut right = base("bind9", 1);
    right.insert(".fuzz_result.fuzzee_response.header.response_code".to_string(), s("ServFail"));
    let first = match diff_two_resolvers(&left, &right) {
        DifferenceResult::NewDifference(fp, _) => fp,
        _ => panic!("expected a new difference"),
    };
    let mut st = DifferenceStats::new();
    st.record(&diff_two_resolvers(&left, &right));
    st.record(&diff_two_resolvers(&left, &base("bind9", 2)));
    st.record(&DifferenceResult::NoDifference);
    assert_eq!((st.total, st.significant, st.insignificant, st.no_diff), (3, 1, 1, 1));
    st.record_reproduction(&first, &diff_two_resolvers(&right, &left));
    st.record_reproduction(&first, &diff_two_resolvers(&left, &left));
    st.record_reproduction(&first, &DifferenceResult::NoDifference);
    assert_eq!((st.repro_significant, st.repro_insignificant, st.repro_no_diff, st.repro_significant_other), (1, 1, 1, 0));
    assert!(dnsfuzz::fingerprint::decay_due(21));
    assert!(!dnsfuzz::fingerprint::decay_due(20));
}
