use dnsfuzz::fuzz_case::{update_check_cache, CacheKey, MessageKeys};
use dnsfuzz::fuzz_case::{FuzzCaseBytes, FuzzCaseId, LabelError, ResolverName};
use dnsfuzz::fuzz_result::{FuzzResult, OracleResults, OracleStats};

fn case() -> FuzzCaseBytes {
    FuzzCaseBytes {
        id: FuzzCaseId(7),
        client_query: b"\x03abc\x04test\x04fuzz\x00".to_vec(),
        server_responses: vec![b"\x04test\x04test\x00".to_vec(), b"\x02xy\x00".to_vec()],
        check_cache: vec![(b"\x01a\x04test\x04fuzz\x00".to_vec(), 1, 1)],
    }
}

#[test]
fn replace_label_everywhere_keeps_lengths() {
    let mut c = case();
    let before = (c.client_query.len(), c.server_responses[0].len(), c.check_cache[0].0.len());
    assert_eq!(c.replace_label(&b"\x04test".to_vec(), &b"\x040001".to_vec()), Ok(()));
    assert_eq!(c.client_query, b"\x03abc\x040001\x04fuzz\x00".to_vec());
    assert_eq!(c.server_responses[0], b"\x040001\x040001\x00".to_vec());
    assert_eq!(c.server_responses[1], b"\x02xy\x00".to_vec());
    assert_eq!(c.check_cache[0], (b"\x01a\x040001\x04fuzz\x00".to_vec(), 1, 1));
    assert_eq!(before, (c.client_query.len(), c.server_responses[0].len(), c.check_cache[0].0.len()));
}

#[test]
fn replace_label_rejects_bad_labels() {
    let mut c = case();
    assert_eq!(c.replace_label(&b"\x04test".to_vec(), &b"\x03abc".to_vec()), Err(LabelError::LengthMismatch));
    assert_eq!(c.replace_label(&b"\x03test".to_vec(), &b"\x040001".to_vec()), Err(LabelError::InvalidLabel));
    assert_eq!(c.replace_label(&b"\x04test".to_vec(), &b"\x050001".to_vec()), Err(LabelError::InvalidReplacement));
    assert_eq!(c.replace_label(&vec![], &vec![]), Ok(()));
    assert_eq!(c.client_query, case().client_query);
}

#[test]
fn resolver_name_keeps_text() {
    assert_eq!(ResolverName::new("bind9".to_string()).as_str(), "bind9");
    assert_eq!(ResolverName::new("knot".to_string()).as_str(), "knot");
}

#[test]
fn fuzz_result_pairs_queries_with_indices() {
    let mut r = FuzzResult::new(FuzzCaseId(1), None, None);
    r.push_query(vec![1, 2], 0);
    r.push_query(vec![3], usize::MAX);
    assert_eq!(r.fuzzee_queries(), vec![vec![1, 2], vec![3]]);
    assert_eq!(r.response_idxs(), vec![0, usize::MAX]);
    assert!(FuzzResult::with_queries(FuzzCaseId(1), None, None, vec![vec![1]], vec![]).is_none());
    let ok = FuzzResult::with_queries(FuzzCaseId(2), None, None, vec![vec![1]], vec![4]).unwrap();
    assert_eq!(ok.id(), FuzzCaseId(2));
    assert_eq!(ok.response_idxs(), vec![4]);
}

#[test]
fn oracles_flag_limits() {
    let dup = vec![vec![vec![1u8, 2], vec![1, 2]], vec![], vec![]];
    let o = OracleResults::evaluate(true, 16, &dup, true);
    assert!(o.crashed_resolver && o.excessive_queries && o.duplicate_records && o.responds_to_response);
    assert!(!o.excessive_answer_records);
    let many: Vec<Vec<Vec<u8>>> = vec![(0..6).map(|i| vec![i]).collect(), (0..5).map(|i| vec![i]).collect(), vec![]];
    let o = OracleResults::evaluate(false, 15, &many, false);
    assert!(o.excessive_answer_records);
    assert!(!o.excessive_queries && !o.duplicate_records && !o.crashed_resolver);
    let ten: Vec<Vec<Vec<u8>>> = vec![(0..5).map(|i| vec![i]).collect(), (0..5).map(|i| vec![i]).collect()];
    assert!(!OracleResults::evaluate(false, 0, &ten, false).excessive_answer_records);
}

#[test]
fn suite_cases_get_their_own_zone() {
    let mut cases = vec![case(), case(), case()];
    assert_eq!(dnsfuzz::fuzz_case::assign_unique_zones(&mut cases), Ok(()));
    assert_eq!(cases[0].client_query, b"\x03abc\x040000\x04fuzz\x00".to_vec());
    assert_eq!(cases[2].client_query, b"\x03abc\x040002\x04fuzz\x00".to_vec());
    assert_eq!(cases[1].check_cache[0].0, b"\x01a\x040001\x04fuzz\x00".to_vec());
    assert_eq!(dnsfuzz::fuzz_case::zone_label(1234), b"\x041234".to_vec());
    assert_eq!(dnsfuzz::fuzz_case::zone_label(7), b"\x040007".to_vec());
}

#[test]
fn oracle_flags_are_counted() {
    let none: Vec<Vec<Vec<u8>>> = vec![];
    let a = OracleResults::evaluate(true, 20, &none, false);
    let b = OracleResults::evaluate(false, 20, &none, true);
    let c = OracleResults::evaluate(false, 0, &none, false);
    let st = OracleStats::tally(&vec![a, b, c]);
    assert_eq!(st.crashed_resolver_count, 1);
    assert_eq!(st.excessive_queries_count, 2);
    assert_eq!(st.responds_to_response_count, 1);
    assert_eq!(st.duplicate_records_count, 0);
    assert_eq!(st.excessive_answer_records_count, 0);
}

#[test]
fn cache_probes_cover_every_owner_once() {
    let key = |n: &str, t: u16| CacheKey {
        name: n.split('.').filter(|l| !l.is_empty()).map(|l| l.as_bytes().to_vec()).collect(),
        rtype: t,
        class: 1,
    };
    let query = MessageKeys { queries: vec![key("a.test.fuzz.", 1)], records: vec![] };
    let response = MessageKeys {
        queries: vec![key("a.test.fuzz.", 1)],
        records: vec![key("a.test.fuzz.", 1), key("b.test.fuzz.", 28), key("a.test.fuzz.", 28)],
    };
    let probes = update_check_cache(&vec![query, response]);
    let seen: Vec<(Vec<Vec<u8>>, u16)> = probes.iter().map(|k| (k.name.clone(), k.rtype)).collect();
    assert_eq!(seen.len(), 3);
    assert_eq!(seen[0], (vec![b"a".to_vec(), b"test".to_vec(), b"fuzz".to_vec()], 1));
    assert_eq!(seen[1].1, 28);
    assert_eq!(seen[2], (vec![b"a".to_vec(), b"test".to_vec(), b"fuzz".to_vec()], 28));
    assert!(update_check_cache(&vec![]).is_empty());
}
