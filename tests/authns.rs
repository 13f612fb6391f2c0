use dnsfuzz::authns::{find_response, nodata_zone, names_match_exec, QueryLog, Question, NODATA_SOA_TTL};
use dnsfuzz::fuzz_result::NO_RESPONSE_IDX;

fn q(name: &str, qtype: u16, qclass: u16) -> Question {
    Question { name: name.to_string(), qtype, qclass }
}

#[test]
fn scripted_response_matches_question() {
    let responses = vec![vec![q("ex.example.", 1, 1)]];
    let mut log = QueryLog::new();
    let idx = log.handle(&responses, &q("ex.example.", 1, 1), vec![0, 123]);
    assert_eq!(idx, 0);
    let (queries, idxs) = log.get_query_list();
    assert_eq!(queries, vec![vec![0, 123]]);
    assert_eq!(idxs, vec![0]);
    let (queries, idxs) = log.get_query_list();
    assert!(queries.is_empty() && idxs.is_empty());
}

#[test]
fn unmatched_query_gets_default_nodata() {
    let responses: Vec<Vec<Question>> = vec![];
    let mut log = QueryLog::new();
    let idx = log.handle(&responses, &q("foo.bar.0001.fuzz.", 28, 1), vec![42]);
    assert_eq!(idx, NO_RESPONSE_IDX);
    assert_eq!(idx, usize::MAX);
    let labels: Vec<String> = ["foo", "bar", "0001", "fuzz"].iter().map(|s| s.to_string()).collect();
    assert_eq!(nodata_zone(&labels), vec!["0001".to_string(), "fuzz".to_string()]);
    assert_eq!(NODATA_SOA_TTL, 300);
    let (_, idxs) = log.get_query_list();
    assert_eq!(idxs, vec![usize::MAX]);
}

#[test]
fn first_matching_response_wins_and_case_is_ignored() {
    let responses = vec![
        vec![q("other.", 1, 1)],
        vec![q("Ex.EXAMPLE.", 1, 1)],
        vec![q("ex.example.", 1, 1)],
    ];
    assert_eq!(find_response(&responses, &q("ex.example.", 1, 1)), 1);
    assert_eq!(find_response(&responses, &q("ex.example.", 28, 1)), NO_RESPONSE_IDX);
    assert_eq!(find_response(&responses, &q("ex.example.", 1, 3)), NO_RESPONSE_IDX);
    assert!(names_match_exec("AbC.", "abc."));
    assert!(!names_match_exec("abd.", "abc."));
}

#[test]
fn short_names_keep_all_labels_for_nodata() {
    let labels: Vec<String> = ["fuzz"].iter().map(|s| s.to_string()).collect();
    assert_eq!(nodata_zone(&labels), labels);
}

fn name(s: &str) -> Vec<String> {
    s.split('.').filter(|l| !l.is_empty()).map(|l| l.to_string()).collect()
}

#[test]
fn test_name_down_iter_root() {
    let mut iter = dnsfuzz::authns::NameDownIter::as_name_down_iter(name("foo.bar.example.com"), name(".").len());
    assert_eq!(iter.next(), Some(name(".")));
    assert_eq!(iter.next(), Some(name("com")));
    assert_eq!(iter.next(), Some(name("example.com")));
    assert_eq!(iter.next(), Some(name("bar.example.com")));
    assert_eq!(iter.next(), Some(name("foo.bar.example.com")));
    assert_eq!(iter.next(), None);
}

#[test]
fn test_name_down_iter_sld() {
    let mut iter = dnsfuzz::authns::NameDownIter::as_name_down_iter(
        name("foo.bar.example.com."),
        name("example.com.").len(),
    );
    assert_eq!(iter.next(), Some(name("example.com.")));
    assert_eq!(iter.next(), Some(name("bar.example.com.")));
    assert_eq!(iter.next(), Some(name("foo.bar.example.com.")));
    assert_eq!(iter.next(), None);
}
