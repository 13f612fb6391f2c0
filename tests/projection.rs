use dnsfuzz::diff_matcher::{diff_two_resolvers, DifferenceResult};
use dnsfuzz::difference::DifferenceKind;
use dnsfuzz::fuzz_result::OracleResults;
use dnsfuzz::projection::{
    project_result_diff, CaseModel, CachePresent, EdnsModel, EdnsOptionModel, HeaderModel,
    MessageModel, QueryModel, RecordModel, ResultModel,
};
use dnsfuzz::values::Value;

fn header(id: u16, rcode: &str) -> HeaderModel {
    HeaderModel {
        id,
        message_type: "response".to_string(),
        op_code: "query".to_string(),
        authoritative: false,
        truncated: false,
        recursion_desired: true,
        recursion_available: true,
        authentic_data: false,
        checking_disabled: false,
        response_code: rcode.to_string(),
        query_count: 1,
        answer_count: 1,
        name_server_count: 0,
        additional_count: 0,
    }
}

fn message(id: u16, rcode: &str, edns: Option<EdnsModel>) -> MessageModel {
    MessageModel {
        header: header(id, rcode),
        queries: vec![QueryModel {
            name: "ex.example.".to_string(),
            query_type: "A".to_string(),
            query_class: "IN".to_string(),
        }],
        answers: vec![RecordModel {
            name_labels: "ex.example.".to_string(),
            rr_type: "A".to_string(),
            dns_class: "IN".to_string(),
            ttl: 300,
            rdata: "127.0.0.1".to_string(),
        }],
        name_servers: vec![],
        additionals: vec![],
        sig0: vec![],
        edns,
    }
}

fn case() -> CaseModel {
    CaseModel {
        id: "c1".to_string(),
        client_query: message(7, "NoError", None),
        server_responses: vec![message(0, "NoError", None)],
        check_cache: vec!["ex.example.-A-IN".to_string()],
    }
}

fn result(id: u16, rcode: &str) -> ResultModel {
    ResultModel {
        id: "c1".to_string(),
        counters_len: Some(4),
        cache_state: vec![("ex.example.-A-IN".to_string(), CachePresent::Present)],
        fuzzee_response: Some(message(id, rcode, None)),
        fuzzee_queries: vec![],
        response_idxs: vec![],
        oracles: OracleResults::evaluate(false, 0, &vec![], false),
    }
}

#[test]
fn projection_keys() {
    let mut r = result(1, "NoError");
    r.response_idxs = vec![0, usize::MAX];
    let map = project_result_diff(&case(), "bind9", &r).unwrap();
    assert_eq!(map.get(".resolver_name"), Value::String("bind9".to_string()));
    assert_eq!(map.get(".fuzz_case.server_responses.#count"), Value::Integer(1));
    assert_eq!(map.get(".fuzz_case.server_responses.0.answers.0.ttl"), Value::Integer(300));
    assert_eq!(map.get(".fuzz_case.check_cache.#size"), Value::Integer(1));
    assert_eq!(map.get(".fuzz_case.check_cache.0"), Value::String("ex.example.-A-IN".to_string()));
    assert_eq!(map.get(".fuzz_result.fuzzee_response.header.id"), Value::Integer(1));
    assert_eq!(map.get(".fuzz_result.fuzzee_response.queries.0.query_class"), Value::String("IN".to_string()));
    assert_eq!(map.get(".fuzz_result.response_idxs.#count"), Value::Integer(2));
    assert_eq!(map.get(".fuzz_result.response_idxs.1"), Value::String("usize::MAX".to_string()));
    assert_eq!(map.get(".fuzz_result.counters"), Value::Integer(4));
    assert_eq!(map.get(".fuzz_result.cache_state.ex.example.-A-IN"), Value::String("present".to_string()));
    assert_eq!(map.get(".fuzz_result.oracles.crashed_resolver"), Value::Boolean(false));
    assert_eq!(map.get(".fuzz_result.fuzzee_response.edns.max_payload"), Value::Missing);
}

#[test]
fn edns_options_are_named() {
    let mut r = result(1, "NoError");
    let edns = EdnsModel {
        max_payload: 1232,
        version: 0,
        dnssec_ok: false,
        options: vec![
            EdnsOptionModel { key: "Code15".to_string(), code: 15, data: vec![0, 18, b'x'], rendered: "x".to_string() },
            EdnsOptionModel { key: "Cookie".to_string(), code: 10, data: vec![1, 2], rendered: "\\x01\\x02".to_string() },
        ],
    };
    r.fuzzee_response = Some(message(1, "NoError", Some(edns)));
    let map = project_result_diff(&case(), "unbound", &r).unwrap();
    assert_eq!(map.get(".fuzz_result.fuzzee_response.edns.max_payload"), Value::Integer(1232));
    assert_eq!(map.get(".fuzz_result.fuzzee_response.edns.Code15.code"), Value::String("EXTENDED_ERROR".to_string()));
    assert_eq!(map.get(".fuzz_result.fuzzee_response.edns.Code15.error_code"), Value::String("Prohibited".to_string()));
    assert_eq!(map.get(".fuzz_result.fuzzee_response.edns.Code15.error_value"), Value::String("x".to_string()));
    assert_eq!(map.get(".fuzz_result.fuzzee_response.edns.Cookie.code"), Value::String("COOKIE".to_string()));
}

#[test]
fn projected_results_differing_in_the_dns_id_are_known() {
    let left = project_result_diff(&case(), "bind9", &result(1, "NoError")).unwrap();
    let right = project_result_diff(&case(), "bind9", &result(2, "NoError")).unwrap();
    match diff_two_resolvers(&left, &right) {
        DifferenceResult::KnownDifference(kinds) => assert_eq!(kinds, vec![DifferenceKind::DnsId]),
        _ => panic!("expected a known difference"),
    }
    let other = project_result_diff(&case(), "bind9", &result(1, "ServFail")).unwrap();
    match diff_two_resolvers(&left, &other) {
        DifferenceResult::NewDifference(fp, _) => assert_eq!(
            fp.key_diffs,
            vec![".fuzz_result.fuzzee_response.header.response_code".to_string()]
        ),
        _ => panic!("expected a new difference"),
    }
}
