//! What one resolver did on one fuzz case, and the oracles judged from it.

use crate::counters::Counters;
use crate::fuzz_case::FuzzCaseId;
use vstd::prelude::*;

verus! {

/// The response index recorded for an upstream query that no scripted response matched.
pub const NO_RESPONSE_IDX: usize = usize::MAX;

/// Flags raised on one result.
#[derive(Clone, Copy, Debug, PartialEq, Eq, Structural)]
pub struct OracleResults {
    /// The resolver exited before the case completed.
    pub crashed_resolver: bool,
    /// The resolver sent more than fifteen upstream queries.
    pub excessive_queries: bool,
    /// The response holds more than ten records over its three record sections.
    pub excessive_answer_records: bool,
    /// A record section of the response holds the same record twice.
    pub duplicate_records: bool,
    /// The client query was itself a response.
    pub responds_to_response: bool,
}

/// The most upstream queries a resolver may send before it is flagged.
pub const MAX_UPSTREAM_QUERIES: usize = 15;

/// The most response records before a response is flagged.
pub const MAX_RESPONSE_RECORDS: u64 = 10;

/// Whether some record occurs twice in a section.
pub open spec fn has_duplicate(section: Seq<Seq<u8>>) -> bool {
    exists|a: int, b: int| 0 <= a < b < section.len() && section[a] == section[b]
}

/// The views of a sequence of byte buffers.
pub open spec fn byte_views(v: Seq<Vec<u8>>) -> Seq<Seq<u8>> {
    v.map_values(|b: Vec<u8>| b@)
}

fn bytes_equal(a: &Vec<u8>, b: &Vec<u8>) -> (r: bool)
    ensures
        r == (a@ == b@),
{
    if a.len() != b.len() {
        return false;
    }
    let mut i: usize = 0;
    while i < a.len()
        invariant
            a@.len() == b@.len(),
            i <= a@.len(),
            forall|j: int| 0 <= j < i ==> a@[j] == b@[j],
        decreases a@.len() - i,
    {
        if a[i] != b[i] {
            return false;
        }
        i = i + 1;
    }
    proof {
        assert(a@ =~= b@);
    }
    true
}

/// Whether a record section, each record in its wire encoding, holds the same record twice.
pub fn section_has_duplicate(section: &Vec<Vec<u8>>) -> (r: bool)
    ensures
        r == has_duplicate(byte_views(section@)),
{
    let n = section.len();
    let mut a: usize = 0;
    while a < n
        invariant
            n == section@.len(),
            a <= n,
            forall|x: int, y: int| 0 <= x < a && x < y < n ==> section@[x]@ != section@[y]@,
        decreases n - a,
    {
        let mut b: usize = a + 1;
        while b < n
            invariant
                n == section@.len(),
                a < n,
                a + 1 <= b <= n,
                forall|x: int, y: int| 0 <= x < a && x < y < n ==> section@[x]@ != section@[y]@,
                forall|y: int| a < y < b ==> section@[a as int]@ != section@[y]@,
            decreases n - b,
        {
            if bytes_equal(&section[a], &section[b]) {
                proof {
                    assert(byte_views(section@)[a as int] == byte_views(section@)[b as int]);
                }
                return true;
            }
            b = b + 1;
        }
        a = a + 1;
    }
    proof {
        if has_duplicate(byte_views(section@)) {
            let (x, y) = choose|x: int, y: int|
                0 <= x < y < byte_views(section@).len() && byte_views(section@)[x] == byte_views(
                    section@,
                )[y];
            assert(section@[x]@ == section@[y]@);
        }
    }
    false
}

impl OracleResults {
    /// Judges one result.
    ///
    /// `sections` are the answer, authority and additional sections of the resolver's response,
    /// each record in its wire encoding; `client_query_is_response` tells whether the client
    /// query had the response flag.
    pub fn evaluate(
        crashed: bool,
        upstream_queries: usize,
        sections: &Vec<Vec<Vec<u8>>>,
        client_query_is_response: bool,
    ) -> (r: OracleResults)
        ensures
            r.crashed_resolver == crashed,
            r.excessive_queries == (upstream_queries > 15),
            r.excessive_answer_records == (total_records(sections@) > 10),
            r.duplicate_records == exists|i: int|
                0 <= i < sections@.len() && has_duplicate(byte_views(#[trigger] sections@[i]@)),
            r.responds_to_response == client_query_is_response,
    {
        let mut total: u64 = 0;
        let mut duplicate = false;
        let mut i: usize = 0;
        while i < sections.len()
            invariant
                i <= sections@.len(),
                total == if total_records(sections@.subrange(0, i as int)) > 11 {
                    11
                } else {
                    total_records(sections@.subrange(0, i as int))
                },
                duplicate == exists|j: int|
                    0 <= j < i && has_duplicate(byte_views(#[trigger] sections@[j]@)),
            decreases sections@.len() - i,
        {
            proof {
                assert(sections@.subrange(0, i + 1).drop_last() =~= sections@.subrange(0, i as int));
            }
            let len = sections[i].len() as u64;
            total = if len > 11 || total + len > 11 {
                11
            } else {
                total + len
            };
            if section_has_duplicate(&sections[i]) {
                duplicate = true;
            }
            proof {
                if exists|j: int| 0 <= j < i + 1 && has_duplicate(byte_views(#[trigger] sections@[j]@)) {
                    let j = choose|j: int| 0 <= j < i + 1 && has_duplicate(byte_views(#[trigger] sections@[j]@));
                    if j < i {
                        assert(exists|q: int| 0 <= q < i && has_duplicate(byte_views(#[trigger] sections@[q]@)));
                    }
                }
            }
            i = i + 1;
        }
        proof {
            assert(sections@.subrange(0, sections@.len() as int) =~= sections@);
        }
        OracleResults {
            crashed_resolver: crashed,
            excessive_queries: upstream_queries > MAX_UPSTREAM_QUERIES,
            excessive_answer_records: total > MAX_RESPONSE_RECORDS,
            duplicate_records: duplicate,
            responds_to_response: client_query_is_response,
        }
    }
}


/// How many results raised each oracle flag.
#[derive(Clone, Copy, Debug, PartialEq, Eq, Structural)]
pub struct OracleStats {
    pub crashed_resolver_count: u64,
    pub excessive_queries_count: u64,
    pub excessive_answer_records_count: u64,
    pub duplicate_records_count: u64,
    pub responds_to_response_count: u64,
}

/// The number of results in `s` for which `flag` holds.
pub open spec fn count_flag(s: Seq<OracleResults>, flag: spec_fn(OracleResults) -> bool) -> nat
    decreases s.len(),
{
    if s.len() == 0 {
        0
    } else {
        count_flag(s.drop_last(), flag) + if flag(s.last()) {
            1nat
        } else {
            0nat
        }
    }
}

proof fn lemma_count_flag_bounded(s: Seq<OracleResults>, flag: spec_fn(OracleResults) -> bool)
    ensures
        count_flag(s, flag) <= s.len(),
    decreases s.len(),
{
    if s.len() > 0 {
        lemma_count_flag_bounded(s.drop_last(), flag);
    }
}

impl OracleStats {
    /// Counts, per flag, the results that raised it.
    pub fn tally(results: &Vec<OracleResults>) -> (r: OracleStats)
        ensures
            r.crashed_resolver_count == count_flag(results@, |o: OracleResults| o.crashed_resolver),
            r.excessive_queries_count == count_flag(results@, |o: OracleResults| o.excessive_queries),
            r.excessive_answer_records_count == count_flag(results@, |o: OracleResults| o.excessive_answer_records),
            r.duplicate_records_count == count_flag(results@, |o: OracleResults| o.duplicate_records),
            r.responds_to_response_count == count_flag(results@, |o: OracleResults| o.responds_to_response),
    {
        let mut st = OracleStats {
            crashed_resolver_count: 0,
            excessive_queries_count: 0,
            excessive_answer_records_count: 0,
            duplicate_records_count: 0,
            responds_to_response_count: 0,
        };
        let mut i: usize = 0;
        while i < results.len()
            invariant
                i <= results@.len(),
                st.crashed_resolver_count == count_flag(results@.subrange(0, i as int), |o: OracleResults| o.crashed_resolver),
                st.excessive_queries_count == count_flag(results@.subrange(0, i as int), |o: OracleResults| o.excessive_queries),
                st.excessive_answer_records_count == count_flag(results@.subrange(0, i as int), |o: OracleResults| o.excessive_answer_records),
                st.duplicate_records_count == count_flag(results@.subrange(0, i as int), |o: OracleResults| o.duplicate_records),
                st.responds_to_response_count == count_flag(results@.subrange(0, i as int), |o: OracleResults| o.responds_to_response),
            decreases results@.len() - i,
        {
            let o = results[i];
            proof {
                let p = results@.subrange(0, i + 1);
                assert(p.drop_last() =~= results@.subrange(0, i as int));
                assert(p.last() == o);
                lemma_count_flag_bounded(results@.subrange(0, i as int), |o: OracleResults| o.crashed_resolver);
                lemma_count_flag_bounded(results@.subrange(0, i as int), |o: OracleResults| o.excessive_queries);
                lemma_count_flag_bounded(results@.subrange(0, i as int), |o: OracleResults| o.excessive_answer_records);
                lemma_count_flag_bounded(results@.subrange(0, i as int), |o: OracleResults| o.duplicate_records);
                lemma_count_flag_bounded(results@.subrange(0, i as int), |o: OracleResults| o.responds_to_response);
            }
            if o.crashed_resolver {
                st.crashed_resolver_count = st.crashed_resolver_count + 1;
            }
            if o.excessive_queries {
                st.excessive_queries_count = st.excessive_queries_count + 1;
            }
            if o.excessive_answer_records {
                st.excessive_answer_records_count = st.excessive_answer_records_count + 1;
            }
            if o.duplicate_records {
                st.duplicate_records_count = st.duplicate_records_count + 1;
            }
            if o.responds_to_response {
                st.responds_to_response_count = st.responds_to_response_count + 1;
            }
            i = i + 1;
        }
        proof {
            assert(results@.subrange(0, i as int) =~= results@);
        }
        st
    }
}

/// The number of records over all sections.
pub open spec fn total_records(sections: Seq<Vec<Vec<u8>>>) -> nat
    decreases sections.len(),
{
    if sections.len() == 0 {
        0
    } else {
        total_records(sections.drop_last()) + sections.last()@.len()
    }
}

/// The observation of one resolver on one fuzz case.
pub struct FuzzResult {
    id: FuzzCaseId,
    counters: Option<Counters>,
    /// The resolver's answer to the client, in wire format.
    fuzzee_response: Option<Vec<u8>>,
    /// Each upstream query the resolver sent, in order and in wire format, with the index of the
    /// scripted response that answered it, or [`NO_RESPONSE_IDX`].
    upstream: Vec<(Vec<u8>, usize)>,
    oracles: OracleResults,
}

impl FuzzResult {
    pub closed spec fn case_id(&self) -> FuzzCaseId {
        self.id
    }

    pub closed spec fn flags(&self) -> OracleResults {
        self.oracles
    }

    /// The upstream queries, in order.
    pub closed spec fn queries(&self) -> Seq<Seq<u8>> {
        self.upstream@.map_values(|e: (Vec<u8>, usize)| e.0@)
    }

    /// The response index of each upstream query.
    pub closed spec fn indices(&self) -> Seq<usize> {
        self.upstream@.map_values(|e: (Vec<u8>, usize)| e.1)
    }

    pub fn id(&self) -> (r: FuzzCaseId)
        ensures
            r == self.case_id(),
    {
        self.id
    }

    pub fn oracles(&self) -> (r: OracleResults)
        ensures
            r == self.flags(),
    {
        self.oracles
    }

    /// Replaces the oracle flags.
    pub fn set_oracles(&mut self, oracles: OracleResults)
        ensures
            final(self).flags() == oracles,
            final(self).case_id() == old(self).case_id(),
            final(self).queries() == old(self).queries(),
            final(self).indices() == old(self).indices(),
    {
        self.oracles = oracles;
    }

    pub closed spec fn spec_counters(&self) -> Option<Counters> {
        self.counters
    }

    pub closed spec fn spec_fuzzee_response(&self) -> Option<Vec<u8>> {
        self.fuzzee_response
    }

    /// The coverage counters read after the case, where they were read.
    pub fn counters(&self) -> (r: &Option<Counters>)
        ensures
            *r == self.spec_counters(),
    {
        &self.counters
    }

    /// The resolver's answer to the client, in wire format.
    pub fn fuzzee_response(&self) -> (r: &Option<Vec<u8>>)
        ensures
            *r == self.spec_fuzzee_response(),
    {
        &self.fuzzee_response
    }

    /// A result without upstream queries.
    pub fn new(id: FuzzCaseId, counters: Option<Counters>, fuzzee_response: Option<Vec<u8>>) -> (r:
        FuzzResult)
        ensures
            r.case_id() == id,
            r.spec_counters() == counters,
            r.spec_fuzzee_response() == fuzzee_response,
            r.queries().len() == 0,
            r.indices().len() == 0,
            r.flags() == (OracleResults {
                crashed_resolver: false,
                excessive_queries: false,
                excessive_answer_records: false,
                duplicate_records: false,
                responds_to_response: false,
            }),
    {
        let r = FuzzResult {
            id,
            counters,
            fuzzee_response,
            upstream: Vec::new(),
            oracles: OracleResults {
                crashed_resolver: false,
                excessive_queries: false,
                excessive_answer_records: false,
                duplicate_records: false,
                responds_to_response: false,
            },
        };
        proof {
            assert(r.queries() =~= Seq::empty());
            assert(r.indices() =~= Seq::empty());
        }
        r
    }

    /// A result with the given upstream queries and their response indices; `None` where their
    /// numbers differ.
    pub fn with_queries(
        id: FuzzCaseId,
        counters: Option<Counters>,
        fuzzee_response: Option<Vec<u8>>,
        fuzzee_queries: Vec<Vec<u8>>,
        response_idxs: Vec<usize>,
    ) -> (r: Option<FuzzResult>)
        ensures
            r is Some <==> fuzzee_queries@.len() == response_idxs@.len(),
            r is Some ==> r->0.spec_counters() == counters && r->0.spec_fuzzee_response() == fuzzee_response,
            r is Some ==> r->0.case_id() == id && r->0.queries() == byte_views(fuzzee_queries@)
                && r->0.indices() == response_idxs@,
    {
        if fuzzee_queries.len() != response_idxs.len() {
            return None;
        }
        let mut r = FuzzResult::new(id, counters, fuzzee_response);
        let mut i: usize = 0;
        while i < fuzzee_queries.len()
            invariant
                fuzzee_queries@.len() == response_idxs@.len(),
                i <= fuzzee_queries@.len(),
                r.case_id() == id,
                r.spec_counters() == counters,
                r.spec_fuzzee_response() == fuzzee_response,
                r.queries() == byte_views(fuzzee_queries@).subrange(0, i as int),
                r.indices() == response_idxs@.subrange(0, i as int),
            decreases fuzzee_queries@.len() - i,
        {
            r.push_query(fuzzee_queries[i].clone(), response_idxs[i]);
            proof {
                assert(r.queries() =~= byte_views(fuzzee_queries@).subrange(0, i + 1));
                assert(r.indices() =~= response_idxs@.subrange(0, i + 1));
            }
            i = i + 1;
        }
        proof {
            assert(byte_views(fuzzee_queries@).subrange(0, i as int) =~= byte_views(fuzzee_queries@));
            assert(response_idxs@.subrange(0, i as int) =~= response_idxs@);
        }
        Some(r)
    }

    /// Records one more upstream query and the index of the response that answered it.
    pub fn push_query(&mut self, query: Vec<u8>, idx: usize)
        ensures
            final(self).queries() == old(self).queries().push(query@),
            final(self).indices() == old(self).indices().push(idx),
            final(self).case_id() == old(self).case_id(),
            final(self).spec_counters() == old(self).spec_counters(),
            final(self).spec_fuzzee_response() == old(self).spec_fuzzee_response(),
    {
        self.upstream.push((query, idx));
        proof {
            assert(self.queries() =~= old(self).queries().push(query@));
            assert(self.indices() =~= old(self).indices().push(idx));
        }
    }

    /// The upstream queries, in order.
    pub fn fuzzee_queries(&self) -> (r: Vec<Vec<u8>>)
        ensures
            byte_views(r@) == self.queries(),
    {
        let mut out: Vec<Vec<u8>> = Vec::new();
        let mut i: usize = 0;
        while i < self.upstream.len()
            invariant
                i <= self.upstream@.len(),
                byte_views(out@) == self.queries().subrange(0, i as int),
            decreases self.upstream@.len() - i,
        {
            let q = self.upstream[i].0.clone();
            proof {
                assert(q@ =~= self.upstream@[i as int].0@);
            }
            let ghost prev = out@;
            out.push(q);
            proof {
                assert(byte_views(out@) =~= byte_views(prev).push(q@));
                assert(self.queries().subrange(0, i + 1) =~= self.queries().subrange(0, i as int).push(q@));
                assert(byte_views(out@) =~= self.queries().subrange(0, i + 1));
            }
            i = i + 1;
        }
        proof {
            assert(self.queries().subrange(0, i as int) =~= self.queries());
        }
        out
    }

    /// The response index of each upstream query.
    pub fn response_idxs(&self) -> (r: Vec<usize>)
        ensures
            r@ == self.indices(),
    {
        let mut out: Vec<usize> = Vec::new();
        let mut i: usize = 0;
        while i < self.upstream.len()
            invariant
                i <= self.upstream@.len(),
                out@ == self.indices().subrange(0, i as int),
            decreases self.upstream@.len() - i,
        {
            out.push(self.upstream[i].1);
            proof {
                assert(out@ =~= self.indices().subrange(0, i + 1));
            }
            i = i + 1;
        }
        proof {
            assert(self.indices().subrange(0, i as int) =~= self.indices());
        }
        out
    }
}

/// Every result records exactly one response index per upstream query.
pub proof fn lemma_queries_match_indices(r: FuzzResult)
    ensures
        r.queries().len() == r.indices().len(),
{
}

} // verus!
