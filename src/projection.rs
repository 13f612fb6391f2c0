//! The key-value projection of a message, and of a case with one resolver's result: each field
//! is a key segment, each sequence has a `.#count` and one segment per item, an absent optional
//! value has no key.

use crate::edns_names::{edns_option_name, extended_error_code, extended_error_name};
use crate::edns_names::{error_name_spec, option_name_spec};
use crate::text::decimal_spec;
use crate::values::{usize_value, KeyValueCollector, ValueOutOfRange, ValueV};
use vstd::prelude::*;

verus! {

/// A question, its fields already in presentation form.
pub struct QueryModel {
    pub name: String,
    pub query_type: String,
    pub query_class: String,
}

/// A record, its fields already in presentation form but for the TTL.
pub struct RecordModel {
    pub name_labels: String,
    pub rr_type: String,
    pub dns_class: String,
    pub ttl: u32,
    pub rdata: String,
}

/// A message header, the message type, opcode and response code already named.
pub struct HeaderModel {
    pub id: u16,
    pub message_type: String,
    pub op_code: String,
    pub authoritative: bool,
    pub truncated: bool,
    pub recursion_desired: bool,
    pub recursion_available: bool,
    pub authentic_data: bool,
    pub checking_disabled: bool,
    pub response_code: String,
    pub query_count: u16,
    pub answer_count: u16,
    pub name_server_count: u16,
    pub additional_count: u16,
}

/// An EDNS option: the name of its key, its code, its raw data, and its data rendered as text
/// (for an Extended DNS Error, the text after the two code bytes).
pub struct EdnsOptionModel {
    pub key: String,
    pub code: u16,
    pub data: Vec<u8>,
    pub rendered: String,
}

pub struct EdnsModel {
    pub max_payload: u16,
    pub version: u8,
    pub dnssec_ok: bool,
    pub options: Vec<EdnsOptionModel>,
}

pub struct MessageModel {
    pub header: HeaderModel,
    pub queries: Vec<QueryModel>,
    pub answers: Vec<RecordModel>,
    pub name_servers: Vec<RecordModel>,
    pub additionals: Vec<RecordModel>,
    pub sig0: Vec<RecordModel>,
    pub edns: Option<EdnsModel>,
}

/// `after` holds the entries of `before`, in order, and possibly more after them.
pub open spec fn extends<T>(before: Seq<T>, after: Seq<T>) -> bool {
    before.len() <= after.len() && after.subrange(0, before.len() as int) == before
}

proof fn lemma_extends_trans<T>(a: Seq<T>, b: Seq<T>, c: Seq<T>)
    requires
        extends(a, b),
        extends(b, c),
    ensures
        extends(a, c),
{
    assert(c.subrange(0, a.len() as int) =~= b.subrange(0, a.len() as int));
}

proof fn lemma_extends_push<T>(a: Seq<T>, x: T)
    ensures
        extends(a, a.push(x)),
{
    assert(a.push(x).subrange(0, a.len() as int) =~= a);
}

proof fn lemma_extends_refl<T>(a: Seq<T>)
    ensures
        extends(a, a),
{
    assert(a.subrange(0, a.len() as int) =~= a);
}

/// Emits `value` under `.name`.
fn field_str(c: &mut KeyValueCollector, name: &str, value: &str)
    ensures
        final(c).scope() == old(c).scope(),
        final(c).entries() == old(c).entries().push(
            (old(c).scope() + "."@ + name@, crate::values::ValueV::Str(value@)),
        ),
{
    let saved = c.enter(name);
    c.visit_string(value);
    c.leave(saved);
}

/// Emits `value` under `.name`.
fn field_int(c: &mut KeyValueCollector, name: &str, value: i64)
    ensures
        final(c).scope() == old(c).scope(),
        final(c).entries() == old(c).entries().push(
            (old(c).scope() + "."@ + name@, crate::values::ValueV::Int(value)),
        ),
{
    let saved = c.enter(name);
    c.visit_integer(value);
    c.leave(saved);
}

/// Emits `value` under `.name`.
fn field_bool(c: &mut KeyValueCollector, name: &str, value: bool)
    ensures
        final(c).scope() == old(c).scope(),
        final(c).entries() == old(c).entries().push(
            (old(c).scope() + "."@ + name@, crate::values::ValueV::Bool(value)),
        ),
{
    let saved = c.enter(name);
    c.visit_bool(value);
    c.leave(saved);
}

/// The entry `value` under `.name` of scope `s`.
pub open spec fn fld(s: Seq<char>, name: Seq<char>, v: ValueV) -> (Seq<char>, ValueV) {
    (s + "."@ + name, v)
}

/// The scope of item `i` of a sequence under scope `s`.
pub open spec fn at_index(s: Seq<char>, i: int) -> Seq<char> {
    s + "."@ + decimal_spec(i as u64)
}

pub open spec fn query_entries(s: Seq<char>, q: QueryModel) -> Seq<(Seq<char>, ValueV)> {
    seq![
        fld(s, "name"@, ValueV::Str(q.name@)),
        fld(s, "query_type"@, ValueV::Str(q.query_type@)),
        fld(s, "query_class"@, ValueV::Str(q.query_class@)),
    ]
}

pub open spec fn record_entries(s: Seq<char>, r: RecordModel) -> Seq<(Seq<char>, ValueV)> {
    seq![
        fld(s, "name_labels"@, ValueV::Str(r.name_labels@)),
        fld(s, "rr_type"@, ValueV::Str(r.rr_type@)),
        fld(s, "dns_class"@, ValueV::Str(r.dns_class@)),
        fld(s, "ttl"@, ValueV::Int(r.ttl as i64)),
        fld(s, "rdata"@, ValueV::Str(r.rdata@)),
    ]
}

/// The entries of the questions, each under its index.
pub open spec fn queries_entries(s: Seq<char>, qs: Seq<QueryModel>) -> Seq<(Seq<char>, ValueV)>
    decreases qs.len(),
{
    if qs.len() == 0 {
        Seq::empty()
    } else {
        queries_entries(s, qs.drop_last()) + query_entries(at_index(s, qs.len() - 1), qs.last())
    }
}

/// The entries of the records, each under its index.
pub open spec fn records_entries(s: Seq<char>, rs: Seq<RecordModel>) -> Seq<(Seq<char>, ValueV)>
    decreases rs.len(),
{
    if rs.len() == 0 {
        Seq::empty()
    } else {
        records_entries(s, rs.drop_last()) + record_entries(at_index(s, rs.len() - 1), rs.last())
    }
}

/// The count entry of a sequence of `n` items under scope `s`.
pub open spec fn count_entry(s: Seq<char>, n: nat) -> (Seq<char>, ValueV) {
    fld(s, "#count"@, usize_value(n as usize))
}

pub open spec fn header_entries(s: Seq<char>, h: HeaderModel) -> Seq<(Seq<char>, ValueV)> {
    seq![
        fld(s, "id"@, ValueV::Int(h.id as i64)),
        fld(s, "message_type"@, ValueV::Str(h.message_type@)),
        fld(s, "op_code"@, ValueV::Str(h.op_code@)),
        fld(s, "authoritative"@, ValueV::Bool(h.authoritative)),
        fld(s, "truncated"@, ValueV::Bool(h.truncated)),
        fld(s, "recursion_desired"@, ValueV::Bool(h.recursion_desired)),
        fld(s, "recursion_available"@, ValueV::Bool(h.recursion_available)),
        fld(s, "authentic_data"@, ValueV::Bool(h.authentic_data)),
        fld(s, "checking_disabled"@, ValueV::Bool(h.checking_disabled)),
        fld(s, "response_code"@, ValueV::Str(h.response_code@)),
        fld(s, "query_count"@, ValueV::Int(h.query_count as i64)),
        fld(s, "answer_count"@, ValueV::Int(h.answer_count as i64)),
        fld(s, "name_server_count"@, ValueV::Int(h.name_server_count as i64)),
        fld(s, "additional_count"@, ValueV::Int(h.additional_count as i64)),
    ]
}

/// The entries of one EDNS option under scope `s`: its code's name, then for an Extended DNS
/// Error its error's description and the rendered rest, otherwise its rendered value.
pub open spec fn option_entries(s: Seq<char>, o: EdnsOptionModel) -> Seq<(Seq<char>, ValueV)> {
    let k = s + "."@ + o.key@;
    seq![fld(k, "code"@, ValueV::Str(option_name_spec(o.code)))] + if o.code == 15 && o.data@.len()
        >= 2 {
        seq![
            fld(k, "error_code"@, ValueV::Str(error_name_spec((o.data@[0] as int * 256 + o.data@[1] as int) as u16))),
            fld(k, "error_value"@, ValueV::Str(o.rendered@)),
        ]
    } else {
        seq![fld(k, "value"@, ValueV::Str(o.rendered@))]
    }
}

pub open spec fn options_entries(s: Seq<char>, os: Seq<EdnsOptionModel>) -> Seq<(Seq<char>, ValueV)>
    decreases os.len(),
{
    if os.len() == 0 {
        Seq::empty()
    } else {
        options_entries(s, os.drop_last()) + option_entries(s, os.last())
    }
}

pub open spec fn edns_entries(s: Seq<char>, e: EdnsModel) -> Seq<(Seq<char>, ValueV)> {
    seq![
        fld(s, "max_payload"@, ValueV::Int(e.max_payload as i64)),
        fld(s, "version"@, ValueV::Int(e.version as i64)),
        fld(s, "dnssec_ok"@, ValueV::Bool(e.dnssec_ok)),
    ] + options_entries(s, e.options@)
}

/// The entries of a section under scope `s`: its count, then its records.
pub open spec fn section_entries(s: Seq<char>, rs: Seq<RecordModel>) -> Seq<(Seq<char>, ValueV)> {
    seq![count_entry(s, rs.len())] + records_entries(s, rs)
}

/// The entries of a message under scope `s`.
#[verifier::opaque]
pub open spec fn message_entries(s: Seq<char>, m: MessageModel) -> Seq<(Seq<char>, ValueV)> {
    header_entries(s + "."@ + "header"@, m.header) + (seq![
        count_entry(s + "."@ + "queries"@, m.queries@.len()),
    ] + queries_entries(s + "."@ + "queries"@, m.queries@)) + section_entries(
        s + "."@ + "answers"@,
        m.answers@,
    ) + section_entries(s + "."@ + "name_servers"@, m.name_servers@) + section_entries(
        s + "."@ + "additionals"@,
        m.additionals@,
    ) + section_entries(s + "."@ + "sig0"@, m.sig0@) + match m.edns {
        Some(e) => edns_entries(s + "."@ + "edns"@, e),
        None => Seq::empty(),
    }
}

/// A count of `n` items can be projected: it fits an integer value, or is the sentinel.
pub open spec fn count_fits(n: nat) -> bool {
    n == usize::MAX || n <= i64::MAX
}

/// Every count of a message can be projected.
pub open spec fn message_fits(m: MessageModel) -> bool {
    &&& count_fits(m.queries@.len())
    &&& count_fits(m.answers@.len())
    &&& count_fits(m.name_servers@.len())
    &&& count_fits(m.additionals@.len())
    &&& count_fits(m.sig0@.len())
}

pub fn project_query(c: &mut KeyValueCollector, q: &QueryModel)
    ensures
        final(c).scope() == old(c).scope(),
        final(c).entries() == old(c).entries() + query_entries(old(c).scope(), *q),
{
    field_str(c, "name", q.name.as_str());
    field_str(c, "query_type", q.query_type.as_str());
    field_str(c, "query_class", q.query_class.as_str());
    proof {
        assert(c.entries() =~= old(c).entries() + query_entries(old(c).scope(), *q));
    }
}

pub fn project_record(c: &mut KeyValueCollector, r: &RecordModel)
    ensures
        final(c).scope() == old(c).scope(),
        final(c).entries() == old(c).entries() + record_entries(old(c).scope(), *r),
{
    field_str(c, "name_labels", r.name_labels.as_str());
    field_str(c, "rr_type", r.rr_type.as_str());
    field_str(c, "dns_class", r.dns_class.as_str());
    field_int(c, "ttl", r.ttl as i64);
    field_str(c, "rdata", r.rdata.as_str());
    proof {
        assert(c.entries() =~= old(c).entries() + record_entries(old(c).scope(), *r));
    }
}

/// Emits a record section under `.name`: its `.#count`, then each record under its index.
fn project_records(c: &mut KeyValueCollector, name: &str, records: &Vec<RecordModel>) -> (r: Result<(), ValueOutOfRange>)
    ensures
        final(c).scope() == old(c).scope(),
        r is Ok <==> count_fits(records@.len()),
        r is Ok ==> final(c).entries() == old(c).entries() + section_entries(old(c).scope() + "."@ + name@, records@),
        extends(old(c).entries(), final(c).entries()),
{
    let saved = c.enter(name);
    let ghost s = c.scope();
    let ghost e0 = c.entries();
    let counted = c.visit_count(records.len());
    let ghost head = c.entries();
    proof {
        lemma_extends_refl(e0);
        if counted is Ok {
            lemma_extends_push(e0, count_entry(s, records@.len()));
        }
        assert(head =~= head + records_entries(s, records@.subrange(0, 0)));
    }
    let mut i: usize = 0;
    while i < records.len()
        invariant
            i <= records@.len(),
            c.scope() == s,
            extends(e0, head),
            c.entries() == head + records_entries(s, records@.subrange(0, i as int)),
        decreases records@.len() - i,
    {
        let item = c.enter_index(i as u64);
        project_record(c, &records[i]);
        c.leave(item);
        proof {
            let p = records@.subrange(0, i + 1);
            assert(p.drop_last() =~= records@.subrange(0, i as int));
            assert(p.last() == records@[i as int]);
            assert(c.entries() =~= head + records_entries(s, p));
        }
        i = i + 1;
    }
    c.leave(saved);
    proof {
        assert(records@.subrange(0, i as int) =~= records@);
        assert(c.entries().subrange(0, e0.len() as int) =~= head.subrange(0, e0.len() as int));
        if counted is Ok {
            assert(c.entries() =~= e0 + section_entries(s, records@));
        }
    }
    counted
}

pub fn project_header(c: &mut KeyValueCollector, h: &HeaderModel)
    ensures
        final(c).scope() == old(c).scope(),
        final(c).entries() == old(c).entries() + header_entries(old(c).scope(), *h),
{
    field_int(c, "id", h.id as i64);
    field_str(c, "message_type", h.message_type.as_str());
    field_str(c, "op_code", h.op_code.as_str());
    field_bool(c, "authoritative", h.authoritative);
    field_bool(c, "truncated", h.truncated);
    field_bool(c, "recursion_desired", h.recursion_desired);
    field_bool(c, "recursion_available", h.recursion_available);
    field_bool(c, "authentic_data", h.authentic_data);
    field_bool(c, "checking_disabled", h.checking_disabled);
    field_str(c, "response_code", h.response_code.as_str());
    field_int(c, "query_count", h.query_count as i64);
    field_int(c, "answer_count", h.answer_count as i64);
    field_int(c, "name_server_count", h.name_server_count as i64);
    field_int(c, "additional_count", h.additional_count as i64);
    proof {
        assert(c.entries() =~= old(c).entries() + header_entries(old(c).scope(), *h));
    }
}

fn project_edns_option(c: &mut KeyValueCollector, o: &EdnsOptionModel)
    ensures
        final(c).scope() == old(c).scope(),
        final(c).entries() == old(c).entries() + option_entries(old(c).scope(), *o),
{
    let saved = c.enter(o.key.as_str());
    let name = edns_option_name(o.code);
    field_str(c, "code", name.as_str());
    if o.code == 15 && o.data.len() >= 2 {
        let error = extended_error_name(extended_error_code(&o.data));
        field_str(c, "error_code", error.as_str());
        field_str(c, "error_value", o.rendered.as_str());
    } else {
        field_str(c, "value", o.rendered.as_str());
    }
    c.leave(saved);
    proof {
        assert(c.entries() =~= old(c).entries() + option_entries(old(c).scope(), *o));
    }
}

fn project_edns(c: &mut KeyValueCollector, e: &EdnsModel)
    ensures
        final(c).scope() == old(c).scope(),
        final(c).entries() == old(c).entries() + edns_entries(old(c).scope(), *e),
{
    field_int(c, "max_payload", e.max_payload as i64);
    field_int(c, "version", e.version as i64);
    field_bool(c, "dnssec_ok", e.dnssec_ok);
    let ghost head = c.entries();
    proof {
        assert(head =~= head + options_entries(old(c).scope(), e.options@.subrange(0, 0)));
    }
    let mut i: usize = 0;
    while i < e.options.len()
        invariant
            i <= e.options@.len(),
            c.scope() == old(c).scope(),
            c.entries() == head + options_entries(old(c).scope(), e.options@.subrange(0, i as int)),
        decreases e.options@.len() - i,
    {
        project_edns_option(c, &e.options[i]);
        proof {
            let p = e.options@.subrange(0, i + 1);
            assert(p.drop_last() =~= e.options@.subrange(0, i as int));
            assert(p.last() == e.options@[i as int]);
            assert(c.entries() =~= head + options_entries(old(c).scope(), p));
        }
        i = i + 1;
    }
    proof {
        assert(e.options@.subrange(0, i as int) =~= e.options@);
        assert(c.entries() =~= old(c).entries() + edns_entries(old(c).scope(), *e));
    }
}

/// Emits a message under the current scope: `.header`, the question and record sections with
/// their counts, and `.edns` where the message has it. Refused where a count does not fit an
/// integer value.
#[verifier::rlimit(60)]
pub fn project_message(c: &mut KeyValueCollector, m: &MessageModel) -> (r: Result<(), ValueOutOfRange>)
    ensures
        final(c).scope() == old(c).scope(),
        r is Ok <==> message_fits(*m),
        r is Ok ==> final(c).entries() == old(c).entries() + message_entries(old(c).scope(), *m),
        extends(old(c).entries(), final(c).entries()),
{
    let ghost s0 = c.scope();
    let ghost e0 = c.entries();
    let saved = c.enter("header");
    project_header(c, &m.header);
    c.leave(saved);
    let ghost e1 = c.entries();
    let saved = c.enter("queries");
    let ghost s = c.scope();
    let counted = c.visit_count(m.queries.len());
    let ghost head = c.entries();
    proof {
        assert(head =~= head + queries_entries(s, m.queries@.subrange(0, 0)));
    }
    let mut i: usize = 0;
    while i < m.queries.len()
        invariant
            i <= m.queries@.len(),
            c.scope() == s,
            c.entries() == head + queries_entries(s, m.queries@.subrange(0, i as int)),
        decreases m.queries@.len() - i,
    {
        let item = c.enter_index(i as u64);
        project_query(c, &m.queries[i]);
        c.leave(item);
        proof {
            let p = m.queries@.subrange(0, i + 1);
            assert(p.drop_last() =~= m.queries@.subrange(0, i as int));
            assert(p.last() == m.queries@[i as int]);
            assert(c.entries() =~= head + queries_entries(s, p));
        }
        i = i + 1;
    }
    c.leave(saved);
    proof {
        assert(m.queries@.subrange(0, i as int) =~= m.queries@);
    }
    let ghost e3 = c.entries();
    let a = project_records(c, "answers", &m.answers);
    let ghost e4 = c.entries();
    let n = project_records(c, "name_servers", &m.name_servers);
    let ghost e5 = c.entries();
    let d = project_records(c, "additionals", &m.additionals);
    let ghost e6 = c.entries();
    let g = project_records(c, "sig0", &m.sig0);
    let ghost e7 = c.entries();
    match &m.edns {
        Some(e) => {
            let saved = c.enter("edns");
            project_edns(c, e);
            c.leave(saved);
        },
        None => {},
    }
    proof {
        reveal(message_entries);
        if counted is Ok && a is Ok && n is Ok && d is Ok && g is Ok {
            let h = header_entries(s0 + "."@ + "header"@, m.header);
            let q = seq![count_entry(s0 + "."@ + "queries"@, m.queries@.len())] + queries_entries(s0 + "."@ + "queries"@, m.queries@);
            let sa = section_entries(s0 + "."@ + "answers"@, m.answers@);
            let sn = section_entries(s0 + "."@ + "name_servers"@, m.name_servers@);
            let sd = section_entries(s0 + "."@ + "additionals"@, m.additionals@);
            let sg = section_entries(s0 + "."@ + "sig0"@, m.sig0@);
            let ed = if m.edns is Some {
                edns_entries(s0 + "."@ + "edns"@, m.edns->0)
            } else {
                Seq::empty()
            };
            assert(e1 == e0 + h);
            assert(head == e1.push(count_entry(s, m.queries@.len())));
            assert(e3 =~= e1 + q);
            assert(e7 == e3 + sa + sn + sd + sg);
            assert(c.entries() =~= e7 + ed);
            assert(c.entries() =~= e0 + (h + q + sa + sn + sd + sg + ed));
        }
        assert(e3.subrange(0, e0.len() as int) =~= e0);
        lemma_extends_trans(e0, e3, e4);
        lemma_extends_trans(e0, e4, e5);
        lemma_extends_trans(e0, e5, e6);
        lemma_extends_trans(e0, e6, e7);
        assert(c.entries().subrange(0, e7.len() as int) =~= e7);
        lemma_extends_trans(e0, e7, c.entries());
    }
    if counted.is_err() || a.is_err() || n.is_err() || d.is_err() || g.is_err() {
        Err(ValueOutOfRange)
    } else {
        Ok(())
    }
}

/// Whether a cache probe found its record.
#[derive(Clone, Copy, Debug, PartialEq, Eq, Structural)]
pub enum CachePresent {
    Present,
    Absent,
    Error,
}

/// A fuzz case: its id as text, its messages, and its cache probes as `name-type-class` texts.
pub struct CaseModel {
    pub id: String,
    pub client_query: MessageModel,
    pub server_responses: Vec<MessageModel>,
    pub check_cache: Vec<String>,
}

/// What one resolver did on a case.
pub struct ResultModel {
    pub id: String,
    /// The number of coverage counters, where they were read.
    pub counters_len: Option<usize>,
    /// Each cache probe, as `name-type-class` text, with what it found.
    pub cache_state: Vec<(String, CachePresent)>,
    pub fuzzee_response: Option<MessageModel>,
    pub fuzzee_queries: Vec<MessageModel>,
    pub response_idxs: Vec<usize>,
    pub oracles: crate::fuzz_result::OracleResults,
}

/// The entries of messages, each under its index.
pub open spec fn messages_entries(s: Seq<char>, ms: Seq<MessageModel>) -> Seq<(Seq<char>, ValueV)>
    decreases ms.len(),
{
    if ms.len() == 0 {
        Seq::empty()
    } else {
        messages_entries(s, ms.drop_last()) + message_entries(at_index(s, ms.len() - 1), ms.last())
    }
}

/// Every message can be projected.
pub open spec fn messages_fit(ms: Seq<MessageModel>) -> bool {
    count_fits(ms.len()) && forall|i: int| 0 <= i < ms.len() ==> message_fits(#[trigger] ms[i])
}

/// The texts, each under its index.
pub open spec fn texts_entries(s: Seq<char>, ts: Seq<String>) -> Seq<(Seq<char>, ValueV)>
    decreases ts.len(),
{
    if ts.len() == 0 {
        Seq::empty()
    } else {
        texts_entries(s, ts.drop_last()).push((at_index(s, ts.len() - 1), ValueV::Str(ts.last()@)))
    }
}

/// The indices, each under its position.
pub open spec fn indices_entries(s: Seq<char>, xs: Seq<usize>) -> Seq<(Seq<char>, ValueV)>
    decreases xs.len(),
{
    if xs.len() == 0 {
        Seq::empty()
    } else {
        indices_entries(s, xs.drop_last()).push((at_index(s, xs.len() - 1), usize_value(xs.last())))
    }
}

pub open spec fn presence_text(p: CachePresent) -> Seq<char> {
    match p {
        CachePresent::Present => "present"@,
        CachePresent::Absent => "absent"@,
        CachePresent::Error => "error"@,
    }
}

/// The cache probes, each under its text.
pub open spec fn cache_entries(s: Seq<char>, cs: Seq<(String, CachePresent)>) -> Seq<(Seq<char>, ValueV)>
    decreases cs.len(),
{
    if cs.len() == 0 {
        Seq::empty()
    } else {
        cache_entries(s, cs.drop_last()).push(fld(s, cs.last().0@, ValueV::Str(presence_text(cs.last().1))))
    }
}

pub open spec fn oracle_entries(s: Seq<char>, o: crate::fuzz_result::OracleResults) -> Seq<(Seq<char>, ValueV)> {
    seq![
        fld(s, "crashed_resolver"@, ValueV::Bool(o.crashed_resolver)),
        fld(s, "excessive_queries"@, ValueV::Bool(o.excessive_queries)),
        fld(s, "excessive_answer_records"@, ValueV::Bool(o.excessive_answer_records)),
        fld(s, "duplicate_records"@, ValueV::Bool(o.duplicate_records)),
        fld(s, "responds_to_response"@, ValueV::Bool(o.responds_to_response)),
    ]
}

/// The scope of `.name` under `s`.
pub open spec fn child_scope(s: Seq<char>, name: Seq<char>) -> Seq<char> {
    s + "."@ + name
}

/// Every count and index of a case and a result can be projected.
pub open spec fn result_diff_fits(case: CaseModel, result: ResultModel) -> bool {
    &&& message_fits(case.client_query)
    &&& messages_fit(case.server_responses@)
    &&& count_fits(case.check_cache@.len())
    &&& (result.counters_len matches Some(n) ==> count_fits(n as nat))
    &&& (result.fuzzee_response matches Some(m) ==> message_fits(m))
    &&& messages_fit(result.fuzzee_queries@)
    &&& count_fits(result.response_idxs@.len())
    &&& forall|i: int| 0 <= i < result.response_idxs@.len() ==> count_fits(#[trigger] result.response_idxs@[i] as nat)
}

/// The key-value projection of a case with one resolver's result: the case under `.fuzz_case`,
/// the resolver under `.resolver_name`, the result under `.fuzz_result`, in this order.
#[verifier::opaque]
pub open spec fn result_diff_entries(case: CaseModel, resolver: Seq<char>, result: ResultModel) -> Seq<(Seq<char>, ValueV)> {
    let root = Seq::<char>::empty();
    let fc = child_scope(root, "fuzz_case"@);
    let fr = child_scope(root, "fuzz_result"@);
    seq![fld(fc, "id"@, ValueV::Str(case.id@))] + message_entries(child_scope(fc, "client_query"@), case.client_query)
        + (seq![count_entry(child_scope(fc, "server_responses"@), case.server_responses@.len())] + messages_entries(
        child_scope(fc, "server_responses"@),
        case.server_responses@,
    )) + (seq![fld(child_scope(fc, "check_cache"@), "#size"@, usize_value(case.check_cache@.len() as usize))]
        + texts_entries(child_scope(fc, "check_cache"@), case.check_cache@)) + seq![
        fld(root, "resolver_name"@, ValueV::Str(resolver)),
        fld(fr, "id"@, ValueV::Str(result.id@)),
    ] + match result.counters_len {
        Some(n) => seq![fld(fr, "counters"@, usize_value(n))],
        None => Seq::empty(),
    } + cache_entries(child_scope(fr, "cache_state"@), result.cache_state@) + match result.fuzzee_response {
        Some(m) => message_entries(child_scope(fr, "fuzzee_response"@), m),
        None => Seq::empty(),
    } + (seq![count_entry(child_scope(fr, "fuzzee_queries"@), result.fuzzee_queries@.len())] + messages_entries(
        child_scope(fr, "fuzzee_queries"@),
        result.fuzzee_queries@,
    )) + (seq![count_entry(child_scope(fr, "response_idxs"@), result.response_idxs@.len())] + indices_entries(
        child_scope(fr, "response_idxs"@),
        result.response_idxs@,
    )) + oracle_entries(child_scope(fr, "oracles"@), result.oracles)
}

/// Emits a sequence of messages under `.name`: its `.#count`, then each message under its index.
fn project_messages(c: &mut KeyValueCollector, name: &str, messages: &Vec<MessageModel>) -> (r: Result<(), ValueOutOfRange>)
    ensures
        final(c).scope() == old(c).scope(),
        r is Ok <==> messages_fit(messages@),
        r is Ok ==> final(c).entries() == old(c).entries() + (seq![count_entry(child_scope(old(c).scope(), name@), messages@.len())]
            + messages_entries(child_scope(old(c).scope(), name@), messages@)),
{
    let saved = c.enter(name);
    let ghost s = c.scope();
    let ghost e0 = c.entries();
    let mut result = c.visit_count(messages.len());
    let ghost head = c.entries();
    let ghost counted_ok = result is Ok;
    proof {
        assert(head =~= head + messages_entries(s, messages@.subrange(0, 0)));
    }
    let mut all_ok = true;
    let mut i: usize = 0;
    while i < messages.len()
        invariant
            i <= messages@.len(),
            c.scope() == s,
            counted_ok == count_fits(messages@.len()),
            all_ok == forall|j: int| 0 <= j < i ==> message_fits(#[trigger] messages@[j]),
            all_ok ==> c.entries() == head + messages_entries(s, messages@.subrange(0, i as int)),
            result is Ok <==> (counted_ok && all_ok),
        decreases messages@.len() - i,
    {
        let ghost before = c.entries();
        let item = c.enter_index(i as u64);
        let one = project_message(c, &messages[i]);
        c.leave(item);
        if one.is_err() {
            all_ok = false;
            result = Err(ValueOutOfRange);
        }
        proof {
            if all_ok {
                let p = messages@.subrange(0, i + 1);
                assert(p.drop_last() =~= messages@.subrange(0, i as int));
                assert(p.last() == messages@[i as int]);
                assert(c.entries() =~= head + messages_entries(s, p));
            }
            assert(all_ok == forall|j: int| 0 <= j < i + 1 ==> message_fits(#[trigger] messages@[j]));
        }
        i = i + 1;
    }
    c.leave(saved);
    proof {
        assert(messages@.subrange(0, i as int) =~= messages@);
        if result is Ok {
            assert(c.entries() =~= old(c).entries() + (seq![count_entry(s, messages@.len())] + messages_entries(s, messages@)));
        }
    }
    result
}

/// Emits a list of texts under `.name`, as a set: its `.#size`, then each text under its index.
fn project_text_set(c: &mut KeyValueCollector, name: &str, items: &Vec<String>) -> (r: Result<(), ValueOutOfRange>)
    ensures
        final(c).scope() == old(c).scope(),
        r is Ok <==> count_fits(items@.len()),
        r is Ok ==> final(c).entries() == old(c).entries() + (seq![fld(child_scope(old(c).scope(), name@), "#size"@, usize_value(items@.len() as usize))]
            + texts_entries(child_scope(old(c).scope(), name@), items@)),
{
    let saved = c.enter(name);
    let ghost s = c.scope();
    let size_saved = c.enter("#size");
    let result = c.visit_usize(items.len());
    c.leave(size_saved);
    let ghost head = c.entries();
    proof {
        assert(head =~= head + texts_entries(s, items@.subrange(0, 0)));
    }
    let mut i: usize = 0;
    while i < items.len()
        invariant
            i <= items@.len(),
            c.scope() == s,
            c.entries() == head + texts_entries(s, items@.subrange(0, i as int)),
        decreases items@.len() - i,
    {
        let item = c.enter_index(i as u64);
        c.visit_string(items[i].as_str());
        c.leave(item);
        proof {
            let p = items@.subrange(0, i + 1);
            assert(p.drop_last() =~= items@.subrange(0, i as int));
            assert(p.last() == items@[i as int]);
            assert(c.entries() =~= head + texts_entries(s, p));
        }
        i = i + 1;
    }
    c.leave(saved);
    proof {
        assert(items@.subrange(0, i as int) =~= items@);
        if result is Ok {
            assert(c.entries() =~= old(c).entries() + (seq![fld(s, "#size"@, usize_value(items@.len() as usize))] + texts_entries(s, items@)));
        }
    }
    result
}

/// Emits the response indices under `.response_idxs`: `.#count`, then each index, the
/// sentinel as the text `usize::MAX`.
fn project_indices(c: &mut KeyValueCollector, idxs: &Vec<usize>) -> (r: Result<(), ValueOutOfRange>)
    ensures
        final(c).scope() == old(c).scope(),
        r is Ok <==> (count_fits(idxs@.len()) && forall|i: int| 0 <= i < idxs@.len() ==> count_fits(#[trigger] idxs@[i] as nat)),
        r is Ok ==> final(c).entries() == old(c).entries() + (seq![count_entry(child_scope(old(c).scope(), "response_idxs"@), idxs@.len())]
            + indices_entries(child_scope(old(c).scope(), "response_idxs"@), idxs@)),
{
    let saved = c.enter("response_idxs");
    let ghost s = c.scope();
    let mut result = c.visit_count(idxs.len());
    let ghost counted_ok = result is Ok;
    let ghost head = c.entries();
    proof {
        assert(head =~= head + indices_entries(s, idxs@.subrange(0, 0)));
    }
    let mut all_ok = true;
    let mut i: usize = 0;
    while i < idxs.len()
        invariant
            i <= idxs@.len(),
            c.scope() == s,
            all_ok == forall|j: int| 0 <= j < i ==> count_fits(#[trigger] idxs@[j] as nat),
            all_ok ==> c.entries() == head + indices_entries(s, idxs@.subrange(0, i as int)),
            result is Ok <==> (counted_ok && all_ok),
            counted_ok == count_fits(idxs@.len()),
        decreases idxs@.len() - i,
    {
        let d = crate::text::decimal(i as u64);
        let one = {
            let item = c.enter(d.as_str());
            let one = c.visit_usize(idxs[i]);
            c.leave(item);
            one
        };
        if one.is_err() {
            all_ok = false;
            result = Err(ValueOutOfRange);
        }
        proof {
            if all_ok {
                let p = idxs@.subrange(0, i + 1);
                assert(p.drop_last() =~= idxs@.subrange(0, i as int));
                assert(p.last() == idxs@[i as int]);
                assert(c.entries() =~= head + indices_entries(s, p));
            }
            assert(all_ok == forall|j: int| 0 <= j < i + 1 ==> count_fits(#[trigger] idxs@[j] as nat));
        }
        i = i + 1;
    }
    c.leave(saved);
    proof {
        assert(idxs@.subrange(0, i as int) =~= idxs@);
        if result is Ok {
            assert(c.entries() =~= old(c).entries() + (seq![count_entry(s, idxs@.len())] + indices_entries(s, idxs@)));
        }
    }
    result
}

/// Emits each cache probe under `.cache_state`, by its text.
fn project_cache_state(c: &mut KeyValueCollector, cs: &Vec<(String, CachePresent)>)
    ensures
        final(c).scope() == old(c).scope(),
        final(c).entries() == old(c).entries() + cache_entries(child_scope(old(c).scope(), "cache_state"@), cs@),
{
    let saved = c.enter("cache_state");
    let ghost s = c.scope();
    let ghost head = c.entries();
    proof {
        assert(head =~= head + cache_entries(s, cs@.subrange(0, 0)));
    }
    let mut i: usize = 0;
    while i < cs.len()
        invariant
            i <= cs@.len(),
            c.scope() == s,
            c.entries() == head + cache_entries(s, cs@.subrange(0, i as int)),
        decreases cs@.len() - i,
    {
        let found = match cs[i].1 {
            CachePresent::Present => "present",
            CachePresent::Absent => "absent",
            CachePresent::Error => "error",
        };
        field_str(c, cs[i].0.as_str(), found);
        proof {
            let p = cs@.subrange(0, i + 1);
            assert(p.drop_last() =~= cs@.subrange(0, i as int));
            assert(p.last() == cs@[i as int]);
            assert(c.entries() =~= head + cache_entries(s, p));
        }
        i = i + 1;
    }
    c.leave(saved);
    proof {
        assert(cs@.subrange(0, i as int) =~= cs@);
    }
}

/// The key-value projection of a case with one resolver's result on it, see
/// [`result_diff_entries`]. Refused exactly where a count or index neither fits an integer nor is
/// the sentinel.
#[verifier::rlimit(80)]
pub fn project_result_diff(case: &CaseModel, resolver: &str, result: &ResultModel) -> (r: Result<
    crate::values::ValueMap,
    ValueOutOfRange,
>)
    ensures
        r is Ok <==> result_diff_fits(*case, *result),
        r is Ok ==> r->Ok_0@ == result_diff_entries(*case, resolver@, *result),
{
    let mut c = KeyValueCollector::new();
    let ghost root = c.scope();
    let mut ok = true;
    let top = c.enter("fuzz_case");
    let ghost fc = c.scope();
    field_str(&mut c, "id", case.id.as_str());
    let ghost e_a = c.entries();
    let saved = c.enter("client_query");
    let r1 = project_message(&mut c, &case.client_query);
    c.leave(saved);
    let ghost e_b = c.entries();
    let r2 = project_messages(&mut c, "server_responses", &case.server_responses);
    let ghost e_c = c.entries();
    let r3 = project_text_set(&mut c, "check_cache", &case.check_cache);
    c.leave(top);
    let ghost e_case = c.entries();
    field_str(&mut c, "resolver_name", resolver);
    let top = c.enter("fuzz_result");
    let ghost fr = c.scope();
    field_str(&mut c, "id", result.id.as_str());
    let ghost e_id = c.entries();
    let r4 = match result.counters_len {
        Some(n) => {
            let item = c.enter("counters");
            let r = c.visit_usize(n);
            c.leave(item);
            r
        },
        None => Ok(()),
    };
    let ghost e_counters = c.entries();
    project_cache_state(&mut c, &result.cache_state);
    let ghost e_cache = c.entries();
    let r5 = match &result.fuzzee_response {
        Some(m) => {
            let saved = c.enter("fuzzee_response");
            let r = project_message(&mut c, m);
            c.leave(saved);
            r
        },
        None => Ok(()),
    };
    let ghost e_response = c.entries();
    let r6 = project_messages(&mut c, "fuzzee_queries", &result.fuzzee_queries);
    let ghost e_queries = c.entries();
    let r7 = project_indices(&mut c, &result.response_idxs);
    let ghost e_idxs = c.entries();
    let saved = c.enter("oracles");
    field_bool(&mut c, "crashed_resolver", result.oracles.crashed_resolver);
    field_bool(&mut c, "excessive_queries", result.oracles.excessive_queries);
    field_bool(&mut c, "excessive_answer_records", result.oracles.excessive_answer_records);
    field_bool(&mut c, "duplicate_records", result.oracles.duplicate_records);
    field_bool(&mut c, "responds_to_response", result.oracles.responds_to_response);
    c.leave(saved);
    c.leave(top);
    if r1.is_err() || r2.is_err() || r3.is_err() || r4.is_err() || r5.is_err() || r6.is_err() || r7.is_err() {
        ok = false;
    }
    proof {
        assert(root == Seq::<char>::empty());
        reveal(result_diff_entries);
        if ok {
            let root = Seq::<char>::empty();
            assert(fc == child_scope(root, "fuzz_case"@));
            assert(fr == child_scope(root, "fuzz_result"@));
            let p1 = seq![fld(fc, "id"@, ValueV::Str(case.id@))];
            let p2 = message_entries(child_scope(fc, "client_query"@), case.client_query);
            let p3 = seq![count_entry(child_scope(fc, "server_responses"@), case.server_responses@.len())]
                + messages_entries(child_scope(fc, "server_responses"@), case.server_responses@);
            let p4 = seq![fld(child_scope(fc, "check_cache"@), "#size"@, usize_value(case.check_cache@.len() as usize))]
                + texts_entries(child_scope(fc, "check_cache"@), case.check_cache@);
            let p5 = seq![fld(root, "resolver_name"@, ValueV::Str(resolver@)), fld(fr, "id"@, ValueV::Str(result.id@))];
            let p6 = if result.counters_len is Some {
                seq![fld(fr, "counters"@, usize_value(result.counters_len->0))]
            } else {
                Seq::empty()
            };
            let p7 = cache_entries(child_scope(fr, "cache_state"@), result.cache_state@);
            let p8 = if result.fuzzee_response is Some {
                message_entries(child_scope(fr, "fuzzee_response"@), result.fuzzee_response->0)
            } else {
                Seq::empty()
            };
            let p9 = seq![count_entry(child_scope(fr, "fuzzee_queries"@), result.fuzzee_queries@.len())]
                + messages_entries(child_scope(fr, "fuzzee_queries"@), result.fuzzee_queries@);
            let p10 = seq![count_entry(child_scope(fr, "response_idxs"@), result.response_idxs@.len())]
                + indices_entries(child_scope(fr, "response_idxs"@), result.response_idxs@);
            let p11 = oracle_entries(child_scope(fr, "oracles"@), result.oracles);
            assert(e_a =~= p1);
            assert(e_b =~= p1 + p2);
            assert(e_c =~= p1 + p2 + p3);
            assert(e_case =~= p1 + p2 + p3 + p4);
            assert(e_id =~= p1 + p2 + p3 + p4 + p5);
            assert(e_counters =~= p1 + p2 + p3 + p4 + p5 + p6);
            assert(e_cache =~= p1 + p2 + p3 + p4 + p5 + p6 + p7);
            assert(e_response =~= p1 + p2 + p3 + p4 + p5 + p6 + p7 + p8);
            assert(e_queries =~= p1 + p2 + p3 + p4 + p5 + p6 + p7 + p8 + p9);
            assert(e_idxs =~= p1 + p2 + p3 + p4 + p5 + p6 + p7 + p8 + p9 + p10);
            assert(c.entries() =~= p1 + p2 + p3 + p4 + p5 + p6 + p7 + p8 + p9 + p10 + p11);
            assert(c.entries() =~= result_diff_entries(*case, resolver@, *result));
        }
    }
    if ok {
        Ok(c.into_map())
    } else {
        Err(ValueOutOfRange)
    }
}

} // verus!
