//! Decisions of the scripted authoritative server: which scripted response answers a query, and
//! the record of what was asked and answered.

use crate::fuzz_result::NO_RESPONSE_IDX;
use vstd::prelude::*;

verus! {

/// A question: owner name in presentation form, type code and class code.
pub struct Question {
    pub name: String,
    pub qtype: u16,
    pub qclass: u16,
}

/// ASCII case folding of a code point.
pub open spec fn fold(c: u32) -> u32 {
    if 65 <= c <= 90 {
        (c + 32) as u32
    } else {
        c
    }
}

/// Two names are equal up to ASCII case.
pub open spec fn names_match(a: Seq<char>, b: Seq<char>) -> bool {
    a.len() == b.len() && forall|i: int| 0 <= i < a.len() ==> fold(a[i] as u32) == fold(b[i] as u32)
}

/// Two questions ask for the same owner (up to ASCII case), type and class.
pub open spec fn questions_match(a: &Question, b: &Question) -> bool {
    names_match(a.name@, b.name@) && a.qtype == b.qtype && a.qclass == b.qclass
}

fn fold_exec(c: u32) -> (r: u32)
    ensures
        r == fold(c),
{
    if 65 <= c && c <= 90 {
        c + 32
    } else {
        c
    }
}

pub fn names_match_exec(a: &str, b: &str) -> (r: bool)
    ensures
        r == names_match(a@, b@),
{
    let n = a.unicode_len();
    if n != b.unicode_len() {
        return false;
    }
    let mut i: usize = 0;
    while i < n
        invariant
            n == a@.len(),
            n == b@.len(),
            i <= n,
            forall|j: int| 0 <= j < i ==> fold(a@[j] as u32) == fold(b@[j] as u32),
        decreases n - i,
    {
        if fold_exec(a.get_char(i) as u32) != fold_exec(b.get_char(i) as u32) {
            return false;
        }
        i = i + 1;
    }
    true
}

pub fn questions_match_exec(a: &Question, b: &Question) -> (r: bool)
    ensures
        r == questions_match(a, b),
{
    a.qtype == b.qtype && a.qclass == b.qclass && names_match_exec(a.name.as_str(), b.name.as_str())
}

/// Whether some question of a scripted response asks what `q` asks.
pub open spec fn answers(response: Seq<Question>, q: &Question) -> bool {
    exists|k: int| 0 <= k < response.len() && questions_match(&response[k], q)
}

fn answers_exec(response: &Vec<Question>, q: &Question) -> (r: bool)
    ensures
        r == answers(response@, q),
{
    let mut k: usize = 0;
    while k < response.len()
        invariant
            k <= response@.len(),
            forall|j: int| 0 <= j < k ==> !questions_match(&response@[j], q),
        decreases response@.len() - k,
    {
        if questions_match_exec(&response[k], q) {
            return true;
        }
        k = k + 1;
    }
    false
}

/// The index of the first scripted response, given by its question section, that answers `q`,
/// or [`NO_RESPONSE_IDX`] where none does.
pub fn find_response(responses: &Vec<Vec<Question>>, q: &Question) -> (r: usize)
    requires
        responses@.len() < usize::MAX,
    ensures
        r == NO_RESPONSE_IDX <==> forall|j: int| 0 <= j < responses@.len() ==> !answers(#[trigger] responses@[j]@, q),
        r != NO_RESPONSE_IDX ==> r < responses@.len() && answers(responses@[r as int]@, q)
            && forall|j: int| 0 <= j < r ==> !answers(#[trigger] responses@[j]@, q),
{
    let mut i: usize = 0;
    while i < responses.len()
        invariant
            i <= responses@.len(),
            responses@.len() < usize::MAX,
            forall|j: int| 0 <= j < i ==> !answers(#[trigger] responses@[j]@, q),
        decreases responses@.len() - i,
    {
        if answers_exec(&responses[i], q) {
            return i;
        }
        i = i + 1;
    }
    NO_RESPONSE_IDX
}

/// The zone of the default NODATA answer: the last two labels of the name.
pub open spec fn nodata_zone_spec(labels: Seq<Seq<char>>) -> Seq<Seq<char>> {
    if labels.len() <= 2 {
        labels
    } else {
        labels.subrange(labels.len() - 2, labels.len() as int)
    }
}

/// The labels of the owner of the SOA record in the default NODATA answer for a query whose name
/// has `labels`, root label left out.
pub fn nodata_zone(labels: &Vec<String>) -> (r: Vec<String>)
    ensures
        r@.map_values(|s: String| s@) == nodata_zone_spec(labels@.map_values(|s: String| s@)),
{
    let n = labels.len();
    let start: usize = if n <= 2 {
        0
    } else {
        n - 2
    };
    let mut out: Vec<String> = Vec::new();
    let mut i: usize = start;
    while i < n
        invariant
            start <= i <= n,
            n == labels@.len(),
            start == (if n <= 2 {
                0
            } else {
                n - 2
            }),
            out@.map_values(|s: String| s@) == labels@.map_values(|s: String| s@).subrange(
                start as int,
                i as int,
            ),
        decreases n - i,
    {
        let ghost prev = out@;
        out.push(labels[i].clone());
        proof {
            assert(out@.map_values(|s: String| s@) =~= prev.map_values(|s: String| s@).push(
                labels@[i as int]@,
            ));
            assert(out@.map_values(|s: String| s@) =~= labels@.map_values(|s: String| s@).subrange(
                start as int,
                i + 1,
            ));
        }
        i = i + 1;
    }
    proof {
        if n <= 2 {
            assert(labels@.map_values(|s: String| s@).subrange(0, n as int) =~= labels@.map_values(
                |s: String| s@,
            ));
        }
    }
    out
}

/// The TTL of the SOA record in the default NODATA answer.
pub const NODATA_SOA_TTL: u32 = 300;

/// Queries received by the scripted server, each with the index of the scripted response that
/// answered it, or [`NO_RESPONSE_IDX`].
pub struct QueryLog {
    entries: Vec<(Vec<u8>, usize)>,
}

impl View for QueryLog {
    type V = Seq<(Seq<u8>, usize)>;

    closed spec fn view(&self) -> Seq<(Seq<u8>, usize)> {
        self.entries@.map_values(|e: (Vec<u8>, usize)| (e.0@, e.1))
    }
}

impl QueryLog {
    pub fn new() -> (r: QueryLog)
        ensures
            r@.len() == 0,
    {
        let r = QueryLog { entries: Vec::new() };
        proof {
            assert(r@ =~= Seq::empty());
        }
        r
    }

    /// Records a received query, in wire format, and the index of the response it got.
    pub fn record(&mut self, query: Vec<u8>, idx: usize)
        ensures
            final(self)@ == old(self)@.push((query@, idx)),
    {
        self.entries.push((query, idx));
        proof {
            assert(self@ =~= old(self)@.push((query@, idx)));
        }
    }

    /// Answers one query: finds the scripted response for `q`, records `query_bytes` with its
    /// index, and returns the index.
    pub fn handle(&mut self, responses: &Vec<Vec<Question>>, q: &Question, query_bytes: Vec<u8>) -> (r:
        usize)
        requires
            responses@.len() < usize::MAX,
        ensures
            r == NO_RESPONSE_IDX <==> forall|j: int| 0 <= j < responses@.len() ==> !answers(#[trigger] responses@[j]@, q),
            r != NO_RESPONSE_IDX ==> r < responses@.len() && answers(responses@[r as int]@, q)
                && forall|j: int| 0 <= j < r ==> !answers(#[trigger] responses@[j]@, q),
            final(self)@ == old(self)@.push((query_bytes@, r)),
    {
        let idx = find_response(responses, q);
        self.record(query_bytes, idx);
        idx
    }

    /// Takes out everything recorded so far: the queries and their response indices, in the
    /// order received, of equal length. The log is empty afterwards.
    pub fn get_query_list(&mut self) -> (r: (Vec<Vec<u8>>, Vec<usize>))
        ensures
            final(self)@.len() == 0,
            r.0@.len() == old(self)@.len(),
            r.1@.len() == old(self)@.len(),
            forall|i: int|
                0 <= i < old(self)@.len() ==> (#[trigger] r.0@[i])@ == old(self)@[i].0 && r.1@[i]
                    == old(self)@[i].1,
    {
        let mut taken: Vec<(Vec<u8>, usize)> = Vec::new();
        std::mem::swap(&mut taken, &mut self.entries);
        let mut queries: Vec<Vec<u8>> = Vec::new();
        let mut idxs: Vec<usize> = Vec::new();
        let mut i: usize = 0;
        while i < taken.len()
            invariant
                i <= taken@.len(),
                taken@.map_values(|e: (Vec<u8>, usize)| (e.0@, e.1)) == old(self)@,
                queries@.len() == i,
                idxs@.len() == i,
                forall|j: int|
                    0 <= j < i ==> (#[trigger] queries@[j])@ == taken@[j].0@ && idxs@[j] == taken@[j].1,
            decreases taken@.len() - i,
        {
            let q = taken[i].0.clone();
            proof {
                assert(q@ =~= taken@[i as int].0@);
            }
            queries.push(q);
            idxs.push(taken[i].1);
            i = i + 1;
        }
        proof {
            assert(self@ =~= Seq::empty());
            assert forall|j: int| 0 <= j < old(self)@.len() implies (#[trigger] queries@[j])@ == old(
                self,
            )@[j].0 && idxs@[j] == old(self)@[j].1 by {
                assert(old(self)@[j] == (taken@[j].0@, taken@[j].1));
            }
        }
        (queries, idxs)
    }
}

/// The last `n` labels of a name, all of them where it has fewer.
pub open spec fn trim_to(labels: Seq<Seq<char>>, n: int) -> Seq<Seq<char>> {
    if n >= labels.len() {
        labels
    } else {
        labels.subrange(labels.len() - n, labels.len() as int)
    }
}

pub open spec fn label_views(v: Seq<String>) -> Seq<Seq<char>> {
    v.map_values(|s: String| s@)
}

/// The names from a zone down to a full name, one label more at each step.
pub struct NameDownIter {
    labels: Vec<String>,
    curr_label_count: usize,
}

impl NameDownIter {
    pub closed spec fn name(&self) -> Seq<Seq<char>> {
        label_views(self.labels@)
    }

    pub closed spec fn position(&self) -> nat {
        self.curr_label_count as nat
    }

    /// Starts at the zone, given by its number of labels, of the name with `labels` (root label
    /// left out).
    pub fn as_name_down_iter(labels: Vec<String>, zone_label_count: usize) -> (r: NameDownIter)
        ensures
            r.name() == label_views(labels@),
            r.position() == zone_label_count,
    {
        NameDownIter { labels, curr_label_count: zone_label_count }
    }

    /// The next name: the last `position` labels, until the full name has been returned.
    pub fn next(&mut self) -> (r: Option<Vec<String>>)
        ensures
            final(self).name() == old(self).name(),
            old(self).position() > old(self).name().len() || old(self).position() == usize::MAX
                ==> r is None && final(self).position() == old(self).position(),
            old(self).position() <= old(self).name().len() && old(self).position() < usize::MAX
                ==> r is Some && label_views(r->0@)
                == trim_to(old(self).name(), old(self).position() as int) && final(self).position()
                == old(self).position() + 1,
    {
        let n = self.labels.len();
        if self.curr_label_count > n || self.curr_label_count == usize::MAX {
            return None;
        }
        let start = n - self.curr_label_count;
        let mut out: Vec<String> = Vec::new();
        let mut i: usize = start;
        while i < n
            invariant
                start <= i <= n,
                n == self.labels@.len(),
                label_views(out@) == label_views(self.labels@).subrange(start as int, i as int),
            decreases n - i,
        {
            let ghost prev = out@;
            out.push(self.labels[i].clone());
            proof {
                assert(label_views(out@) =~= label_views(prev).push(self.labels@[i as int]@));
                assert(label_views(out@) =~= label_views(self.labels@).subrange(start as int, i + 1));
            }
            i = i + 1;
        }
        proof {
            if start == 0 {
                assert(label_views(self.labels@).subrange(0, n as int) =~= label_views(self.labels@));
            }
        }
        self.curr_label_count = self.curr_label_count + 1;
        Some(out)
    }
}

} // verus!
