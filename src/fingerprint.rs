//! Stable fingerprints of unexplained differences.

use crate::text::{
    is_prefix, lemma_seq_less_asymmetric, lemma_seq_less_irreflexive, lemma_seq_less_total,
    lemma_seq_less_transitive, seq_less, starts_with, str_equal, str_less,
};
use crate::values::{string_views, value_of, Value, ValueMap, ValueV};
use vstd::prelude::*;
use vstd::std_specs::cmp::PartialEqSpec;

verus! {

/// A pair whose equality ignores the order of its two members.
#[derive(Clone, Copy, Debug)]
pub struct UnorderedPair<T>(pub T, pub T);

impl<T: PartialEq> PartialEq for UnorderedPair<T> {
    fn eq(&self, other: &UnorderedPair<T>) -> (r: bool) {
        (self.0 == other.0 && self.1 == other.1) || (self.0 == other.1 && self.1 == other.0)
    }
}

impl<T: PartialEq> vstd::std_specs::cmp::PartialEqSpecImpl for UnorderedPair<T> {
    open spec fn obeys_eq_spec() -> bool {
        T::obeys_eq_spec()
    }

    open spec fn eq_spec(&self, other: &UnorderedPair<T>) -> bool {
        (self.0.eq_spec(&other.0) && self.1.eq_spec(&other.1)) || (self.0.eq_spec(&other.1)
            && self.1.eq_spec(&other.0))
    }
}

impl<T: PartialEq> UnorderedPair<T> {
    /// The pair with its members exchanged.
    pub fn swapped(self) -> (r: UnorderedPair<T>)
        ensures
            r.0 == self.1,
            r.1 == self.0,
    {
        UnorderedPair(self.1, self.0)
    }
}

/// A pair equals the pair with its members exchanged, for members whose equality is reflexive.
pub proof fn lemma_unordered_pair_symmetric<T: PartialEq>(a: T, b: T)
    requires
        a.eq_spec(&a),
        b.eq_spec(&b),
    ensures
        UnorderedPair(a, b).eq_spec(&UnorderedPair(b, a)),
{
}

/// For the special fields of a fingerprint, a pair equals the pair with its members exchanged,
/// with nothing assumed of the members.
pub proof fn lemma_special_fields_pair_symmetric(a: Vec<Value>, b: Vec<Value>)
    ensures
        UnorderedPair(a, b).eq_spec(&UnorderedPair(b, a)),
{
    assert(a.eq_spec(&a));
    assert(b.eq_spec(&b));
    lemma_unordered_pair_symmetric(a, b);
}

/// The number of response header fields in a fingerprint.
pub const SPECIAL_FIELD_COUNT: usize = 13;

/// The response header fields, all but the DNS id, that a fingerprint records.
pub open spec fn special_key_spec(i: int) -> Seq<char> {
    if i == 0 {
        ".fuzz_result.fuzzee_response.header.additional_count"@
    } else if i == 1 {
        ".fuzz_result.fuzzee_response.header.answer_count"@
    } else if i == 2 {
        ".fuzz_result.fuzzee_response.header.authentic_data"@
    } else if i == 3 {
        ".fuzz_result.fuzzee_response.header.authoritative"@
    } else if i == 4 {
        ".fuzz_result.fuzzee_response.header.checking_disabled"@
    } else if i == 5 {
        ".fuzz_result.fuzzee_response.header.message_type"@
    } else if i == 6 {
        ".fuzz_result.fuzzee_response.header.name_server_count"@
    } else if i == 7 {
        ".fuzz_result.fuzzee_response.header.op_code"@
    } else if i == 8 {
        ".fuzz_result.fuzzee_response.header.query_count"@
    } else if i == 9 {
        ".fuzz_result.fuzzee_response.header.recursion_available"@
    } else if i == 10 {
        ".fuzz_result.fuzzee_response.header.recursion_desired"@
    } else if i == 11 {
        ".fuzz_result.fuzzee_response.header.response_code"@
    } else {
        ".fuzz_result.fuzzee_response.header.truncated"@
    }
}

fn special_key(i: usize) -> (r: &'static str)
    ensures
        r@ == special_key_spec(i as int),
{
    if i == 0 {
        ".fuzz_result.fuzzee_response.header.additional_count"
    } else if i == 1 {
        ".fuzz_result.fuzzee_response.header.answer_count"
    } else if i == 2 {
        ".fuzz_result.fuzzee_response.header.authentic_data"
    } else if i == 3 {
        ".fuzz_result.fuzzee_response.header.authoritative"
    } else if i == 4 {
        ".fuzz_result.fuzzee_response.header.checking_disabled"
    } else if i == 5 {
        ".fuzz_result.fuzzee_response.header.message_type"
    } else if i == 6 {
        ".fuzz_result.fuzzee_response.header.name_server_count"
    } else if i == 7 {
        ".fuzz_result.fuzzee_response.header.op_code"
    } else if i == 8 {
        ".fuzz_result.fuzzee_response.header.query_count"
    } else if i == 9 {
        ".fuzz_result.fuzzee_response.header.recursion_available"
    } else if i == 10 {
        ".fuzz_result.fuzzee_response.header.recursion_desired"
    } else if i == 11 {
        ".fuzz_result.fuzzee_response.header.response_code"
    } else {
        ".fuzz_result.fuzzee_response.header.truncated"
    }
}

/// The prefix of the cache-probing keys, which fingerprints leave out.
pub open spec fn cache_state_prefix() -> Seq<char> {
    ".fuzz_result.cache_state"@
}

/// `keys` without those starting with the cache-state prefix, in order.
pub open spec fn without_cache_keys(keys: Seq<Seq<char>>) -> Seq<Seq<char>>
    decreases keys.len(),
{
    if keys.len() == 0 {
        Seq::empty()
    } else if is_prefix(cache_state_prefix(), keys.last()) {
        without_cache_keys(keys.drop_last())
    } else {
        without_cache_keys(keys.drop_last()).push(keys.last())
    }
}

/// The values of the special header fields in a value map.
pub open spec fn special_values(m: Seq<(Seq<char>, ValueV)>) -> Seq<ValueV> {
    Seq::new(13, |i: int| value_of(m, special_key_spec(i)))
}

/// The views of a sequence of values.
pub open spec fn value_views(v: Seq<Value>) -> Seq<ValueV> {
    v.map_values(|x: Value| x@)
}

/// Keys strictly increase along `s`.
pub open spec fn keys_sorted(s: Seq<Seq<char>>) -> bool {
    forall|i: int, j: int| 0 <= i < j < s.len() ==> seq_less(s[i], s[j])
}

proof fn lemma_sorted_tail(s: Seq<Seq<char>>)
    requires
        keys_sorted(s),
        s.len() > 0,
    ensures
        keys_sorted(s.skip(1)),
        forall|k: Seq<char>| s.skip(1).contains(k) <==> (s.contains(k) && k != s[0]),
{
    assert forall|i: int, j: int| 0 <= i < j < s.skip(1).len() implies seq_less(s.skip(1)[i], s.skip(1)[j]) by {
        assert(s.skip(1)[i] == s[i + 1]);
        assert(s.skip(1)[j] == s[j + 1]);
    }
    assert forall|k: Seq<char>| s.skip(1).contains(k) <==> (s.contains(k) && k != s[0]) by {
        if s.skip(1).contains(k) {
            let q = choose|q: int| 0 <= q < s.skip(1).len() && s.skip(1)[q] == k;
            assert(s[q + 1] == k);
            assert(seq_less(s[0], s[q + 1]));
            lemma_seq_less_irreflexive(k);
        }
        if s.contains(k) && k != s[0] {
            let q = choose|q: int| 0 <= q < s.len() && s[q] == k;
            assert(q > 0);
            assert(s.skip(1)[q - 1] == k);
        }
    }
}

/// Two strictly sorted key sequences with the same keys are equal.
pub proof fn lemma_sorted_keys_unique(s: Seq<Seq<char>>, t: Seq<Seq<char>>)
    requires
        keys_sorted(s),
        keys_sorted(t),
        forall|k: Seq<char>| s.contains(k) <==> t.contains(k),
    ensures
        s == t,
    decreases s.len(),
{
    if s.len() == 0 {
        if t.len() > 0 {
            assert(t.contains(t[0]));
        }
        assert(s =~= t);
    } else {
        assert(s.contains(s[0]));
        let j = choose|j: int| 0 <= j < t.len() && t[j] == s[0];
        assert(t.contains(t[0]));
        let i = choose|i: int| 0 <= i < s.len() && s[i] == t[0];
        if j > 0 {
            assert(seq_less(t[0], t[j]));
            if i > 0 {
                assert(seq_less(s[0], s[i]));
                lemma_seq_less_asymmetric(t[0], s[0]);
            } else {
                lemma_seq_less_irreflexive(s[0]);
            }
        }
        assert(s[0] == t[0]);
        lemma_sorted_tail(s);
        lemma_sorted_tail(t);
        assert forall|k: Seq<char>| s.skip(1).contains(k) <==> t.skip(1).contains(k) by {
            assert(s.skip(1).contains(k) <==> (s.contains(k) && k != s[0]));
            assert(t.skip(1).contains(k) <==> (t.contains(k) && k != t[0]));
        }
        lemma_sorted_keys_unique(s.skip(1), t.skip(1));
        assert(s =~= seq![s[0]] + s.skip(1));
        assert(t =~= seq![t[0]] + t.skip(1));
    }
}

/// The keys of `keys`, each once, in increasing order.
pub fn sort_keys(keys: &Vec<String>) -> (r: Vec<String>)
    ensures
        keys_sorted(string_views(r@)),
        forall|k: Seq<char>| string_views(r@).contains(k) <==> string_views(keys@).contains(k),
{
    let mut out: Vec<String> = Vec::new();
    let mut i: usize = 0;
    while i < keys.len()
        invariant
            i <= keys@.len(),
            keys_sorted(string_views(out@)),
            forall|k: Seq<char>|
                string_views(out@).contains(k) <==> string_views(keys@).subrange(0, i as int).contains(k),
        decreases keys@.len() - i,
    {
        let key = keys[i].as_str();
        let ghost sv = string_views(out@);
        let mut p: usize = 0;
        while p < out.len() && str_less(out[p].as_str(), key)
            invariant
                p <= out@.len(),
                sv == string_views(out@),
                forall|q: int| 0 <= q < p ==> seq_less(sv[q], key@),
            decreases out@.len() - p,
        {
            p = p + 1;
        }
        let present = p < out.len() && str_equal(out[p].as_str(), key);
        if !present {
            out.insert(p, keys[i].clone());
            proof {
                sv.insert_ensures(p as int, key@);
                assert(string_views(out@) =~= sv.insert(p as int, key@));
                let nv = string_views(out@);
                if p < sv.len() {
                    lemma_seq_less_total(sv[p as int], key@);
                }
                assert forall|a: int, b: int| 0 <= a < b < nv.len() implies seq_less(nv[a], nv[b]) by {
                    if b < p {
                    } else if b == p {
                        assert(nv[a] == sv[a]);
                    } else if a < p {
                        assert(nv[a] == sv[a]);
                        assert(nv[b] == sv[b - 1]);
                        if a < b - 1 {
                        } else {
                            assert(a == b - 1);
                        }
                    } else if a == p {
                        assert(nv[b] == sv[b - 1]);
                        if b - 1 > p {
                            assert(seq_less(sv[p as int], sv[b - 1]));
                            lemma_seq_less_transitive(key@, sv[p as int], sv[b - 1]);
                        }
                    } else {
                        assert(nv[a] == sv[a - 1]);
                        assert(nv[b] == sv[b - 1]);
                    }
                }
            }
        }
        proof {
            let s0 = string_views(keys@).subrange(0, i as int);
            let s1 = string_views(keys@).subrange(0, i + 1);
            assert(s1 =~= s0.push(key@));
            assert forall|k: Seq<char>| string_views(out@).contains(k) <==> s1.contains(k) by {
                if s1.contains(k) {
                    let q = choose|q: int| 0 <= q < s1.len() && s1[q] == k;
                    if q < i {
                        assert(s0[q] == k);
                    }
                }
                if s0.contains(k) {
                    let q = choose|q: int| 0 <= q < s0.len() && s0[q] == k;
                    assert(s1[q] == k);
                }
                assert(s1[i as int] == key@);
                assert(s1.contains(k) <==> (s0.contains(k) || k == key@));
                assert(sv.contains(k) <==> s0.contains(k));
                let nv = string_views(out@);
                if present {
                    assert(nv == sv);
                    if k == key@ {
                        assert(sv[p as int] == key@);
                    }
                } else {
                    if nv.contains(k) {
                        let q = choose|q: int| 0 <= q < nv.len() && nv[q] == k;
                        if q < p {
                            assert(sv[q] == k);
                        } else if q > p {
                            assert(sv[q - 1] == k);
                        }
                    }
                    if sv.contains(k) {
                        let q = choose|q: int| 0 <= q < sv.len() && sv[q] == k;
                        if q < p {
                            assert(nv[q] == k);
                        } else {
                            assert(nv[q + 1] == k);
                        }
                    }
                    assert(nv[p as int] == key@);
                }
            }
        }
        i = i + 1;
    }
    proof {
        assert(string_views(keys@).subrange(0, i as int) =~= string_views(keys@));
    }
    out
}

/// A canonical description of an unexplained difference.
pub struct DiffFingerprint {
    /// Differing keys that no known kind explains, cache-state keys left out, each once and in
    /// increasing order.
    pub key_diffs: Vec<String>,
    /// The special header fields of both sides, in no particular order.
    pub special_fields: UnorderedPair<Vec<Value>>,
}

/// `v` is the fingerprint of the unexplained `keys` between `first` and `second`: those keys but
/// the cache-state ones, each once and in increasing order, and the special values of both sides.
pub open spec fn is_fingerprint_of(
    v: (Seq<Seq<char>>, Seq<ValueV>, Seq<ValueV>),
    keys: Seq<Seq<char>>,
    first: Seq<(Seq<char>, ValueV)>,
    second: Seq<(Seq<char>, ValueV)>,
) -> bool {
    &&& keys_sorted(v.0)
    &&& forall|k: Seq<char>| v.0.contains(k) <==> without_cache_keys(keys).contains(k)
    &&& v.1 == special_values(first)
    &&& v.2 == special_values(second)
}

/// Two fingerprint descriptions are equal, up to the order of the two sides.
pub open spec fn fingerprint_equiv(
    a: (Seq<Seq<char>>, Seq<ValueV>, Seq<ValueV>),
    b: (Seq<Seq<char>>, Seq<ValueV>, Seq<ValueV>),
) -> bool {
    a.0 == b.0 && ((a.1 == b.1 && a.2 == b.2) || (a.1 == b.2 && a.2 == b.1))
}

impl View for DiffFingerprint {
    type V = (Seq<Seq<char>>, Seq<ValueV>, Seq<ValueV>);

    open spec fn view(&self) -> (Seq<Seq<char>>, Seq<ValueV>, Seq<ValueV>) {
        (
            string_views(self.key_diffs@),
            value_views(self.special_fields.0@),
            value_views(self.special_fields.1@),
        )
    }
}

/// Whether two value sequences hold equal values.
fn values_equal(a: &Vec<Value>, b: &Vec<Value>) -> (r: bool)
    ensures
        r == (value_views(a@) == value_views(b@)),
{
    if a.len() != b.len() {
        proof {
            assert(value_views(a@).len() != value_views(b@).len());
        }
        return false;
    }
    let mut i: usize = 0;
    while i < a.len()
        invariant
            a@.len() == b@.len(),
            i <= a@.len(),
            forall|j: int| 0 <= j < i ==> a@[j]@ == b@[j]@,
        decreases a@.len() - i,
    {
        if a[i] != b[i] {
            proof {
                assert(value_views(a@)[i as int] != value_views(b@)[i as int]);
            }
            return false;
        }
        i = i + 1;
    }
    proof {
        assert(value_views(a@) =~= value_views(b@));
    }
    true
}

impl PartialEq for DiffFingerprint {
    fn eq(&self, other: &DiffFingerprint) -> (r: bool) {
        let n = self.key_diffs.len();
        if n != other.key_diffs.len() {
            proof {
                assert(string_views(self.key_diffs@).len() != string_views(other.key_diffs@).len());
            }
            return false;
        }
        let mut i: usize = 0;
        while i < n
            invariant
                n == self.key_diffs@.len(),
                n == other.key_diffs@.len(),
                i <= n,
                forall|j: int| 0 <= j < i ==> self.key_diffs@[j]@ == other.key_diffs@[j]@,
            decreases n - i,
        {
            if !str_equal(self.key_diffs[i].as_str(), other.key_diffs[i].as_str()) {
                proof {
                    assert(string_views(self.key_diffs@)[i as int] != string_views(
                        other.key_diffs@,
                    )[i as int]);
                }
                return false;
            }
            i = i + 1;
        }
        proof {
            assert(string_views(self.key_diffs@) =~= string_views(other.key_diffs@));
        }
        let (a0, a1) = (&self.special_fields.0, &self.special_fields.1);
        let (b0, b1) = (&other.special_fields.0, &other.special_fields.1);
        (values_equal(a0, b0) && values_equal(a1, b1)) || (values_equal(a0, b1) && values_equal(
            a1,
            b0,
        ))
    }
}

impl vstd::std_specs::cmp::PartialEqSpecImpl for DiffFingerprint {
    open spec fn obeys_eq_spec() -> bool {
        true
    }

    open spec fn eq_spec(&self, other: &DiffFingerprint) -> bool {
        fingerprint_equiv(self@, other@)
    }
}

/// The values of the special header fields of `m`.
fn collect_special_values(m: &ValueMap) -> (r: Vec<Value>)
    ensures
        value_views(r@) == special_values(m@),
{
    let mut out: Vec<Value> = Vec::new();
    let mut i: usize = 0;
    while i < SPECIAL_FIELD_COUNT
        invariant
            i <= 13,
            out@.len() == i,
            forall|j: int| 0 <= j < i ==> (#[trigger] out@[j])@ == value_of(m@, special_key_spec(j)),
        decreases 13 - i,
    {
        out.push(m.get(special_key(i)));
        i = i + 1;
    }
    proof {
        assert(value_views(out@) =~= special_values(m@));
    }
    out
}

impl DiffFingerprint {
    /// The fingerprint of the unexplained keys `key_diffs` between `first` and `second`.
    pub fn new(key_diffs: &Vec<String>, first: &ValueMap, second: &ValueMap) -> (r: DiffFingerprint)
        ensures
            is_fingerprint_of(r@, string_views(key_diffs@), first@, second@),
    {
        let mut keys: Vec<String> = Vec::new();
        let mut i: usize = 0;
        while i < key_diffs.len()
            invariant
                i <= key_diffs@.len(),
                string_views(keys@) == without_cache_keys(
                    string_views(key_diffs@).subrange(0, i as int),
                ),
            decreases key_diffs@.len() - i,
        {
            proof {
                assert(string_views(key_diffs@).subrange(0, i + 1).drop_last() =~= string_views(
                    key_diffs@,
                ).subrange(0, i as int));
            }
            if !starts_with(key_diffs[i].as_str(), ".fuzz_result.cache_state") {
                keys.push(key_diffs[i].clone());
            }
            proof {
                assert(string_views(keys@) =~= without_cache_keys(
                    string_views(key_diffs@).subrange(0, i + 1),
                ));
            }
            i = i + 1;
        }
        proof {
            assert(string_views(key_diffs@).subrange(0, key_diffs@.len() as int) =~= string_views(
                key_diffs@,
            ));
        }
        let sorted = sort_keys(&keys);
        let first_values = collect_special_values(first);
        let second_values = collect_special_values(second);
        DiffFingerprint { key_diffs: sorted, special_fields: UnorderedPair(first_values, second_values) }
    }
}

/// A fingerprint does not depend on which side is called first: the fingerprints of the same
/// keys with the sides exchanged are equal.
pub proof fn lemma_fingerprint_symmetric(
    keys: Seq<Seq<char>>,
    first: Seq<(Seq<char>, ValueV)>,
    second: Seq<(Seq<char>, ValueV)>,
    v: (Seq<Seq<char>>, Seq<ValueV>, Seq<ValueV>),
    w: (Seq<Seq<char>>, Seq<ValueV>, Seq<ValueV>),
)
    requires
        is_fingerprint_of(v, keys, first, second),
        is_fingerprint_of(w, keys, second, first),
    ensures
        fingerprint_equiv(v, w),
{
    lemma_sorted_keys_unique(v.0, w.0);
}

/// The number of cases sharing a fingerprint beyond which all of them are decayed.
pub const DECAY_THRESHOLD: usize = 20;

/// Whether the cases that share a fingerprint are to be decayed in the population queue: when
/// more than [`DECAY_THRESHOLD`] of them share it.
pub fn decay_due(cases_sharing: usize) -> (r: bool)
    ensures
        r == (cases_sharing > 20),
{
    cases_sharing > DECAY_THRESHOLD
}

/// The fingerprints found so far, each with the cases that showed it.
pub struct FingerprintRegistry {
    entries: Vec<(DiffFingerprint, Vec<crate::fuzz_case::FuzzCaseId>)>,
}

impl View for FingerprintRegistry {
    type V = Seq<((Seq<Seq<char>>, Seq<ValueV>, Seq<ValueV>), Seq<crate::fuzz_case::FuzzCaseId>)>;

    closed spec fn view(&self) -> Self::V {
        self.entries@.map_values(|e: (DiffFingerprint, Vec<crate::fuzz_case::FuzzCaseId>)| (e.0@, e.1@))
    }
}

/// No case occurs twice in `s`.
pub open spec fn no_duplicates<T>(s: Seq<T>) -> bool {
    forall|a: int, b: int| 0 <= a < b < s.len() ==> s[a] != s[b]
}

impl FingerprintRegistry {
    pub fn new() -> (r: FingerprintRegistry)
        ensures
            r@.len() == 0,
    {
        let r = FingerprintRegistry { entries: Vec::new() };
        proof {
            assert(r@ =~= Seq::empty());
        }
        r
    }

    /// The number of distinct fingerprints.
    pub fn len(&self) -> (r: usize)
        ensures
            r == self@.len(),
    {
        self.entries.len()
    }

    /// Records that case `id` showed fingerprint `fp`, and returns the cases that showed it so
    /// far, each once.
    pub fn record(&mut self, fp: DiffFingerprint, id: crate::fuzz_case::FuzzCaseId) -> (r: Vec<crate::fuzz_case::FuzzCaseId>)
        requires
            forall|i: int| 0 <= i < old(self)@.len() ==> no_duplicates(#[trigger] old(self)@[i].1),
        ensures
            forall|i: int| 0 <= i < final(self)@.len() ==> no_duplicates(#[trigger] final(self)@[i].1),
            no_duplicates(r@),
            r@.contains(id),
            (exists|i: int| 0 <= i < old(self)@.len() && fingerprint_equiv(#[trigger] old(self)@[i].0, fp@))
                ==> final(self)@.len() == old(self)@.len() && exists|i: int|
                0 <= i < old(self)@.len() && fingerprint_equiv(#[trigger] old(self)@[i].0, fp@) && final(self)@[i].1 == r@
                && forall|x: crate::fuzz_case::FuzzCaseId| r@.contains(x) <==> (old(self)@[i].1.contains(x) || x == id),
            !(exists|i: int| 0 <= i < old(self)@.len() && fingerprint_equiv(#[trigger] old(self)@[i].0, fp@))
                ==> final(self)@ == old(self)@.push((fp@, seq![id])) && r@ == seq![id],
    {
        let n = self.entries.len();
        let mut i: usize = 0;
        while i < n
            invariant
                n == self.entries@.len(),
                self@ == old(self)@,
                forall|j: int| 0 <= j < old(self)@.len() ==> no_duplicates(#[trigger] old(self)@[j].1),
                i <= n,
                forall|j: int| 0 <= j < i ==> !fingerprint_equiv(#[trigger] self@[j].0, fp@),
            decreases n - i,
        {
            let same = self.entries[i].0 == fp;
            if same {
                let ghost before = self@;
                assert(fingerprint_equiv(before[i as int].0, fp@));
                let (f, mut ids) = self.entries.remove(i);
                let ghost old_ids = ids@;
                let mut present = false;
                let mut k: usize = 0;
                while k < ids.len()
                    invariant
                        k <= ids@.len(),
                        ids@ == old_ids,
                        present == exists|q: int| 0 <= q < k && ids@[q] == id,
                    decreases ids@.len() - k,
                {
                    if ids[k] == id {
                        present = true;
                    }
                    k = k + 1;
                }
                if !present {
                    ids.push(id);
                }
                let out = ids.clone();
                proof {
                    assert(out@ =~= ids@);
                    assert(before[i as int].1 == old_ids);
                    assert(no_duplicates(before[i as int].1));
                    if !present {
                        assert(ids@ == old_ids.push(id));
                        assert(ids@[old_ids.len() as int] == id);
                        assert forall|a: int, b: int| 0 <= a < b < ids@.len() implies ids@[a] != ids@[b] by {
                            if b == old_ids.len() {
                                assert(ids@[a] == old_ids[a]);
                                assert(!(0 <= a < k && ids@[a] == id));
                            } else {
                                assert(ids@[a] == old_ids[a]);
                                assert(ids@[b] == old_ids[b]);
                            }
                        }
                    } else {
                        let q = choose|q: int| 0 <= q < k && ids@[q] == id;
                        assert(ids@[q] == id);
                    }
                    assert forall|x: crate::fuzz_case::FuzzCaseId| ids@.contains(x) <==> (old_ids.contains(x) || x == id) by {
                        if ids@.contains(x) && !present {
                            let q = choose|q: int| 0 <= q < ids@.len() && ids@[q] == x;
                            if q < old_ids.len() {
                                assert(old_ids[q] == x);
                            }
                        }
                        if old_ids.contains(x) && !present {
                            let q = choose|q: int| 0 <= q < old_ids.len() && old_ids[q] == x;
                            assert(ids@[q] == x);
                        }
                    }
                }
                let ghost f_view = f@;
                let ghost new_ids = ids@;
                self.entries.insert(i, (f, ids));
                proof {
                    assert(self@ =~= before.update(i as int, (f_view, new_ids)));
                    assert(self@[i as int].1 == new_ids);
                    assert(no_duplicates(new_ids));
                    assert(self@[i as int].1 == out@);
                    assert(fingerprint_equiv(old(self)@[i as int].0, fp@));
                    assert forall|j: int| 0 <= j < self@.len() implies no_duplicates(#[trigger] self@[j].1) by {
                        if j != i {
                            assert(self@[j] == before[j]);
                        }
                    }
                }
                return out;
            }
            i = i + 1;
        }
        let ghost fpv = fp@;
        let mut ids: Vec<crate::fuzz_case::FuzzCaseId> = Vec::new();
        ids.push(id);
        let out = ids.clone();
        proof {
            assert(out@ =~= ids@);
            assert(ids@ =~= seq![id]);
            assert(out@[0] == id);
        }
        let ghost before = self@;
        self.entries.push((fp, ids));
        proof {
            assert(self@ =~= before.push((fpv, seq![id])));
            assert forall|j: int| 0 <= j < self@.len() implies no_duplicates(#[trigger] self@[j].1) by {
                if j < before.len() {
                    assert(self@[j] == before[j]);
                }
            }
        }
        out
    }
}

} // verus!
