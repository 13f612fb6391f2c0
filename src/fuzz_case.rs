//! Fuzzing inputs kept as wire-format bytes, and the names that identify them.

use bstr::ByteSlice;
use vstd::prelude::*;

verus! {

/// Identifier of a fuzz case, a 128-bit random number.
#[derive(Clone, Copy, Debug, PartialEq, Eq, Structural, PartialOrd, Ord, Hash)]
pub struct FuzzCaseId(pub u128);

/// Identifier of a fuzz suite, a 128-bit random number.
#[derive(Clone, Copy, Debug, PartialEq, Eq, Structural, PartialOrd, Ord, Hash)]
pub struct FuzzSuiteId(pub u128);

/// The name of a resolver under test.
#[derive(Clone, Debug)]
pub struct ResolverName(String);

impl View for ResolverName {
    type V = Seq<char>;

    closed spec fn view(&self) -> Seq<char> {
        self.0@
    }
}

impl ResolverName {
    pub fn new(s: String) -> (r: ResolverName)
        ensures
            r@ == s@,
    {
        ResolverName(s)
    }

    pub fn as_str(&self) -> (r: &str)
        ensures
            r@ == self@,
    {
        self.0.as_str()
    }
}

/// `h` with every occurrence of the non-empty `n`, found from the left without overlap,
/// replaced by `r`.
pub open spec fn replace_all(h: Seq<u8>, n: Seq<u8>, r: Seq<u8>) -> Seq<u8>
    decreases h.len(),
{
    if n.len() == 0 || h.len() < n.len() {
        h
    } else if h.subrange(0, n.len() as int) == n {
        r + replace_all(h.skip(n.len() as int), n, r)
    } else {
        seq![h[0]] + replace_all(h.skip(1), n, r)
    }
}

/// Relies on bstr's `ByteSlice::replace`: every match of `needle`, searched from the left
/// without overlap, is replaced by `replacement`.
#[verifier::external_body]
fn replace_bytes(haystack: &Vec<u8>, needle: &Vec<u8>, replacement: &Vec<u8>) -> (r: Vec<u8>)
    requires
        needle@.len() > 0,
    ensures
        r@ == replace_all(haystack@, needle@, replacement@),
{
    haystack.as_slice().replace(needle.as_slice(), replacement.as_slice())
}

/// Replacing by a sequence of the same length keeps the length.
pub proof fn lemma_replace_all_keeps_length(h: Seq<u8>, n: Seq<u8>, r: Seq<u8>)
    requires
        n.len() == r.len(),
    ensures
        replace_all(h, n, r).len() == h.len(),
    decreases h.len(),
{
    if n.len() == 0 || h.len() < n.len() {
    } else if h.subrange(0, n.len() as int) == n {
        lemma_replace_all_keeps_length(h.skip(n.len() as int), n, r);
    } else {
        lemma_replace_all_keeps_length(h.skip(1), n, r);
    }
}

/// A wire-format label: a length byte, then that many bytes.
pub open spec fn is_wire_label(l: Seq<u8>) -> bool {
    l.len() > 0 && l.len() == l[0] + 1
}

/// Why a label replacement was refused.
#[derive(Clone, Copy, Debug, PartialEq, Eq, Structural)]
pub enum LabelError {
    /// The label and its replacement differ in length.
    LengthMismatch,
    /// The label does not start with the length of the rest.
    InvalidLabel,
    /// The replacement does not start with the length of the rest.
    InvalidReplacement,
}

/// A fuzz case whose messages are kept as wire-format bytes.
pub struct FuzzCaseBytes {
    pub id: FuzzCaseId,
    pub client_query: Vec<u8>,
    pub server_responses: Vec<Vec<u8>>,
    /// Owner name in wire format, record type and class of each cache probe.
    pub check_cache: Vec<(Vec<u8>, u16, u16)>,
}

/// `after` is `before` with `l` replaced by `r` in the client query, in every server response
/// and in every cache probe name.
pub open spec fn replaced_everywhere(
    before: FuzzCaseBytes,
    after: FuzzCaseBytes,
    l: Seq<u8>,
    r: Seq<u8>,
) -> bool {
    &&& after.id == before.id
    &&& after.client_query@ == replace_all(before.client_query@, l, r)
    &&& after.server_responses@.len() == before.server_responses@.len()
    &&& forall|i: int|
        0 <= i < before.server_responses@.len() ==> (#[trigger] after.server_responses@[i])@
            == replace_all(before.server_responses@[i]@, l, r)
    &&& after.check_cache@.len() == before.check_cache@.len()
    &&& forall|i: int|
        0 <= i < before.check_cache@.len() ==> (#[trigger] after.check_cache@[i]).0@
            == replace_all(before.check_cache@[i].0@, l, r) && after.check_cache@[i].1
            == before.check_cache@[i].1 && after.check_cache@[i].2 == before.check_cache@[i].2
}

/// The byte size of all buffers of a case.
pub open spec fn buffer_lengths(c: FuzzCaseBytes) -> (nat, Seq<nat>, Seq<nat>) {
    (
        c.client_query@.len(),
        Seq::new(c.server_responses@.len(), |i: int| c.server_responses@[i]@.len()),
        Seq::new(c.check_cache@.len(), |i: int| c.check_cache@[i].0@.len()),
    )
}

impl FuzzCaseBytes {
    /// Replaces the wire-format label `label` by `replacement` in all messages and cache probes.
    pub fn replace_label(&mut self, label: &Vec<u8>, replacement: &Vec<u8>) -> (res: Result<
        (),
        LabelError,
    >)
        ensures
            label@.len() != replacement@.len() ==> res == Err::<(), _>(LabelError::LengthMismatch),
            label@.len() == replacement@.len() && label@.len() > 0 && !is_wire_label(label@)
                ==> res == Err::<(), _>(LabelError::InvalidLabel),
            label@.len() == replacement@.len() && is_wire_label(label@) && !is_wire_label(
                replacement@,
            ) ==> res == Err::<(), _>(LabelError::InvalidReplacement),
            res is Err ==> *final(self) == *old(self),
            label@.len() == replacement@.len() && label@.len() == 0 ==> res is Ok && *final(self)
                == *old(self),
            label@.len() == replacement@.len() && is_wire_label(label@) && is_wire_label(
                replacement@,
            ) ==> res is Ok && replaced_everywhere(*old(self), *final(self), label@, replacement@),
    {
        if label.len() != replacement.len() {
            return Err(LabelError::LengthMismatch);
        }
        if label.len() == 0 {
            return Ok(());
        }
        if label.len() != label[0] as usize + 1 {
            return Err(LabelError::InvalidLabel);
        }
        if replacement.len() != replacement[0] as usize + 1 {
            return Err(LabelError::InvalidReplacement);
        }
        self.client_query = replace_bytes(&self.client_query, label, replacement);
        let n = self.server_responses.len();
        let mut i: usize = 0;
        while i < n
            invariant
                n == self.server_responses@.len(),
                n == old(self).server_responses@.len(),
                label@.len() > 0,
                self.id == old(self).id,
                self.check_cache == old(self).check_cache,
                self.client_query@ == replace_all(old(self).client_query@, label@, replacement@),
                i <= n,
                forall|j: int|
                    0 <= j < n ==> (#[trigger] self.server_responses@[j])@ == if j < i {
                        replace_all(old(self).server_responses@[j]@, label@, replacement@)
                    } else {
                        old(self).server_responses@[j]@
                    },
            decreases n - i,
        {
            let replaced = replace_bytes(&self.server_responses[i], label, replacement);
            self.server_responses.set(i, replaced);
            i = i + 1;
        }
        let m = self.check_cache.len();
        let mut k: usize = 0;
        while k < m
            invariant
                m == self.check_cache@.len(),
                m == old(self).check_cache@.len(),
                n == self.server_responses@.len(),
                n == old(self).server_responses@.len(),
                label@.len() > 0,
                self.id == old(self).id,
                self.client_query@ == replace_all(old(self).client_query@, label@, replacement@),
                forall|j: int|
                    0 <= j < n ==> (#[trigger] self.server_responses@[j])@ == replace_all(
                        old(self).server_responses@[j]@,
                        label@,
                        replacement@,
                    ),
                k <= m,
                forall|j: int|
                    0 <= j < m ==> (#[trigger] self.check_cache@[j]).1 == old(self).check_cache@[j].1
                        && self.check_cache@[j].2 == old(self).check_cache@[j].2
                        && self.check_cache@[j].0@ == if j < k {
                        replace_all(old(self).check_cache@[j].0@, label@, replacement@)
                    } else {
                        old(self).check_cache@[j].0@
                    },
            decreases m - k,
        {
            let replaced = replace_bytes(&self.check_cache[k].0, label, replacement);
            let ty = self.check_cache[k].1;
            let class = self.check_cache[k].2;
            self.check_cache.set(k, (replaced, ty, class));
            k = k + 1;
        }
        Ok(())
    }
}

/// Replacing a label by one of the same length keeps the size of every buffer of the case.
pub proof fn lemma_replace_label_keeps_lengths(
    before: FuzzCaseBytes,
    after: FuzzCaseBytes,
    l: Seq<u8>,
    r: Seq<u8>,
)
    requires
        l.len() == r.len(),
        replaced_everywhere(before, after, l, r),
    ensures
        buffer_lengths(after) == buffer_lengths(before),
{
    lemma_replace_all_keeps_length(before.client_query@, l, r);
    assert forall|i: int| 0 <= i < before.server_responses@.len() implies (
    #[trigger] after.server_responses@[i])@.len() == before.server_responses@[i]@.len() by {
        lemma_replace_all_keeps_length(before.server_responses@[i]@, l, r);
    }
    assert forall|i: int| 0 <= i < before.check_cache@.len() implies (
    #[trigger] after.check_cache@[i]).0@.len() == before.check_cache@[i].0@.len() by {
        lemma_replace_all_keeps_length(before.check_cache@[i].0@, l, r);
    }
    assert(buffer_lengths(after).1 =~= buffer_lengths(before).1);
    assert(buffer_lengths(after).2 =~= buffer_lengths(before).2);
}

/// The wire-format placeholder label `test` that each case of a suite uses for its zone.
pub open spec fn placeholder_label() -> Seq<u8> {
    seq![4u8, 116u8, 101u8, 115u8, 116u8]
}

/// The wire-format label of the zone of case `i`: its four decimal digits, with leading zeros.
pub open spec fn zone_label_spec(i: u64) -> Seq<u8> {
    seq![
        4u8,
        (48 + (i / 1000) % 10) as u8,
        (48 + (i / 100) % 10) as u8,
        (48 + (i / 10) % 10) as u8,
        (48 + i % 10) as u8,
    ]
}

pub fn zone_label(i: u64) -> (r: Vec<u8>)
    ensures
        r@ == zone_label_spec(i),
{
    let r = vec![
        4u8,
        (48 + (i / 1000) % 10) as u8,
        (48 + (i / 100) % 10) as u8,
        (48 + (i / 10) % 10) as u8,
        (48 + i % 10) as u8,
    ];
    proof {
        assert(r@ =~= zone_label_spec(i));
    }
    r
}

/// The most cases a suite can hold, one zone each.
pub const MAX_SUITE_CASES: usize = 10000;

/// Gives each case of a suite its own zone: the placeholder label `test` becomes the four-digit
/// index of the case. A suite of more than [`MAX_SUITE_CASES`] cases is refused and left as it
/// was.
pub fn assign_unique_zones(cases: &mut Vec<FuzzCaseBytes>) -> (r: Result<(), LabelError>)
    ensures
        old(cases)@.len() > MAX_SUITE_CASES ==> r is Err && final(cases)@ == old(cases)@,
        old(cases)@.len() <= MAX_SUITE_CASES ==> r is Ok && final(cases)@.len() == old(cases)@.len()
            && forall|i: int|
            0 <= i < old(cases)@.len() ==> replaced_everywhere(
                old(cases)@[i],
                #[trigger] final(cases)@[i],
                placeholder_label(),
                zone_label_spec(i as u64),
            ),
{
    let n = cases.len();
    if n > MAX_SUITE_CASES {
        return Err(LabelError::LengthMismatch);
    }
    let placeholder = vec![4u8, 116u8, 101u8, 115u8, 116u8];
    proof {
        assert(placeholder@ =~= placeholder_label());
    }
    let mut i: usize = 0;
    while i < n
        invariant
            n == cases@.len(),
            n == old(cases)@.len(),
            n <= MAX_SUITE_CASES,
            i <= n,
            placeholder@ == placeholder_label(),
            forall|j: int|
                0 <= j < i ==> replaced_everywhere(
                    old(cases)@[j],
                    #[trigger] cases@[j],
                    placeholder_label(),
                    zone_label_spec(j as u64),
                ),
            forall|j: int| i <= j < n ==> #[trigger] cases@[j] == old(cases)@[j],
        decreases n - i,
    {
        let label = zone_label(i as u64);
        let mut case = cases.remove(i);
        let res = case.replace_label(&placeholder, &label);
        proof {
            assert(res is Ok);
        }
        cases.insert(i, case);
        i = i + 1;
    }
    Ok(())
}

/// A cache probe: owner name as wire-format labels, record type, class.
#[derive(Clone, Debug)]
pub struct CacheKey {
    pub name: Vec<Vec<u8>>,
    pub rtype: u16,
    pub class: u16,
}

pub open spec fn cache_key_view(k: CacheKey) -> (Seq<Seq<u8>>, u16, u16) {
    (k.name@.map_values(|l: Vec<u8>| l@), k.rtype, k.class)
}

pub open spec fn cache_key_views(v: Seq<CacheKey>) -> Seq<(Seq<Seq<u8>>, u16, u16)> {
    v.map_values(|k: CacheKey| cache_key_view(k))
}

/// The owners of a message that the cache is probed for: its questions and all records of its
/// answer, authority and additional sections.
pub struct MessageKeys {
    pub queries: Vec<CacheKey>,
    pub records: Vec<CacheKey>,
}

/// `k` is a question or a record of some message.
pub open spec fn mentioned(messages: Seq<MessageKeys>, k: (Seq<Seq<u8>>, u16, u16)) -> bool {
    exists|m: int|
        0 <= m < messages.len() && (cache_key_views(messages[m].queries@).contains(k)
            || cache_key_views(messages[m].records@).contains(k))
}

fn labels_equal(a: &Vec<Vec<u8>>, b: &Vec<Vec<u8>>) -> (r: bool)
    ensures
        r == (a@.map_values(|l: Vec<u8>| l@) == b@.map_values(|l: Vec<u8>| l@)),
{
    if a.len() != b.len() {
        proof {
            assert(a@.map_values(|l: Vec<u8>| l@).len() != b@.map_values(|l: Vec<u8>| l@).len());
        }
        return false;
    }
    let mut i: usize = 0;
    while i < a.len()
        invariant
            a@.len() == b@.len(),
            i <= a@.len(),
            forall|j: int| 0 <= j < i ==> a@[j]@ == b@[j]@,
        decreases a@.len() - i,
    {
        let x = &a[i];
        let y = &b[i];
        if x.len() != y.len() {
            proof {
                assert(a@.map_values(|l: Vec<u8>| l@)[i as int].len() != b@.map_values(|l: Vec<u8>| l@)[i as int].len());
            }
            return false;
        }
        let mut k: usize = 0;
        while k < x.len()
            invariant
                i < a@.len(),
                a@.len() == b@.len(),
                x@ == a@[i as int]@,
                y@ == b@[i as int]@,
                x@.len() == y@.len(),
                k <= x@.len(),
                forall|j: int| 0 <= j < k ==> x@[j] == y@[j],
                forall|j: int| 0 <= j < i ==> a@[j]@ == b@[j]@,
            decreases x@.len() - k,
        {
            if x[k] != y[k] {
                proof {
                    assert(a@.map_values(|l: Vec<u8>| l@)[i as int][k as int] != b@.map_values(|l: Vec<u8>| l@)[i as int][k as int]);
                }
                return false;
            }
            k = k + 1;
        }
        proof {
            assert(x@ =~= y@);
        }
        i = i + 1;
    }
    proof {
        assert(a@.map_values(|l: Vec<u8>| l@) =~= b@.map_values(|l: Vec<u8>| l@));
    }
    true
}

fn key_equal(a: &CacheKey, b: &CacheKey) -> (r: bool)
    ensures
        r == (cache_key_view(*a) == cache_key_view(*b)),
{
    a.rtype == b.rtype && a.class == b.class && labels_equal(&a.name, &b.name)
}

fn copy_key(k: &CacheKey) -> (r: CacheKey)
    ensures
        cache_key_view(r) == cache_key_view(*k),
{
    let mut name: Vec<Vec<u8>> = Vec::new();
    let mut i: usize = 0;
    while i < k.name.len()
        invariant
            i <= k.name@.len(),
            name@.map_values(|l: Vec<u8>| l@) == k.name@.map_values(|l: Vec<u8>| l@).subrange(0, i as int),
        decreases k.name@.len() - i,
    {
        let l = k.name[i].clone();
        proof {
            assert(l@ =~= k.name@[i as int]@);
        }
        let ghost prev = name@;
        name.push(l);
        proof {
            assert(name@.map_values(|l: Vec<u8>| l@) =~= prev.map_values(|l: Vec<u8>| l@).push(k.name@[i as int]@));
            assert(name@.map_values(|l: Vec<u8>| l@) =~= k.name@.map_values(|l: Vec<u8>| l@).subrange(0, i + 1));
        }
        i = i + 1;
    }
    proof {
        assert(k.name@.map_values(|l: Vec<u8>| l@).subrange(0, i as int) =~= k.name@.map_values(|l: Vec<u8>| l@));
    }
    CacheKey { name, rtype: k.rtype, class: k.class }
}

fn contains_cache_key(keys: &Vec<CacheKey>, k: &CacheKey) -> (r: bool)
    ensures
        r == cache_key_views(keys@).contains(cache_key_view(*k)),
{
    let mut i: usize = 0;
    while i < keys.len()
        invariant
            i <= keys@.len(),
            forall|j: int| 0 <= j < i ==> cache_key_view(keys@[j]) != cache_key_view(*k),
        decreases keys@.len() - i,
    {
        if key_equal(&keys[i], k) {
            proof {
                assert(cache_key_views(keys@)[i as int] == cache_key_view(*k));
            }
            return true;
        }
        i = i + 1;
    }
    proof {
        if cache_key_views(keys@).contains(cache_key_view(*k)) {
            let j = choose|j: int| 0 <= j < cache_key_views(keys@).len() && cache_key_views(keys@)[j] == cache_key_view(*k);
            assert(cache_key_view(keys@[j]) == cache_key_view(*k));
        }
    }
    false
}

proof fn lemma_contains_push<T>(s: Seq<T>, x: T)
    ensures
        forall|k: T| #[trigger] s.push(x).contains(k) <==> (s.contains(k) || k == x),
{
    assert forall|k: T| #[trigger] s.push(x).contains(k) <==> (s.contains(k) || k == x) by {
        if s.push(x).contains(k) {
            let q = choose|q: int| 0 <= q < s.push(x).len() && s.push(x)[q] == k;
            if q < s.len() {
                assert(s[q] == k);
            }
        }
        if s.contains(k) {
            let q = choose|q: int| 0 <= q < s.len() && s[q] == k;
            assert(s.push(x)[q] == k);
        }
        if k == x {
            assert(s.push(x)[s.len() as int] == k);
        }
    }
}

/// Adds each key of `from` that `out` lacks.
fn add_keys(out: &mut Vec<CacheKey>, from: &Vec<CacheKey>)
    requires
        no_dup_keys(cache_key_views(old(out)@)),
    ensures
        no_dup_keys(cache_key_views(final(out)@)),
        forall|k: (Seq<Seq<u8>>, u16, u16)|
            #![trigger cache_key_views(final(out)@).contains(k)]
            #![trigger cache_key_views(old(out)@).contains(k)]
            #![trigger cache_key_views(from@).contains(k)]
            cache_key_views(final(out)@).contains(k) <==> (cache_key_views(old(out)@).contains(k)
                || cache_key_views(from@).contains(k)),
{
    let mut i: usize = 0;
    while i < from.len()
        invariant
            i <= from@.len(),
            no_dup_keys(cache_key_views(out@)),
            forall|k: (Seq<Seq<u8>>, u16, u16)|
                cache_key_views(out@).contains(k) <==> (cache_key_views(old(out)@).contains(k)
                    || cache_key_views(from@).subrange(0, i as int).contains(k)),
        decreases from@.len() - i,
    {
        let ghost prev = out@;
        let ghost kv = cache_key_view(from@[i as int]);
        proof {
            assert(cache_key_views(from@)[i as int] == kv);
        }
        if !contains_cache_key(out, &from[i]) {
            out.push(copy_key(&from[i]));
            proof {
                assert(cache_key_views(out@) =~= cache_key_views(prev).push(kv));
                assert forall|a: int, b: int| 0 <= a < b < cache_key_views(out@).len() implies cache_key_views(out@)[a]
                    != cache_key_views(out@)[b] by {
                    if b == prev.len() {
                        assert(cache_key_views(out@)[a] == cache_key_views(prev)[a]);
                    } else {
                        assert(cache_key_views(out@)[a] == cache_key_views(prev)[a]);
                        assert(cache_key_views(out@)[b] == cache_key_views(prev)[b]);
                    }
                }
            }
        }
        proof {
            let s0 = cache_key_views(from@).subrange(0, i as int);
            let s1 = cache_key_views(from@).subrange(0, i + 1);
            assert(s1 =~= s0.push(kv));
            lemma_contains_push(s0, kv);
            lemma_contains_push(cache_key_views(prev), kv);
            assert forall|k: (Seq<Seq<u8>>, u16, u16)|
                cache_key_views(out@).contains(k) <==> (cache_key_views(old(out)@).contains(k) || s1.contains(k)) by {
                assert(cache_key_views(prev).contains(k) <==> (cache_key_views(old(out)@).contains(k) || s0.contains(k)));
                assert(s1.contains(k) <==> (s0.contains(k) || k == kv));
                if cache_key_views(out@) != cache_key_views(prev) {
                    assert(cache_key_views(out@).contains(k) <==> (cache_key_views(prev).contains(k) || k == kv));
                } else {
                    assert(cache_key_views(prev).contains(kv));
                }
            }
        }
        i = i + 1;
    }
    proof {
        assert(cache_key_views(from@).subrange(0, i as int) =~= cache_key_views(from@));
    }
}

/// No key occurs twice.
pub open spec fn no_dup_keys(s: Seq<(Seq<Seq<u8>>, u16, u16)>) -> bool {
    forall|a: int, b: int| 0 <= a < b < s.len() ==> s[a] != s[b]
}

/// The cache probes of a fuzz case: every question and record owner of its client query and
/// server responses, each once.
pub fn update_check_cache(messages: &Vec<MessageKeys>) -> (r: Vec<CacheKey>)
    ensures
        no_dup_keys(cache_key_views(r@)),
        forall|k: (Seq<Seq<u8>>, u16, u16)| cache_key_views(r@).contains(k) <==> mentioned(messages@, k),
{
    let mut out: Vec<CacheKey> = Vec::new();
    let mut m: usize = 0;
    while m < messages.len()
        invariant
            m <= messages@.len(),
            no_dup_keys(cache_key_views(out@)),
            forall|k: (Seq<Seq<u8>>, u16, u16)|
                cache_key_views(out@).contains(k) <==> mentioned(messages@.subrange(0, m as int), k),
        decreases messages@.len() - m,
    {
        let ghost o0 = out@;
        add_keys(&mut out, &messages[m].queries);
        let ghost o1 = out@;
        add_keys(&mut out, &messages[m].records);
        proof {
            let p0 = messages@.subrange(0, m as int);
            let p1 = messages@.subrange(0, m + 1);
            assert forall|k: (Seq<Seq<u8>>, u16, u16)| mentioned(p1, k) <==> (mentioned(p0, k) || cache_key_views(messages@[m as int].queries@).contains(k)
                || cache_key_views(messages@[m as int].records@).contains(k)) by {
                if mentioned(p1, k) {
                    let w = choose|w: int| 0 <= w < p1.len() && (cache_key_views(p1[w].queries@).contains(k)
                        || cache_key_views(p1[w].records@).contains(k));
                    if w < m {
                        assert(p0[w] == p1[w]);
                    }
                }
                if mentioned(p0, k) {
                    let w = choose|w: int| 0 <= w < p0.len() && (cache_key_views(p0[w].queries@).contains(k)
                        || cache_key_views(p0[w].records@).contains(k));
                    assert(p1[w] == p0[w]);
                }
                if cache_key_views(messages@[m as int].queries@).contains(k) || cache_key_views(messages@[m as int].records@).contains(k) {
                    assert(p1[m as int] == messages@[m as int]);
                }
            }
            assert forall|k: (Seq<Seq<u8>>, u16, u16)|
                cache_key_views(out@).contains(k) <==> mentioned(p1, k) by {
                assert(cache_key_views(o0).contains(k) <==> mentioned(p0, k));
                assert(cache_key_views(o1).contains(k) <==> (cache_key_views(o0).contains(k)
                    || cache_key_views(messages@[m as int].queries@).contains(k)));
                assert(cache_key_views(out@).contains(k) <==> (cache_key_views(o1).contains(k)
                    || cache_key_views(messages@[m as int].records@).contains(k)));
            }
        }
        m = m + 1;
    }
    proof {
        assert(messages@.subrange(0, m as int) =~= messages@);
    }
    out
}

} // verus!
