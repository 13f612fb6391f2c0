//! The static zone of the fixed authoritative server, and its lookup after RFC 6672 §3.2.

use vstd::prelude::*;

verus! {

pub const RTYPE_A: u16 = 1;
pub const RTYPE_NS: u16 = 2;
pub const RTYPE_CNAME: u16 = 5;
pub const RTYPE_SOA: u16 = 6;
pub const RTYPE_AAAA: u16 = 28;

/// One record of a zone: its owner as lower-case labels (root label left out), its type, and
/// for an NS record the labels of the name server.
pub struct ZoneRecord {
    pub owner: Vec<String>,
    pub rtype: u16,
    pub ns_target: Vec<String>,
}

/// The labels of a name.
pub open spec fn labels_of(v: Seq<String>) -> Seq<Seq<char>> {
    v.map_values(|s: String| s@)
}

/// `zone` is `name` or an ancestor of it.
pub open spec fn zone_of(zone: Seq<Seq<char>>, name: Seq<Seq<char>>) -> bool {
    zone.len() <= name.len() && name.subrange(name.len() - zone.len(), name.len() as int) == zone
}

/// The last `k` labels of `name`.
pub open spec fn suffix_of(name: Seq<Seq<char>>, k: int) -> Seq<Seq<char>> {
    name.subrange(name.len() - k, name.len() as int)
}

/// Record `i` is owned by `name`.
pub open spec fn owns(recs: Seq<ZoneRecord>, i: int, name: Seq<Seq<char>>) -> bool {
    labels_of(recs[i].owner@) == name
}

/// Some record is owned by `name` or by a name below it.
pub open spec fn exists_at(recs: Seq<ZoneRecord>, name: Seq<Seq<char>>) -> bool {
    exists|i: int| 0 <= i < recs.len() && zone_of(name, labels_of(#[trigger] recs[i].owner@))
}

/// Some record owned by `name` has type `t`.
pub open spec fn has_type_at(recs: Seq<ZoneRecord>, name: Seq<Seq<char>>, t: u16) -> bool {
    exists|i: int| 0 <= i < recs.len() && labels_of(#[trigger] recs[i].owner@) == name && recs[i].rtype == t
}

/// `name`, below the origin, holds NS records: a delegation.
pub open spec fn delegation_at(recs: Seq<ZoneRecord>, origin: Seq<Seq<char>>, name: Seq<Seq<char>>) -> bool {
    name != origin && has_type_at(recs, name, RTYPE_NS)
}

/// The descent goes on past `name`: something exists there, and it is no delegation.
pub open spec fn level_ok(recs: Seq<ZoneRecord>, origin: Seq<Seq<char>>, name: Seq<Seq<char>>) -> bool {
    exists_at(recs, name) && !delegation_at(recs, origin, name)
}

/// The descent goes on past every level from `lo` up to but not including `hi` labels of `q`.
pub open spec fn levels_ok(recs: Seq<ZoneRecord>, origin: Seq<Seq<char>>, q: Seq<Seq<char>>, lo: int, hi: int) -> bool {
    forall|j: int| lo <= j < hi ==> level_ok(recs, origin, #[trigger] suffix_of(q, j))
}

/// `name` with its first label replaced by `*`; `*` alone for the root.
pub open spec fn wild(name: Seq<Seq<char>>) -> Seq<Seq<char>> {
    if name.len() == 0 {
        seq!["*"@]
    } else {
        seq!["*"@] + name.skip(1)
    }
}

/// How a lookup ended.
#[derive(Clone, Copy, Debug, PartialEq, Eq, Structural)]
pub enum LookupCode {
    NoError,
    NXDomain,
    ServFail,
}

/// The records of an answer, as positions in the zone.
pub struct LookupResult {
    pub code: LookupCode,
    pub answers: Vec<usize>,
    pub authority: Vec<usize>,
    pub additionals: Vec<usize>,
}

/// A static zone.
pub struct Zone {
    pub origin: Vec<String>,
    pub records: Vec<ZoneRecord>,
}

fn labels_equal(a: &Vec<String>, b: &Vec<String>) -> (r: bool)
    ensures
        r == (labels_of(a@) == labels_of(b@)),
{
    if a.len() != b.len() {
        proof {
            assert(labels_of(a@).len() != labels_of(b@).len());
        }
        return false;
    }
    let mut i: usize = 0;
    while i < a.len()
        invariant
            a@.len() == b@.len(),
            i <= a@.len(),
            forall|j: int| 0 <= j < i ==> a@[j]@ == b@[j]@,
        decreases a@.len() - i,
    {
        if !crate::text::str_equal(a[i].as_str(), b[i].as_str()) {
            proof {
                assert(labels_of(a@)[i as int] != labels_of(b@)[i as int]);
            }
            return false;
        }
        i = i + 1;
    }
    proof {
        assert(labels_of(a@) =~= labels_of(b@));
    }
    true
}

/// Whether `zone` is `name` or an ancestor of it.
pub fn is_zone_of(zone: &Vec<String>, name: &Vec<String>) -> (r: bool)
    ensures
        r == zone_of(labels_of(zone@), labels_of(name@)),
{
    let n = name.len();
    let z = zone.len();
    if z > n {
        return false;
    }
    let mut i: usize = 0;
    while i < z
        invariant
            z == zone@.len(),
            n == name@.len(),
            z <= n,
            i <= z,
            forall|j: int| 0 <= j < i ==> zone@[j]@ == name@[n - z + j]@,
        decreases z - i,
    {
        if !crate::text::str_equal(zone[i].as_str(), name[n - z + i].as_str()) {
            proof {
                assert(labels_of(name@).subrange(n - z, n as int)[i as int] != labels_of(zone@)[i as int]);
            }
            return false;
        }
        i = i + 1;
    }
    proof {
        assert(labels_of(name@).subrange(n - z, n as int) =~= labels_of(zone@));
    }
    true
}

/// The last `k` labels of `name`.
fn suffix(name: &Vec<String>, k: usize) -> (r: Vec<String>)
    requires
        k <= name@.len(),
    ensures
        labels_of(r@) == suffix_of(labels_of(name@), k as int),
{
    let n = name.len();
    let mut out: Vec<String> = Vec::new();
    let mut i: usize = n - k;
    while i < n
        invariant
            n == name@.len(),
            k <= n,
            n - k <= i <= n,
            labels_of(out@) == labels_of(name@).subrange(n - k, i as int),
        decreases n - i,
    {
        let ghost prev = out@;
        out.push(name[i].clone());
        proof {
            assert(labels_of(out@) =~= labels_of(prev).push(name@[i as int]@));
            assert(labels_of(out@) =~= labels_of(name@).subrange(n - k, i + 1));
        }
        i = i + 1;
    }
    out
}

/// `name` with its first label replaced by `*`; `*` alone for the root.
fn into_wildcard(name: &Vec<String>) -> (r: Vec<String>)
    ensures
        labels_of(r@) == wild(labels_of(name@)),
{
    let mut out: Vec<String> = Vec::new();
    out.push(String::from_str("*"));
    let mut i: usize = 1;
    proof {
        if name@.len() > 0 {
            assert(labels_of(out@) =~= seq!["*"@] + labels_of(name@).subrange(1, 1));
        } else {
            assert(labels_of(out@) =~= seq!["*"@]);
        }
    }
    while i < name.len()
        invariant
            1 <= i,
            i <= name@.len() || (name@.len() == 0 && i == 1),
            name@.len() > 0 ==> labels_of(out@) == seq!["*"@] + labels_of(name@).subrange(1, i as int),
            name@.len() == 0 ==> labels_of(out@) == seq!["*"@],
        decreases name@.len() - i,
    {
        let ghost prev = out@;
        out.push(name[i].clone());
        proof {
            assert(labels_of(out@) =~= labels_of(prev).push(name@[i as int]@));
            assert(labels_of(out@) =~= seq!["*"@] + labels_of(name@).subrange(1, i + 1));
        }
        i = i + 1;
    }
    proof {
        if name@.len() > 0 {
            assert(labels_of(name@).subrange(1, i as int) =~= labels_of(name@).skip(1));
        }
    }
    out
}

impl Zone {
    /// The positions of the records owned by `name`; `None` where neither `name` nor any name
    /// below it owns a record.
    pub fn lookup_exact(&self, name: &Vec<String>) -> (r: Option<Vec<usize>>)
        ensures
            r is None <==> forall|i: int|
                0 <= i < self.records@.len() ==> !zone_of(labels_of(name@), labels_of(#[trigger] self.records@[i].owner@)),
            r is Some ==> forall|k: int|
                0 <= k < r->0@.len() ==> #[trigger] r->0@[k] < self.records@.len() && labels_of(
                    self.records@[r->0@[k] as int].owner@,
                ) == labels_of(name@),
            r is Some ==> forall|i: int|
                0 <= i < self.records@.len() && labels_of(#[trigger] self.records@[i].owner@) == labels_of(name@)
                    ==> r->0@.contains(i as usize),
    {
        let mut out: Vec<usize> = Vec::new();
        let mut below = false;
        let mut i: usize = 0;
        while i < self.records.len()
            invariant
                i <= self.records@.len(),
                forall|k: int|
                    0 <= k < out@.len() ==> #[trigger] out@[k] < self.records@.len() && labels_of(
                        self.records@[out@[k] as int].owner@,
                    ) == labels_of(name@),
                below == exists|j: int|
                    0 <= j < i && zone_of(labels_of(name@), labels_of(#[trigger] self.records@[j].owner@)),
                forall|j: int|
                    0 <= j < i && labels_of(#[trigger] self.records@[j].owner@) == labels_of(name@)
                        ==> out@.contains(j as usize),
            decreases self.records@.len() - i,
        {
            let owner = &self.records[i].owner;
            if is_zone_of(name, owner) {
                below = true;
            }
            let ghost prev = out@;
            if labels_equal(owner, name) {
                out.push(i);
                proof {
                    assert(out@[prev.len() as int] == i);
                }
            }
            proof {
                assert forall|j: int|
                    0 <= j < i + 1 && labels_of(#[trigger] self.records@[j].owner@) == labels_of(name@)
                        implies out@.contains(j as usize) by {
                    if j < i {
                        let q = choose|q: int| 0 <= q < prev.len() && prev[q] == j as usize;
                        assert(out@[q] == prev[q]);
                    }
                }
            }
            i = i + 1;
        }
        if below {
            Some(out)
        } else {
            None
        }
    }

    /// The positions of the records owned by `name` with type `t`, in zone order.
    pub fn records_at(&self, name: &Vec<String>, t: u16) -> (r: Vec<usize>)
        ensures
            forall|k: int|
                0 <= k < r@.len() ==> #[trigger] r@[k] < self.records@.len() && owns(self.records@, r@[k] as int, labels_of(name@))
                    && self.records@[r@[k] as int].rtype == t,
            forall|i: int|
                0 <= i < self.records@.len() ==> (r@.contains(i as usize) <==> (#[trigger] owns(self.records@, i, labels_of(name@))
                    && self.records@[i].rtype == t)),
    {
        let mut out: Vec<usize> = Vec::new();
        let mut i: usize = 0;
        while i < self.records.len()
            invariant
                i <= self.records@.len(),
                forall|k: int|
                    0 <= k < out@.len() ==> #[trigger] out@[k] < i && owns(self.records@, out@[k] as int, labels_of(name@))
                        && self.records@[out@[k] as int].rtype == t,
                forall|j: int|
                    0 <= j < self.records@.len() ==> (out@.contains(j as usize) <==> (j < i && owns(self.records@, j, labels_of(name@))
                        && self.records@[j].rtype == t)),
            decreases self.records@.len() - i,
        {
            let ghost prev = out@;
            if self.records[i].rtype == t && labels_equal(&self.records[i].owner, name) {
                out.push(i);
                proof {
                    assert(out@[prev.len() as int] == i);
                }
            }
            proof {
                assert forall|j: int|
                    0 <= j < self.records@.len() implies (out@.contains(j as usize) <==> (j < i + 1 && owns(
                        self.records@,
                        j,
                        labels_of(name@),
                    ) && self.records@[j].rtype == t)) by {
                    if out@.contains(j as usize) {
                        let q = choose|q: int| 0 <= q < out@.len() && out@[q] == j as usize;
                        if q < prev.len() {
                            assert(prev[q] == j as usize);
                            assert(prev.contains(j as usize));
                        }
                    }
                    if j < i && owns(self.records@, j, labels_of(name@)) && self.records@[j].rtype == t {
                        assert(prev.contains(j as usize));
                        let q = choose|q: int| 0 <= q < prev.len() && prev[q] == j as usize;
                        assert(out@[q] == prev[q]);
                    }
                }
            }
            i = i + 1;
        }
        out
    }

    /// Answers `qname` (lower-case labels, root left out) for records of type `qtype`,
    /// descending from the origin one label at a time (RFC 6672 §3.2): a level below the origin
    /// with NS records is a delegation, answered with those records and the A and AAAA records of
    /// their name servers; the full name is answered with its CNAME records, or else its `qtype`
    /// records; a level where nothing exists is answered from the wildcard at that level, or
    /// with NXDOMAIN. An answer without records and without delegation, and every error, carries
    /// the SOA records of the origin.
    pub fn lookup(&self, qname: &Vec<String>, qtype: u16) -> (r: LookupResult)
        ensures
            (r.code == LookupCode::ServFail) <==> !zone_of(labels_of(self.origin@), labels_of(qname@)),
            forall|k: int|
                0 <= k < r.authority@.len() ==> #[trigger] r.authority@[k] < self.records@.len() && ({
                    let rec = self.records@[r.authority@[k] as int];
                    rec.rtype == RTYPE_NS || (rec.rtype == RTYPE_SOA && labels_of(rec.owner@)
                        == labels_of(self.origin@))
                }),
            forall|k: int|
                0 <= k < r.additionals@.len() ==> #[trigger] r.additionals@[k] < self.records@.len() && (
                self.records@[r.additionals@[k] as int].rtype == RTYPE_A
                    || self.records@[r.additionals@[k] as int].rtype == RTYPE_AAAA),
            zone_of(labels_of(self.origin@), labels_of(qname@)) && levels_ok(self.records@, labels_of(self.origin@),
                labels_of(qname@), self.origin@.len() as int, qname@.len() as int + 1) ==> forall|i: int|
                0 <= i < self.records@.len() ==> (r.answers@.contains(i as usize) <==> (#[trigger] owns(self.records@, i,
                    labels_of(qname@)) && self.records@[i].rtype == if has_type_at(self.records@, labels_of(qname@), RTYPE_CNAME) {
                    RTYPE_CNAME
                } else {
                    qtype
                })),
            forall|k: int|
                zone_of(labels_of(self.origin@), labels_of(qname@)) && self.origin@.len() <= k <= qname@.len()
                    && levels_ok(self.records@, labels_of(self.origin@), labels_of(qname@), self.origin@.len() as int, k)
                    && exists_at(self.records@, #[trigger] suffix_of(labels_of(qname@), k)) && delegation_at(
                    self.records@,
                    labels_of(self.origin@),
                    suffix_of(labels_of(qname@), k),
                ) ==> (forall|i: int|
                    0 <= i < self.records@.len() && owns(self.records@, i, suffix_of(labels_of(qname@), k))
                        && self.records@[i].rtype == RTYPE_NS ==> r.authority@.contains(i as usize)) && (forall|i: int, g: int|
                    0 <= i < self.records@.len() && 0 <= g < self.records@.len() && owns(self.records@, i, suffix_of(labels_of(qname@), k))
                        && self.records@[i].rtype == RTYPE_NS && owns(self.records@, g, labels_of(self.records@[i].ns_target@))
                        && (self.records@[g].rtype == RTYPE_A || self.records@[g].rtype == RTYPE_AAAA)
                        ==> r.additionals@.contains(g as usize)),
            forall|k: int|
                zone_of(labels_of(self.origin@), labels_of(qname@)) && self.origin@.len() <= k <= qname@.len()
                    && levels_ok(self.records@, labels_of(self.origin@), labels_of(qname@), self.origin@.len() as int, k)
                    && !exists_at(self.records@, #[trigger] suffix_of(labels_of(qname@), k)) && !exists_at(
                    self.records@,
                    wild(suffix_of(labels_of(qname@), k)),
                ) ==> r.code == LookupCode::NXDomain,
            r.code != LookupCode::NoError || (r.answers@.len() == 0 && forall|k: int|
                0 <= k < r.authority@.len() ==> self.records@[#[trigger] r.authority@[k] as int].rtype != RTYPE_NS)
                ==> forall|i: int|
                0 <= i < self.records@.len() && owns(self.records@, i, labels_of(self.origin@))
                    && self.records@[i].rtype == RTYPE_SOA ==> r.authority@.contains(i as usize),
    {
        let mut answers: Vec<usize> = Vec::new();
        let mut authority: Vec<usize> = Vec::new();
        let mut additionals: Vec<usize> = Vec::new();
        let mut code = LookupCode::NoError;
        let total = self.records.len();
        let ghost recs = self.records@;
        let ghost org = labels_of(self.origin@);
        let ghost q = labels_of(qname@);
        let ghost mut ev: int = 0;
        let ghost mut stop: int = 0;
        if !is_zone_of(&self.origin, qname) {
            code = LookupCode::ServFail;
        } else {
            let n = qname.len();
            let o = self.origin.len();
            let mut k: usize = o;
            let mut done = false;
            while !done
                invariant
                    o == self.origin@.len(),
                    n == qname@.len(),
                    o <= k <= n,
                    zone_of(org, q),
                    recs == self.records@,
                    recs.len() == total,
                    org == labels_of(self.origin@),
                    q == labels_of(qname@),
                    levels_ok(recs, org, q, o as int, k as int),
                    code != LookupCode::ServFail,
                    forall|j: int|
                        0 <= j < authority@.len() ==> #[trigger] authority@[j] < recs.len() && recs[authority@[j] as int].rtype == RTYPE_NS,
                    forall|j: int|
                        0 <= j < additionals@.len() ==> #[trigger] additionals@[j] < recs.len() && (
                        recs[additionals@[j] as int].rtype == RTYPE_A || recs[additionals@[j] as int].rtype == RTYPE_AAAA),
                    !done ==> answers@.len() == 0 && authority@.len() == 0 && additionals@.len() == 0 && code == LookupCode::NoError,
                    done ==> stop == k && (ev == 1 || ev == 2 || ev == 3),
                    done && ev == 1 ==> exists_at(recs, suffix_of(q, k as int)) && delegation_at(recs, org, suffix_of(q, k as int))
                        && answers@.len() == 0 && code == LookupCode::NoError
                        && (forall|i: int| 0 <= i < recs.len() ==> (authority@.contains(i as usize) <==> (owns(recs, i, suffix_of(q, k as int)) && recs[i].rtype == RTYPE_NS)))
                        && (forall|i: int, g: int| 0 <= i < recs.len() && 0 <= g < recs.len() && owns(recs, i, suffix_of(q, k as int))
                            && recs[i].rtype == RTYPE_NS && owns(recs, g, labels_of(recs[i].ns_target@))
                            && (recs[g].rtype == RTYPE_A || recs[g].rtype == RTYPE_AAAA) ==> additionals@.contains(g as usize)),
                    done && ev == 2 ==> k == n && level_ok(recs, org, q) && code == LookupCode::NoError && authority@.len() == 0
                        && forall|i: int| 0 <= i < recs.len() ==> (answers@.contains(i as usize) <==> (#[trigger] owns(recs, i, q)
                            && recs[i].rtype == if has_type_at(recs, q, RTYPE_CNAME) { RTYPE_CNAME } else { qtype })),
                    done && ev == 3 ==> !exists_at(recs, suffix_of(q, k as int)) && authority@.len() == 0
                        && (!exists_at(recs, wild(suffix_of(q, k as int))) ==> code == LookupCode::NXDomain),
                    forall|j: int|
                        0 <= j < answers@.len() ==> #[trigger] answers@[j] < recs.len(),
                decreases n - k, if done { 0int } else { 1int },
            {
                let name = suffix(qname, k);
                proof {
                    assert(labels_of(name@) == suffix_of(q, k as int));
                }
                match self.lookup_exact(&name) {
                    Some(_) => {
                        proof {
                            assert(exists_at(recs, suffix_of(q, k as int)));
                        }
                        let ns = self.records_at(&name, RTYPE_NS);
                        let at_origin = labels_equal(&name, &self.origin);
                        proof {
                            if has_type_at(recs, suffix_of(q, k as int), RTYPE_NS) {
                                let i = choose|i: int| 0 <= i < recs.len() && labels_of(#[trigger] recs[i].owner@) == suffix_of(q, k as int) && recs[i].rtype == RTYPE_NS;
                                assert(owns(recs, i, labels_of(name@)));
                                assert(ns@.contains(i as usize));
                            }
                            if ns@.len() > 0 {
                                assert(owns(recs, ns@[0] as int, labels_of(name@)));
                                assert(recs[ns@[0] as int].rtype == RTYPE_NS);
                            }
                        }
                        if !at_origin && ns.len() > 0 {
                            let mut j: usize = 0;
                            while j < ns.len()
                                invariant
                                    j <= ns@.len(),
                                    recs == self.records@,
                                    recs.len() == total,
                                    forall|x: int| 0 <= x < ns@.len() ==> #[trigger] ns@[x] < recs.len() && owns(recs, ns@[x] as int, labels_of(name@)) && recs[ns@[x] as int].rtype == RTYPE_NS,
                                    forall|x: int|
                                        0 <= x < additionals@.len() ==> #[trigger] additionals@[x] < recs.len() && (
                                        recs[additionals@[x] as int].rtype == RTYPE_A || recs[additionals@[x] as int].rtype == RTYPE_AAAA),
                                    forall|x: int, g: int| 0 <= x < j && 0 <= g < recs.len() && #[trigger] owns(recs, g, labels_of(recs[ns@[x] as int].ns_target@))
                                        && (recs[g].rtype == RTYPE_A || recs[g].rtype == RTYPE_AAAA) ==> additionals@.contains(g as usize),
                                decreases ns@.len() - j,
                            {
                                let target = &self.records[ns[j]].ns_target;
                                let mut a = self.records_at(target, RTYPE_A);
                                let mut aaaa = self.records_at(target, RTYPE_AAAA);
                                let ghost before = additionals@;
                                let ghost av = a@;
                                let ghost aaaav = aaaa@;
                                additionals.append(&mut a);
                                additionals.append(&mut aaaa);
                                proof {
                                    assert(additionals@ == before + av + aaaav);
                                    assert forall|x: int| 0 <= x < additionals@.len() implies #[trigger] additionals@[x] < recs.len() && (
                                        recs[additionals@[x] as int].rtype == RTYPE_A || recs[additionals@[x] as int].rtype == RTYPE_AAAA) by {
                                        if x < before.len() {
                                            assert(additionals@[x] == before[x]);
                                        } else if x < before.len() + av.len() {
                                            assert(additionals@[x] == av[x - before.len()]);
                                        } else {
                                            assert(additionals@[x] == aaaav[x - before.len() - av.len()]);
                                        }
                                    }
                                    assert forall|x: int, g: int| 0 <= x < j + 1 && 0 <= g < recs.len() && #[trigger] owns(recs, g, labels_of(recs[ns@[x] as int].ns_target@))
                                        && (recs[g].rtype == RTYPE_A || recs[g].rtype == RTYPE_AAAA) implies additionals@.contains(g as usize) by {
                                        if x < j {
                                            let w = choose|w: int| 0 <= w < before.len() && before[w] == g as usize;
                                            assert(additionals@[w] == before[w]);
                                        } else if recs[g].rtype == RTYPE_A {
                                            assert(av.contains(g as usize));
                                            let w = choose|w: int| 0 <= w < av.len() && av[w] == g as usize;
                                            assert(additionals@[before.len() + w] == av[w]);
                                        } else {
                                            assert(aaaav.contains(g as usize));
                                            let w = choose|w: int| 0 <= w < aaaav.len() && aaaav[w] == g as usize;
                                            assert(additionals@[before.len() + av.len() + w] == aaaav[w]);
                                        }
                                    }
                                }
                                j = j + 1;
                            }
                            authority = ns;
                            proof {
                                assert(delegation_at(recs, org, suffix_of(q, k as int)));
                                assert forall|i: int, g: int| 0 <= i < recs.len() && 0 <= g < recs.len() && owns(recs, i, suffix_of(q, k as int))
                                    && recs[i].rtype == RTYPE_NS && owns(recs, g, labels_of(recs[i].ns_target@))
                                    && (recs[g].rtype == RTYPE_A || recs[g].rtype == RTYPE_AAAA) implies additionals@.contains(g as usize) by {
                                    assert(authority@.contains(i as usize));
                                    let x = choose|x: int| 0 <= x < authority@.len() && authority@[x] == i as usize;
                                    assert(authority@[x] as int == i);
                                    assert(recs[authority@[x] as int].ns_target == recs[i].ns_target);
                                }
                            }
                            done = true;
                            proof {
                                ev = 1;
                                stop = k as int;
                            }
                        } else if k == n {
                            let cname = self.records_at(&name, RTYPE_CNAME);
                            proof {
                                assert(suffix_of(q, n as int) =~= q);
                                if has_type_at(recs, q, RTYPE_CNAME) {
                                    let i = choose|i: int| 0 <= i < recs.len() && labels_of(#[trigger] recs[i].owner@) == q && recs[i].rtype == RTYPE_CNAME;
                                    assert(owns(recs, i, labels_of(name@)));
                                    assert(cname@.contains(i as usize));
                                }
                                if cname@.len() > 0 {
                                    assert(owns(recs, cname@[0] as int, labels_of(name@)));
                                    assert(recs[cname@[0] as int].rtype == RTYPE_CNAME);
                                }
                            }
                            if cname.len() > 0 {
                                answers = cname;
                            } else {
                                answers = self.records_at(&name, qtype);
                            }
                            done = true;
                            proof {
                                ev = 2;
                                stop = k as int;
                                assert(level_ok(recs, org, q));
                            }
                        } else {
                            proof {
                                assert(level_ok(recs, org, suffix_of(q, k as int)));
                                assert forall|j: int| o <= j < k + 1 implies level_ok(recs, org, #[trigger] suffix_of(q, j)) by {}
                            }
                            k = k + 1;
                        }
                    },
                    None => {
                        proof {
                            assert(labels_of(name@).subrange(0, labels_of(name@).len() as int) =~= labels_of(name@));
                            assert(zone_of(labels_of(name@), labels_of(name@)));
                            if exists_at(recs, suffix_of(q, k as int)) {
                                let i = choose|i: int| 0 <= i < recs.len() && zone_of(suffix_of(q, k as int), labels_of(#[trigger] recs[i].owner@));
                            }
                        }
                        let wildcard = into_wildcard(&name);
                        match self.lookup_exact(&wildcard) {
                            Some(_) => {
                                answers = self.records_at(&wildcard, qtype);
                            },
                            None => {
                                code = LookupCode::NXDomain;
                            },
                        }
                        proof {
                            if !exists_at(recs, wild(suffix_of(q, k as int))) {
                                assert(labels_of(wildcard@) == wild(suffix_of(q, k as int)));
                            }
                        }
                        done = true;
                        proof {
                            ev = 3;
                            stop = k as int;
                        }
                    },
                }
            }
            proof {
                assert forall|k0: int|
                    zone_of(org, q) && o <= k0 <= n && levels_ok(recs, org, q, o as int, k0)
                        && !exists_at(recs, #[trigger] suffix_of(q, k0)) && !exists_at(recs, wild(suffix_of(q, k0)))
                        implies code == LookupCode::NXDomain by {
                    if k < k0 {
                        assert(level_ok(recs, org, suffix_of(q, k as int)));
                    } else if k > k0 {
                        assert(level_ok(recs, org, suffix_of(q, k0)));
                    } else {
                        if ev == 2 {
                            assert(suffix_of(q, n as int) =~= q);
                        }
                    }
                }
                assert forall|k0: int|
                    zone_of(org, q) && o <= k0 <= n && levels_ok(recs, org, q, o as int, k0)
                        && exists_at(recs, #[trigger] suffix_of(q, k0)) && delegation_at(recs, org, suffix_of(q, k0))
                        implies ev == 1 && k == k0 && (forall|i: int|
                            0 <= i < recs.len() && owns(recs, i, suffix_of(q, k0)) && recs[i].rtype == RTYPE_NS
                                ==> authority@.contains(i as usize)) && (forall|i: int, g: int|
                            0 <= i < recs.len() && 0 <= g < recs.len() && owns(recs, i, suffix_of(q, k0))
                                && recs[i].rtype == RTYPE_NS && owns(recs, g, labels_of(recs[i].ns_target@))
                                && (recs[g].rtype == RTYPE_A || recs[g].rtype == RTYPE_AAAA)
                                ==> additionals@.contains(g as usize)) by {
                    if k < k0 {
                        assert(level_ok(recs, org, suffix_of(q, k as int)));
                        if ev == 2 {
                            assert(k0 <= n);
                        }
                    } else if k > k0 {
                        assert(level_ok(recs, org, suffix_of(q, k0)));
                    } else {
                        if ev == 2 {
                            assert(suffix_of(q, n as int) =~= q);
                        }
                    }
                }
            }
        }
        let ghost before_soa = authority@;
        let pushed = (answers.len() == 0 && authority.len() == 0) || code != LookupCode::NoError;
        if pushed {
            let mut soa = self.records_at(&self.origin, RTYPE_SOA);
            let ghost sv = soa@;
            authority.append(&mut soa);
            proof {
                assert(authority@ == before_soa + sv);
                assert forall|i: int|
                    0 <= i < recs.len() && owns(recs, i, org) && recs[i].rtype == RTYPE_SOA implies authority@.contains(i as usize) by {
                    assert(sv.contains(i as usize));
                    let w = choose|w: int| 0 <= w < sv.len() && sv[w] == i as usize;
                    assert(authority@[before_soa.len() + w] == sv[w]);
                }
                assert forall|x: int| 0 <= x < before_soa.len() implies #[trigger] authority@[x] == before_soa[x] by {}
            }
        } else {
            proof {
                if code == LookupCode::NoError && answers@.len() == 0 {
                    assert(authority@.len() > 0);
                    assert(recs[authority@[0] as int].rtype == RTYPE_NS);
                }
            }
        }
        proof {
            assert forall|x: usize| #[trigger] before_soa.contains(x) implies authority@.contains(x) by {
                let w = choose|w: int| 0 <= w < before_soa.len() && before_soa[w] == x;
                assert(authority@[w] == before_soa[w]);
            }
            assert forall|x: int| 0 <= x < authority@.len() implies #[trigger] authority@[x] < recs.len() && ({
                let rec = recs[authority@[x] as int];
                rec.rtype == RTYPE_NS || (rec.rtype == RTYPE_SOA && labels_of(rec.owner@) == org)
            }) by {
                if x >= before_soa.len() {
                }
            }
        }
        LookupResult { code, answers, authority, additionals }
    }

}

} // verus!
