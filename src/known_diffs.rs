//! Bookkeeping of which difference kinds explain which differing keys.

use crate::difference::DifferenceKind;
use crate::text::{contains, ends_with, is_infix, is_prefix, is_suffix, starts_with, str_equal};
use crate::values::string_views;
use vstd::prelude::*;

verus! {

/// How a pattern selects keys.
#[derive(Clone, Copy, Debug, PartialEq, Eq, Structural)]
pub enum KeyMatch {
    Exact,
    Prefix,
    Suffix,
    Contains,
}

pub open spec fn key_matches(mode: KeyMatch, pattern: Seq<char>, key: Seq<char>) -> bool {
    match mode {
        KeyMatch::Exact => key == pattern,
        KeyMatch::Prefix => is_prefix(pattern, key),
        KeyMatch::Suffix => is_suffix(pattern, key),
        KeyMatch::Contains => is_infix(pattern, key),
    }
}

/// Whether `key` is selected by `pattern` under `mode`.
pub fn key_matches_exec(mode: KeyMatch, pattern: &str, key: &str) -> (r: bool)
    ensures
        r == key_matches(mode, pattern@, key@),
{
    match mode {
        KeyMatch::Exact => str_equal(key, pattern),
        KeyMatch::Prefix => starts_with(key, pattern),
        KeyMatch::Suffix => ends_with(key, pattern),
        KeyMatch::Contains => contains(key, pattern),
    }
}

/// The kinds after marking: `kind` is appended for the selected positions.
pub open spec fn marked(
    before: Seq<(Seq<char>, Seq<DifferenceKind>)>,
    after: Seq<(Seq<char>, Seq<DifferenceKind>)>,
    selected: spec_fn(int) -> bool,
    kind: DifferenceKind,
) -> bool {
    &&& after.len() == before.len()
    &&& forall|i: int|
        0 <= i < before.len() ==> (#[trigger] after[i]).0 == before[i].0 && after[i].1 == if selected(
            i,
        ) {
            before[i].1.push(kind)
        } else {
            before[i].1
        }
}

/// Each differing key with the kinds of difference that explain it.
pub struct KnownDiffs {
    entries: Vec<(String, Vec<DifferenceKind>)>,
}

impl View for KnownDiffs {
    type V = Seq<(Seq<char>, Seq<DifferenceKind>)>;

    closed spec fn view(&self) -> Seq<(Seq<char>, Seq<DifferenceKind>)> {
        self.entries@.map_values(|e: (String, Vec<DifferenceKind>)| (e.0@, e.1@))
    }
}

/// The keys of a known-differences table.
pub open spec fn keys_of(kd: Seq<(Seq<char>, Seq<DifferenceKind>)>) -> Seq<Seq<char>> {
    kd.map_values(|e: (Seq<char>, Seq<DifferenceKind>)| e.0)
}

/// Whether some key is explained by `kind`.
pub open spec fn has_kind_spec(kd: Seq<(Seq<char>, Seq<DifferenceKind>)>, kind: DifferenceKind) -> bool {
    exists|i: int| 0 <= i < kd.len() && (#[trigger] kd[i]).1.contains(kind)
}

/// The keys that no kind explains, in table order.
pub open spec fn unexplained_spec(kd: Seq<(Seq<char>, Seq<DifferenceKind>)>) -> Seq<Seq<char>>
    decreases kd.len(),
{
    if kd.len() == 0 {
        Seq::empty()
    } else if kd.last().1.len() == 0 {
        unexplained_spec(kd.drop_last()).push(kd.last().0)
    } else {
        unexplained_spec(kd.drop_last())
    }
}

impl KnownDiffs {
    /// One entry without kinds for each differing key.
    pub fn from_keys(diff_keys: &Vec<String>) -> (r: KnownDiffs)
        ensures
            keys_of(r@) == string_views(diff_keys@),
            forall|i: int| 0 <= i < r@.len() ==> (#[trigger] r@[i]).1.len() == 0,
    {
        let mut entries: Vec<(String, Vec<DifferenceKind>)> = Vec::new();
        let mut i: usize = 0;
        while i < diff_keys.len()
            invariant
                i <= diff_keys@.len(),
                entries@.len() == i,
                forall|j: int|
                    0 <= j < i ==> (#[trigger] entries@[j]).0@ == diff_keys@[j]@ && entries@[j].1@.len()
                        == 0,
            decreases diff_keys@.len() - i,
        {
            entries.push((diff_keys[i].clone(), Vec::new()));
            i = i + 1;
        }
        let r = KnownDiffs { entries };
        proof {
            assert(keys_of(r@) =~= string_views(diff_keys@));
        }
        r
    }

    pub fn len(&self) -> (r: usize)
        ensures
            r == self@.len(),
    {
        self.entries.len()
    }

    /// The key at position `i`.
    pub fn key_at(&self, i: usize) -> (r: &String)
        requires
            i < self@.len(),
        ensures
            r@ == self@[i as int].0,
    {
        &self.entries[i].0
    }

    /// The kinds explaining `key`, `None` where `key` did not differ.
    pub fn get(&self, key: &str) -> (r: Option<Vec<DifferenceKind>>)
        ensures
            r is None <==> !keys_of(self@).contains(key@),
            r is Some ==> exists|i: int|
                0 <= i < self@.len() && self@[i].0 == key@ && self@[i].1 == r->0@,
    {
        let mut i: usize = 0;
        while i < self.entries.len()
            invariant
                i <= self@.len(),
                self@.len() == self.entries@.len(),
                forall|j: int| 0 <= j < i ==> self@[j].0 != key@,
            decreases self@.len() - i,
        {
            if str_equal(self.entries[i].0.as_str(), key) {
                proof {
                    assert(keys_of(self@)[i as int] == key@);
                }
                return Some(self.entries[i].1.clone());
            }
            i = i + 1;
        }
        proof {
            if keys_of(self@).contains(key@) {
                let j = choose|j: int| 0 <= j < keys_of(self@).len() && keys_of(self@)[j] == key@;
                assert(self@[j].0 == key@);
            }
        }
        None
    }

    /// Appends `kind` to every key that `pattern` selects under `mode`.
    pub fn mark_matching(&mut self, mode: KeyMatch, pattern: &str, kind: DifferenceKind)
        ensures
            marked(old(self)@, final(self)@, |i: int| key_matches(mode, pattern@, old(self)@[i].0), kind),
    {
        let n = self.entries.len();
        let mut i: usize = 0;
        while i < n
            invariant
                n == self@.len(),
                n == old(self)@.len(),
                n == self.entries@.len(),
                i <= n,
                forall|j: int|
                    0 <= j < n ==> (#[trigger] self@[j]).0 == old(self)@[j].0 && self@[j].1 == if j < i
                        && key_matches(mode, pattern@, old(self)@[j].0) {
                        old(self)@[j].1.push(kind)
                    } else {
                        old(self)@[j].1
                    },
            decreases n - i,
        {
            if key_matches_exec(mode, pattern, self.entries[i].0.as_str()) {
                let ghost before = self@;
                let mut entry = self.entries.remove(i);
                entry.1.push(kind);
                self.entries.insert(i, entry);
                proof {
                    assert forall|j: int| 0 <= j < n implies #[trigger] self@[j] == if j == i {
                        (before[j].0, before[j].1.push(kind))
                    } else {
                        before[j]
                    } by {}
                }
            }
            i = i + 1;
        }
    }

    /// Appends `kind` to the kinds of `key`, where `key` differs.
    pub fn mark(&mut self, key: &str, kind: DifferenceKind)
        ensures
            marked(old(self)@, final(self)@, |i: int| old(self)@[i].0 == key@, kind),
    {
        self.mark_matching(KeyMatch::Exact, key, kind);
    }

    /// Appends `kind` to the kinds of `key` where `key` differs and `cond` holds.
    pub fn mark_if(&mut self, key: &str, kind: DifferenceKind, cond: bool)
        ensures
            marked(old(self)@, final(self)@, |i: int| cond && old(self)@[i].0 == key@, kind),
    {
        if cond {
            self.mark(key, kind);
        } else {
            proof {
                assert(marked(old(self)@, self@, |i: int| cond && old(self)@[i].0 == key@, kind));
            }
        }
    }

    /// Appends `kind` to every key containing `needle`.
    pub fn mark_contains(&mut self, needle: &str, kind: DifferenceKind)
        ensures
            marked(old(self)@, final(self)@, |i: int| is_infix(needle@, old(self)@[i].0), kind),
    {
        self.mark_matching(KeyMatch::Contains, needle, kind);
    }

    /// Appends `kind` to every key starting with `prefix`.
    pub fn mark_prefix(&mut self, prefix: &str, kind: DifferenceKind)
        ensures
            marked(old(self)@, final(self)@, |i: int| is_prefix(prefix@, old(self)@[i].0), kind),
    {
        self.mark_matching(KeyMatch::Prefix, prefix, kind);
    }

    /// Appends `kind` to every key ending with `suffix`.
    pub fn mark_suffix(&mut self, suffix: &str, kind: DifferenceKind)
        ensures
            marked(old(self)@, final(self)@, |i: int| is_suffix(suffix@, old(self)@[i].0), kind),
    {
        self.mark_matching(KeyMatch::Suffix, suffix, kind);
    }

    /// Appends `kind` to the key at position `i`.
    pub fn mark_at(&mut self, i: usize, kind: DifferenceKind)
        requires
            i < old(self)@.len(),
        ensures
            marked(old(self)@, final(self)@, |j: int| j == i, kind),
    {
        let ghost before = self@;
        let mut entry = self.entries.remove(i);
        entry.1.push(kind);
        self.entries.insert(i, entry);
        proof {
            assert forall|j: int| 0 <= j < before.len() implies #[trigger] self@[j] == if j == i {
                (before[j].0, before[j].1.push(kind))
            } else {
                before[j]
            } by {}
        }
    }

    /// Whether some key is explained by `kind`.
    pub fn has_kind(&self, kind: DifferenceKind) -> (r: bool)
        ensures
            r == has_kind_spec(self@, kind),
    {
        let mut i: usize = 0;
        while i < self.entries.len()
            invariant
                i <= self@.len(),
                self@.len() == self.entries@.len(),
                forall|j: int| 0 <= j < i ==> !(#[trigger] self@[j]).1.contains(kind),
            decreases self@.len() - i,
        {
            let kinds = &self.entries[i].1;
            let mut k: usize = 0;
            while k < kinds.len()
                invariant
                    i < self@.len(),
                    k <= kinds@.len(),
                    kinds@ == self@[i as int].1,
                    forall|m: int| 0 <= m < k ==> kinds@[m] != kind,
                decreases kinds@.len() - k,
            {
                if kinds[k] == kind {
                    proof {
                        assert(self@[i as int].1[k as int] == kind);
                        assert(self@[i as int].1.contains(kind));
                    }
                    return true;
                }
                k = k + 1;
            }
            i = i + 1;
        }
        false
    }

    /// Every kind that explains some key, each once.
    pub fn get_total_set(&self) -> (r: Vec<DifferenceKind>)
        ensures
            forall|a: int, b: int| 0 <= a < b < r@.len() ==> r@[a] != r@[b],
            forall|kind: DifferenceKind| r@.contains(kind) <==> has_kind_spec(self@, kind),
    {
        let mut out: Vec<DifferenceKind> = Vec::new();
        let mut i: usize = 0;
        while i < self.entries.len()
            invariant
                i <= self@.len(),
                self@.len() == self.entries@.len(),
                forall|a: int, b: int| 0 <= a < b < out@.len() ==> out@[a] != out@[b],
                forall|kind: DifferenceKind|
                    out@.contains(kind) <==> exists|j: int|
                        0 <= j < i && (#[trigger] self@[j]).1.contains(kind),
            decreases self@.len() - i,
        {
            let kinds = &self.entries[i].1;
            let mut k: usize = 0;
            while k < kinds.len()
                invariant
                    i < self@.len(),
                    k <= kinds@.len(),
                    kinds@ == self@[i as int].1,
                    forall|a: int, b: int| 0 <= a < b < out@.len() ==> out@[a] != out@[b],
                    forall|kind: DifferenceKind|
                        out@.contains(kind) <==> (exists|j: int|
                            0 <= j < i && (#[trigger] self@[j]).1.contains(kind)) || exists|m: int|
                            0 <= m < k && kinds@[m] == kind,
                decreases kinds@.len() - k,
            {
                let kind = kinds[k];
                let mut found = false;
                let mut m: usize = 0;
                while m < out.len()
                    invariant
                        m <= out@.len(),
                        found == exists|q: int| 0 <= q < m && out@[q] == kind,
                    decreases out@.len() - m,
                {
                    if out[m] == kind {
                        found = true;
                    }
                    m = m + 1;
                }
                let ghost old_out = out@;
                if !found {
                    out.push(kind);
                }
                proof {
                    assert forall|kd: DifferenceKind|
                        #![trigger out@.contains(kd)]
                        out@.contains(kd) <==> (old_out.contains(kd) || kd == kind) by {
                        if out@.contains(kd) {
                            let q = choose|q: int| 0 <= q < out@.len() && out@[q] == kd;
                            if q < old_out.len() {
                                assert(old_out[q] == kd);
                            }
                        }
                        if old_out.contains(kd) {
                            let q = choose|q: int| 0 <= q < old_out.len() && old_out[q] == kd;
                            assert(out@[q] == kd);
                        }
                        if kd == kind {
                            if found {
                                let q = choose|q: int| 0 <= q < old_out.len() && old_out[q] == kind;
                                assert(out@[q] == kd);
                            } else {
                                assert(out@[out@.len() - 1] == kd);
                            }
                        }
                    }
                    assert forall|a: int, b: int| 0 <= a < b < out@.len() implies out@[a] != out@[b] by {
                        if b >= old_out.len() {
                            assert(!found);
                            assert(out@[a] == old_out[a]);
                            assert(!(0 <= a < old_out.len() && old_out[a] == kind));
                        } else {
                            assert(out@[a] == old_out[a]);
                            assert(out@[b] == old_out[b]);
                        }
                    }
                    assert forall|kd: DifferenceKind|
                        out@.contains(kd) <==> (exists|j: int|
                            0 <= j < i && (#[trigger] self@[j]).1.contains(kd)) || exists|q: int|
                            0 <= q < k + 1 && kinds@[q] == kd by {
                        assert(out@.contains(kd) <==> (old_out.contains(kd) || kd == kind));
                        if kd == kind {
                            assert(kinds@[k as int] == kd);
                        } else {
                            if exists|q: int| 0 <= q < k + 1 && kinds@[q] == kd {
                                let q = choose|q: int| 0 <= q < k + 1 && kinds@[q] == kd;
                                assert(q < k);
                            }
                            if exists|q: int| 0 <= q < k && kinds@[q] == kd {
                                let q = choose|q: int| 0 <= q < k && kinds@[q] == kd;
                                assert(0 <= q < k + 1 && kinds@[q] == kd);
                            }
                        }
                    }
                }
                k = k + 1;
            }
            proof {
                assert forall|kd: DifferenceKind|
                    out@.contains(kd) <==> exists|j: int|
                        0 <= j < i + 1 && (#[trigger] self@[j]).1.contains(kd) by {
                    if exists|m: int| 0 <= m < kinds@.len() && kinds@[m] == kd {
                        let m = choose|m: int| 0 <= m < kinds@.len() && kinds@[m] == kd;
                        assert(self@[i as int].1.contains(kd));
                    }
                    if exists|j: int| 0 <= j < i + 1 && (#[trigger] self@[j]).1.contains(kd) {
                        let j = choose|j: int| 0 <= j < i + 1 && (#[trigger] self@[j]).1.contains(kd);
                        if j == i {
                            let m = choose|m: int| 0 <= m < kinds@.len() && kinds@[m] == kd;
                        }
                    }
                }
            }
            i = i + 1;
        }
        out
    }

    /// The keys that no kind explains, in table order.
    pub fn unexplained_keys(&self) -> (r: Vec<String>)
        ensures
            string_views(r@) == unexplained_spec(self@),
    {
        let mut out: Vec<String> = Vec::new();
        let mut i: usize = 0;
        while i < self.entries.len()
            invariant
                i <= self@.len(),
                self@.len() == self.entries@.len(),
                string_views(out@) == unexplained_spec(self@.subrange(0, i as int)),
            decreases self@.len() - i,
        {
            proof {
                assert(self@.subrange(0, i + 1).drop_last() =~= self@.subrange(0, i as int));
            }
            if self.entries[i].1.len() == 0 {
                out.push(self.entries[i].0.clone());
            }
            proof {
                assert(string_views(out@) =~= unexplained_spec(self@.subrange(0, i + 1)));
            }
            i = i + 1;
        }
        proof {
            assert(self@.subrange(0, self@.len() as int) =~= self@);
        }
        out
    }
}

/// A key of the table is unexplained exactly when it has no kind.
pub proof fn lemma_unexplained_members(kd: Seq<(Seq<char>, Seq<DifferenceKind>)>)
    ensures
        forall|k: Seq<char>|
            unexplained_spec(kd).contains(k) <==> exists|i: int|
                0 <= i < kd.len() && (#[trigger] kd[i]).0 == k && kd[i].1.len() == 0,
        unexplained_spec(kd).len() == 0 <==> forall|i: int|
            0 <= i < kd.len() ==> (#[trigger] kd[i]).1.len() > 0,
    decreases kd.len(),
{
    if kd.len() > 0 {
        let d = kd.drop_last();
        lemma_unexplained_members(d);
        assert forall|i: int| 0 <= i < d.len() implies #[trigger] d[i] == kd[i] by {}
        let u = unexplained_spec(kd);
        let ud = unexplained_spec(d);
        assert forall|k: Seq<char>|
            u.contains(k) <==> exists|i: int|
                0 <= i < kd.len() && (#[trigger] kd[i]).0 == k && kd[i].1.len() == 0 by {
            if u.contains(k) {
                let q = choose|q: int| 0 <= q < u.len() && u[q] == k;
                if kd.last().1.len() == 0 && q == u.len() - 1 {
                    assert(kd[kd.len() - 1].0 == k);
                } else {
                    assert(ud[q] == k);
                    assert(ud.contains(k));
                    let i = choose|i: int| 0 <= i < d.len() && (#[trigger] d[i]).0 == k && d[i].1.len() == 0;
                    assert(kd[i] == d[i]);
                }
            }
            if exists|i: int| 0 <= i < kd.len() && (#[trigger] kd[i]).0 == k && kd[i].1.len() == 0 {
                let i = choose|i: int| 0 <= i < kd.len() && (#[trigger] kd[i]).0 == k && kd[i].1.len() == 0;
                if i == kd.len() - 1 {
                    assert(u[u.len() - 1] == k);
                } else {
                    assert(d[i] == kd[i]);
                    assert(ud.contains(k));
                    let q = choose|q: int| 0 <= q < ud.len() && ud[q] == k;
                    assert(u[q] == k);
                }
            }
        }
        if u.len() == 0 {
            assert(kd.last().1.len() > 0);
            assert forall|i: int| 0 <= i < kd.len() implies (#[trigger] kd[i]).1.len() > 0 by {
                if i < kd.len() - 1 {
                    assert(d[i] == kd[i]);
                }
            }
        }
        if forall|i: int| 0 <= i < kd.len() ==> (#[trigger] kd[i]).1.len() > 0 {
            assert(kd[kd.len() - 1].1.len() > 0);
            assert forall|i: int| 0 <= i < d.len() implies (#[trigger] d[i]).1.len() > 0 by {
                assert(d[i] == kd[i]);
            }
        }
    }
}

} // verus!
