//! Merging two key-sorted sequences into one sequence of key-aligned triples.

use vstd::prelude::*;

verus! {

/// Keys strictly increase along `s`.
pub open spec fn strictly_sorted<V>(s: Seq<(i32, V)>) -> bool {
    forall|a: int, b: int| 0 <= a < b < s.len() ==> s[a].0 < s[b].0
}

/// Keys strictly increase along a merged sequence.
pub open spec fn merged_sorted<VL, VR>(s: Seq<(i32, Option<VL>, Option<VR>)>) -> bool {
    forall|a: int, b: int| 0 <= a < b < s.len() ==> s[a].0 < s[b].0
}

/// Merge of two key-sorted sequences: a key present on both sides yields one triple with both
/// values, a key present on one side yields a triple with that side's value only.
pub open spec fn merge_spec<VL, VR>(l: Seq<(i32, VL)>, r: Seq<(i32, VR)>) -> Seq<
    (i32, Option<VL>, Option<VR>),
>
    decreases l.len() + r.len(),
{
    if l.len() == 0 && r.len() == 0 {
        Seq::empty()
    } else if l.len() == 0 {
        seq![(r[0].0, None, Some(r[0].1))] + merge_spec(l, r.skip(1))
    } else if r.len() == 0 {
        seq![(l[0].0, Some(l[0].1), None)] + merge_spec(l.skip(1), r)
    } else if l[0].0 == r[0].0 {
        seq![(l[0].0, Some(l[0].1), Some(r[0].1))] + merge_spec(l.skip(1), r.skip(1))
    } else if l[0].0 < r[0].0 {
        seq![(l[0].0, Some(l[0].1), None)] + merge_spec(l.skip(1), r)
    } else {
        seq![(r[0].0, None, Some(r[0].1))] + merge_spec(l, r.skip(1))
    }
}

/// Every triple of the merge carries a value of at least one side, and each value it carries is
/// an item of that side under the triple's key.
pub open spec fn merge_items_from_inputs<VL, VR>(
    l: Seq<(i32, VL)>,
    r: Seq<(i32, VR)>,
    m: Seq<(i32, Option<VL>, Option<VR>)>,
) -> bool {
    &&& forall|j: int|
        0 <= j < m.len() ==> (#[trigger] m[j]).1 is Some || m[j].2 is Some
    &&& forall|j: int|
        0 <= j < m.len() && (#[trigger] m[j]).1 is Some ==> exists|i: int|
            0 <= i < l.len() && l[i] == (m[j].0, m[j].1->0)
    &&& forall|j: int|
        0 <= j < m.len() && (#[trigger] m[j]).2 is Some ==> exists|i: int|
            0 <= i < r.len() && r[i] == (m[j].0, m[j].2->0)
}

/// Every input item appears in some triple of the merge, under its key and on its side.
pub open spec fn merge_covers_inputs<VL, VR>(
    l: Seq<(i32, VL)>,
    r: Seq<(i32, VR)>,
    m: Seq<(i32, Option<VL>, Option<VR>)>,
) -> bool {
    &&& forall|i: int|
        0 <= i < l.len() ==> exists|j: int|
            0 <= j < m.len() && m[j].0 == (#[trigger] l[i]).0 && m[j].1 == Some(l[i].1)
    &&& forall|i: int|
        0 <= i < r.len() ==> exists|j: int|
            0 <= j < m.len() && m[j].0 == (#[trigger] r[i]).0 && m[j].2 == Some(r[i].1)
}

/// Lower bound on every key of a merge: each of them is a key of one of the inputs.
proof fn lemma_merge_keys_bounded<VL, VR>(l: Seq<(i32, VL)>, r: Seq<(i32, VR)>, lo: int)
    requires
        forall|i: int| 0 <= i < l.len() ==> lo < (#[trigger] l[i]).0,
        forall|i: int| 0 <= i < r.len() ==> lo < (#[trigger] r[i]).0,
    ensures
        forall|j: int|
            0 <= j < merge_spec(l, r).len() ==> lo < (#[trigger] merge_spec(l, r)[j]).0,
    decreases l.len() + r.len(),
{
    let m = merge_spec(l, r);
    if l.len() == 0 && r.len() == 0 {
    } else if l.len() == 0 {
        lemma_merge_keys_bounded(l, r.skip(1), lo);
        assert forall|j: int| 0 <= j < m.len() implies lo < (#[trigger] m[j]).0 by {
            if j > 0 {
                assert(m[j] == merge_spec(l, r.skip(1))[j - 1]);
            }
        }
    } else if r.len() == 0 {
        lemma_merge_keys_bounded(l.skip(1), r, lo);
        assert forall|j: int| 0 <= j < m.len() implies lo < (#[trigger] m[j]).0 by {
            if j > 0 {
                assert(m[j] == merge_spec(l.skip(1), r)[j - 1]);
            }
        }
    } else if l[0].0 == r[0].0 {
        lemma_merge_keys_bounded(l.skip(1), r.skip(1), lo);
        assert forall|j: int| 0 <= j < m.len() implies lo < (#[trigger] m[j]).0 by {
            if j > 0 {
                assert(m[j] == merge_spec(l.skip(1), r.skip(1))[j - 1]);
            }
        }
    } else if l[0].0 < r[0].0 {
        lemma_merge_keys_bounded(l.skip(1), r, lo);
        assert forall|j: int| 0 <= j < m.len() implies lo < (#[trigger] m[j]).0 by {
            if j > 0 {
                assert(m[j] == merge_spec(l.skip(1), r)[j - 1]);
            }
        }
    } else {
        lemma_merge_keys_bounded(l, r.skip(1), lo);
        assert forall|j: int| 0 <= j < m.len() implies lo < (#[trigger] m[j]).0 by {
            if j > 0 {
                assert(m[j] == merge_spec(l, r.skip(1))[j - 1]);
            }
        }
    }
}

/// The merge of two strictly sorted sequences has strictly increasing keys.
proof fn lemma_merge_sorted<VL, VR>(l: Seq<(i32, VL)>, r: Seq<(i32, VR)>)
    requires
        strictly_sorted(l),
        strictly_sorted(r),
    ensures
        merged_sorted(merge_spec(l, r)),
    decreases l.len() + r.len(),
{
    let m = merge_spec(l, r);
    if l.len() == 0 && r.len() == 0 {
    } else {
        let (head, tl, tr) = if l.len() == 0 {
            (r[0].0 as int, l, r.skip(1))
        } else if r.len() == 0 {
            (l[0].0 as int, l.skip(1), r)
        } else if l[0].0 == r[0].0 {
            (l[0].0 as int, l.skip(1), r.skip(1))
        } else if l[0].0 < r[0].0 {
            (l[0].0 as int, l.skip(1), r)
        } else {
            (r[0].0 as int, l, r.skip(1))
        };
        assert(m == seq![m[0]] + merge_spec(tl, tr));
        assert(m[0].0 == head);
        lemma_merge_sorted(tl, tr);
        assert forall|i: int| 0 <= i < tl.len() implies head < (#[trigger] tl[i]).0 by {
            if l.len() > 0 && tl.len() == l.len() - 1 {
                assert(tl[i] == l[i + 1]);
            } else if tl.len() == l.len() && r.len() > 0 {
                assert(r[0].0 < l[0].0 || l.len() == 0);
            }
        }
        assert forall|i: int| 0 <= i < tr.len() implies head < (#[trigger] tr[i]).0 by {
            if r.len() > 0 && tr.len() == r.len() - 1 {
                assert(tr[i] == r[i + 1]);
            }
        }
        lemma_merge_keys_bounded(tl, tr, head);
        let rest = merge_spec(tl, tr);
        assert forall|a: int, b: int| 0 <= a < b < m.len() implies m[a].0 < m[b].0 by {
            assert(m[b] == rest[b - 1]);
            if a > 0 {
                assert(m[a] == rest[a - 1]);
            }
        }
    }
}

/// Whether the merge of `l` and `r` takes the first item of `l` first.
spec fn takes_left<VL, VR>(l: Seq<(i32, VL)>, r: Seq<(i32, VR)>) -> bool {
    l.len() > 0 && (r.len() == 0 || l[0].0 <= r[0].0)
}

/// Whether the merge of `l` and `r` takes the first item of `r` first.
spec fn takes_right<VL, VR>(l: Seq<(i32, VL)>, r: Seq<(i32, VR)>) -> bool {
    r.len() > 0 && (l.len() == 0 || r[0].0 <= l[0].0)
}

proof fn lemma_merge_unfold<VL, VR>(l: Seq<(i32, VL)>, r: Seq<(i32, VR)>)
    requires
        l.len() + r.len() > 0,
    ensures
        ({
            let m = merge_spec(l, r);
            let tl = if takes_left(l, r) { l.skip(1) } else { l };
            let tr = if takes_right(l, r) { r.skip(1) } else { r };
            &&& m.len() == 1 + merge_spec(tl, tr).len()
            &&& forall|j: int| 0 < j < m.len() ==> #[trigger] m[j] == merge_spec(tl, tr)[j - 1]
            &&& m[0].0 == (if takes_left(l, r) { l[0].0 } else { r[0].0 })
            &&& m[0].1 == (if takes_left(l, r) { Some(l[0].1) } else { None })
            &&& m[0].2 == (if takes_right(l, r) { Some(r[0].1) } else { None })
        }),
{
}

/// Every triple of the merge comes from the inputs.
#[verifier::rlimit(60)]
proof fn lemma_merge_from_inputs<VL, VR>(l: Seq<(i32, VL)>, r: Seq<(i32, VR)>)
    ensures
        merge_items_from_inputs(l, r, merge_spec(l, r)),
    decreases l.len() + r.len(),
{
    let m = merge_spec(l, r);
    if l.len() + r.len() > 0 {
        let dl: int = if takes_left(l, r) { 1 } else { 0 };
        let dr: int = if takes_right(l, r) { 1 } else { 0 };
        let tl = if takes_left(l, r) { l.skip(1) } else { l };
        let tr = if takes_right(l, r) { r.skip(1) } else { r };
        lemma_merge_unfold(l, r);
        lemma_merge_from_inputs(tl, tr);
        let rest = merge_spec(tl, tr);
        assert forall|i: int| 0 <= i < tl.len() implies #[trigger] tl[i] == l[i + dl] by {}
        assert forall|i: int| 0 <= i < tr.len() implies #[trigger] tr[i] == r[i + dr] by {}
        assert forall|j: int| 0 <= j < m.len() implies (#[trigger] m[j]).1 is Some
            || m[j].2 is Some by {
            if j > 0 {
                assert(m[j] == rest[j - 1]);
            }
        }
        assert forall|j: int| 0 <= j < m.len() && (#[trigger] m[j]).1 is Some implies exists|
            i: int,
        | 0 <= i < l.len() && l[i] == (m[j].0, m[j].1->0) by {
            if j > 0 {
                assert(m[j] == rest[j - 1]);
                let i = choose|i: int|
                    0 <= i < tl.len() && tl[i] == (rest[j - 1].0, rest[j - 1].1->0);
                assert(l[i + dl] == tl[i]);
            } else {
                assert(l[0] == (m[0].0, m[0].1->0));
            }
        }
        assert forall|j: int| 0 <= j < m.len() && (#[trigger] m[j]).2 is Some implies exists|
            i: int,
        | 0 <= i < r.len() && r[i] == (m[j].0, m[j].2->0) by {
            if j > 0 {
                assert(m[j] == rest[j - 1]);
                let i = choose|i: int|
                    0 <= i < tr.len() && tr[i] == (rest[j - 1].0, rest[j - 1].2->0);
                assert(r[i + dr] == tr[i]);
            } else {
                assert(r[0] == (m[0].0, m[0].2->0));
            }
        }
    }
}

/// Every input item is in the merge.
#[verifier::rlimit(60)]
proof fn lemma_merge_covers<VL, VR>(l: Seq<(i32, VL)>, r: Seq<(i32, VR)>)
    ensures
        merge_covers_inputs(l, r, merge_spec(l, r)),
    decreases l.len() + r.len(),
{
    let m = merge_spec(l, r);
    if l.len() + r.len() > 0 {
        let dl: int = if takes_left(l, r) { 1 } else { 0 };
        let dr: int = if takes_right(l, r) { 1 } else { 0 };
        let tl = if takes_left(l, r) { l.skip(1) } else { l };
        let tr = if takes_right(l, r) { r.skip(1) } else { r };
        lemma_merge_unfold(l, r);
        lemma_merge_covers(tl, tr);
        let rest = merge_spec(tl, tr);
        assert forall|i: int| 0 <= i < tl.len() implies #[trigger] tl[i] == l[i + dl] by {}
        assert forall|i: int| 0 <= i < tr.len() implies #[trigger] tr[i] == r[i + dr] by {}
        assert forall|i: int| 0 <= i < l.len() implies exists|j: int|
            0 <= j < m.len() && m[j].0 == (#[trigger] l[i]).0 && m[j].1 == Some(l[i].1) by {
            if i == 0 && dl == 1 {
                assert(m[0].0 == l[0].0 && m[0].1 == Some(l[0].1));
            } else {
                assert(l[i] == tl[i - dl]);
                let j = choose|j: int|
                    0 <= j < rest.len() && rest[j].0 == tl[i - dl].0 && rest[j].1 == Some(
                        tl[i - dl].1,
                    );
                assert(m[j + 1] == rest[j]);
            }
        }
        assert forall|i: int| 0 <= i < r.len() implies exists|j: int|
            0 <= j < m.len() && m[j].0 == (#[trigger] r[i]).0 && m[j].2 == Some(r[i].1) by {
            if i == 0 && dr == 1 {
                assert(m[0].0 == r[0].0 && m[0].2 == Some(r[0].1));
            } else {
                assert(r[i] == tr[i - dr]);
                let j = choose|j: int|
                    0 <= j < rest.len() && rest[j].0 == tr[i - dr].0 && rest[j].2 == Some(
                        tr[i - dr].1,
                    );
                assert(m[j + 1] == rest[j]);
            }
        }
    }
}

/// The merge of two strictly sorted sequences is sorted by strictly increasing keys, each of its
/// triples carries only items of the inputs, and each input item appears in it under its own key
/// and on its own side. With strictly increasing keys, each input item appears exactly once.
pub proof fn lemma_zip_sorted_law<VL, VR>(l: Seq<(i32, VL)>, r: Seq<(i32, VR)>)
    requires
        strictly_sorted(l),
        strictly_sorted(r),
    ensures
        merged_sorted(merge_spec(l, r)),
        merge_items_from_inputs(l, r, merge_spec(l, r)),
        merge_covers_inputs(l, r, merge_spec(l, r)),
{
    lemma_merge_sorted(l, r);
    lemma_merge_from_inputs(l, r);
    lemma_merge_covers(l, r);
}

/// Merge two key-sorted sequences into triples `(key, left value, right value)`.
///
/// A key present on both sides yields one triple with both values; a key present on one side
/// yields a triple with `None` for the other side.
pub fn zip_sorted<VL: Copy, VR: Copy>(left: &Vec<(i32, VL)>, right: &Vec<(i32, VR)>) -> (r: Vec<
    (i32, Option<VL>, Option<VR>),
>)
    ensures
        r@ == merge_spec(left@, right@),
{
    let mut out: Vec<(i32, Option<VL>, Option<VR>)> = Vec::new();
    let mut i: usize = 0;
    let mut j: usize = 0;
    proof {
        assert(left@.skip(0) =~= left@);
        assert(right@.skip(0) =~= right@);
        assert(out@ + merge_spec(left@, right@) =~= merge_spec(left@, right@));
    }
    while i < left.len() || j < right.len()
        invariant
            i <= left@.len(),
            j <= right@.len(),
            out@ + merge_spec(left@.skip(i as int), right@.skip(j as int)) == merge_spec(
                left@,
                right@,
            ),
        decreases left@.len() - i + right@.len() - j,
    {
        let ghost l = left@.skip(i as int);
        let ghost r = right@.skip(j as int);
        if i < left.len() && j < right.len() && left[i].0 == right[j].0 {
            out.push((left[i].0, Some(left[i].1), Some(right[j].1)));
            proof {
                assert(l.skip(1) =~= left@.skip(i + 1));
                assert(r.skip(1) =~= right@.skip(j + 1));
            }
            i = i + 1;
            j = j + 1;
        } else if j >= right.len() || (i < left.len() && left[i].0 < right[j].0) {
            out.push((left[i].0, Some(left[i].1), None));
            proof {
                assert(l.skip(1) =~= left@.skip(i + 1));
            }
            i = i + 1;
        } else {
            out.push((right[j].0, None, Some(right[j].1)));
            proof {
                assert(r.skip(1) =~= right@.skip(j + 1));
            }
            j = j + 1;
        }
        proof {
            assert(out@ + merge_spec(left@.skip(i as int), right@.skip(j as int)) =~= merge_spec(
                left@,
                right@,
            ));
        }
    }
    proof {
        assert(left@.skip(i as int).len() == 0);
        assert(out@ + merge_spec(left@.skip(i as int), right@.skip(j as int)) =~= out@);
    }
    out
}

} // verus!
