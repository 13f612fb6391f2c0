//! Line diffs of two texts, padded so that both sides line up.

use vstd::prelude::*;

verus! {

/// What one line of a line diff denotes.
pub enum LineChangeV {
    Removed(Seq<char>),
    Common(Seq<char>, Seq<char>),
    Added(Seq<char>),
}

/// One line of a line diff.
pub enum LineChange {
    /// The line is only in the left text.
    Removed(String),
    /// The line is in both texts.
    Common(String, String),
    /// The line is only in the right text.
    Added(String),
}

impl View for LineChange {
    type V = LineChangeV;

    open spec fn view(&self) -> LineChangeV {
        match self {
            LineChange::Removed(s) => LineChangeV::Removed(s@),
            LineChange::Common(l, r) => LineChangeV::Common(l@, r@),
            LineChange::Added(s) => LineChangeV::Added(s@),
        }
    }
}

pub open spec fn change_views(v: Seq<LineChange>) -> Seq<LineChangeV> {
    v.map_values(|c: LineChange| c@)
}

/// The line diff of two texts.
pub uninterp spec fn lines_diff_of(left: Seq<char>, right: Seq<char>) -> Seq<LineChangeV>;

/// Relies on `diff::lines`: the line-by-line diff of `left` and `right`.
#[verifier::external_body]
fn diff_by_lines(left: &str, right: &str) -> (r: Vec<LineChange>)
    ensures
        change_views(r@) == lines_diff_of(left@, right@),
{
    diff::lines(left, right).into_iter().map(|d| match d {
        diff::Result::Left(l) => LineChange::Removed(l.to_string()),
        diff::Result::Both(l, r) => LineChange::Common(l.to_string(), r.to_string()),
        diff::Result::Right(r) => LineChange::Added(r.to_string()),
    }).collect()
}

pub open spec fn is_ascii_ws(c: char) -> bool {
    c == ' ' || c == '\t' || c == '\n' || c == '\x0C' || c == '\r'
}

/// The number of ASCII whitespace characters that start `s`.
pub open spec fn indentation(s: Seq<char>) -> nat
    decreases s.len(),
{
    if s.len() == 0 || !is_ascii_ws(s[0]) {
        0
    } else {
        1 + indentation(s.skip(1))
    }
}

proof fn lemma_indentation_bounded(s: Seq<char>)
    ensures
        indentation(s) <= s.len(),
    decreases s.len(),
{
    if s.len() > 0 && is_ascii_ws(s[0]) {
        lemma_indentation_bounded(s.skip(1));
    }
}

/// The leading whitespace of `s`.
pub open spec fn indent_of(s: Seq<char>) -> Seq<char> {
    s.subrange(0, indentation(s) as int)
}

/// The number of ASCII whitespace characters that start `s`.
pub fn get_indentation_level(s: &str) -> (r: usize)
    ensures
        r == indentation(s@),
{
    let n = s.unicode_len();
    let mut i: usize = 0;
    proof {
        assert(s@.skip(0) =~= s@);
    }
    while i < n && is_ascii_ws_exec(s.get_char(i))
        invariant
            n == s@.len(),
            i <= n,
            indentation(s@) == i + indentation(s@.skip(i as int)),
        decreases n - i,
    {
        proof {
            assert(s@.skip(i as int).skip(1) =~= s@.skip(i + 1));
        }
        i = i + 1;
    }
    proof {
        if i < n {
            assert(s@.skip(i as int)[0] == s@[i as int]);
        }
    }
    i
}

fn is_ascii_ws_exec(c: char) -> (r: bool)
    ensures
        r == is_ascii_ws(c),
{
    c == ' ' || c == '\t' || c == '\n' || c == '\x0C' || c == '\r'
}

fn indent_string(s: &str) -> (r: String)
    ensures
        r@ == indent_of(s@),
{
    let k = get_indentation_level(s);
    proof {
        lemma_indentation_bounded(s@);
    }
    s.substring_char(0, k).to_owned()
}

/// A line of the padded diff: whether it differs, the left line, the right line.
pub type PaddedLine = (bool, Seq<char>, Seq<char>);

/// Each pending deletion against the indentation of itself.
pub open spec fn flush(pending: Seq<Seq<char>>) -> Seq<PaddedLine> {
    pending.map_values(|d: Seq<char>| (true, d, indent_of(d)))
}

/// The padded lines emitted and the deletions still waiting for an insertion, after `cs`.
pub open spec fn pad_fold(cs: Seq<LineChangeV>) -> (Seq<PaddedLine>, Seq<Seq<char>>)
    decreases cs.len(),
{
    if cs.len() == 0 {
        (Seq::empty(), Seq::empty())
    } else {
        let (out, pending) = pad_fold(cs.drop_last());
        match cs.last() {
            LineChangeV::Removed(d) => (out, pending.push(d)),
            LineChangeV::Added(a) => if pending.len() > 0 {
                (out.push((true, pending[0], a)), pending.skip(1))
            } else {
                (out.push((true, indent_of(a), a)), pending)
            },
            LineChangeV::Common(l, _) => (out + flush(pending) + seq![(false, l, l)], Seq::empty()),
        }
    }
}

/// A line diff in which each run of deletions is paired with the insertions that follow it;
/// a side without a partner shows the indentation of the other side.
pub open spec fn pad_spec(cs: Seq<LineChangeV>) -> Seq<PaddedLine> {
    pad_fold(cs).0 + flush(pad_fold(cs).1)
}

pub open spec fn padded_views(v: Seq<(bool, String, String)>) -> Seq<PaddedLine> {
    v.map_values(|x: (bool, String, String)| (x.0, x.1@, x.2@))
}

pub open spec fn string_seq_views(v: Seq<String>) -> Seq<Seq<char>> {
    v.map_values(|s: String| s@)
}

/// Appends each pending deletion against its own indentation.
fn flush_pending(out: &mut Vec<(bool, String, String)>, pending: &Vec<String>)
    ensures
        padded_views(final(out)@) == padded_views(old(out)@) + flush(string_seq_views(pending@)),
{
    let mut j: usize = 0;
    while j < pending.len()
        invariant
            j <= pending@.len(),
            padded_views(out@) == padded_views(old(out)@) + flush(
                string_seq_views(pending@).subrange(0, j as int),
            ),
        decreases pending@.len() - j,
    {
        let d = pending[j].clone();
        let ind = indent_string(d.as_str());
        let ghost prev = out@;
        out.push((true, d, ind));
        proof {
            assert(padded_views(out@) =~= padded_views(prev).push((true, pending@[j as int]@, indent_of(pending@[j as int]@))));
            assert(flush(string_seq_views(pending@).subrange(0, j + 1)) =~= flush(
                string_seq_views(pending@).subrange(0, j as int),
            ).push((true, pending@[j as int]@, indent_of(pending@[j as int]@))));
        }
        j = j + 1;
    }
    proof {
        assert(string_seq_views(pending@).subrange(0, j as int) =~= string_seq_views(pending@));
    }
}

/// Pairs the deletions and insertions of a line diff, see [`pad_spec`].
pub fn pad_changes(changes: &Vec<LineChange>) -> (r: Vec<(bool, String, String)>)
    ensures
        padded_views(r@) == pad_spec(change_views(changes@)),
{
    let mut out: Vec<(bool, String, String)> = Vec::new();
    let mut pending: Vec<String> = Vec::new();
    let mut i: usize = 0;
    while i < changes.len()
        invariant
            i <= changes@.len(),
            (padded_views(out@), string_seq_views(pending@)) == pad_fold(
                change_views(changes@).subrange(0, i as int),
            ),
        decreases changes@.len() - i,
    {
        proof {
            assert(change_views(changes@).subrange(0, i + 1).drop_last() =~= change_views(
                changes@,
            ).subrange(0, i as int));
            assert(change_views(changes@).subrange(0, i + 1).last() == changes@[i as int]@);
        }
        let ghost prev_out = out@;
        let ghost prev_pending = pending@;
        match &changes[i] {
            LineChange::Removed(d) => {
                pending.push(d.clone());
                proof {
                    assert(string_seq_views(pending@) =~= string_seq_views(prev_pending).push(d@));
                }
            },
            LineChange::Added(a) => {
                if pending.len() > 0 {
                    let d = pending.remove(0);
                    out.push((true, d, a.clone()));
                    proof {
                        assert(string_seq_views(pending@) =~= string_seq_views(prev_pending).skip(1));
                        assert(padded_views(out@) =~= padded_views(prev_out).push(
                            (true, string_seq_views(prev_pending)[0], a@),
                        ));
                    }
                } else {
                    let ind = indent_string(a.as_str());
                    out.push((true, ind, a.clone()));
                    proof {
                        assert(padded_views(out@) =~= padded_views(prev_out).push(
                            (true, indent_of(a@), a@),
                        ));
                    }
                }
            },
            LineChange::Common(l, _) => {
                flush_pending(&mut out, &pending);
                let ghost mid = out@;
                pending = Vec::new();
                out.push((false, l.clone(), l.clone()));
                proof {
                    assert(padded_views(out@) =~= padded_views(mid).push((false, l@, l@)));
                    assert(padded_views(out@) =~= padded_views(prev_out) + flush(
                        string_seq_views(prev_pending),
                    ) + seq![(false, l@, l@)]);
                    assert(string_seq_views(pending@) =~= Seq::<Seq<char>>::empty());
                }
            },
        }
        i = i + 1;
    }
    proof {
        assert(change_views(changes@).subrange(0, i as int) =~= change_views(changes@));
    }
    flush_pending(&mut out, &pending);
    out
}

/// The line diff of two texts, padded so that both sides line up: each run of deleted lines is
/// paired with the inserted lines that follow it, and a line without a partner is shown against
/// its own indentation.
pub fn diff_lines(left: &str, right: &str) -> (r: Vec<(bool, String, String)>)
    ensures
        padded_views(r@) == pad_spec(lines_diff_of(left@, right@)),
{
    let changes = diff_by_lines(left, right);
    pad_changes(&changes)
}

/// `x` is a line of `d` at a position in `[lo, hi)`.
pub open spec fn occurs_in(d: Seq<PaddedLine>, x: PaddedLine, lo: int, hi: int) -> bool {
    exists|j: int| lo <= j < hi && d[j] == x
}

proof fn lemma_occurs_widen(d: Seq<PaddedLine>, x: PaddedLine, lo: int, c0: int, c1: int)
    requires
        c0 <= c1,
        occurs_in(d, x, lo, c0),
    ensures
        occurs_in(d, x, lo, c1),
{
    let j0 = choose|j: int| lo <= j < c0 && d[j] == x;
    assert(lo <= j0 < c1 && d[j0] == x);
}

/// Each line of `ch` is a line of `d` in `[pos, c0)`, hence in any larger range.
proof fn lemma_lines_within(ch: Seq<PaddedLine>, d: Seq<PaddedLine>, pos: int, c0: int, c1: int)
    requires
        c0 <= c1,
        forall|k: int| 0 <= k < ch.len() ==> occurs_in(d, #[trigger] ch[k], pos, c0),
    ensures
        forall|k: int| 0 <= k < ch.len() ==> occurs_in(d, #[trigger] ch[k], pos, c1),
{
    assert forall|k: int| 0 <= k < ch.len() implies occurs_in(d, #[trigger] ch[k], pos, c1) by {
        let j0 = choose|j: int| pos <= j < c0 && d[j] == ch[k];
        assert(pos <= j0 < c1 && d[j0] == ch[k]);
    }
}

fn copy_line(l: &(bool, String, String)) -> (r: (bool, String, String))
    ensures
        r.0 == l.0,
        r.1@ == l.1@,
        r.2@ == l.2@,
{
    (l.0, l.1.clone(), l.2.clone())
}

/// The changed lines of the block that starts at `pos` at indentation `level`, with their
/// context, and where the block ends: at the end of the diff or at the first line indented less
/// than `level`. Every line returned is a line of the block, in order of the block, and every
/// changed line of the block is returned.
fn context_block(
    level: usize,
    need_closing_line: bool,
    diff: &Vec<(bool, String, String)>,
    pos: usize,
) -> (r: (Vec<(bool, String, String)>, usize, Ghost<Seq<int>>))
    requires
        pos <= diff@.len(),
    ensures
        subsequence_at(padded_views(r.0@), padded_views(diff@), r.2@, pos as int, r.1 as int),
        pos <= r.1 <= diff@.len(),
        r.1 == diff@.len() || indentation(diff@[r.1 as int].1@) < level,
        pos < diff@.len() && indentation(diff@[pos as int].1@) == level ==> r.1 > pos,
        forall|j: int| pos <= j < r.1 ==> indentation(#[trigger] diff@[j].1@) >= level,
        forall|k: int|
            0 <= k < r.0@.len() ==> occurs_in(padded_views(diff@), #[trigger] padded_views(r.0@)[k], pos as int, (r.1) as int),
        forall|j: int|
            pos <= j < r.1 && (#[trigger] diff@[j]).0 ==> padded_views(r.0@).contains(
                padded_views(diff@)[j],
            ),
    decreases diff@.len() - pos, usize::MAX - level,
{
    let mut changed: Vec<(bool, String, String)> = Vec::new();
    let mut last_line: Option<(bool, String, String)> = None;
    let mut need = need_closing_line;
    let mut cur = pos;
    let mut done = false;
    let ghost mut idx: Seq<int> = Seq::empty();
    let ghost mut ll_idx: int = 0;
    while cur < diff.len() && !done
        invariant
            pos <= cur <= diff@.len(),
            subsequence_at(padded_views(changed@), padded_views(diff@), idx, pos as int, cur as int),
            last_line matches Some(ll) ==> pos <= ll_idx < cur && padded_views(diff@)[ll_idx] == (ll.0, ll.1@, ll.2@)
                && forall|k: int| 0 <= k < idx.len() ==> #[trigger] idx[k] < ll_idx,
            done ==> cur < diff@.len() && indentation(diff@[cur as int].1@) < level,
            pos < diff@.len() && indentation(diff@[pos as int].1@) == level ==> cur > pos || (cur
                == pos && !done),
            forall|j: int| pos <= j < cur ==> indentation(#[trigger] diff@[j].1@) >= level,
            forall|k: int|
                0 <= k < changed@.len() ==> occurs_in(padded_views(diff@), #[trigger] padded_views(changed@)[k], pos as int, (cur) as int),
            forall|j: int|
                pos <= j < cur && (#[trigger] diff@[j]).0 ==> padded_views(changed@).contains(
                    padded_views(diff@)[j],
                ),
            last_line matches Some(ll) ==> occurs_in(padded_views(diff@), (ll.0, ll.1@, ll.2@), pos as int, cur as int),
        decreases diff@.len() - cur, if done {
            0int
        } else {
            1int
        },
    {
        let ghost cur0 = cur;
        let ghost ch0 = changed@;
        let ind = get_indentation_level(diff[cur].1.as_str());
        if ind == level {
            let line = copy_line(&diff[cur]);
            proof {
                assert((line.0, line.1@, line.2@) == padded_views(diff@)[cur as int]);
            }
            if line.0 || need {
                let ghost prev = changed@;
                changed.push(line);
                proof {
                    assert(padded_views(changed@) =~= padded_views(prev).push(
                        padded_views(diff@)[cur as int],
                    ));
                    assert forall|j: int| pos <= j < cur + 1 && (#[trigger] diff@[j]).0 implies padded_views(
                        changed@,
                    ).contains(padded_views(diff@)[j]) by {
                        if j < cur {
                            let q = choose|q: int|
                                0 <= q < padded_views(prev).len() && padded_views(prev)[q]
                                    == padded_views(diff@)[j];
                            assert(padded_views(changed@)[q] == padded_views(diff@)[j]);
                        } else {
                            assert(padded_views(changed@)[prev.len() as int] == padded_views(
                                diff@,
                            )[j]);
                        }
                    }
                    assert forall|k: int| 0 <= k < changed@.len() implies occurs_in(padded_views(diff@), #[trigger] padded_views(changed@)[k], pos as int, (cur + 1) as int) by {
                        if k < prev.len() {
                            assert(padded_views(changed@)[k] == padded_views(prev)[k]);
                            assert(occurs_in(padded_views(diff@), padded_views(prev)[k], pos as int, cur as int));
                            let j0 = choose|j: int| pos <= j < cur && padded_views(diff@)[j] == padded_views(prev)[k];
                            assert(pos <= j0 < cur + 1 && padded_views(diff@)[j0] == padded_views(changed@)[k]);
                        } else {
                            assert(padded_views(changed@)[k] == padded_views(diff@)[cur as int]);
                        }
                    }
                }
                proof {
                    let old_idx = idx;
                    idx = idx.push(cur as int);
                    assert forall|k: int| 0 <= k < idx.len() implies pos <= #[trigger] idx[k] < cur + 1
                        && padded_views(diff@)[idx[k]] == padded_views(changed@)[k] by {
                        if k < old_idx.len() {
                            assert(idx[k] == old_idx[k]);
                            assert(padded_views(changed@)[k] == padded_views(prev)[k]);
                        }
                    }
                    assert forall|a: int, b: int| 0 <= a < b < idx.len() implies idx[a] < idx[b] by {
                        if b < old_idx.len() {
                            assert(idx[a] == old_idx[a] && idx[b] == old_idx[b]);
                        } else {
                            assert(idx[a] == old_idx[a]);
                        }
                    }
                }
                need = false;
                last_line = None;
            } else {
                last_line = Some(line);
                proof {
                    ll_idx = cur as int;
                    assert(padded_views(diff@)[cur as int] == (line.0, line.1@, line.2@));
                    lemma_lines_within(padded_views(changed@), padded_views(diff@), pos as int, cur as int, cur + 1);
                }
            }
            cur = cur + 1;
        } else if ind > level {
            let (inner, next, inner_idx) = context_block(ind, need, diff, cur);
            if inner.len() > 0 {
                let ghost prev = changed@;
                let ghost ll_opt = last_line;
                let ghost idx0 = idx;
                match last_line {
                    Some(ll) => {
                        changed.push(ll);
                    },
                    None => {},
                }
                let ghost mid = changed@;
                let ghost mid_idx = if ll_opt is Some { idx0.push(ll_idx) } else { idx0 };
                proof {
                    assert(mid_idx.len() == mid.len());
                    assert forall|k: int| 0 <= k < mid.len() implies pos <= #[trigger] mid_idx[k] < cur
                        && padded_views(diff@)[mid_idx[k]] == padded_views(mid)[k] by {
                        if k < prev.len() {
                            assert(mid_idx[k] == idx0[k]);
                            assert(padded_views(mid)[k] == padded_views(prev)[k]);
                        } else {
                            let ll = ll_opt->0;
                            assert(padded_views(mid)[k] == (ll.0, ll.1@, ll.2@));
                        }
                    }
                    assert forall|a: int, b: int| 0 <= a < b < mid_idx.len() implies mid_idx[a] < mid_idx[b] by {
                        if b < idx0.len() {
                            assert(mid_idx[a] == idx0[a] && mid_idx[b] == idx0[b]);
                        } else {
                            assert(mid_idx[a] == idx0[a]);
                        }
                    }
                    assert forall|k: int| 0 <= k < mid.len() implies occurs_in(padded_views(diff@), #[trigger] padded_views(mid)[k], pos as int, (cur) as int) by {
                        if k < prev.len() {
                            assert(padded_views(mid)[k] == padded_views(prev)[k]);
                            assert(occurs_in(padded_views(diff@), padded_views(prev)[k], pos as int, cur as int));
                        } else {
                            let ll = ll_opt->0;
                            assert(padded_views(mid)[k] == (ll.0, ll.1@, ll.2@));
                        }
                    }
                    assert forall|j: int| pos <= j < cur && (#[trigger] diff@[j]).0 implies padded_views(
                        mid,
                    ).contains(padded_views(diff@)[j]) by {
                        let q = choose|q: int|
                            0 <= q < padded_views(prev).len() && padded_views(prev)[q]
                                == padded_views(diff@)[j];
                        assert(padded_views(mid)[q] == padded_views(diff@)[j]);
                    }
                }
                let mut inner = inner;
                let ghost inner_v = inner@;
                changed.append(&mut inner);
                proof {
                    assert(padded_views(changed@) =~= padded_views(mid) + padded_views(inner_v));
                    assert forall|k: int| 0 <= k < changed@.len() implies occurs_in(padded_views(diff@), #[trigger] padded_views(changed@)[k], pos as int, (next) as int) by {
                        if k < mid.len() {
                            assert(padded_views(changed@)[k] == padded_views(mid)[k]);
                            assert(occurs_in(padded_views(diff@), padded_views(mid)[k], pos as int, cur as int));
                            let j0 = choose|j: int| pos <= j < cur && padded_views(diff@)[j] == padded_views(mid)[k];
                            assert(pos <= j0 < next && padded_views(diff@)[j0] == padded_views(changed@)[k]);
                        } else {
                            assert(padded_views(changed@)[k] == padded_views(inner_v)[k
                                - mid.len()]);
                            assert(occurs_in(padded_views(diff@), padded_views(inner_v)[k - mid.len()], cur as int, next as int));
                            let j0 = choose|j: int| cur <= j < next && padded_views(diff@)[j] == padded_views(inner_v)[k - mid.len()];
                            assert(pos <= j0 < next && padded_views(diff@)[j0] == padded_views(changed@)[k]);
                        }
                    }
                    assert forall|j: int| pos <= j < next && (#[trigger] diff@[j]).0 implies padded_views(
                        changed@,
                    ).contains(padded_views(diff@)[j]) by {
                        if j < cur {
                            let q = choose|q: int|
                                0 <= q < padded_views(mid).len() && padded_views(mid)[q]
                                    == padded_views(diff@)[j];
                            assert(padded_views(changed@)[q] == padded_views(diff@)[j]);
                        } else {
                            let q = choose|q: int|
                                0 <= q < padded_views(inner_v).len() && padded_views(inner_v)[q]
                                    == padded_views(diff@)[j];
                            assert(padded_views(changed@)[mid.len() + q] == padded_views(diff@)[j]);
                        }
                    }
                }
                proof {
                    idx = mid_idx + inner_idx@;
                    assert forall|k: int| 0 <= k < idx.len() implies pos <= #[trigger] idx[k] < next
                        && padded_views(diff@)[idx[k]] == padded_views(changed@)[k] by {
                        if k < mid_idx.len() {
                            assert(idx[k] == mid_idx[k]);
                            assert(padded_views(changed@)[k] == padded_views(mid)[k]);
                        } else {
                            assert(idx[k] == inner_idx@[k - mid_idx.len()]);
                            assert(padded_views(changed@)[k] == padded_views(inner_v)[k - mid.len()]);
                        }
                    }
                    assert forall|a: int, b: int| 0 <= a < b < idx.len() implies idx[a] < idx[b] by {
                        if b < mid_idx.len() {
                            assert(idx[a] == mid_idx[a] && idx[b] == mid_idx[b]);
                        } else if a >= mid_idx.len() {
                            assert(idx[a] == inner_idx@[a - mid_idx.len()] && idx[b] == inner_idx@[b - mid_idx.len()]);
                        } else {
                            assert(idx[a] == mid_idx[a]);
                            assert(idx[b] == inner_idx@[b - mid_idx.len()]);
                        }
                    }
                }
                need = true;
                last_line = None;
            } else {
                proof {
                    assert forall|j: int| pos <= j < next && (#[trigger] diff@[j]).0 implies padded_views(
                        changed@,
                    ).contains(padded_views(diff@)[j]) by {
                        if j >= cur {
                            assert(padded_views(inner@).contains(padded_views(diff@)[j]));
                            let q = choose|q: int|
                                0 <= q < padded_views(inner@).len() && padded_views(inner@)[q]
                                    == padded_views(diff@)[j];
                        }
                    }
                }
            }
            proof {
                if inner.len() == 0 {
                    if last_line is Some {
                        let ll = last_line->0;
                        lemma_occurs_widen(padded_views(diff@), (ll.0, ll.1@, ll.2@), pos as int, cur as int, next as int);
                    }
                    lemma_lines_within(padded_views(changed@), padded_views(diff@), pos as int, cur as int, next as int);
                }
            }
            cur = next;
        } else {
            done = true;
        }
    }
    (changed, cur, Ghost(idx))
}

/// `out` is `d` at the strictly increasing positions `idx`, all within `[lo, hi)`.
pub open spec fn subsequence_at(out: Seq<PaddedLine>, d: Seq<PaddedLine>, idx: Seq<int>, lo: int, hi: int) -> bool {
    &&& idx.len() == out.len()
    &&& forall|k: int| 0 <= k < idx.len() ==> lo <= #[trigger] idx[k] < hi && d[idx[k]] == out[k]
    &&& forall|a: int, b: int| 0 <= a < b < idx.len() ==> idx[a] < idx[b]
}

/// Keeps the changed lines of a padded diff and the lines that give them context: at each
/// indentation level, the line before a changed block and the line that closes it.
///
/// The lines returned are lines of `diff`, in their order and each at most once, and every
/// changed line of `diff` is among them.
pub fn diff_with_context(diff: &Vec<(bool, String, String)>) -> (r: Vec<(bool, String, String)>)
    ensures
        exists|idx: Seq<int>| #[trigger] subsequence_at(padded_views(r@), padded_views(diff@), idx, 0, diff@.len() as int),
        forall|k: int|
            0 <= k < r@.len() ==> padded_views(diff@).contains(#[trigger] padded_views(r@)[k]),
        forall|j: int|
            0 <= j < diff@.len() && (#[trigger] diff@[j]).0 ==> padded_views(r@).contains(
                padded_views(diff@)[j],
            ),
{
    let (lines, end, idx) = context_block(0, false, diff, 0);
    proof {
        assert(subsequence_at(padded_views(lines@), padded_views(diff@), idx@, 0, diff@.len() as int));
        assert forall|k: int| 0 <= k < lines@.len() implies padded_views(diff@).contains(
            #[trigger] padded_views(lines@)[k],
        ) by {
            assert(occurs_in(padded_views(diff@), padded_views(lines@)[k], 0, end as int));
            let j = choose|j: int| 0 <= j < end && padded_views(diff@)[j] == padded_views(lines@)[k];
            assert(padded_views(diff@)[j] == padded_views(lines@)[k]);
        }
    }
    lines
}
} // verus!
