//! Character-level string predicates.

use vstd::prelude::*;

verus! {

pub open spec fn is_prefix(p: Seq<char>, s: Seq<char>) -> bool {
    p.len() <= s.len() && s.subrange(0, p.len() as int) == p
}

pub open spec fn is_suffix(p: Seq<char>, s: Seq<char>) -> bool {
    p.len() <= s.len() && s.subrange(s.len() - p.len(), s.len() as int) == p
}

/// `needle` occurs at position `i` of `s`.
pub open spec fn occurs_at(needle: Seq<char>, s: Seq<char>, i: int) -> bool {
    0 <= i && i + needle.len() <= s.len() && s.subrange(i, i + needle.len()) == needle
}

pub open spec fn is_infix(needle: Seq<char>, s: Seq<char>) -> bool {
    exists|i: int| occurs_at(needle, s, i)
}

/// Whether `s` and `t` hold the same characters.
pub fn str_equal(s: &str, t: &str) -> (r: bool)
    ensures
        r == (s@ == t@),
{
    let n = s.unicode_len();
    if n != t.unicode_len() {
        return false;
    }
    let mut i: usize = 0;
    while i < n
        invariant
            n == s@.len(),
            n == t@.len(),
            i <= n,
            forall|j: int| 0 <= j < i ==> s@[j] == t@[j],
        decreases n - i,
    {
        if s.get_char(i) != t.get_char(i) {
            return false;
        }
        i = i + 1;
    }
    proof {
        assert(s@ =~= t@);
    }
    true
}

/// Whether `needle` occurs in `s` at character position `at`.
pub fn matches_at(s: &str, needle: &str, at: usize) -> (r: bool)
    ensures
        r == occurs_at(needle@, s@, at as int),
{
    let n = s.unicode_len();
    let m = needle.unicode_len();
    if at > n || m > n - at {
        return false;
    }
    let mut i: usize = 0;
    while i < m
        invariant
            n == s@.len(),
            m == needle@.len(),
            at + m <= n,
            i <= m,
            forall|j: int| 0 <= j < i ==> s@[at + j] == needle@[j],
        decreases m - i,
    {
        if s.get_char(at + i) != needle.get_char(i) {
            proof {
                assert(s@.subrange(at as int, at + m)[i as int] != needle@[i as int]);
            }
            return false;
        }
        i = i + 1;
    }
    proof {
        assert(s@.subrange(at as int, at + m) =~= needle@);
    }
    true
}

pub fn starts_with(s: &str, prefix: &str) -> (r: bool)
    ensures
        r == is_prefix(prefix@, s@),
{
    matches_at(s, prefix, 0)
}

pub fn ends_with(s: &str, suffix: &str) -> (r: bool)
    ensures
        r == is_suffix(suffix@, s@),
{
    let n = s.unicode_len();
    let m = suffix.unicode_len();
    if m > n {
        return false;
    }
    matches_at(s, suffix, n - m)
}

pub fn contains(s: &str, needle: &str) -> (r: bool)
    ensures
        r == is_infix(needle@, s@),
{
    let n = s.unicode_len();
    let m = needle.unicode_len();
    if m > n {
        return false;
    }
    let mut i: usize = 0;
    loop
        invariant
            n == s@.len(),
            m == needle@.len(),
            m <= n,
            i <= n - m,
            forall|j: int| 0 <= j < i ==> !occurs_at(needle@, s@, j),
        decreases n - m - i,
    {
        if matches_at(s, needle, i) {
            return true;
        }
        if i == n - m {
            proof {
                assert forall|j: int| !occurs_at(needle@, s@, j) by {
                    if j > i {
                        assert(j + needle@.len() > s@.len());
                    }
                }
            }
            return false;
        }
        i = i + 1;
    }
}

/// Lexicographic order on character sequences, by code point.
pub open spec fn seq_less(a: Seq<char>, b: Seq<char>) -> bool
    decreases a.len(),
{
    if b.len() == 0 {
        false
    } else if a.len() == 0 {
        true
    } else if a[0] != b[0] {
        (a[0] as u32) < (b[0] as u32)
    } else {
        seq_less(a.skip(1), b.skip(1))
    }
}

/// Whether `a` sorts strictly before `b`.
pub fn str_less(a: &str, b: &str) -> (r: bool)
    ensures
        r == seq_less(a@, b@),
{
    let n = a.unicode_len();
    let m = b.unicode_len();
    let mut i: usize = 0;
    proof {
        assert(a@.skip(0) =~= a@);
        assert(b@.skip(0) =~= b@);
    }
    while i < n && i < m
        invariant
            n == a@.len(),
            m == b@.len(),
            i <= n,
            i <= m,
            seq_less(a@, b@) == seq_less(a@.skip(i as int), b@.skip(i as int)),
        decreases n - i,
    {
        let x = a.get_char(i);
        let y = b.get_char(i);
        proof {
            assert(a@.skip(i as int)[0] == x);
            assert(b@.skip(i as int)[0] == y);
            assert(a@.skip(i as int).skip(1) =~= a@.skip(i + 1));
            assert(b@.skip(i as int).skip(1) =~= b@.skip(i + 1));
        }
        if x != y {
            return (x as u32) < (y as u32);
        }
        i = i + 1;
    }
    proof {
        assert(a@.skip(i as int).len() == n - i);
        assert(b@.skip(i as int).len() == m - i);
    }
    i < m
}

/// The order on character sequences is irreflexive.
pub proof fn lemma_seq_less_irreflexive(a: Seq<char>)
    ensures
        !seq_less(a, a),
    decreases a.len(),
{
    if a.len() > 0 {
        lemma_seq_less_irreflexive(a.skip(1));
    }
}

/// The order on character sequences is asymmetric.
pub proof fn lemma_seq_less_asymmetric(a: Seq<char>, b: Seq<char>)
    requires
        seq_less(a, b),
    ensures
        !seq_less(b, a),
    decreases a.len(),
{
    if a.len() > 0 && b.len() > 0 && a[0] == b[0] {
        lemma_seq_less_asymmetric(a.skip(1), b.skip(1));
    }
}

/// The order on character sequences is total.
pub proof fn lemma_seq_less_total(a: Seq<char>, b: Seq<char>)
    requires
        a != b,
    ensures
        seq_less(a, b) || seq_less(b, a),
    decreases a.len(),
{
    if a.len() == 0 && b.len() == 0 {
        assert(a =~= b);
    } else if a.len() > 0 && b.len() > 0 {
        vstd::utf8::char_u32_cast(a[0], a[0] as u32);
        vstd::utf8::char_u32_cast(b[0], b[0] as u32);
        if a[0] == b[0] {
            if a.skip(1) == b.skip(1) {
                assert(a =~= seq![a[0]] + a.skip(1));
                assert(b =~= seq![b[0]] + b.skip(1));
            }
            lemma_seq_less_total(a.skip(1), b.skip(1));
        }
    }
}

/// The order on character sequences is transitive.
pub proof fn lemma_seq_less_transitive(a: Seq<char>, b: Seq<char>, c: Seq<char>)
    requires
        seq_less(a, b),
        seq_less(b, c),
    ensures
        seq_less(a, c),
    decreases a.len(),
{
    if a.len() > 0 && b.len() > 0 && c.len() > 0 && a[0] == b[0] && b[0] == c[0] {
        lemma_seq_less_transitive(a.skip(1), b.skip(1), c.skip(1));
    }
}

/// The decimal text of a digit.
pub open spec fn digit_spec(d: u64) -> Seq<char> {
    if d == 0 {
        "0"@
    } else if d == 1 {
        "1"@
    } else if d == 2 {
        "2"@
    } else if d == 3 {
        "3"@
    } else if d == 4 {
        "4"@
    } else if d == 5 {
        "5"@
    } else if d == 6 {
        "6"@
    } else if d == 7 {
        "7"@
    } else if d == 8 {
        "8"@
    } else {
        "9"@
    }
}

fn digit_str(d: u64) -> (r: &'static str)
    requires
        d < 10,
    ensures
        r@ == digit_spec(d),
{
    if d == 0 {
        "0"
    } else if d == 1 {
        "1"
    } else if d == 2 {
        "2"
    } else if d == 3 {
        "3"
    } else if d == 4 {
        "4"
    } else if d == 5 {
        "5"
    } else if d == 6 {
        "6"
    } else if d == 7 {
        "7"
    } else if d == 8 {
        "8"
    } else {
        "9"
    }
}

/// The decimal text of a number, without leading zeros.
pub open spec fn decimal_spec(n: u64) -> Seq<char>
    decreases n,
{
    if n < 10 {
        digit_spec(n)
    } else {
        decimal_spec(n / 10) + digit_spec(n % 10)
    }
}

pub fn decimal(n: u64) -> (r: String)
    ensures
        r@ == decimal_spec(n),
    decreases n,
{
    if n < 10 {
        String::from_str(digit_str(n))
    } else {
        let mut s = decimal(n / 10);
        s.append(digit_str(n % 10));
        s
    }
}

/// `prefix`, the decimal text of `i`, then `suffix`.
pub open spec fn indexed_key_spec(prefix: Seq<char>, i: u64, suffix: Seq<char>) -> Seq<char> {
    prefix + decimal_spec(i) + suffix
}

pub fn indexed_key(prefix: &str, i: u64, suffix: &str) -> (r: String)
    ensures
        r@ == indexed_key_spec(prefix@, i, suffix@),
{
    let mut s = String::from_str(prefix);
    let d = decimal(i);
    s.append(d.as_str());
    s.append(suffix);
    s
}

/// Labels found so far, start of the current label, and whether the next character is escaped,
/// after reading `s` from the left.
pub open spec fn split_fold(s: Seq<char>) -> (Seq<Seq<char>>, int, bool)
    decreases s.len(),
{
    if s.len() == 0 {
        (Seq::empty(), 0, false)
    } else {
        let (labels, start, escaped) = split_fold(s.drop_last());
        let i = s.len() - 1;
        if s.last() == '.' && !escaped {
            (labels.push(s.subrange(start, i)), i + 1, false)
        } else if s.last() == '\\' {
            (labels, start, !escaped)
        } else {
            (labels, start, false)
        }
    }
}

/// The labels of a name in presentation form: split at each dot not escaped by a backslash.
pub open spec fn split_dns_spec(s: Seq<char>) -> Seq<Seq<char>> {
    split_fold(s).0.push(s.subrange(split_fold(s).1, s.len() as int))
}

proof fn lemma_split_fold(s: Seq<char>)
    ensures
        0 <= split_fold(s).1 <= s.len(),
        forall|k: int|
            0 <= k < split_fold(s).0.len() ==> #[trigger] split_fold(s).0[k] == split_fold(
                s.subrange(0, s.len() as int),
            ).0[k],
    decreases s.len(),
{
    if s.len() > 0 {
        lemma_split_fold(s.drop_last());
    }
    assert(s.subrange(0, s.len() as int) =~= s);
}

/// Splits a name in presentation form into labels at each dot not escaped by a backslash.
pub fn split_dns_string(s: &str) -> (r: Vec<String>)
    ensures
        r@.map_values(|l: String| l@) == split_dns_spec(s@),
{
    let n = s.unicode_len();
    let mut labels: Vec<String> = Vec::new();
    let mut start: usize = 0;
    let mut escaped = false;
    let mut i: usize = 0;
    while i < n
        invariant
            n == s@.len(),
            i <= n,
            (labels@.map_values(|l: String| l@), start as int, escaped) == split_fold(
                s@.subrange(0, i as int),
            ),
        decreases n - i,
    {
        let ghost p = s@.subrange(0, i + 1);
        proof {
            assert(p.drop_last() =~= s@.subrange(0, i as int));
            lemma_split_fold(s@.subrange(0, i as int));
            assert(p.last() == s@[i as int]);
        }
        let c = s.get_char(i);
        if c == '.' && !escaped {
            let label = s.substring_char(start, i).to_owned();
            let ghost prev = labels@;
            labels.push(label);
            proof {
                assert(p.subrange(start as int, i as int) =~= s@.subrange(start as int, i as int));
                assert(labels@.map_values(|l: String| l@) =~= prev.map_values(|l: String| l@).push(
                    s@.subrange(start as int, i as int),
                ));
            }
            start = i + 1;
            escaped = false;
        } else if c == '\\' {
            escaped = !escaped;
        } else {
            escaped = false;
        }
        i = i + 1;
    }
    proof {
        assert(s@.subrange(0, n as int) =~= s@);
        lemma_split_fold(s@);
    }
    let last = s.substring_char(start, n).to_owned();
    let ghost prev = labels@;
    labels.push(last);
    proof {
        assert(labels@.map_values(|l: String| l@) =~= prev.map_values(|l: String| l@).push(
            s@.subrange(start as int, n as int),
        ));
    }
    labels
}

} // verus!
