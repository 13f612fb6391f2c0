//! Typed leaf values and the key-value projection of an observed result.

use vstd::prelude::*;

verus! {

/// What a [`Value`] denotes.
pub enum ValueV {
    Str(Seq<char>),
    Int(i64),
    Bool(bool),
    Missing,
}

/// A leaf of the key-value projection.
#[derive(Clone, Debug)]
pub enum Value {
    String(String),
    Integer(i64),
    Boolean(bool),
    Missing,
}

impl View for Value {
    type V = ValueV;

    open spec fn view(&self) -> ValueV {
        match self {
            Value::String(s) => ValueV::Str(s@),
            Value::Integer(i) => ValueV::Int(*i),
            Value::Boolean(b) => ValueV::Bool(*b),
            Value::Missing => ValueV::Missing,
        }
    }
}

impl PartialEq for Value {
    fn eq(&self, other: &Value) -> (r: bool) {
        match (self, other) {
            (Value::String(a), Value::String(b)) => crate::text::str_equal(a.as_str(), b.as_str()),
            (Value::Integer(a), Value::Integer(b)) => *a == *b,
            (Value::Boolean(a), Value::Boolean(b)) => *a == *b,
            (Value::Missing, Value::Missing) => true,
            _ => false,
        }
    }
}

impl vstd::std_specs::cmp::PartialEqSpecImpl for Value {
    open spec fn obeys_eq_spec() -> bool {
        true
    }

    open spec fn eq_spec(&self, other: &Value) -> bool {
        self@ == other@
    }
}

impl Eq for Value {
}

impl Value {
    /// An exact copy.
    pub fn copy(&self) -> (r: Value)
        ensures
            r@ == self@,
    {
        match self {
            Value::String(s) => Value::String(s.clone()),
            Value::Integer(i) => Value::Integer(*i),
            Value::Boolean(b) => Value::Boolean(*b),
            Value::Missing => Value::Missing,
        }
    }

    /// The text of a string value.
    pub fn as_str(&self) -> (r: Option<&str>)
        ensures
            match self@ {
                ValueV::Str(s) => r is Some && r->0@ == s,
                _ => r is None,
            },
    {
        match self {
            Value::String(s) => Some(s.as_str()),
            _ => None,
        }
    }

    /// The number of an integer value.
    pub fn as_i64(&self) -> (r: Option<i64>)
        ensures
            match self@ {
                ValueV::Int(i) => r == Some(i),
                _ => r is None,
            },
    {
        match self {
            Value::Integer(i) => Some(*i),
            _ => None,
        }
    }

    pub fn is_missing(&self) -> (r: bool)
        ensures
            r == (self@ is Missing),
    {
        match self {
            Value::Missing => true,
            _ => false,
        }
    }

    /// Whether this is the string value `s`.
    pub fn is_str(&self, s: &str) -> (r: bool)
        ensures
            r == (self@ == ValueV::Str(s@)),
    {
        match self {
            Value::String(t) => crate::text::str_equal(t.as_str(), s),
            _ => false,
        }
    }

    /// Whether this is the integer value `i`.
    pub fn is_int(&self, i: i64) -> (r: bool)
        ensures
            r == (self@ == ValueV::Int(i)),
    {
        match self {
            Value::Integer(j) => *j == i,
            _ => false,
        }
    }

    /// Whether this is the boolean value `b`.
    pub fn is_bool(&self, b: bool) -> (r: bool)
        ensures
            r == (self@ == ValueV::Bool(b)),
    {
        match self {
            Value::Boolean(c) => *c == b,
            _ => false,
        }
    }
}

/// The value stored last under `k`, or `Missing` where `k` has none.
pub open spec fn value_of(entries: Seq<(Seq<char>, ValueV)>, k: Seq<char>) -> ValueV
    decreases entries.len(),
{
    if entries.len() == 0 {
        ValueV::Missing
    } else if entries.last().0 == k {
        entries.last().1
    } else {
        value_of(entries.drop_last(), k)
    }
}

/// Whether `k` is stored at some position.
pub open spec fn has_key(entries: Seq<(Seq<char>, ValueV)>, k: Seq<char>) -> bool {
    exists|i: int| 0 <= i < entries.len() && (#[trigger] entries[i]).0 == k
}

/// Map from dotted keys (`.a.b.c`) to values; a later entry for a key overrides an earlier one.
pub struct ValueMap {
    entries: Vec<(String, Value)>,
}

impl View for ValueMap {
    type V = Seq<(Seq<char>, ValueV)>;

    closed spec fn view(&self) -> Seq<(Seq<char>, ValueV)> {
        self.entries@.map_values(|e: (String, Value)| (e.0@, e.1@))
    }
}

proof fn lemma_value_of_absent(entries: Seq<(Seq<char>, ValueV)>, k: Seq<char>)
    requires
        !has_key(entries, k),
    ensures
        value_of(entries, k) == ValueV::Missing,
    decreases entries.len(),
{
    if entries.len() > 0 {
        let d = entries.drop_last();
        assert(!has_key(d, k)) by {
            if has_key(d, k) {
                let i = choose|i: int| 0 <= i < d.len() && (#[trigger] d[i]).0 == k;
                assert(entries[i] == d[i]);
            }
        }
        assert(entries[entries.len() - 1] == entries.last());
        lemma_value_of_absent(d, k);
    }
}

impl ValueMap {
    pub fn new() -> (r: ValueMap)
        ensures
            r@.len() == 0,
    {
        ValueMap { entries: Vec::new() }
    }

    /// Stores `value` under `key`, overriding what was stored there.
    pub fn insert(&mut self, key: String, value: Value)
        ensures
            final(self)@ == old(self)@.push((key@, value@)),
            forall|k: Seq<char>|
                #[trigger] value_of(final(self)@, k) == if k == key@ {
                    value@
                } else {
                    value_of(old(self)@, k)
                },
    {
        self.entries.push((key, value));
        proof {
            assert(self@ =~= old(self)@.push((key@, value@)));
            assert(self@.drop_last() =~= old(self)@);
        }
    }

    /// The number of stored entries.
    pub fn len(&self) -> (r: usize)
        ensures
            r == self@.len(),
    {
        self.entries.len()
    }

    /// The key of the entry at position `i`.
    pub fn key_at(&self, i: usize) -> (r: &String)
        requires
            i < self@.len(),
        ensures
            r@ == self@[i as int].0,
    {
        &self.entries[i].0
    }

    /// The value of the entry at position `i`.
    pub fn value_at(&self, i: usize) -> (r: Value)
        requires
            i < self@.len(),
        ensures
            r@ == self@[i as int].1,
    {
        self.entries[i].1.copy()
    }

    /// The value under `key`, `Missing` where none is stored.
    pub fn get(&self, key: &str) -> (r: Value)
        ensures
            r@ == value_of(self@, key@),
    {
        let mut i: usize = self.entries.len();
        proof {
            assert(self@.subrange(0, i as int) =~= self@);
        }
        while i > 0
            invariant
                i <= self@.len(),
                self@.len() == self.entries@.len(),
                value_of(self@, key@) == value_of(self@.subrange(0, i as int), key@),
            decreases i,
        {
            let ghost s = self@.subrange(0, i as int);
            proof {
                assert(s.drop_last() =~= self@.subrange(0, i - 1));
                assert(s.last() == self@[i - 1]);
            }
            if crate::text::str_equal(self.entries[i - 1].0.as_str(), key) {
                return self.entries[i - 1].1.copy();
            }
            i = i - 1;
        }
        Value::Missing
    }

    /// Whether `key` holds the string value `s`.
    pub fn is_str(&self, key: &str, s: &str) -> (r: bool)
        ensures
            r == (value_of(self@, key@) == ValueV::Str(s@)),
    {
        self.get(key).is_str(s)
    }

    /// Whether `key` holds the integer value `i`.
    pub fn is_int(&self, key: &str, i: i64) -> (r: bool)
        ensures
            r == (value_of(self@, key@) == ValueV::Int(i)),
    {
        self.get(key).is_int(i)
    }

    /// Whether `key` holds the boolean value `b`.
    pub fn is_bool(&self, key: &str, b: bool) -> (r: bool)
        ensures
            r == (value_of(self@, key@) == ValueV::Bool(b)),
    {
        self.get(key).is_bool(b)
    }

    /// Whether both maps hold the same value under `key`.
    pub fn same_at(&self, other: &ValueMap, key: &str) -> (r: bool)
        ensures
            r == (value_of(self@, key@) == value_of(other@, key@)),
    {
        self.get(key) == other.get(key)
    }
}

/// The keys under which `left` and `right` hold different values.
pub open spec fn differs(
    left: Seq<(Seq<char>, ValueV)>,
    right: Seq<(Seq<char>, ValueV)>,
    k: Seq<char>,
) -> bool {
    value_of(left, k) != value_of(right, k)
}

/// No key occurs twice.
pub open spec fn distinct_keys(keys: Seq<Seq<char>>) -> bool {
    forall|a: int, b: int| 0 <= a < b < keys.len() ==> keys[a] != keys[b]
}

/// The views of a sequence of strings.
pub open spec fn string_views(v: Seq<String>) -> Seq<Seq<char>> {
    v.map_values(|s: String| s@)
}

/// Whether `k` is among `keys`.
pub fn contains_key(keys: &Vec<String>, k: &str) -> (r: bool)
    ensures
        r == string_views(keys@).contains(k@),
{
    let mut i: usize = 0;
    while i < keys.len()
        invariant
            i <= keys@.len(),
            forall|j: int| 0 <= j < i ==> keys@[j]@ != k@,
        decreases keys@.len() - i,
    {
        if crate::text::str_equal(keys[i].as_str(), k) {
            proof {
                assert(string_views(keys@)[i as int] == k@);
            }
            return true;
        }
        i = i + 1;
    }
    proof {
        if string_views(keys@).contains(k@) {
            let j = choose|j: int| 0 <= j < string_views(keys@).len() && string_views(keys@)[j] == k@;
            assert(keys@[j]@ == k@);
        }
    }
    false
}

/// The keys, each once, under which the two maps hold different values.
pub fn diff_keys(left: &ValueMap, right: &ValueMap) -> (r: Vec<String>)
    ensures
        distinct_keys(string_views(r@)),
        forall|k: Seq<char>|
            string_views(r@).contains(k) <==> differs(left@, right@, k),
{
    let mut out: Vec<String> = Vec::new();
    let mut side: usize = 0;
    while side < 2
        invariant
            side <= 2,
            distinct_keys(string_views(out@)),
            forall|k: Seq<char>| string_views(out@).contains(k) ==> differs(left@, right@, k),
            forall|k: Seq<char>|
                (side >= 1 && has_key(left@, k) || side >= 2 && has_key(right@, k)) && differs(
                    left@,
                    right@,
                    k,
                ) ==> string_views(out@).contains(k),
        decreases 2 - side,
    {
        let m = if side == 0 {
            left
        } else {
            right
        };
        let mut i: usize = 0;
        while i < m.len()
            invariant
                side < 2,
                m@ == if side == 0 {
                    left@
                } else {
                    right@
                },
                i <= m@.len(),
                distinct_keys(string_views(out@)),
                forall|k: Seq<char>|
                    string_views(out@).contains(k) ==> differs(left@, right@, k),
                forall|k: Seq<char>|
                    (side >= 1 && has_key(left@, k)) && differs(left@, right@, k)
                        ==> string_views(out@).contains(k),
                forall|j: int|
                    0 <= j < i && differs(left@, right@, (#[trigger] m@[j]).0)
                        ==> string_views(out@).contains(m@[j].0),
            decreases m@.len() - i,
        {
            let key = m.key_at(i);
            if !left.same_at(right, key.as_str()) && !contains_key(&out, key.as_str()) {
                let ghost before = out@;
                assert(differs(left@, right@, key@));
                out.push(key.clone());
                proof {
                    assert(string_views(out@) =~= string_views(before).push(key@));
                    assert forall|k: Seq<char>| string_views(before).contains(k) implies string_views(
                        out@,
                    ).contains(k) by {
                        let j = choose|j: int|
                            0 <= j < string_views(before).len() && string_views(before)[j] == k;
                        assert(string_views(out@)[j] == k);
                    }
                    assert(string_views(out@)[before.len() as int] == key@);
                    assert forall|k: Seq<char>| string_views(out@).contains(k) implies differs(
                        left@,
                        right@,
                        k,
                    ) by {
                        let j = choose|j: int|
                            0 <= j < string_views(out@).len() && string_views(out@)[j] == k;
                        if j < before.len() {
                            assert(string_views(before)[j] == k);
                            assert(string_views(before).contains(k));
                        } else {
                            assert(k == key@);
                        }
                    }
                    assert forall|a: int, b: int|
                        0 <= a < b < string_views(out@).len() implies string_views(out@)[a]
                        != string_views(out@)[b] by {
                        if b == before.len() {
                            assert(string_views(before)[a] == string_views(out@)[a]);
                        } else {
                            assert(string_views(before)[a] == string_views(out@)[a]);
                            assert(string_views(before)[b] == string_views(out@)[b]);
                        }
                    }
                }
            }
            i = i + 1;
        }
        proof {
            assert forall|k: Seq<char>|
                (side + 1 >= 1 && has_key(left@, k) || side + 1 >= 2 && has_key(right@, k))
                    && differs(left@, right@, k) implies string_views(out@).contains(k) by {
                if side == 0 && has_key(left@, k) {
                    let j = choose|j: int| 0 <= j < left@.len() && (#[trigger] left@[j]).0 == k;
                    assert(m@[j].0 == k);
                } else if side == 1 && has_key(right@, k) && !has_key(left@, k) {
                    let j = choose|j: int| 0 <= j < right@.len() && (#[trigger] right@[j]).0 == k;
                    assert(m@[j].0 == k);
                }
            }
        }
        side = side + 1;
    }
    proof {
        assert forall|k: Seq<char>| differs(left@, right@, k) implies string_views(out@).contains(
            k,
        ) by {
            if !has_key(left@, k) && !has_key(right@, k) {
                lemma_value_of_absent(left@, k);
                lemma_value_of_absent(right@, k);
            }
        }
    }
    out
}

/// The value of a count or an index: the sentinel `usize::MAX` becomes the string `usize::MAX`.
pub open spec fn usize_value(n: usize) -> ValueV {
    if n == usize::MAX {
        ValueV::Str("usize::MAX"@)
    } else {
        ValueV::Int(n as i64)
    }
}

/// A count or index too large for an integer value.
#[derive(Clone, Copy, Debug, PartialEq, Eq, Structural)]
pub struct ValueOutOfRange;

/// Collects the leaves of a walked value under dotted keys, one `.segment` per level.
pub struct KeyValueCollector {
    scope: String,
    map: ValueMap,
}

impl KeyValueCollector {
    pub closed spec fn scope(&self) -> Seq<char> {
        self.scope@
    }

    pub closed spec fn entries(&self) -> Seq<(Seq<char>, ValueV)> {
        self.map@
    }

    /// At the top level, nothing collected.
    pub fn new() -> (r: KeyValueCollector)
        ensures
            r.scope() == Seq::<char>::empty(),
            r.entries().len() == 0,
    {
        KeyValueCollector { scope: String::new(), map: ValueMap::new() }
    }

    pub fn visit_string(&mut self, value: &str)
        ensures
            final(self).scope() == old(self).scope(),
            final(self).entries() == old(self).entries().push((old(self).scope(), ValueV::Str(value@))),
    {
        self.map.insert(self.scope.clone(), Value::String(value.to_owned()));
    }

    pub fn visit_integer(&mut self, value: i64)
        ensures
            final(self).scope() == old(self).scope(),
            final(self).entries() == old(self).entries().push((old(self).scope(), ValueV::Int(value))),
    {
        self.map.insert(self.scope.clone(), Value::Integer(value));
    }

    pub fn visit_bool(&mut self, value: bool)
        ensures
            final(self).scope() == old(self).scope(),
            final(self).entries() == old(self).entries().push((old(self).scope(), ValueV::Bool(value))),
    {
        self.map.insert(self.scope.clone(), Value::Boolean(value));
    }

    /// A count or an index; refused where it neither is the sentinel nor fits an integer.
    pub fn visit_usize(&mut self, value: usize) -> (r: Result<(), ValueOutOfRange>)
        ensures
            final(self).scope() == old(self).scope(),
            value == usize::MAX || value <= i64::MAX ==> r is Ok && final(self).entries()
                == old(self).entries().push((old(self).scope(), usize_value(value))),
            !(value == usize::MAX || value <= i64::MAX) ==> r is Err && final(self).entries() == old(self).entries(),
    {
        if value == usize::MAX {
            self.visit_string("usize::MAX");
            Ok(())
        } else if value as u64 <= i64::MAX as u64 {
            self.visit_integer(value as i64);
            Ok(())
        } else {
            Err(ValueOutOfRange)
        }
    }

    /// Descends into `.segment`; returns the scope to come back to.
    pub fn enter(&mut self, segment: &str) -> (saved: String)
        ensures
            saved@ == old(self).scope(),
            final(self).scope() == old(self).scope() + "."@ + segment@,
            final(self).entries() == old(self).entries(),
    {
        let saved = self.scope.clone();
        self.scope.append(".");
        self.scope.append(segment);
        saved
    }

    /// Descends into `.index`; returns the scope to come back to.
    pub fn enter_index(&mut self, index: u64) -> (saved: String)
        ensures
            saved@ == old(self).scope(),
            final(self).scope() == old(self).scope() + "."@ + crate::text::decimal_spec(index),
            final(self).entries() == old(self).entries(),
    {
        let d = crate::text::decimal(index);
        self.enter(d.as_str())
    }

    /// Comes back to a scope returned by [`Self::enter`].
    pub fn leave(&mut self, saved: String)
        ensures
            final(self).scope() == saved@,
            final(self).entries() == old(self).entries(),
    {
        self.scope = saved;
    }

    /// The number of items of a sequence, under `.#count`.
    pub fn visit_count(&mut self, count: usize) -> (r: Result<(), ValueOutOfRange>)
        ensures
            final(self).scope() == old(self).scope(),
            count == usize::MAX || count <= i64::MAX ==> r is Ok && final(self).entries()
                == old(self).entries().push((old(self).scope() + "."@ + "#count"@, usize_value(count))),
            !(count == usize::MAX || count <= i64::MAX) ==> r is Err && final(self).entries()
                == old(self).entries(),
    {
        let saved = self.enter("#count");
        let r = self.visit_usize(count);
        self.leave(saved);
        r
    }

    /// What was collected.
    pub fn into_map(self) -> (r: ValueMap)
        ensures
            r@ == self.entries(),
    {
        self.map
    }
}

} // verus!
