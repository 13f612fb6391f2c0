//! Fixed-length vectors of saturating coverage counters.

use sha2::Digest as _;
use vstd::prelude::*;

verus! {

/// Saturating addition on 32-bit counters.
pub open spec fn sat_add(a: u32, b: u32) -> u32 {
    if a + b > u32::MAX {
        u32::MAX
    } else {
        (a + b) as u32
    }
}

pub open spec fn min_u32(a: u32, b: u32) -> u32 {
    if a <= b {
        a
    } else {
        b
    }
}

pub open spec fn max_u32(a: u32, b: u32) -> u32 {
    if a >= b {
        a
    } else {
        b
    }
}

/// The values of `c` at the positions where `pattern` is non-zero, in order.
pub open spec fn shrink_spec(c: Seq<u32>, pattern: Seq<u32>) -> Seq<u32>
    decreases c.len(),
{
    if c.len() == 0 {
        Seq::empty()
    } else {
        let rest = shrink_spec(c.drop_last(), pattern.drop_last());
        if pattern.last() > 0 {
            rest.push(c.last())
        } else {
            rest
        }
    }
}

/// The number of non-zero values.
pub open spec fn count_nonzero(c: Seq<u32>) -> nat
    decreases c.len(),
{
    if c.len() == 0 {
        0
    } else {
        count_nonzero(c.drop_last()) + if c.last() > 0 {
            1nat
        } else {
            0nat
        }
    }
}

/// The four little-endian bytes of a word.
pub open spec fn word_le_bytes(x: u32) -> Seq<u8> {
    seq![
        (x % 256) as u8,
        ((x / 256) % 256) as u8,
        ((x / 65536) % 256) as u8,
        ((x / 16777216) % 256) as u8,
    ]
}

/// All words, each as its little-endian bytes, concatenated.
pub open spec fn le_bytes(c: Seq<u32>) -> Seq<u8>
    decreases c.len(),
{
    if c.len() == 0 {
        Seq::empty()
    } else {
        le_bytes(c.drop_last()) + word_le_bytes(c.last())
    }
}

/// The SHA-256 digest of a byte sequence.
pub uninterp spec fn sha256_of(data: Seq<u8>) -> Seq<u8>;

/// Relies on `sha2::Sha256::digest`: the 32-byte SHA-256 digest of `data`.
#[verifier::external_body]
fn sha256_digest(data: &Vec<u8>) -> (r: [u8; 32])
    ensures
        r@ == sha256_of(data@),
{
    sha2::Sha256::digest(data.as_slice()).into()
}

/// Coverage counters of one program run.
pub struct Counters {
    counter: Vec<u32>,
}

impl View for Counters {
    type V = Seq<u32>;

    closed spec fn view(&self) -> Seq<u32> {
        self.counter@
    }
}

impl Clone for Counters {
    fn clone(&self) -> (r: Counters)
        ensures
            r@ == self@,
    {
        Counters { counter: self.counter.clone() }
    }
}

impl PartialEq for Counters {
    fn eq(&self, other: &Counters) -> (r: bool) {
        let n = self.counter.len();
        if n != other.counter.len() {
            return false;
        }
        let mut i: usize = 0;
        while i < n
            invariant
                n == self@.len(),
                n == other@.len(),
                i <= n,
                forall|j: int| 0 <= j < i ==> self@[j] == other@[j],
            decreases n - i,
        {
            if self.counter[i] != other.counter[i] {
                return false;
            }
            i = i + 1;
        }
        proof {
            assert(self@ =~= other@);
        }
        true
    }
}

impl vstd::std_specs::cmp::PartialEqSpecImpl for Counters {
    open spec fn obeys_eq_spec() -> bool {
        true
    }

    open spec fn eq_spec(&self, other: &Counters) -> bool {
        self@ == other@
    }
}

impl Eq for Counters {
}

impl Default for Counters {
    fn default() -> (r: Counters)
        ensures
            r@.len() == 0,
    {
        Counters { counter: Vec::new() }
    }
}

impl From<Vec<u32>> for Counters {
    fn from(values: Vec<u32>) -> (r: Counters) {
        Counters { counter: values }
    }
}

impl vstd::std_specs::convert::FromSpecImpl<Vec<u32>> for Counters {
    open spec fn obeys_from_spec() -> bool {
        true
    }

    closed spec fn from_spec(v: Vec<u32>) -> Counters {
        Counters { counter: v }
    }
}

impl Counters {
    /// `len` counters, each with value `init`.
    pub fn new(len: usize, init: u32) -> (r: Counters)
        ensures
            r@ == Seq::new(len as nat, |_i: int| init),
    {
        let mut counter: Vec<u32> = Vec::with_capacity(len);
        let mut i: usize = 0;
        while i < len
            invariant
                i <= len,
                counter@ == Seq::new(i as nat, |_i: int| init),
            decreases len - i,
        {
            counter.push(init);
            i = i + 1;
            proof {
                assert(counter@ =~= Seq::new(i as nat, |_i: int| init));
            }
        }
        Counters { counter }
    }

    /// Counters holding exactly `values`.
    pub fn from_values(values: Vec<u32>) -> (r: Counters)
        ensures
            r@ == values@,
    {
        Counters { counter: values }
    }

    /// Sets to 0 each counter whose value in `pattern` is non-zero.
    pub fn discard_counters_by_pattern(&mut self, pattern: &Counters)
        requires
            old(self)@.len() == pattern@.len(),
        ensures
            final(self)@.len() == old(self)@.len(),
            forall|i: int|
                0 <= i < pattern@.len() ==> #[trigger] final(self)@[i] == if pattern@[i] > 0 {
                    0
                } else {
                    old(self)@[i]
                },
    {
        let n = self.counter.len();
        let mut i: usize = 0;
        while i < n
            invariant
                n == self@.len(),
                n == pattern@.len(),
                n == old(self)@.len(),
                i <= n,
                forall|j: int|
                    0 <= j < i ==> #[trigger] self@[j] == if pattern@[j] > 0 {
                        0
                    } else {
                        old(self)@[j]
                    },
                forall|j: int| i <= j < n ==> #[trigger] self@[j] == old(self)@[j],
            decreases n - i,
        {
            if pattern.counter[i] > 0 {
                self.counter.set(i, 0);
            }
            i = i + 1;
        }
    }

    /// Replaces each counter by the minimum of it and the one at the same position of `other`.
    pub fn min_pairwise(&mut self, other: &Counters)
        requires
            old(self)@.len() == other@.len(),
        ensures
            final(self)@.len() == old(self)@.len(),
            forall|i: int|
                0 <= i < other@.len() ==> #[trigger] final(self)@[i] == min_u32(
                    old(self)@[i],
                    other@[i],
                ),
    {
        let n = self.counter.len();
        let mut i: usize = 0;
        while i < n
            invariant
                n == self@.len(),
                n == other@.len(),
                n == old(self)@.len(),
                i <= n,
                forall|j: int|
                    0 <= j < i ==> #[trigger] self@[j] == min_u32(old(self)@[j], other@[j]),
                forall|j: int| i <= j < n ==> #[trigger] self@[j] == old(self)@[j],
            decreases n - i,
        {
            let o = other.counter[i];
            if o < self.counter[i] {
                self.counter.set(i, o);
            }
            i = i + 1;
        }
    }

    /// Replaces each counter by the maximum of it and the one at the same position of `other`.
    pub fn max_pairwise(&mut self, other: &Counters)
        requires
            old(self)@.len() == other@.len(),
        ensures
            final(self)@.len() == old(self)@.len(),
            forall|i: int|
                0 <= i < other@.len() ==> #[trigger] final(self)@[i] == max_u32(
                    old(self)@[i],
                    other@[i],
                ),
    {
        let n = self.counter.len();
        let mut i: usize = 0;
        while i < n
            invariant
                n == self@.len(),
                n == other@.len(),
                n == old(self)@.len(),
                i <= n,
                forall|j: int|
                    0 <= j < i ==> #[trigger] self@[j] == max_u32(old(self)@[j], other@[j]),
                forall|j: int| i <= j < n ==> #[trigger] self@[j] == old(self)@[j],
            decreases n - i,
        {
            let o = other.counter[i];
            if o > self.counter[i] {
                self.counter.set(i, o);
            }
            i = i + 1;
        }
    }

    /// Whether any counter is larger than 0.
    pub fn has_counters_set(&self) -> (r: bool)
        ensures
            r == exists|i: int| 0 <= i < self@.len() && #[trigger] self@[i] > 0,
    {
        let n = self.counter.len();
        let mut i: usize = 0;
        while i < n
            invariant
                n == self@.len(),
                i <= n,
                forall|j: int| 0 <= j < i ==> #[trigger] self@[j] == 0,
            decreases n - i,
        {
            if self.counter[i] > 0 {
                return true;
            }
            i = i + 1;
        }
        false
    }

    /// The number of counters.
    pub fn len(&self) -> (r: usize)
        ensures
            r == self@.len(),
    {
        self.counter.len()
    }

    /// The number of counters larger than 0.
    pub fn count(&self) -> (r: usize)
        ensures
            r == count_nonzero(self@),
    {
        let n = self.counter.len();
        let mut i: usize = 0;
        let mut k: usize = 0;
        while i < n
            invariant
                n == self@.len(),
                i <= n,
                k == count_nonzero(self@.subrange(0, i as int)),
                k <= i,
            decreases n - i,
        {
            proof {
                assert(self@.subrange(0, i + 1).drop_last() =~= self@.subrange(0, i as int));
            }
            if self.counter[i] > 0 {
                k = k + 1;
            }
            i = i + 1;
        }
        proof {
            assert(self@.subrange(0, n as int) =~= self@);
        }
        k
    }

    /// SHA-256 over the little-endian bytes of all counters.
    pub fn hash(&self) -> (r: [u8; 32])
        ensures
            r@ == sha256_of(le_bytes(self@)),
    {
        let n = self.counter.len();
        let mut bytes: Vec<u8> = Vec::new();
        let mut i: usize = 0;
        while i < n
            invariant
                n == self@.len(),
                i <= n,
                bytes@ == le_bytes(self@.subrange(0, i as int)),
            decreases n - i,
        {
            let x = self.counter[i];
            bytes.push((x % 256) as u8);
            bytes.push(((x / 256) % 256) as u8);
            bytes.push(((x / 65536) % 256) as u8);
            bytes.push(((x / 16777216) % 256) as u8);
            proof {
                assert(self@.subrange(0, i + 1).drop_last() =~= self@.subrange(0, i as int));
                assert(bytes@ =~= le_bytes(self@.subrange(0, i + 1)));
            }
            i = i + 1;
        }
        proof {
            assert(self@.subrange(0, n as int) =~= self@);
        }
        sha256_digest(&bytes)
    }

    /// The counter values.
    pub fn as_slice(&self) -> (r: &[u32])
        ensures
            r@ == self@,
    {
        self.counter.as_slice()
    }

    /// A copy of the counter values, in order.
    pub fn iter(&self) -> (r: Vec<u32>)
        ensures
            r@ == self@,
    {
        self.counter.clone()
    }

    /// The counters at the positions where `pattern` is non-zero, in order.
    pub fn shrink_by_pattern(&self, pattern: &Counters) -> (r: Counters)
        requires
            self@.len() == pattern@.len(),
        ensures
            r@ == shrink_spec(self@, pattern@),
    {
        let n = self.counter.len();
        let mut out: Vec<u32> = Vec::new();
        let mut i: usize = 0;
        while i < n
            invariant
                n == self@.len(),
                n == pattern@.len(),
                i <= n,
                out@ == shrink_spec(self@.subrange(0, i as int), pattern@.subrange(0, i as int)),
            decreases n - i,
        {
            proof {
                assert(self@.subrange(0, i + 1).drop_last() =~= self@.subrange(0, i as int));
                assert(pattern@.subrange(0, i + 1).drop_last() =~= pattern@.subrange(0, i as int));
            }
            if pattern.counter[i] > 0 {
                out.push(self.counter[i]);
            }
            i = i + 1;
        }
        proof {
            assert(self@.subrange(0, n as int) =~= self@);
            assert(pattern@.subrange(0, n as int) =~= pattern@);
        }
        Counters { counter: out }
    }

    /// Maps every non-zero counter to 1.
    pub fn convert_to_binary(&mut self)
        ensures
            final(self)@.len() == old(self)@.len(),
            forall|i: int|
                0 <= i < old(self)@.len() ==> #[trigger] final(self)@[i] == if old(self)@[i]
                    == 0 {
                    0u32
                } else {
                    1u32
                },
    {
        let n = self.counter.len();
        let mut i: usize = 0;
        while i < n
            invariant
                n == self@.len(),
                n == old(self)@.len(),
                i <= n,
                forall|j: int|
                    0 <= j < i ==> #[trigger] self@[j] == if old(self)@[j] == 0 {
                        0u32
                    } else {
                        1u32
                    },
                forall|j: int| i <= j < n ==> #[trigger] self@[j] == old(self)@[j],
            decreases n - i,
        {
            if self.counter[i] != 0 {
                self.counter.set(i, 1);
            }
            i = i + 1;
        }
    }

    /// Pairwise saturating sum of two counters of equal length.
    pub fn add(self, rhs: Counters) -> (r: Counters)
        requires
            self@.len() == rhs@.len(),
        ensures
            r@.len() == self@.len(),
            forall|i: int|
                0 <= i < self@.len() ==> #[trigger] r@[i] == sat_add(self@[i], rhs@[i]),
    {
        let mut out = self;
        let n = out.counter.len();
        let mut i: usize = 0;
        while i < n
            invariant
                n == out@.len(),
                n == self@.len(),
                n == rhs@.len(),
                i <= n,
                forall|j: int| 0 <= j < i ==> #[trigger] out@[j] == sat_add(self@[j], rhs@[j]),
                forall|j: int| i <= j < n ==> #[trigger] out@[j] == self@[j],
            decreases n - i,
        {
            let v = out.counter[i].saturating_add(rhs.counter[i]);
            out.counter.set(i, v);
            i = i + 1;
        }
        out
    }
}

} // verus!
