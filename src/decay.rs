//! Bookkeeping of the decay of the population queue: how many times each entry's priority is
//! to be multiplied by the decay factor when it is next served.

use crate::fuzz_case::FuzzCaseId;
use vstd::prelude::*;

verus! {

/// The pending penalty of `id`: the number of extra decays it owes, 0 where it owes none.
pub open spec fn penalty_of(entries: Seq<(FuzzCaseId, u32)>, id: FuzzCaseId) -> u32
    decreases entries.len(),
{
    if entries.len() == 0 {
        0
    } else if entries.last().0 == id {
        entries.last().1
    } else {
        penalty_of(entries.drop_last(), id)
    }
}

/// Pending penalties per queue entry.
pub struct DecayLedger {
    entries: Vec<(FuzzCaseId, u32)>,
}

impl View for DecayLedger {
    type V = Seq<(FuzzCaseId, u32)>;

    closed spec fn view(&self) -> Seq<(FuzzCaseId, u32)> {
        self.entries@
    }
}

impl DecayLedger {
    pub open spec fn penalty(&self, id: FuzzCaseId) -> u32 {
        penalty_of(self@, id)
    }

    /// No pending penalties.
    pub fn new() -> (r: DecayLedger)
        ensures
            forall|id: FuzzCaseId| r.penalty(id) == 0,
    {
        DecayLedger { entries: Vec::new() }
    }

    /// The pending penalty of `id`.
    pub fn get(&self, id: FuzzCaseId) -> (r: u32)
        ensures
            r == self.penalty(id),
    {
        let mut i: usize = self.entries.len();
        proof {
            assert(self@.subrange(0, i as int) =~= self@);
        }
        while i > 0
            invariant
                i <= self@.len(),
                penalty_of(self@, id) == penalty_of(self@.subrange(0, i as int), id),
            decreases i,
        {
            proof {
                assert(self@.subrange(0, i as int).drop_last() =~= self@.subrange(0, i - 1));
            }
            if self.entries[i - 1].0 == id {
                return self.entries[i - 1].1;
            }
            i = i - 1;
        }
        0
    }

    fn set(&mut self, id: FuzzCaseId, penalty: u32)
        ensures
            forall|x: FuzzCaseId| #[trigger] final(self).penalty(x) == if x == id {
                penalty
            } else {
                old(self).penalty(x)
            },
    {
        self.entries.push((id, penalty));
        proof {
            assert(self@.drop_last() =~= old(self)@);
        }
    }

    /// Adds one pending decay to each of `ids` (which hold each id once), saturating.
    pub fn decay(&mut self, ids: &Vec<FuzzCaseId>)
        requires
            forall|a: int, b: int| 0 <= a < b < ids@.len() ==> ids@[a] != ids@[b],
        ensures
            forall|x: FuzzCaseId| #[trigger] final(self).penalty(x) == if ids@.contains(x) {
                if old(self).penalty(x) == u32::MAX {
                    u32::MAX
                } else {
                    (old(self).penalty(x) + 1) as u32
                }
            } else {
                old(self).penalty(x)
            },
    {
        let mut i: usize = 0;
        while i < ids.len()
            invariant
                i <= ids@.len(),
                forall|a: int, b: int| 0 <= a < b < ids@.len() ==> ids@[a] != ids@[b],
                forall|x: FuzzCaseId| #[trigger] self.penalty(x) == if ids@.subrange(0, i as int).contains(x) {
                    if old(self).penalty(x) == u32::MAX {
                        u32::MAX
                    } else {
                        (old(self).penalty(x) + 1) as u32
                    }
                } else {
                    old(self).penalty(x)
                },
            decreases ids@.len() - i,
        {
            let id = ids[i];
            let p = self.get(id);
            proof {
                let s0 = ids@.subrange(0, i as int);
                if s0.contains(id) {
                    let q = choose|q: int| 0 <= q < s0.len() && s0[q] == id;
                    assert(ids@[q] == ids@[i as int]);
                }
            }
            let next = if p == u32::MAX {
                u32::MAX
            } else {
                p + 1
            };
            self.set(id, next);
            proof {
                let s0 = ids@.subrange(0, i as int);
                let s1 = ids@.subrange(0, i + 1);
                assert forall|x: FuzzCaseId| #[trigger] s1.contains(x) == (s0.contains(x) || x == id) by {
                    if s1.contains(x) {
                        let q = choose|q: int| 0 <= q < s1.len() && s1[q] == x;
                        if q < i {
                            assert(s0[q] == x);
                        }
                    }
                    if s0.contains(x) {
                        let q = choose|q: int| 0 <= q < s0.len() && s0[q] == x;
                        assert(s1[q] == x);
                    }
                    if x == id {
                        assert(s1[i as int] == x);
                    }
                }
            }
            i = i + 1;
        }
        proof {
            assert(ids@.subrange(0, i as int) =~= ids@);
        }
    }

    /// Serves `id`: returns the number of times its priority is to be multiplied by the decay
    /// factor now, one for being served plus its pending penalty, and clears the penalty.
    pub fn serve(&mut self, id: FuzzCaseId) -> (r: u64)
        ensures
            r == old(self).penalty(id) + 1,
            final(self).penalty(id) == 0,
            forall|x: FuzzCaseId| x != id ==> #[trigger] final(self).penalty(x) == old(self).penalty(x),
    {
        let p = self.get(id);
        self.set(id, 0);
        p as u64 + 1
    }
}

} // verus!
