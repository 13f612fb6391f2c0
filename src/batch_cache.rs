//! Decisions of the reproduction cache: which fuzz cases to run again, in batches, so that no
//! case is run twice.

use crate::fuzz_case::FuzzCaseId;
use vstd::prelude::*;

verus! {

/// Cases asked for, and those that wait for a batch to fill.
pub struct PendingBatches {
    requested: Vec<FuzzCaseId>,
    waiting: Vec<FuzzCaseId>,
    batch_size: usize,
    /// The cases handed out in batches so far.
    dispatched: Ghost<Set<FuzzCaseId>>,
}

impl PendingBatches {
    pub closed spec fn requested_set(&self) -> Set<FuzzCaseId> {
        self.requested@.to_set()
    }

    pub closed spec fn waiting_seq(&self) -> Seq<FuzzCaseId> {
        self.waiting@
    }

    pub closed spec fn dispatched_set(&self) -> Set<FuzzCaseId> {
        self.dispatched@
    }

    pub closed spec fn size(&self) -> nat {
        self.batch_size as nat
    }

    /// Every case asked for either waits or was handed out, never both, and waits at most once.
    pub closed spec fn wf(&self) -> bool {
        &&& forall|x: FuzzCaseId|
            #![trigger self.requested@.contains(x)]
            self.requested@.contains(x) <==> (self.waiting@.contains(x) || self.dispatched@.contains(x))
        &&& forall|x: FuzzCaseId| !(self.waiting@.contains(x) && self.dispatched@.contains(x))
        &&& forall|a: int, b: int| 0 <= a < b < self.waiting@.len() ==> self.waiting@[a] != self.waiting@[b]
        &&& self.batch_size >= 1
    }

    /// Nothing asked for yet; batches of `batch_size` cases, at least one.
    pub fn new(batch_size: usize) -> (r: PendingBatches)
        ensures
            r.wf(),
            r.requested_set() == Set::<FuzzCaseId>::empty(),
            r.waiting_seq().len() == 0,
            r.dispatched_set() == Set::<FuzzCaseId>::empty(),
            r.size() == if batch_size == 0 {
                1
            } else {
                batch_size
            },
    {
        let r = PendingBatches {
            requested: Vec::new(),
            waiting: Vec::new(),
            batch_size: if batch_size == 0 {
                1
            } else {
                batch_size
            },
            dispatched: Ghost(Set::empty()),
        };
        proof {
            assert(r.requested@.to_set() =~= Set::<FuzzCaseId>::empty());
        }
        r
    }

    fn was_requested(&self, id: FuzzCaseId) -> (r: bool)
        ensures
            r == self.requested@.contains(id),
    {
        let mut i: usize = 0;
        while i < self.requested.len()
            invariant
                i <= self.requested@.len(),
                forall|j: int| 0 <= j < i ==> self.requested@[j] != id,
            decreases self.requested@.len() - i,
        {
            if self.requested[i] == id {
                proof {
                    assert(self.requested@[i as int] == id);
                }
                return true;
            }
            i = i + 1;
        }
        false
    }

    /// Asks for case `id`. A case asked for before is ignored. Otherwise it waits; where that
    /// fills a batch, the whole batch is returned to be run, and nothing waits any more.
    pub fn register(&mut self, id: FuzzCaseId) -> (r: Option<Vec<FuzzCaseId>>)
        requires
            old(self).wf(),
        ensures
            final(self).wf(),
            final(self).size() == old(self).size(),
            final(self).requested_set() == old(self).requested_set().insert(id),
            old(self).requested_set().contains(id) ==> r is None && final(self).waiting_seq()
                == old(self).waiting_seq() && final(self).dispatched_set() == old(self).dispatched_set(),
            !old(self).requested_set().contains(id) && old(self).waiting_seq().len() + 1 < old(self).size()
                ==> r is None && final(self).waiting_seq() == old(self).waiting_seq().push(id)
                && final(self).dispatched_set() == old(self).dispatched_set(),
            !old(self).requested_set().contains(id) && old(self).waiting_seq().len() + 1 >= old(self).size()
                ==> r is Some && r->0@ == old(self).waiting_seq().push(id) && final(self).waiting_seq().len() == 0
                && final(self).dispatched_set() == old(self).dispatched_set().union(r->0@.to_set()),
            r is Some ==> forall|x: FuzzCaseId| #[trigger] r->0@.contains(x) ==> !old(self).dispatched_set().contains(x),
    {
        if self.was_requested(id) {
            proof {
                assert(self.requested@.to_set().insert(id) =~= self.requested@.to_set());
            }
            return None;
        }
        let ghost old_req = self.requested@;
        let ghost old_wait = self.waiting@;
        self.requested.push(id);
        self.waiting.push(id);
        proof {
            assert forall|x: FuzzCaseId| #[trigger] self.requested@.to_set().contains(x) == old_req.to_set().insert(id).contains(x) by {
                if self.requested@.contains(x) {
                    let j = choose|j: int| 0 <= j < self.requested@.len() && self.requested@[j] == x;
                    if j < old_req.len() {
                        assert(old_req[j] == x);
                    }
                }
                if old_req.contains(x) {
                    let j = choose|j: int| 0 <= j < old_req.len() && old_req[j] == x;
                    assert(self.requested@[j] == x);
                }
                if x == id {
                    assert(self.requested@[self.requested@.len() - 1] == id);
                }
            }
            assert(self.requested@.to_set() =~= old_req.to_set().insert(id));
            assert forall|x: FuzzCaseId| #![trigger self.requested@.contains(x)]
                self.requested@.contains(x) <==> (self.waiting@.contains(x) || self.dispatched@.contains(x)) by {
                if self.requested@.contains(x) {
                    let j = choose|j: int| 0 <= j < self.requested@.len() && self.requested@[j] == x;
                    if j < old_req.len() {
                        assert(old_req.contains(x));
                        if old_wait.contains(x) {
                            let q = choose|q: int| 0 <= q < old_wait.len() && old_wait[q] == x;
                            assert(self.waiting@[q] == x);
                        }
                    } else {
                        assert(self.waiting@[self.waiting@.len() - 1] == x);
                    }
                }
                if self.waiting@.contains(x) {
                    let q = choose|q: int| 0 <= q < self.waiting@.len() && self.waiting@[q] == x;
                    if q < old_wait.len() {
                        assert(old_wait[q] == x);
                        assert(old_req.contains(x));
                        let j = choose|j: int| 0 <= j < old_req.len() && old_req[j] == x;
                        assert(self.requested@[j] == x);
                    } else {
                        assert(self.requested@[self.requested@.len() - 1] == x);
                    }
                }
                if self.dispatched@.contains(x) {
                    assert(old_req.contains(x));
                    let j = choose|j: int| 0 <= j < old_req.len() && old_req[j] == x;
                    assert(self.requested@[j] == x);
                }
            }
            assert forall|x: FuzzCaseId| !(self.waiting@.contains(x) && self.dispatched@.contains(x)) by {
                if self.waiting@.contains(x) && self.dispatched@.contains(x) {
                    let q = choose|q: int| 0 <= q < self.waiting@.len() && self.waiting@[q] == x;
                    if q < old_wait.len() {
                        assert(old_wait[q] == x);
                    } else {
                        assert(old_req.contains(x));
                    }
                }
            }
            assert forall|a: int, b: int| 0 <= a < b < self.waiting@.len() implies self.waiting@[a] != self.waiting@[b] by {
                if b == self.waiting@.len() - 1 {
                    assert(old_wait[a] == self.waiting@[a]);
                    if old_wait[a] == id {
                        assert(old_wait.contains(id));
                    }
                }
            }
        }
        if self.waiting.len() >= self.batch_size {
            let mut batch: Vec<FuzzCaseId> = Vec::new();
            std::mem::swap(&mut batch, &mut self.waiting);
            proof {
                let wait = batch@;
                self.dispatched = Ghost(self.dispatched@.union(wait.to_set()));
                assert forall|x: FuzzCaseId| #![trigger self.requested@.contains(x)]
                    self.requested@.contains(x) <==> (self.waiting@.contains(x) || self.dispatched@.contains(x)) by {
                    if wait.contains(x) {
                        assert(wait.to_set().contains(x));
                    }
                    if wait.to_set().contains(x) {
                        assert(wait.contains(x));
                    }
                }
                assert forall|x: FuzzCaseId| #[trigger] batch@.contains(x) implies !old(self).dispatched@.contains(x) by {
                    if x == id {
                    } else {
                        let q = choose|q: int| 0 <= q < wait.len() && wait[q] == x;
                        assert(q < old_wait.len());
                        assert(old_wait[q] == x);
                        assert(old_wait.contains(x));
                    }
                }
            }
            Some(batch)
        } else {
            None
        }
    }

    /// Hands out whatever waits, as a last batch, and from now on runs each case as it is asked
    /// for.
    pub fn finish_computation(&mut self) -> (r: Option<Vec<FuzzCaseId>>)
        requires
            old(self).wf(),
        ensures
            final(self).wf(),
            final(self).size() == 1,
            final(self).requested_set() == old(self).requested_set(),
            final(self).waiting_seq().len() == 0,
            old(self).waiting_seq().len() == 0 ==> r is None && final(self).dispatched_set() == old(self).dispatched_set(),
            old(self).waiting_seq().len() > 0 ==> r is Some && r->0@ == old(self).waiting_seq()
                && final(self).dispatched_set() == old(self).dispatched_set().union(r->0@.to_set()),
            r is Some ==> forall|x: FuzzCaseId| #[trigger] r->0@.contains(x) ==> !old(self).dispatched_set().contains(x),
    {
        self.batch_size = 1;
        if self.waiting.len() == 0 {
            return None;
        }
        let mut batch: Vec<FuzzCaseId> = Vec::new();
        std::mem::swap(&mut batch, &mut self.waiting);
        proof {
            let wait = batch@;
            self.dispatched = Ghost(self.dispatched@.union(wait.to_set()));
            assert forall|x: FuzzCaseId| #![trigger self.requested@.contains(x)]
                self.requested@.contains(x) <==> (self.waiting@.contains(x) || self.dispatched@.contains(x)) by {
                if wait.contains(x) {
                    assert(wait.to_set().contains(x));
                }
                if wait.to_set().contains(x) {
                    assert(wait.contains(x));
                }
            }
        }
        Some(batch)
    }
}

/// A case handed out in a batch is never handed out again: each batch is disjoint from every
/// case handed out before it.
pub proof fn lemma_no_case_dispatched_twice(before: PendingBatches, after: PendingBatches, batch: Seq<FuzzCaseId>)
    requires
        before.wf(),
        after.dispatched_set() == before.dispatched_set().union(batch.to_set()),
        forall|x: FuzzCaseId| #[trigger] batch.contains(x) ==> !before.dispatched_set().contains(x),
    ensures
        forall|x: FuzzCaseId| #[trigger] before.dispatched_set().contains(x) ==> !batch.contains(x),
        after.dispatched_set().len() == before.dispatched_set().len() + batch.to_set().len() || !before.dispatched_set().finite(),
{
    if before.dispatched_set().finite() {
        assert(before.dispatched_set().disjoint(batch.to_set())) by {
            assert forall|x: FuzzCaseId| !(before.dispatched_set().contains(x) && batch.to_set().contains(x)) by {
                if batch.to_set().contains(x) {
                    assert(batch.contains(x));
                }
            }
        }
        vstd::set_lib::lemma_set_disjoint_lens(before.dispatched_set(), batch.to_set());
    }
}

} // verus!
