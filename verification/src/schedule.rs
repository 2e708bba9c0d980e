//! The job scheduler: a bounded worker pool with ordered drain.
//!
//! Jobs are claimed in list order, run concurrently, and complete in
//! arbitrary order; a reorder buffer turns out-of-order completion into
//! emission in the original submission order.  The threads and channels live
//! in the binary around the library; the claiming discipline, the reorder
//! buffer, and the ordering guarantee itself are verified here.

use vstd::prelude::*;
use crate::testcases::RepoResult;

verus! {

/// Hands each of `total` jobs to exactly one worker: every claim returns the
/// next unclaimed position.  The binary holds the queue behind a lock.
pub struct JobQueue {
    pub next: usize,
    pub total: usize,
}

impl JobQueue {
    /// A queue over positions `0 .. total`.
    pub fn new(total: usize) -> (r: JobQueue)
        ensures
            r.next == 0,
            r.total == total,
    {
        JobQueue { next: 0, total }
    }

    /// Claims the next unclaimed job, if one is left.  Two claims never
    /// return the same position: each call advances the queue.
    pub fn claim(&mut self) -> (r: Option<usize>)
        ensures
            final(self).total == old(self).total,
            old(self).next < old(self).total ==> r == Some(old(self).next) && final(self).next
                == old(self).next + 1,
            old(self).next >= old(self).total ==> r is None && final(self).next == old(self).next,
    {
        if self.next < self.total {
            let pos = self.next;
            self.next = self.next + 1;
            Some(pos)
        } else {
            None
        }
    }
}

/// The reorder buffer: results arrive keyed by their position in the input
/// list, and are handed out strictly in position order.  Positions before
/// `next_to_emit` have been emitted and their slots cleared.
pub struct ReorderBuffer {
    pub pending: Vec<Option<RepoResult>>,
    pub next_to_emit: usize,
}

impl ReorderBuffer {
    /// Every emitted slot is cleared, and the emission pointer stays within
    /// the buffer.
    pub open spec fn wf(&self) -> bool {
        self.next_to_emit <= self.pending@.len() && forall|k: int|
            0 <= k < self.next_to_emit ==> self.pending@[k] is None
    }

    /// An empty buffer for `total` jobs.
    pub fn new(total: usize) -> (r: ReorderBuffer)
        ensures
            r.wf(),
            r.next_to_emit == 0,
            r.pending@.len() == total,
            forall|k: int| 0 <= k < total ==> r.pending@[k] is None,
    {
        let mut pending: Vec<Option<RepoResult>> = Vec::new();
        let mut i: usize = 0;
        while i < total
            invariant
                i <= total,
                pending@.len() == i,
                forall|k: int| 0 <= k < i ==> pending@[k] is None,
            decreases total - i,
        {
            pending.push(None);
            i = i + 1;
        }
        ReorderBuffer { pending, next_to_emit: 0 }
    }

    /// Buffers the result that arrived for the job at `pos`.  A position is
    /// filled at most once, and never after it was emitted.
    pub fn insert(&mut self, pos: usize, rr: RepoResult)
        requires
            old(self).wf(),
            old(self).next_to_emit <= pos < old(self).pending@.len(),
            old(self).pending@[pos as int] is None,
        ensures
            final(self).wf(),
            final(self).next_to_emit == old(self).next_to_emit,
            final(self).pending@ == old(self).pending@.update(pos as int, Some(rr)),
    {
        self.pending.push(Some(rr));
        let _vacated = self.pending.swap_remove(pos);
        proof {
            assert(self.pending@ =~= old(self).pending@.update(pos as int, Some(rr)));
        }
    }

    /// Removes and returns the next position's result once it has arrived;
    /// `None` while it has not.  Faster jobs stay buffered, never emitted
    /// early.
    pub fn pop_ready(&mut self) -> (r: Option<RepoResult>)
        requires
            old(self).wf(),
        ensures
            final(self).wf(),
            match r {
                Some(rr) => old(self).next_to_emit < old(self).pending@.len() && old(
                    self,
                ).pending@[old(self).next_to_emit as int] == Some(rr) && final(self).next_to_emit
                    == old(self).next_to_emit + 1 && final(self).pending@ == old(
                    self,
                ).pending@.update(old(self).next_to_emit as int, None),
                None => final(self).pending@ == old(self).pending@ && final(self).next_to_emit
                    == old(self).next_to_emit && (old(self).next_to_emit == old(
                    self,
                ).pending@.len() || old(self).pending@[old(self).next_to_emit as int] is None),
            },
    {
        if self.next_to_emit >= self.pending.len() {
            return None;
        }
        let ready = match &self.pending[self.next_to_emit] {
            Some(_) => true,
            None => false,
        };
        if !ready {
            return None;
        }
        let pos = self.next_to_emit;
        self.pending.push(None);
        let taken = self.pending.swap_remove(pos);
        self.next_to_emit = pos + 1;
        proof {
            assert(self.pending@ =~= old(self).pending@.update(pos as int, None));
        }
        taken
    }
}

/// Some arrival carries the result of the job at position `p`.
pub open spec fn arrives(arrivals: Seq<(usize, RepoResult)>, p: int) -> bool {
    exists|j: int| 0 <= j < arrivals.len() && (arrivals[j].0 as int) == p
}

/// A complete set of arrivals for `total` jobs: every recorded position is
/// in range, no position arrives twice, and every position arrives.
pub open spec fn complete_arrivals(arrivals: Seq<(usize, RepoResult)>, total: int) -> bool {
    (forall|j: int| 0 <= j < arrivals.len() ==> ((#[trigger] arrivals[j]).0 as int) < total) && (
    forall|j1: int, j2: int| #![trigger arrivals[j1], arrivals[j2]]
        0 <= j1 < j2 < arrivals.len() ==> arrivals[j1].0 != arrivals[j2].0) && (forall|p: int|
        0 <= p < total ==> #[trigger] arrives(arrivals, p))
}

/// Feeds a complete arrival sequence through the reorder buffer and drains
/// it: the result holds, at every position, the result that arrived for that
/// position — the arrival order leaves no trace.
pub fn emit_in_order(total: usize, arrivals: Vec<(usize, RepoResult)>) -> (r: Vec<RepoResult>)
    requires
        complete_arrivals(arrivals@, total as int),
    ensures
        r@.len() == total,
        forall|j: int|
            0 <= j < arrivals@.len() ==> r@[arrivals@[j].0 as int] == arrivals@[j].1,
{
    let ghost arr0 = arrivals@;
    let mut buf = ReorderBuffer::new(total);
    let mut rest = arrivals;
    let ghost mut done: int = 0;
    while rest.len() > 0
        invariant
            buf.wf(),
            buf.next_to_emit == 0,
            buf.pending@.len() == total,
            0 <= done <= arr0.len(),
            rest@ == arr0.subrange(done, arr0.len() as int),
            complete_arrivals(arr0, total as int),
            forall|j: int| 0 <= j < done ==> buf.pending@[arr0[j].0 as int] == Some(arr0[j].1),
            forall|p: int|
                0 <= p < total && (forall|j: int| 0 <= j < done ==> arr0[j].0 as int != p)
                    ==> buf.pending@[p] is None,
        decreases rest@.len(),
    {
        let (pos, rr) = rest.remove(0);
        proof {
            assert(arr0[done] == (pos, rr));
            assert(arr0[done].0 == pos && arr0[done].1 == rr);
            assert(forall|j: int| 0 <= j < done ==> arr0[j].0 != pos);
            assert(buf.pending@[pos as int] is None);
            assert(rest@ =~= arr0.subrange(done + 1, arr0.len() as int));
        }
        buf.insert(pos, rr);
        proof {
            done = done + 1;
        }
    }
    proof {
        assert(done == arr0.len());
    }
    let mut out: Vec<RepoResult> = Vec::new();
    let mut i: usize = 0;
    while i < total
        invariant
            buf.wf(),
            buf.pending@.len() == total,
            buf.next_to_emit == i,
            i <= total,
            out@.len() == i,
            complete_arrivals(arr0, total as int),
            forall|j: int|
                0 <= j < arr0.len() && i <= arr0[j].0 as int ==> buf.pending@[arr0[j].0 as int]
                    == Some(arr0[j].1),
            forall|j: int|
                0 <= j < arr0.len() && (arr0[j].0 as int) < i ==> out@[arr0[j].0 as int]
                    == arr0[j].1,
        decreases total - i,
    {
        proof {
            assert(arrives(arr0, i as int));
            let j = choose|j: int| 0 <= j < arr0.len() && (arr0[j].0 as int) == i as int;
            assert(0 <= j < arr0.len() && (arr0[j].0 as int) == i as int);
            assert(buf.pending@[i as int] == Some(arr0[j].1));
        }
        let got = buf.pop_ready();
        match got {
            Some(rr) => {
                out.push(rr);
            },
            None => {
                proof {
                    assert(false);
                }
            },
        }
        i = i + 1;
    }
    out
}

/// The result each position is assigned by a complete arrival sequence.
pub open spec fn assigned_result(
    arrivals: Seq<(usize, RepoResult)>,
    p: int,
) -> RepoResult {
    arrivals[choose|j: int| 0 <= j < arrivals.len() && (arrivals[j].0 as int) == p].1
}

/// Law: completion order does not leak into the output.  Two runs of the
/// same job list — any worker counts, any arrival orders — whose jobs
/// produced the same result for every position emit identical sequences.
/// With [`emit_in_order`]'s contract this pins the output to the input
/// order: position `p` of the emission always carries job `p`'s result.
pub proof fn lemma_emission_order_independent(
    total: int,
    a1: Seq<(usize, RepoResult)>,
    a2: Seq<(usize, RepoResult)>,
    r1: Seq<RepoResult>,
    r2: Seq<RepoResult>,
)
    requires
        complete_arrivals(a1, total),
        complete_arrivals(a2, total),
        r1.len() == total,
        r2.len() == total,
        forall|j: int| 0 <= j < a1.len() ==> r1[a1[j].0 as int] == a1[j].1,
        forall|j: int| 0 <= j < a2.len() ==> r2[a2[j].0 as int] == a2[j].1,
        forall|p: int| 0 <= p < total ==> assigned_result(a1, p) == assigned_result(a2, p),
    ensures
        r1 == r2,
{
    assert forall|p: int| 0 <= p < total implies r1[p] == r2[p] by {
        assert(arrives(a1, p));
        assert(arrives(a2, p));
        let j1 = choose|j: int| 0 <= j < a1.len() && (a1[j].0 as int) == p;
        let j2 = choose|j: int| 0 <= j < a2.len() && (a2[j].0 as int) == p;
        assert(0 <= j1 < a1.len() && (a1[j1].0 as int) == p);
        assert(0 <= j2 < a2.len() && (a2[j2].0 as int) == p);
        assert(r1[p] == a1[j1].1);
        assert(r2[p] == a2[j2].1);
        assert(assigned_result(a1, p) == a1[j1].1);
        assert(assigned_result(a2, p) == a2[j2].1);
    }
    assert(r1 =~= r2);
}

/// The number of workers for a run: one when verbose tracing is on, so that
/// interleaved output stays readable; otherwise the requested count, or the
/// host's parallelism when none was requested; always at least one.
pub fn worker_count(requested: Option<usize>, host_parallelism: usize, verbose: bool) -> (r:
    usize)
    ensures
        r >= 1,
        verbose ==> r == 1,
        !verbose ==> r == (match requested {
            Some(j) => if j >= 1 {
                j
            } else {
                1usize
            },
            None => if host_parallelism >= 1 {
                host_parallelism
            } else {
                1usize
            },
        }),
{
    if verbose {
        1
    } else {
        let base = match requested {
            Some(j) => j,
            None => host_parallelism,
        };
        if base >= 1 {
            base
        } else {
            1
        }
    }
}

} // verus!
