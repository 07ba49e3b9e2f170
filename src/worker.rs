//! One search worker, as a step function, and the rule by which records are
//! published in the shared best-bits cell.
//!
//! The caller owns the loop and the shared cells: before each step it reads
//! the liveness flag, and after it offers the result to the best-bits cell and
//! raises the high-water cell. The worker itself decides which candidate comes
//! next, hashes it and counts its leading zero bits.
use vstd::prelude::*;
use crate::bits::{count_leading_zeros, leading_zero_bits};
use crate::hashing::{decimal_digits, sha256, CandidateHasher};
use crate::partition::{candidate, first_candidate, following_candidate};

verus! {

/// What one step of a worker produced.
pub struct Probe {
    /// The candidate that was hashed.
    pub candidate: u64,
    /// Leading zero bits of its digest.
    pub bits: u32,
    /// SHA-256 of its decimal text.
    pub digest: [u8; 32],
    /// The worker's next candidate, for the high-water cell; `None` when the
    /// progression has ended at `u64::MAX`.
    pub advanced: Option<u64>,
}

/// A worker that enumerates `origin + offset + k * stride` for `k = 0, 1, ...`,
/// and stops once that would pass `u64::MAX`.
pub struct Worker {
    origin: u64,
    offset: u64,
    stride: u64,
    next: Option<u64>,
    done: Ghost<nat>,
    hasher: CandidateHasher,
}

/// The `k`-th candidate of `w` as a `u64`, or `None` past `u64::MAX`.
pub open spec fn position(w: &Worker, k: int) -> Option<u64> {
    let c = candidate(w.origin() as int, w.stride() as int, w.offset() as int, k);
    if c <= u64::MAX {
        Some(c as u64)
    } else {
        None
    }
}

impl Worker {
    pub closed spec fn origin(&self) -> u64 {
        self.origin
    }

    pub closed spec fn offset(&self) -> u64 {
        self.offset
    }

    pub closed spec fn stride(&self) -> u64 {
        self.stride
    }

    /// How many candidates this worker has hashed.
    pub closed spec fn done(&self) -> nat {
        self.done@
    }

    pub closed spec fn wf(&self) -> bool {
        &&& 0 <= self.offset < self.stride
        &&& self.hasher.wf()
        &&& self.next == position(self, self.done@ as int)
    }

    /// Worker `offset` of `stride` workers that start from `origin`.
    pub fn new(origin: u64, offset: u64, stride: u64) -> (r: Worker)
        requires
            offset < stride,
        ensures
            r.wf(),
            r.origin() == origin,
            r.offset() == offset,
            r.stride() == stride,
            r.done() == 0,
    {
        let r = Worker {
            origin,
            offset,
            stride,
            next: first_candidate(origin, offset),
            done: Ghost(0),
            hasher: CandidateHasher::new(),
        };
        assert(candidate(origin as int, stride as int, offset as int, 0) == origin + offset);
        r
    }

    /// The candidate that the next step will hash, if any is left.
    pub fn next_candidate(&self) -> (r: Option<u64>)
        requires
            self.wf(),
        ensures
            r == position(self, self.done() as int),
    {
        self.next
    }

    /// One iteration of the search. When `running` is false or the
    /// progression has ended, nothing is done and `None` comes back, so a
    /// worker stops at the first step after the liveness flag is cleared.
    /// Otherwise the current candidate is hashed and the worker moves on.
    pub fn step(&mut self, running: bool) -> (r: Option<Probe>)
        requires
            old(self).wf(),
        ensures
            final(self).wf(),
            final(self).origin() == old(self).origin(),
            final(self).offset() == old(self).offset(),
            final(self).stride() == old(self).stride(),
            !running || position(old(self), old(self).done() as int) is None ==> {
                &&& r is None
                &&& final(self).done() == old(self).done()
            },
            running && position(old(self), old(self).done() as int) is Some ==> {
                &&& r is Some
                &&& r->0.candidate == position(old(self), old(self).done() as int)->0
                &&& r->0.digest@ == sha256(decimal_digits(r->0.candidate as nat))
                &&& r->0.bits == leading_zero_bits(r->0.digest@)
                &&& r->0.advanced == position(old(self), old(self).done() + 1int)
                &&& final(self).done() == old(self).done() + 1
            },
    {
        if !running {
            return None;
        }
        match self.next {
            None => None,
            Some(i) => {
                let digest = self.hasher.digest_of(i);
                let bits = count_leading_zeros(&digest);
                let advanced = following_candidate(i, self.stride);
                proof {
                    let k = self.done@ as int;
                    assert(candidate(self.origin as int, self.stride as int, self.offset as int, k + 1)
                        == i + self.stride) by (nonlinear_arith)
                        requires
                            i == candidate(self.origin as int, self.stride as int, self.offset as int, k);
                }
                self.next = advanced;
                self.done = Ghost(self.done@ + 1);
                Some(Probe { candidate: i, bits, digest, advanced })
            },
        }
    }
}

/// Whether a count of `bits` leading zero bits beats the best count
/// `observed` in the best-bits cell, and so should be offered to it.
pub fn should_publish(bits: u32, observed: u32) -> (r: bool)
    ensures
        r == (bits > observed),
{
    bits > observed
}

/// The best-bits cell after a sequence of compare-and-swap attempts, each a
/// pair of the value the worker observed and the count it offers: an attempt
/// replaces the cell only where the cell still holds the observed value.
pub open spec fn cell_after(cell: u32, attempts: Seq<(u32, u32)>) -> u32
    decreases attempts.len(),
{
    if attempts.len() == 0 {
        cell
    } else {
        let before = cell_after(cell, attempts.drop_last());
        if before == attempts.last().0 {
            attempts.last().1
        } else {
            before
        }
    }
}

/// Attempt `i` won its compare-and-swap, and so publishes a record.
pub open spec fn wins(cell: u32, attempts: Seq<(u32, u32)>, i: int) -> bool {
    cell_after(cell, attempts.take(i)) == attempts[i].0
}

/// Every attempt went through `should_publish`: it offers more than it observed.
pub open spec fn gated(attempts: Seq<(u32, u32)>) -> bool {
    forall|i: int| 0 <= i < attempts.len() ==> #[trigger] attempts[i].1 > attempts[i].0
}

proof fn lemma_cell_step(cell: u32, attempts: Seq<(u32, u32)>, i: int)
    requires
        gated(attempts),
        0 <= i < attempts.len(),
    ensures
        cell_after(cell, attempts.take(i)) <= cell_after(cell, attempts.take(i + 1)),
        wins(cell, attempts, i) ==> cell_after(cell, attempts.take(i + 1)) == attempts[i].1,
{
    assert(attempts.take(i + 1).drop_last() =~= attempts.take(i));
    assert(attempts.take(i + 1).last() == attempts[i]);
    assert(attempts[i].1 > attempts[i].0);
}

proof fn lemma_cell_monotone(cell: u32, attempts: Seq<(u32, u32)>, i: int, j: int)
    requires
        gated(attempts),
        0 <= i <= j <= attempts.len(),
    ensures
        cell_after(cell, attempts.take(i)) <= cell_after(cell, attempts.take(j)),
    decreases j - i,
{
    if i < j {
        lemma_cell_step(cell, attempts, j - 1);
        lemma_cell_monotone(cell, attempts, i, j - 1);
    }
}

/// When every attempt is gated by `should_publish`, the best-bits cell never
/// decreases, and once any attempt has won, the cell holds at least its count
/// from then on. So after two records, whatever order they were printed in,
/// the cell holds at least the larger of their counts.
pub proof fn lemma_best_bits_monotone(cell: u32, attempts: Seq<(u32, u32)>)
    requires
        gated(attempts),
    ensures
        forall|i: int, j: int|
            0 <= i <= j <= attempts.len() ==> #[trigger] cell_after(cell, attempts.take(i))
                <= #[trigger] cell_after(cell, attempts.take(j)),
        forall|i: int, j: int|
            0 <= i < j <= attempts.len() && #[trigger] wins(cell, attempts, i) ==> attempts[i].1
                <= #[trigger] cell_after(cell, attempts.take(j)),
{
    assert forall|i: int, j: int|
        0 <= i <= j <= attempts.len() implies #[trigger] cell_after(cell, attempts.take(i))
            <= #[trigger] cell_after(cell, attempts.take(j)) by {
        lemma_cell_monotone(cell, attempts, i, j);
    }
    assert forall|i: int, j: int|
        0 <= i < j <= attempts.len() && #[trigger] wins(cell, attempts, i) implies attempts[i].1
            <= #[trigger] cell_after(cell, attempts.take(j)) by {
        lemma_cell_step(cell, attempts, i);
        lemma_cell_monotone(cell, attempts, i + 1, j);
    }
}

} // verus!
