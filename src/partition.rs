//! Splitting the candidates `n, n + 1, n + 2, ...` among `w` workers: worker
//! `t` takes `n + t, n + t + w, n + t + 2w, ...`. A progression ends where its
//! next candidate would pass `u64::MAX`.
use vstd::prelude::*;

verus! {

/// The `k`-th candidate of worker `t` when `w` workers start from `n`.
pub open spec fn candidate(n: int, w: int, t: int, k: int) -> int {
    n + t + k * w
}

/// The first candidate of worker `offset`, or `None` when it lies past `u64::MAX`.
pub fn first_candidate(origin: u64, offset: u64) -> (r: Option<u64>)
    ensures
        r == (if origin + offset <= u64::MAX {
            Some((origin + offset) as u64)
        } else {
            None::<u64>
        }),
{
    origin.checked_add(offset)
}

/// The candidate after `i` in a progression of step `step`, or `None` when it
/// lies past `u64::MAX`.
pub fn following_candidate(i: u64, step: u64) -> (r: Option<u64>)
    ensures
        r == (if i + step <= u64::MAX {
            Some((i + step) as u64)
        } else {
            None::<u64>
        }),
{
    i.checked_add(step)
}

/// No candidate is enumerated twice: two positions of the progressions of
/// `w` workers give the same integer only if they are the same position.
pub proof fn lemma_progressions_disjoint(n: int, w: int, t1: int, k1: int, t2: int, k2: int)
    requires
        w >= 1,
        0 <= t1 < w,
        0 <= t2 < w,
        k1 >= 0,
        k2 >= 0,
        candidate(n, w, t1, k1) == candidate(n, w, t2, k2),
    ensures
        t1 == t2,
        k1 == k2,
{
    assert(t1 - t2 == (k2 - k1) * w) by (nonlinear_arith)
        requires n + t1 + k1 * w == n + t2 + k2 * w;
    if k1 != k2 {
        assert(k2 - k1 >= 1 || k2 - k1 <= -1);
        assert((k2 - k1) * w >= w || (k2 - k1) * w <= -w) by (nonlinear_arith)
            requires w >= 1, k2 - k1 >= 1 || k2 - k1 <= -1;
    }
}

/// Every integer `m >= n` is enumerated, by worker `(m - n) % w` at position
/// `(m - n) / w`, and by no other worker or position.
pub proof fn lemma_progressions_cover(n: int, w: int, m: int)
    requires
        w >= 1,
        m >= n,
    ensures
        0 <= (m - n) % w < w,
        (m - n) / w >= 0,
        candidate(n, w, (m - n) % w, (m - n) / w) == m,
        forall|t: int, k: int|
            0 <= t < w && k >= 0 && #[trigger] candidate(n, w, t, k) == m ==> t == (m - n) % w
                && k == (m - n) / w,
{
    let d = m - n;
    assert(d == (d / w) * w + d % w && 0 <= d % w < w && d / w >= 0) by (nonlinear_arith)
        requires d >= 0, w >= 1;
    assert forall|t: int, k: int|
        0 <= t < w && k >= 0 && #[trigger] candidate(n, w, t, k) == m implies t == (m - n) % w
            && k == (m - n) / w by {
        lemma_progressions_disjoint(n, w, t, k, d % w, d / w);
    }
}

} // verus!
