//! Finite weighted sums over `spec_fn` term functions, with the
//! algebraic lemmas the tally proofs need.

use vstd::prelude::*;

verus! {

/// Sum of `f(0) + f(1) + ... + f(n - 1)`.
pub open spec fn wsum(n: nat, f: spec_fn(int) -> int) -> int
    decreases n,
{
    if n == 0 {
        0
    } else {
        wsum((n - 1) as nat, f) + f(n - 1)
    }
}

/// Two term functions that agree below `n` have the same sum.
pub proof fn lemma_wsum_congruence(n: nat, f: spec_fn(int) -> int, g: spec_fn(int) -> int)
    requires
        forall|i: int| 0 <= i < n ==> #[trigger] f(i) == g(i),
    ensures
        wsum(n, f) == wsum(n, g),
    decreases n,
{
    if n > 0 {
        lemma_wsum_congruence((n - 1) as nat, f, g);
    }
}

/// A sum of nonnegative terms is nonnegative.
pub proof fn lemma_wsum_nonneg(n: nat, f: spec_fn(int) -> int)
    requires
        forall|i: int| 0 <= i < n ==> #[trigger] f(i) >= 0,
    ensures
        wsum(n, f) >= 0,
    decreases n,
{
    if n > 0 {
        lemma_wsum_nonneg((n - 1) as nat, f);
    }
}

/// A sum whose terms all vanish except possibly at `r` collapses to the
/// term at `r`.
pub proof fn lemma_wsum_single(n: nat, f: spec_fn(int) -> int, r: int)
    requires
        forall|i: int| 0 <= i < n && i != r ==> #[trigger] f(i) == 0,
    ensures
        wsum(n, f) == if 0 <= r < n {
            f(r)
        } else {
            0int
        },
    decreases n,
{
    if n > 0 {
        lemma_wsum_single((n - 1) as nat, f, r);
    }
}

/// The sum of the all-zero term function is zero.
pub proof fn lemma_wsum_zero(n: nat)
    ensures
        wsum(n, |i: int| 0int) == 0,
    decreases n,
{
    if n > 0 {
        lemma_wsum_zero((n - 1) as nat);
    }
}

} // verus!
