//! Winner selection: resolving a tally vector into a winning candidate
//! index.
//!
//! Plurality and approval take the candidate with the largest tally;
//! Borda takes the smallest, because ranks are encoded with `1` as the
//! best so the lowest rank sum wins.  All ties resolve to the lowest
//! candidate index: the first extremum found in index order.

use vstd::prelude::*;
use crate::MAX_CANDIDATES;

verus! {

/// Index of the largest value of `f` below `n`, the lowest index
/// winning ties.
pub open spec fn argmax_upto(f: spec_fn(int) -> int, n: int) -> int
    decreases n,
{
    if n <= 1 {
        0
    } else {
        let b = argmax_upto(f, n - 1);
        if f(n - 1) > f(b) {
            n - 1
        } else {
            b
        }
    }
}

/// Index of the smallest value of `f` below `n`, the lowest index
/// winning ties.
pub open spec fn argmin_upto(f: spec_fn(int) -> int, n: int) -> int
    decreases n,
{
    if n <= 1 {
        0
    } else {
        let b = argmin_upto(f, n - 1);
        if f(n - 1) < f(b) {
            n - 1
        } else {
            b
        }
    }
}

/// A tally vector read as a function of the candidate index.
pub open spec fn seq_fn(s: Seq<u64>) -> spec_fn(int) -> int {
    |c: int| s[c] as int
}

/// The maximum's index is in range and its value dominates.
pub proof fn lemma_argmax_props(f: spec_fn(int) -> int, n: int)
    requires
        1 <= n,
    ensures
        0 <= argmax_upto(f, n) < n,
        forall|c: int| 0 <= c < n ==> #[trigger] f(c) <= f(argmax_upto(f, n)),
    decreases n,
{
    if n > 1 {
        lemma_argmax_props(f, n - 1);
    }
}

/// The minimum's index is in range and its value is dominated.
pub proof fn lemma_argmin_props(f: spec_fn(int) -> int, n: int)
    requires
        1 <= n,
    ensures
        0 <= argmin_upto(f, n) < n,
        forall|c: int| 0 <= c < n ==> #[trigger] f(c) >= f(argmin_upto(f, n)),
    decreases n,
{
    if n > 1 {
        lemma_argmin_props(f, n - 1);
    }
}

/// Term functions that agree below `n` have the same maximum index.
pub proof fn lemma_argmax_congruence(f: spec_fn(int) -> int, g: spec_fn(int) -> int, n: int)
    requires
        forall|i: int| 0 <= i < n ==> #[trigger] f(i) == g(i),
    ensures
        argmax_upto(f, n) == argmax_upto(g, n),
    decreases n,
{
    if n > 1 {
        lemma_argmax_congruence(f, g, n - 1);
        if 1 <= n - 1 {
            lemma_argmax_props(f, n - 1);
        }
    }
}

/// Term functions that agree below `n` have the same minimum index.
pub proof fn lemma_argmin_congruence(f: spec_fn(int) -> int, g: spec_fn(int) -> int, n: int)
    requires
        forall|i: int| 0 <= i < n ==> #[trigger] f(i) == g(i),
    ensures
        argmin_upto(f, n) == argmin_upto(g, n),
    decreases n,
{
    if n > 1 {
        lemma_argmin_congruence(f, g, n - 1);
        if 1 <= n - 1 {
            lemma_argmin_props(f, n - 1);
        }
    }
}

/// Picks the candidate with the most votes, the lowest index winning
/// ties.
pub fn max_vote_candidate(votes: &Vec<u64>) -> (win: usize)
    requires
        1 <= votes@.len(),
    ensures
        win as int == argmax_upto(seq_fn(votes@), votes@.len() as int),
        0 <= (win as int) < votes@.len(),
{
    let n = votes.len();
    let mut win: usize = 0;
    let mut best: u64 = votes[0];
    let mut i: usize = 1;
    while i < n
        invariant
            1 <= i <= n,
            n == votes@.len(),
            win as int == argmax_upto(seq_fn(votes@), i as int),
            0 <= (win as int) < i,
            best == votes@[win as int],
        decreases n - i,
    {
        let v = votes[i];
        if v > best {
            best = v;
            win = i;
        }
        i = i + 1;
    }
    win
}

/// Picks the candidate with the fewest votes, the lowest index winning
/// ties.
pub fn min_vote_candidate(votes: &Vec<u64>) -> (win: usize)
    requires
        1 <= votes@.len(),
    ensures
        win as int == argmin_upto(seq_fn(votes@), votes@.len() as int),
        0 <= (win as int) < votes@.len(),
{
    let n = votes.len();
    let mut win: usize = 0;
    let mut best: u64 = votes[0];
    let mut i: usize = 1;
    while i < n
        invariant
            1 <= i <= n,
            n == votes@.len(),
            win as int == argmin_upto(seq_fn(votes@), i as int),
            0 <= (win as int) < i,
            best == votes@[win as int],
        decreases n - i,
    {
        let v = votes[i];
        if v < best {
            best = v;
            win = i;
        }
        i = i + 1;
    }
    win
}

/// Resolves every pixel's tally vector into a winner index: the
/// candidate with the largest tally when `maximize` is set, otherwise
/// the one with the smallest.
pub fn declare_winner(tallies: &Vec<Vec<u64>>, maximize: bool) -> (winners: Vec<u8>)
    requires
        forall|k: int| 0 <= k < tallies@.len() ==> 1 <= #[trigger] tallies@[k]@.len()
            <= MAX_CANDIDATES,
    ensures
        winners@.len() == tallies@.len(),
        forall|k: int|
            0 <= k < tallies@.len() ==> #[trigger] winners@[k] as int == (if maximize {
                argmax_upto(seq_fn(tallies@[k]@), tallies@[k]@.len() as int)
            } else {
                argmin_upto(seq_fn(tallies@[k]@), tallies@[k]@.len() as int)
            }),
        forall|k: int|
            0 <= k < tallies@.len() ==> #[trigger] winners@[k] < tallies@[k]@.len(),
{
    let ncells = tallies.len();
    let mut winners: Vec<u8> = Vec::new();
    let mut cell: usize = 0;
    while cell < ncells
        invariant
            0 <= cell <= ncells,
            ncells == tallies@.len(),
            forall|k: int| 0 <= k < ncells ==> 1 <= #[trigger] tallies@[k]@.len()
                <= MAX_CANDIDATES,
            winners@.len() == cell,
            forall|k: int|
                0 <= k < cell ==> #[trigger] winners@[k] as int == (if maximize {
                    argmax_upto(seq_fn(tallies@[k]@), tallies@[k]@.len() as int)
                } else {
                    argmin_upto(seq_fn(tallies@[k]@), tallies@[k]@.len() as int)
                }),
            forall|k: int|
                0 <= k < cell ==> #[trigger] winners@[k] < tallies@[k]@.len(),
        decreases ncells - cell,
    {
        let votes = &tallies[cell];
        let win: usize = if maximize {
            max_vote_candidate(votes)
        } else {
            min_vote_candidate(votes)
        };
        winners.push(win as u8);
        cell = cell + 1;
    }
    winners
}

} // verus!
