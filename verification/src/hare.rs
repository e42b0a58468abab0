//! The instant-runoff (Hare) state machine.
//!
//! Per pixel the machine starts with an empty elimination set and, each
//! round, tallies every voter's first choice among the candidates still
//! in contention.  If some candidate's tally reaches half the round's
//! total it wins; otherwise the candidate with the smallest tally is
//! eliminated and the round repeats.  At most `candidateCount - 1`
//! eliminations can happen: once a single candidate remains it receives
//! every ballot and a majority is guaranteed, so no pixel is ever left
//! undecided.
//!
//! Because many pixels share the same elimination history, the tally
//! grid for each elimination set is computed once per render call and
//! memoized, keyed by the set's bitmask.

use vstd::prelude::*;
use vstd::pervasive::VecAdditionalExecFns;
use vstd::arithmetic::div_mod::lemma_fundamental_div_mod_converse;
use crate::MAX_RESOLUTION;
use crate::geom::{Point, valid_candidates};
use crate::kernel::lemma_kernel_weight_range;
use crate::select::{argmax_upto, lemma_argmax_congruence, lemma_argmax_props, max_vote_candidate,
    seq_fn};
use crate::sums::{lemma_wsum_congruence, lemma_wsum_nonneg, lemma_wsum_single, wsum};
use crate::tally::{
    active_argmin_upto, cell_value, first_choice, grid_ok, has_active, lemma_active_argmin_props,
    lemma_cell_value_range, line_tally, line_term, pixel_tally, pixel_term, sum_votes,
    weights_ok, BallotKind, CellMode, SumMode, TALLY_BOUND,
};

verus! {

/// Number of candidates not yet eliminated among the first `n`.
pub open spec fn count_active_upto(elim: Seq<bool>, n: int) -> int
    decreases n,
{
    if n <= 0 {
        0
    } else {
        count_active_upto(elim, n - 1) + if elim[n - 1] {
            0int
        } else {
            1int
        }
    }
}

/// Number of candidates not yet eliminated.
pub open spec fn count_active(elim: Seq<bool>) -> int {
    count_active_upto(elim, elim.len() as int)
}

/// The elimination set of a fresh pixel: nobody eliminated.
pub open spec fn empty_elim(n: int) -> Seq<bool> {
    Seq::new(n as nat, |i: int| false)
}

/// The elimination-set bitmask: bit `i` set exactly when candidate `i`
/// is eliminated.
pub open spec fn mask_of(s: Seq<bool>) -> int
    decreases s.len(),
{
    if s.len() == 0 {
        0
    } else {
        2 * mask_of(s.drop_last()) + if s.last() {
            1int
        } else {
            0int
        }
    }
}

/// Powers of two, for bounding bitmasks.
pub open spec fn two_pow(n: nat) -> int
    decreases n,
{
    if n == 0 {
        1
    } else {
        2 * two_pow((n - 1) as nat)
    }
}

/// The per-candidate first-choice tally at one pixel, as a function of
/// the candidate index.
pub open spec fn hare_tally_fn(
    size: int,
    cands: Seq<Point>,
    elim: Seq<bool>,
    x: int,
    y: int,
) -> spec_fn(int) -> int {
    |c: int| pixel_tally(size, cands, CellMode::FirstChoice(elim), x, y, c)
}

/// One pixel's instant-runoff outcome after at most `fuel` further
/// eliminations: the winner index, or nothing if the round budget runs
/// out undecided.
pub open spec fn hare_rec(
    size: int,
    cands: Seq<Point>,
    x: int,
    y: int,
    elim: Seq<bool>,
    fuel: nat,
) -> Option<int>
    decreases fuel,
{
    let n = cands.len() as int;
    let f = hare_tally_fn(size, cands, elim, x, y);
    let mw = argmax_upto(f, n);
    if 2 * f(mw) >= wsum(n as nat, f) {
        Option::Some(mw)
    } else if fuel == 0 {
        Option::None
    } else {
        match active_argmin_upto(f, elim, n) {
            Option::None => Option::None,
            Option::Some(lo) => hare_rec(size, cands, x, y, elim.update(lo, true), (fuel - 1) as nat),
        }
    }
}

/// The winner of the full instant-runoff at one pixel: starting from an
/// empty elimination set with a budget of `candidateCount - 1`
/// eliminations, which always suffices.
pub open spec fn hare_pixel(size: int, cands: Seq<Point>, x: int, y: int) -> int {
    match hare_rec(size, cands, x, y, empty_elim(cands.len() as int), (cands.len() - 1) as nat) {
        Option::Some(w) => w,
        Option::None => 0,
    }
}

/// Active counts lie between zero and `n`, and are positive exactly
/// when some candidate below `n` is active.
pub proof fn lemma_count_active_bounds(elim: Seq<bool>, n: int)
    requires
        0 <= n <= elim.len(),
    ensures
        0 <= count_active_upto(elim, n) <= n,
        count_active_upto(elim, n) >= 1 <==> exists|i: int| 0 <= i < n && !elim[i],
    decreases n,
{
    if n > 0 {
        lemma_count_active_bounds(elim, n - 1);
        if count_active_upto(elim, n) >= 1 && elim[n - 1] {
            let i = choose|i: int| 0 <= i < n - 1 && !elim[i];
            assert(0 <= i < n && !elim[i]);
        }
    }
}

/// Two distinct active candidates force an active count of at least
/// two.
pub proof fn lemma_count_active_two(elim: Seq<bool>, n: int, i: int, j: int)
    requires
        0 <= i < j < n <= elim.len(),
        !elim[i],
        !elim[j],
    ensures
        count_active_upto(elim, n) >= 2,
    decreases n,
{
    if j == n - 1 {
        lemma_count_active_bounds(elim, n - 1);
        assert(count_active_upto(elim, n - 1) >= 1);
    } else {
        lemma_count_active_two(elim, n - 1, i, j);
    }
}

/// Eliminating an active candidate lowers the active count by one.
pub proof fn lemma_count_active_update(elim: Seq<bool>, lo: int, n: int)
    requires
        0 <= lo < elim.len(),
        !elim[lo],
        0 <= n <= elim.len(),
    ensures
        count_active_upto(elim.update(lo, true), n) == count_active_upto(elim, n) - if lo < n {
            1int
        } else {
            0int
        },
    decreases n,
{
    if n > 0 {
        lemma_count_active_update(elim, lo, n - 1);
    }
}

/// A fresh elimination set has every candidate active.
pub proof fn lemma_empty_elim_active(n: int, m: int)
    requires
        0 <= m <= n,
    ensures
        empty_elim(n).len() == n,
        count_active_upto(empty_elim(n), m) == m,
    decreases m,
{
    if m > 0 {
        lemma_empty_elim_active(n, m - 1);
    }
}

/// Distinct elimination sets of the same size have distinct bitmasks.
pub proof fn lemma_mask_of_injective(a: Seq<bool>, b: Seq<bool>)
    requires
        a.len() == b.len(),
        mask_of(a) == mask_of(b),
    ensures
        a == b,
    decreases a.len(),
{
    if a.len() == 0 {
        assert(a =~= b);
    } else {
        let abit: int = if a.last() {
            1
        } else {
            0
        };
        let bbit: int = if b.last() {
            1
        } else {
            0
        };
        assert(2 * mask_of(a.drop_last()) + abit == 2 * mask_of(b.drop_last()) + bbit);
        assert(abit == bbit && mask_of(a.drop_last()) == mask_of(b.drop_last()));
        lemma_mask_of_injective(a.drop_last(), b.drop_last());
        assert forall|i: int| 0 <= i < a.len() implies a[i] == b[i] by {
            if i < a.len() - 1 {
                assert(a.drop_last()[i] == b.drop_last()[i]);
            }
        }
        assert(a =~= b);
    }
}

/// Small powers of two stay below the mask-table size.
pub proof fn lemma_two_pow_le(n: nat)
    requires
        n <= 16,
    ensures
        0 < two_pow(n) <= 65536,
{
    lemma_two_pow_mono(n, 16);
    assert(two_pow(0) == 1);
    assert(two_pow(1) == 2);
    assert(two_pow(2) == 4);
    assert(two_pow(3) == 8);
    assert(two_pow(4) == 16);
    assert(two_pow(5) == 32);
    assert(two_pow(6) == 64);
    assert(two_pow(7) == 128);
    assert(two_pow(8) == 256);
    assert(two_pow(9) == 512);
    assert(two_pow(10) == 1024);
    assert(two_pow(11) == 2048);
    assert(two_pow(12) == 4096);
    assert(two_pow(13) == 8192);
    assert(two_pow(14) == 16384);
    assert(two_pow(15) == 32768);
    assert(two_pow(16) == 65536);
}

/// Powers of two grow with the exponent.
pub proof fn lemma_two_pow_mono(a: nat, b: nat)
    requires
        a <= b,
    ensures
        0 < two_pow(a) <= two_pow(b),
    decreases b,
{
    if a < b {
        lemma_two_pow_mono(a, (b - 1) as nat);
    } else if b > 0 {
        lemma_two_pow_mono((a - 1) as nat, (b - 1) as nat);
    }
}

/// Computes the bitmask of an elimination set.
pub fn mask_of_vec(elim: &Vec<bool>) -> (m: usize)
    requires
        elim@.len() <= 16,
    ensures
        m as int == mask_of(elim@),
        0 <= (m as int) < two_pow(elim@.len()),
{
    let n = elim.len();
    let mut m: usize = 0;
    let mut i: usize = 0;
    while i < n
        invariant
            0 <= i <= n,
            n == elim@.len() <= 16,
            m as int == mask_of(elim@.take(i as int)),
            0 <= (m as int) < two_pow(i as nat),
            m <= 65536,
        decreases n - i,
    {
        proof {
            lemma_two_pow_le(i as nat);
            let t = elim@.take(i as int + 1);
            assert(t.drop_last() =~= elim@.take(i as int));
            assert(t.last() == elim@[i as int]);
            lemma_two_pow_le((i + 1) as nat);
        }
        m = 2 * m + if elim[i] {
            1
        } else {
            0
        };
        i = i + 1;
    }
    proof {
        assert(elim@.take(n as int) =~= elim@);
    }
    m
}

/// Copies an elimination set.
fn copy_elim(elim: &Vec<bool>) -> (r: Vec<bool>)
    ensures
        r@ == elim@,
{
    let n = elim.len();
    let mut r: Vec<bool> = Vec::new();
    let mut i: usize = 0;
    while i < n
        invariant
            0 <= i <= n,
            n == elim@.len(),
            r@.len() == i,
            forall|k: int| 0 <= k < i ==> #[trigger] r@[k] == elim@[k],
        decreases n - i,
    {
        r.push(elim[i]);
        i = i + 1;
    }
    proof {
        assert(r@ =~= elim@);
    }
    r
}

/// With nothing eliminated, the active minimum is the plain minimum.
proof fn lemma_active_argmin_all_active(f: spec_fn(int) -> int, elim: Seq<bool>, nn: int)
    requires
        1 <= nn <= elim.len(),
        forall|i: int| 0 <= i < elim.len() ==> !(#[trigger] elim[i]),
    ensures
        active_argmin_upto(f, elim, nn) == Option::Some(crate::select::argmin_upto(f, nn)),
    decreases nn,
{
    if nn == 1 {
        assert(active_argmin_upto(f, elim, 0) is None);
        assert(!elim[0]);
        assert(crate::select::argmin_upto(f, 1) == 0);
    } else {
        lemma_active_argmin_all_active(f, elim, nn - 1);
        assert(!elim[nn - 1]);
    }
}

/// With nothing eliminated, a voter's first choice is the nearest
/// candidate.
pub proof fn lemma_first_choice_all_active(cands: Seq<Point>, p: Point, elim: Seq<bool>)
    requires
        elim.len() == cands.len(),
        cands.len() >= 1,
        forall|i: int| 0 <= i < elim.len() ==> !(#[trigger] elim[i]),
    ensures
        first_choice(cands, p, elim) == Option::Some(crate::geom::nearest(cands, p)),
{
    let n = cands.len() as int;
    let rf = crate::tally::rank_fn(cands, p);
    lemma_active_argmin_all_active(rf, elim, n);
    let a = crate::select::argmin_upto(rf, n);
    crate::select::lemma_argmin_props(rf, n);
    let w = crate::geom::nearest(cands, p);
    crate::geom::lemma_rank_of_nearest(cands, p);
    assert(rf(w) == 1);
    assert(rf(a) <= 1);
    crate::geom::lemma_rank_of_range(cands, p, a);
    assert(rf(a) == 1);
    if a != w {
        crate::geom::lemma_rank_of_order(cands, p, a, w);
        assert(false);
    }
}

/// Term functions that agree below `nn` have the same active minimum.
pub proof fn lemma_active_argmin_congruence(
    f: spec_fn(int) -> int,
    g: spec_fn(int) -> int,
    elim: Seq<bool>,
    nn: int,
)
    requires
        nn <= elim.len(),
        forall|i: int| 0 <= i < nn ==> #[trigger] f(i) == g(i),
    ensures
        active_argmin_upto(f, elim, nn) == active_argmin_upto(g, elim, nn),
    decreases nn,
{
    if nn > 0 {
        lemma_active_argmin_congruence(f, g, elim, nn - 1);
        lemma_active_argmin_props(f, elim, nn - 1);
    }
}

/// Every first-choice tally is nonnegative.
pub proof fn lemma_hare_tally_nonneg(
    size: int,
    cands: Seq<Point>,
    elim: Seq<bool>,
    x: int,
    y: int,
    c: int,
)
    requires
        1 <= size,
        valid_candidates(cands),
        0 <= c < cands.len(),
    ensures
        pixel_tally(size, cands, CellMode::FirstChoice(elim), x, y, c) >= 0,
{
    let mode = CellMode::FirstChoice(elim);
    let kc = crate::kernel::kernel_count(size) as nat;
    assert forall|j: int| 0 <= j < kc implies #[trigger] pixel_term(size, cands, mode, x, y, c)(
        j,
    ) >= 0 by {
        lemma_kernel_weight_range(size, j);
        let gy = y + size + crate::kernel::kernel_offset(size, j);
        lemma_line_tally_nonneg(size, cands, mode, x, gy, c);
        assert(crate::kernel::kernel_weight(size, j) * line_tally(size, cands, mode, x, gy, c)
            >= 0) by (nonlinear_arith)
            requires
                crate::kernel::kernel_weight(size, j) >= 0,
                line_tally(size, cands, mode, x, gy, c) >= 0,
        ;
    }
    lemma_wsum_nonneg(kc, pixel_term(size, cands, mode, x, y, c));
}

/// Every line tally is nonnegative.
pub proof fn lemma_line_tally_nonneg(
    size: int,
    cands: Seq<Point>,
    mode: CellMode,
    x: int,
    gy: int,
    c: int,
)
    requires
        1 <= size,
        valid_candidates(cands),
        0 <= c < cands.len(),
    ensures
        line_tally(size, cands, mode, x, gy, c) >= 0,
{
    let kc = crate::kernel::kernel_count(size) as nat;
    assert forall|j: int| 0 <= j < kc implies #[trigger] line_term(size, cands, mode, x, gy, c)(
        j,
    ) >= 0 by {
        lemma_kernel_weight_range(size, j);
        let p = crate::tally::grid_point(size, x + size + crate::kernel::kernel_offset(size, j), gy);
        lemma_cell_value_range(mode, cands, p, c);
        assert(crate::kernel::kernel_weight(size, j) * cell_value(mode, cands, p, c) >= 0)
            by (nonlinear_arith)
            requires
                crate::kernel::kernel_weight(size, j) >= 0,
                cell_value(mode, cands, p, c) >= 0,
        ;
    }
    lemma_wsum_nonneg(kc, line_term(size, cands, mode, x, gy, c));
}

/// An eliminated candidate's first-choice tally is zero.
pub proof fn lemma_hare_tally_eliminated(
    size: int,
    cands: Seq<Point>,
    elim: Seq<bool>,
    x: int,
    y: int,
    c: int,
)
    requires
        1 <= size,
        valid_candidates(cands),
        elim.len() == cands.len(),
        0 <= c < cands.len(),
        elim[c],
    ensures
        pixel_tally(size, cands, CellMode::FirstChoice(elim), x, y, c) == 0,
{
    let mode = CellMode::FirstChoice(elim);
    let kc = crate::kernel::kernel_count(size) as nat;
    assert forall|j: int| 0 <= j < kc implies #[trigger] pixel_term(size, cands, mode, x, y, c)(
        j,
    ) == 0 by {
        let gy = y + size + crate::kernel::kernel_offset(size, j);
        assert forall|jj: int| 0 <= jj < kc implies #[trigger] line_term(
            size,
            cands,
            mode,
            x,
            gy,
            c,
        )(jj) == 0 by {
            let p = crate::tally::grid_point(
                size,
                x + size + crate::kernel::kernel_offset(size, jj),
                gy,
            );
            lemma_active_argmin_props(crate::tally::rank_fn(cands, p), elim, elim.len() as int);
            assert(first_choice(cands, p, elim) != Option::Some(c));
            assert(cell_value(mode, cands, p, c) == 0);
            assert(crate::kernel::kernel_weight(size, jj) * 0 == 0) by (nonlinear_arith);
        }
        lemma_wsum_congruence(kc, line_term(size, cands, mode, x, gy, c), |jj: int| 0int);
        crate::sums::lemma_wsum_zero(kc);
        assert(line_tally(size, cands, mode, x, gy, c) == 0);
        assert(crate::kernel::kernel_weight(size, j) * 0 == 0) by (nonlinear_arith);
    }
    lemma_wsum_congruence(kc, pixel_term(size, cands, mode, x, y, c), |j: int| 0int);
    crate::sums::lemma_wsum_zero(kc);
}

/// With a single candidate left in contention, the majority test always
/// passes: that candidate holds the whole tally.
pub proof fn lemma_hare_majority_when_one(
    size: int,
    cands: Seq<Point>,
    elim: Seq<bool>,
    x: int,
    y: int,
)
    requires
        1 <= size,
        valid_candidates(cands),
        elim.len() == cands.len(),
        count_active(elim) == 1,
    ensures
        2 * hare_tally_fn(size, cands, elim, x, y)(
            argmax_upto(hare_tally_fn(size, cands, elim, x, y), cands.len() as int),
        ) >= wsum(cands.len() as nat, hare_tally_fn(size, cands, elim, x, y)),
{
    let n = cands.len() as int;
    let f = hare_tally_fn(size, cands, elim, x, y);
    lemma_count_active_bounds(elim, n);
    let r = choose|i: int| 0 <= i < n && !elim[i];
    assert forall|c: int| 0 <= c < n && c != r implies #[trigger] f(c) == 0 by {
        if !elim[c] {
            if c < r {
                lemma_count_active_two(elim, n, c, r);
            } else {
                lemma_count_active_two(elim, n, r, c);
            }
        } else {
            lemma_hare_tally_eliminated(size, cands, elim, x, y, c);
        }
    }
    lemma_wsum_single(n as nat, f, r);
    lemma_hare_tally_nonneg(size, cands, elim, x, y, r);
    lemma_argmax_props(f, n);
    assert(f(argmax_upto(f, n)) >= f(r));
}

/// The instant-runoff recursion decides whenever its budget covers the
/// remaining eliminations: `active - 1` rounds always suffice.
pub proof fn lemma_hare_rec_decides(
    size: int,
    cands: Seq<Point>,
    x: int,
    y: int,
    elim: Seq<bool>,
    fuel: nat,
)
    requires
        1 <= size,
        valid_candidates(cands),
        elim.len() == cands.len(),
        count_active(elim) >= 1,
        fuel >= count_active(elim) - 1,
    ensures
        hare_rec(size, cands, x, y, elim, fuel) matches Option::Some(w) && 0 <= w
            < cands.len(),
    decreases fuel,
{
    let n = cands.len() as int;
    let f = hare_tally_fn(size, cands, elim, x, y);
    let mw = argmax_upto(f, n);
    lemma_argmax_props(f, n);
    if 2 * f(mw) >= wsum(n as nat, f) {
    } else {
        if count_active(elim) == 1 {
            lemma_hare_majority_when_one(size, cands, elim, x, y);
            assert(false);
        }
        lemma_count_active_bounds(elim, n);
        lemma_active_argmin_props(f, elim, n);
        assert(active_argmin_upto(f, elim, n) is Some) by {
            if active_argmin_upto(f, elim, n) is None {
                let i = choose|i: int| 0 <= i < n && !elim[i];
                assert(elim[i]);
            }
        }
        let lo = active_argmin_upto(f, elim, n)->Some_0;
        let elim2 = elim.update(lo, true);
        lemma_count_active_update(elim, lo, n);
        assert(count_active(elim2) == count_active(elim) - 1);
        lemma_hare_rec_decides(size, cands, x, y, elim2, (fuel - 1) as nat);
    }
}

/// Instant-runoff terminates within `candidateCount - 1` elimination
/// rounds for every pixel and every candidate count: starting from the
/// empty elimination set with that round budget, the machine always
/// reaches a decided winner, and the winner index is in range.
pub proof fn lemma_hare_decides(size: int, cands: Seq<Point>, x: int, y: int)
    requires
        1 <= size,
        valid_candidates(cands),
    ensures
        hare_rec(size, cands, x, y, empty_elim(cands.len() as int), (cands.len() - 1) as nat)
            matches Option::Some(w) && 0 <= w < cands.len(),
        0 <= hare_pixel(size, cands, x, y) < cands.len(),
{
    let n = cands.len() as int;
    lemma_empty_elim_active(n, n);
    lemma_hare_rec_decides(size, cands, x, y, empty_elim(n), (n - 1) as nat);
}

/// A memoized tally grid is right for every elimination set that its
/// bitmask denotes.
pub open spec fn cache_entry_ok(
    size: int,
    cands: Seq<Point>,
    m: int,
    entry: Option<Vec<Vec<u64>>>,
) -> bool {
    match entry {
        Option::None => true,
        Option::Some(t) => forall|e2: Seq<bool>|
            e2.len() == cands.len() && #[trigger] mask_of(e2) == m ==> crate::tally::tallies_ok(
                size,
                cands,
                CellMode::FirstChoice(e2),
                t@.map_values(|v: Vec<u64>| v@),
            ),
    }
}

/// Picks the non-eliminated candidate with the fewest votes, the lowest
/// index winning ties.
fn active_min_candidate(votes: &Vec<u64>, elim: &Vec<bool>) -> (win: usize)
    requires
        votes@.len() == elim@.len(),
        has_active(elim@),
    ensures
        Option::Some(win as int) == active_argmin_upto(
            seq_fn(votes@),
            elim@,
            votes@.len() as int,
        ),
        0 <= (win as int) < votes@.len(),
        !elim@[win as int],
{
    let n = votes.len();
    let mut found = false;
    let mut win: usize = 0;
    let mut best: u64 = 0;
    let mut c: usize = 0;
    while c < n
        invariant
            0 <= c <= n,
            n == votes@.len(),
            n == elim@.len(),
            !found ==> active_argmin_upto(seq_fn(votes@), elim@, c as int) is None,
            found ==> active_argmin_upto(seq_fn(votes@), elim@, c as int) == Option::Some(
                win as int,
            ),
            found ==> 0 <= (win as int) < c && best == votes@[win as int],
        decreases n - c,
    {
        let v = votes[c];
        if !elim[c] && (!found || v < best) {
            found = true;
            win = c;
            best = v;
        }
        c = c + 1;
    }
    proof {
        lemma_active_argmin_props(seq_fn(votes@), elim@, n as int);
        if !found {
            let i = choose|i: int| 0 <= i < elim@.len() && !elim@[i];
            assert(elim@[i]);
        }
    }
    win
}

/// Builds the empty per-render memoization table: one slot per
/// elimination-set bitmask.
pub fn hare_cache_new(n: usize) -> (cache: Vec<Option<Vec<Vec<u64>>>>)
    requires
        n <= 5,
    ensures
        cache@.len() as int == two_pow(n as nat),
        cache@.len() <= 32,
        forall|m: int| 0 <= m < cache@.len() ==> #[trigger] cache@[m] is None,
{
    let mut two_n: usize = 1;
    let mut t: usize = 0;
    while t < n
        invariant
            0 <= t <= n,
            n <= 5,
            two_n as int == two_pow(t as nat),
            two_n <= 32,
        decreases n - t,
    {
        proof {
            lemma_two_pow_mono((t + 1) as nat, 5);
            lemma_two_pow_exact_small();
        }
        two_n = 2 * two_n;
        t = t + 1;
    }
    let mut cache: Vec<Option<Vec<Vec<u64>>>> = Vec::new();
    let mut z: usize = 0;
    while z < two_n
        invariant
            0 <= z <= two_n,
            two_n <= 32,
            cache@.len() == z,
            forall|m: int| 0 <= m < z ==> #[trigger] cache@[m] is None,
        decreases two_n - z,
    {
        cache.push(Option::None);
        z = z + 1;
    }
    cache
}

/// Resolves one pixel by the instant-runoff machine, sharing the
/// memoized first-choice tally grids across calls through `cache`.
pub fn hare_pixel_exec(
    size: usize,
    candidates: &Vec<Point>,
    grid: &Vec<Vec<u8>>,
    weights: &Vec<u64>,
    cache: &mut Vec<Option<Vec<Vec<u64>>>>,
    x: usize,
    y: usize,
) -> (w: u8)
    requires
        1 <= size <= MAX_RESOLUTION,
        valid_candidates(candidates@),
        grid_ok(size as int, candidates@, BallotKind::Ranked, grid@.map_values(|v: Vec<u8>| v@)),
        weights_ok(size as int, weights@),
        old(cache)@.len() as int == two_pow(candidates@.len() as nat),
        old(cache)@.len() <= 32,
        forall|m: int|
            0 <= m < old(cache)@.len() ==> cache_entry_ok(
                size as int,
                candidates@,
                m,
                #[trigger] old(cache)@[m],
            ),
        x < size,
        y < size,
    ensures
        w as int == hare_pixel(size as int, candidates@, x as int, y as int),
        (w as int) < candidates@.len(),
        final(cache)@.len() == old(cache)@.len(),
        forall|m: int|
            0 <= m < final(cache)@.len() ==> cache_entry_ok(
                size as int,
                candidates@,
                m,
                #[trigger] final(cache)@[m],
            ),
{
    let ghost si = size as int;
    let ghost cands = candidates@;
    let n = candidates.len();
    proof {
        assert(x * size + y < size * size && x * size + y < 1024 * 1024) by (nonlinear_arith)
            requires
                0 <= (x as int) < size,
                0 <= (y as int) < size,
                size <= 1024,
        ;
    }
    let cell: usize = x * size + y;
    proof {
        lemma_fundamental_div_mod_converse(cell as int, si, x as int, y as int);
    }
    let mut elim: Vec<bool> = Vec::new();
    let mut z2: usize = 0;
    while z2 < n
        invariant
            0 <= z2 <= n,
            elim@.len() == z2,
            forall|k: int| 0 <= k < z2 ==> !(#[trigger] elim@[k]),
        decreases n - z2,
    {
        elim.push(false);
        z2 = z2 + 1;
    }
    proof {
        assert(elim@ =~= empty_elim(n as int));
        lemma_empty_elim_active(n as int, n as int);
        assert(count_active(elim@) == n);
    }
    let mut decided = false;
    let mut winner: u8 = 0;
    while !decided
        invariant
            1 <= size <= MAX_RESOLUTION,
            si == size as int,
            cands == candidates@,
            n == cands.len(),
            1 <= n <= 5,
            valid_candidates(cands),
            grid_ok(si, cands, BallotKind::Ranked, grid@.map_values(|v: Vec<u8>| v@)),
            weights_ok(si, weights@),
            cache@.len() as int == two_pow(n as nat),
            cache@.len() <= 32,
            forall|m: int|
                0 <= m < cache@.len() ==> cache_entry_ok(si, cands, m, #[trigger] cache@[m]),
            0 <= (x as int) < size,
            0 <= (y as int) < size,
            (x as int) == (cell as int) / si,
            (y as int) == (cell as int) % si,
            (cell as int) < size * size,
            elim@.len() == n,
            1 <= count_active(elim@) <= n,
            !decided ==> hare_rec(si, cands, x as int, y as int, empty_elim(n as int), (n
                - 1) as nat) == hare_rec(
                si,
                cands,
                x as int,
                y as int,
                elim@,
                (count_active(elim@) - 1) as nat,
            ),
            decided ==> hare_rec(si, cands, x as int, y as int, empty_elim(n as int), (n
                - 1) as nat) == Option::Some(winner as int) && (winner as int) < n,
        decreases count_active(elim@), (if decided {
            0int
        } else {
            1int
        }),
    {
        let ghost f = hare_tally_fn(si, cands, elim@, x as int, y as int);
        let ghost fuelc = (count_active(elim@) - 1) as nat;
        let m = mask_of_vec(&elim);
        let entry = &cache[m];
        if entry.is_none() {
            proof {
                lemma_count_active_bounds(elim@, n as int);
            }
            let ecopy = copy_elim(&elim);
            let sm = SumMode::FirstChoice(ecopy);
            let tg = sum_votes(size, candidates, grid, weights, &sm, BallotKind::Ranked);
            cache.set(m, Option::Some(tg));
            proof {
                assert forall|mm: int|
                    0 <= mm < cache@.len() implies cache_entry_ok(
                    si,
                    cands,
                    mm,
                    #[trigger] cache@[mm],
                ) by {
                    if mm == m as int {
                        let entry2 = cache@[mm];
                        if entry2 is Some {
                            let tt = entry2->Some_0;
                            assert forall|e2: Seq<bool>|
                                e2.len() == cands.len() && #[trigger] mask_of(e2)
                                    == mm implies crate::tally::tallies_ok(
                                si,
                                cands,
                                CellMode::FirstChoice(e2),
                                tt@.map_values(|v: Vec<u64>| v@),
                            ) by {
                                lemma_mask_of_injective(e2, elim@);
                            }
                        }
                    }
                }
            }
        }
        let tg: &Vec<Vec<u64>> = match &cache[m] {
            Option::Some(t) => t,
            Option::None => {
                proof {
                    assert(false);
                }
                vstd::pervasive::unreached()
            },
        };
        proof {
            assert(cache_entry_ok(si, cands, m as int, cache@[m as int]));
            assert(crate::tally::tallies_ok(
                si,
                cands,
                CellMode::FirstChoice(elim@),
                tg@.map_values(|v: Vec<u64>| v@),
            ));
            assert(tg@.map_values(|v: Vec<u64>| v@)[cell as int] == tg@[cell as int]@);
            assert(size * size == si * si);
        }
        let votes: &Vec<u64> = &tg[cell];
        proof {
            let tv = tg@.map_values(|v: Vec<u64>| v@);
            assert forall|c: int| 0 <= c < n implies #[trigger] votes@[c] as int == f(c) by {
                assert(tv[cell as int][c] as int == pixel_tally(
                    si,
                    cands,
                    CellMode::FirstChoice(elim@),
                    (cell as int) / si,
                    (cell as int) % si,
                    c,
                ));
            }
            assert forall|c: int| 0 <= c < n implies #[trigger] votes@[c] <= TALLY_BOUND by {
                assert(tv[cell as int][c] <= TALLY_BOUND);
            }
            assert forall|c: int| 0 <= c < n implies #[trigger] seq_fn(votes@)(c) == f(c) by {
                assert(votes@[c] as int == f(c));
            }
        }
        let mw = max_vote_candidate(votes);
        proof {
            lemma_argmax_congruence(seq_fn(votes@), f, n as int);
        }
        let mut total: u64 = 0;
        let mut c: usize = 0;
        while c < n
            invariant
                0 <= c <= n,
                n <= 5,
                n == votes@.len(),
                forall|k: int| 0 <= k < n ==> #[trigger] votes@[k] <= TALLY_BOUND,
                total as int == wsum(c as nat, seq_fn(votes@)),
                total as int <= (c as int) * (TALLY_BOUND as int),
            decreases n - c,
        {
            proof {
                assert(seq_fn(votes@)(c as int) == votes@[c as int] as int);
                assert(wsum((c + 1) as nat, seq_fn(votes@)) == wsum(c as nat, seq_fn(votes@))
                    + seq_fn(votes@)(c as int));
                assert(TALLY_BOUND == 90159974952468480u64);
                assert(((c as int) + 1) * (TALLY_BOUND as int) == (c as int) * (
                TALLY_BOUND as int) + (TALLY_BOUND as int)) by (nonlinear_arith);
                assert((c as int) * (TALLY_BOUND as int) <= 4 * (TALLY_BOUND as int))
                    by (nonlinear_arith)
                    requires
                        0 <= (c as int) <= 4,
                        TALLY_BOUND >= 0,
                ;
            }
            total = total + votes[c];
            c = c + 1;
        }
        proof {
            crate::sums::lemma_wsum_congruence(n as nat, seq_fn(votes@), f);
            assert(total as int == wsum(n as nat, f));
        }
        let top = votes[mw];
        if 2 * top >= total {
            winner = mw as u8;
            decided = true;
            proof {
                assert(2 * f(mw as int) >= wsum(n as nat, f));
                assert(hare_rec(si, cands, x as int, y as int, elim@, fuelc)
                    == Option::Some(mw as int));
            }
        } else {
            proof {
                if count_active(elim@) == 1 {
                    lemma_hare_majority_when_one(si, cands, elim@, x as int, y as int);
                    assert(false);
                }
                lemma_count_active_bounds(elim@, n as int);
            }
            let lo = active_min_candidate(votes, &elim);
            proof {
                lemma_active_argmin_congruence(seq_fn(votes@), f, elim@, n as int);
                assert(active_argmin_upto(f, elim@, n as int) == Option::Some(lo as int));
                assert(!(2 * f(argmax_upto(f, n as int)) >= wsum(n as nat, f)));
                assert(fuelc >= 1);
                assert(hare_rec(si, cands, x as int, y as int, elim@, fuelc) == hare_rec(
                    si,
                    cands,
                    x as int,
                    y as int,
                    elim@.update(lo as int, true),
                    (fuelc - 1) as nat,
                ));
                lemma_count_active_update(elim@, lo as int, n as int);
            }
            elim.set(lo, true);
            proof {
                lemma_count_active_bounds(elim@, n as int);
            }
        }
    }
    winner
}

/// Resolves every pixel by the instant-runoff machine, memoizing the
/// first-choice tally grid of each elimination set by its bitmask.
pub fn hare_winners(
    size: usize,
    candidates: &Vec<Point>,
    grid: &Vec<Vec<u8>>,
    weights: &Vec<u64>,
) -> (winners: Vec<u8>)
    requires
        1 <= size <= MAX_RESOLUTION,
        valid_candidates(candidates@),
        grid_ok(size as int, candidates@, BallotKind::Ranked, grid@.map_values(|v: Vec<u8>| v@)),
        weights_ok(size as int, weights@),
    ensures
        winners@.len() == size * size,
        forall|k: int|
            0 <= k < winners@.len() ==> #[trigger] winners@[k] as int == hare_pixel(
                size as int,
                candidates@,
                k / (size as int),
                k % (size as int),
            ),
        forall|k: int| 0 <= k < winners@.len() ==> #[trigger] winners@[k] < candidates@.len(),
{
    let ghost si = size as int;
    let ghost cands = candidates@;
    let n = candidates.len();
    let mut cache = hare_cache_new(n);
    proof {
        assert(size * size <= 1024 * 1024) by (nonlinear_arith)
            requires
                0 < size <= 1024,
        ;
    }
    let ncells: usize = size * size;
    let mut winners: Vec<u8> = Vec::new();
    let mut cell: usize = 0;
    while cell < ncells
        invariant
            0 <= cell <= ncells,
            ncells == size * size,
            1 <= size <= MAX_RESOLUTION,
            si == size as int,
            cands == candidates@,
            n == cands.len(),
            1 <= n <= 5,
            valid_candidates(cands),
            grid_ok(si, cands, BallotKind::Ranked, grid@.map_values(|v: Vec<u8>| v@)),
            weights_ok(si, weights@),
            cache@.len() as int == two_pow(n as nat),
            cache@.len() <= 32,
            forall|m: int|
                0 <= m < cache@.len() ==> cache_entry_ok(si, cands, m, #[trigger] cache@[m]),
            winners@.len() == cell,
            forall|k: int|
                0 <= k < cell ==> #[trigger] winners@[k] as int == hare_pixel(si, cands, k / si, k % si),
            forall|k: int| 0 <= k < cell ==> #[trigger] winners@[k] < n,
        decreases ncells - cell,
    {
        let x: usize = cell / size;
        let y: usize = cell % size;
        proof {
            assert(cell / size < size && cell % size < size) by (nonlinear_arith)
                requires
                    0 <= cell < size * size,
                    0 < size,
            ;
        }
        let w = hare_pixel_exec(size, candidates, grid, weights, &mut cache, x, y);
        winners.push(w);
        cell = cell + 1;
    }
    winners
}

/// Helper: the five smallest powers of two, unfolded.
proof fn lemma_two_pow_exact_small()
    ensures
        two_pow(5) == 32,
{
    assert(two_pow(0) == 1);
    assert(two_pow(1) == 2);
    assert(two_pow(2) == 4);
    assert(two_pow(3) == 8);
    assert(two_pow(4) == 16);
    assert(two_pow(5) == 32);
}

} // verus!
