//! Engine-wide laws: properties that relate whole winner maps.

use vstd::prelude::*;
use crate::engine::{compute_spec, mode_tally_fn, winner_at, ElectionMethod};
use crate::geom::{Point, valid_candidates};
use crate::hare::{
    empty_elim, hare_pixel, hare_rec, hare_tally_fn, lemma_first_choice_all_active,
    lemma_hare_tally_nonneg,
};
use crate::select::{argmax_upto, lemma_argmax_congruence, lemma_argmax_props};
use crate::sums::wsum;
use crate::tally::{cell_value, lemma_pixel_tally_congruence, CellMode};

verus! {

/// Identical inputs give byte-identical output: the winner map is a
/// pure function of the resolution, the candidate sequence, and the
/// method, so two runs over the same inputs agree entry for entry.
pub proof fn lemma_compute_deterministic(
    size: int,
    cands: Seq<Point>,
    method: ElectionMethod,
    r1: Seq<u8>,
    r2: Seq<u8>,
)
    requires
        r1 == compute_spec(size, cands, method),
        r2 == compute_spec(size, cands, method),
    ensures
        r1 == r2,
{
}

/// At one pixel, with two candidates, instant runoff decides in its
/// first round and agrees with plurality: the first-choice tally of the
/// empty elimination set is the plurality tally, and with two
/// candidates the larger of the two always holds at least half the
/// total.
proof fn lemma_hare_pixel_two(size: int, cands: Seq<Point>, x: int, y: int)
    requires
        1 <= size,
        valid_candidates(cands),
        cands.len() == 2,
    ensures
        hare_pixel(size, cands, x, y) == winner_at(size, cands, ElectionMethod::Plurality, x, y),
{
    let n = 2int;
    let e0 = empty_elim(n);
    let fh = hare_tally_fn(size, cands, e0, x, y);
    let fp = mode_tally_fn(size, cands, CellMode::OneHot, x, y);
    assert(e0.len() == 2 && !e0[0] && !e0[1]);
    assert forall|c: int| 0 <= c < n implies #[trigger] fh(c) == fp(c) by {
        assert forall|p: Point| #[trigger] cell_value(
            CellMode::FirstChoice(e0),
            cands,
            p,
            c,
        ) == cell_value(CellMode::OneHot, cands, p, c) by {
            lemma_first_choice_all_active(cands, p, e0);
        }
        lemma_pixel_tally_congruence(size, cands, CellMode::FirstChoice(e0), CellMode::OneHot, x, y, c);
    }
    let mw = argmax_upto(fh, n);
    lemma_argmax_props(fh, n);
    lemma_hare_tally_nonneg(size, cands, e0, x, y, 0);
    lemma_hare_tally_nonneg(size, cands, e0, x, y, 1);
    assert(wsum(2, fh) == wsum(1, fh) + fh(1));
    assert(wsum(1, fh) == wsum(0, fh) + fh(0));
    assert(wsum(2, fh) == fh(0) + fh(1));
    assert(2 * fh(mw) >= wsum(2, fh));
    assert(hare_rec(size, cands, x, y, e0, 1) == Option::Some(mw));
    lemma_argmax_congruence(fh, fp, n);
}

/// For two candidates, the instant-runoff winner map and the plurality
/// winner map are identical everywhere.
pub proof fn lemma_hare_two_candidates(size: int, cands: Seq<Point>)
    requires
        1 <= size,
        valid_candidates(cands),
        cands.len() == 2,
    ensures
        compute_spec(size, cands, ElectionMethod::Hare) == compute_spec(
            size,
            cands,
            ElectionMethod::Plurality,
        ),
{
    let sh = compute_spec(size, cands, ElectionMethod::Hare);
    let sp = compute_spec(size, cands, ElectionMethod::Plurality);
    assert forall|k: int| 0 <= k < size * size implies sh[k] == sp[k] by {
        lemma_hare_pixel_two(size, cands, k / size, k % size);
    }
    assert(sh =~= sp);
}

} // verus!
