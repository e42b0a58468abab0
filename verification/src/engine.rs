//! The election engine: method selection and the full-grid winner map.
//!
//! The single entry point computes, for every pixel of a `size x size`
//! map, which candidate wins the simulated election at that pixel under
//! the chosen method.  The result is pinned exactly: entry
//! `x * size + y` equals `winner_at` for pixel `(x, y)`, so identical
//! inputs always produce byte-identical output.
//!
//! An unrecognized method name is a configuration error and is rejected
//! outright; the Condorcet method is declared but unimplemented and is
//! rejected with a distinct error.

use vstd::prelude::*;
use vstd::string::StrSliceExecFns;
use crate::MAX_RESOLUTION;
use crate::geom::{Point, valid_candidates};
use crate::hare::{hare_pixel, hare_winners, lemma_hare_decides};
use crate::kernel::build_kernel;
use crate::select::{argmax_upto, argmin_upto, declare_winner, lemma_argmax_congruence,
    lemma_argmax_props, lemma_argmin_congruence, lemma_argmin_props, seq_fn};
use crate::tally::{compute_votes, pixel_tally, sum_votes, BallotKind, CellMode, SumMode};

verus! {

/// A voting method the engine implements.
#[derive(Clone, Copy, Debug, PartialEq, Eq, Structural)]
pub enum ElectionMethod {
    /// Each voter backs their nearest candidate; most votes wins.
    Plurality,
    /// Each voter backs every candidate within the approval radius.
    Approval,
    /// Each voter ranks all candidates; the lowest rank sum wins.
    Borda,
    /// Instant runoff: repeated first-choice tallies with elimination.
    Hare,
}

/// Why a method name was rejected.
#[derive(Clone, Copy, Debug, PartialEq, Eq, Structural)]
pub enum MethodError {
    /// The name is not a known voting method.
    Unrecognized,
    /// The Condorcet method: declared, deliberately unimplemented.
    Unimplemented,
}

/// How a method name parses: the four implemented methods by name,
/// `condorcet` as declared-but-unimplemented, anything else as
/// unrecognized.
pub open spec fn parse_spec(s: Seq<char>) -> Result<ElectionMethod, MethodError> {
    if s == "plurality"@ {
        Result::Ok(ElectionMethod::Plurality)
    } else if s == "approval"@ {
        Result::Ok(ElectionMethod::Approval)
    } else if s == "borda"@ {
        Result::Ok(ElectionMethod::Borda)
    } else if s == "hare"@ {
        Result::Ok(ElectionMethod::Hare)
    } else if s == "condorcet"@ {
        Result::Err(MethodError::Unimplemented)
    } else {
        Result::Err(MethodError::Unrecognized)
    }
}

/// The tally of each candidate at one pixel, as a function of the
/// candidate index.
pub open spec fn mode_tally_fn(
    size: int,
    cands: Seq<Point>,
    mode: CellMode,
    x: int,
    y: int,
) -> spec_fn(int) -> int {
    |c: int| pixel_tally(size, cands, mode, x, y, c)
}

/// The winning candidate index at pixel `(x, y)`: the largest tally for
/// plurality and approval, the smallest rank sum for Borda, and the
/// instant-runoff outcome for Hare; all ties resolve to the lowest
/// index.
pub open spec fn winner_at(
    size: int,
    cands: Seq<Point>,
    method: ElectionMethod,
    x: int,
    y: int,
) -> int {
    let n = cands.len() as int;
    match method {
        ElectionMethod::Plurality => argmax_upto(
            mode_tally_fn(size, cands, CellMode::OneHot, x, y),
            n,
        ),
        ElectionMethod::Approval => argmax_upto(
            mode_tally_fn(size, cands, CellMode::Close, x, y),
            n,
        ),
        ElectionMethod::Borda => argmin_upto(
            mode_tally_fn(size, cands, CellMode::Ranked, x, y),
            n,
        ),
        ElectionMethod::Hare => hare_pixel(size, cands, x, y),
    }
}

/// The whole winner map: entry `x * size + y` is the winner at pixel
/// `(x, y)`.
pub open spec fn compute_spec(size: int, cands: Seq<Point>, method: ElectionMethod) -> Seq<u8> {
    Seq::new((size * size) as nat, |k: int| winner_at(size, cands, method, k / size, k % size) as u8)
}

/// Compares two strings character by character.
fn str_matches(s: &str, t: &str) -> (r: bool)
    ensures
        r <==> s@ == t@,
{
    let ls = s.unicode_len();
    let lt = t.unicode_len();
    if ls != lt {
        proof {
            assert(s@ != t@) by {
                if s@ == t@ {
                    assert(s@.len() == t@.len());
                }
            }
        }
        return false;
    }
    let mut i: usize = 0;
    while i < ls
        invariant
            0 <= i <= ls,
            ls == s@.len(),
            ls == t@.len(),
            forall|k: int| 0 <= k < i ==> s@[k] == t@[k],
        decreases ls - i,
    {
        let cs = s.get_char(i);
        let ct = t.get_char(i);
        if cs != ct {
            proof {
                assert(s@[i as int] != t@[i as int]);
            }
            return false;
        }
        i = i + 1;
    }
    proof {
        assert(s@ =~= t@);
    }
    true
}

/// Parses a method name.  The five known names are matched exactly;
/// `condorcet` fails loudly as unimplemented, distinct from an
/// unrecognized name, which is a configuration error.
pub fn parse_method(s: &str) -> (r: Result<ElectionMethod, MethodError>)
    ensures
        r == parse_spec(s@),
{
    if str_matches(s, "plurality") {
        Result::Ok(ElectionMethod::Plurality)
    } else if str_matches(s, "approval") {
        Result::Ok(ElectionMethod::Approval)
    } else if str_matches(s, "borda") {
        Result::Ok(ElectionMethod::Borda)
    } else if str_matches(s, "hare") {
        Result::Ok(ElectionMethod::Hare)
    } else if str_matches(s, "condorcet") {
        Result::Err(MethodError::Unimplemented)
    } else {
        Result::Err(MethodError::Unrecognized)
    }
}

/// Computes the full-resolution winner map for one render call.  Every
/// entry is pinned: `winners[x * size + y]` is exactly `winner_at` for
/// pixel `(x, y)`, and always a valid candidate index.
pub fn compute(size: usize, candidates: &Vec<Point>, method: ElectionMethod) -> (winners: Vec<u8>)
    requires
        1 <= size <= MAX_RESOLUTION,
        valid_candidates(candidates@),
    ensures
        winners@ == compute_spec(size as int, candidates@, method),
        winners@.len() == size * size,
        forall|k: int| 0 <= k < winners@.len() ==> #[trigger] winners@[k] < candidates@.len(),
{
    let ghost si = size as int;
    let ghost cands = candidates@;
    let n = candidates.len();
    let weights = build_kernel(size);
    let winners: Vec<u8> = match method {
        ElectionMethod::Plurality => {
            let grid = compute_votes(size, candidates, BallotKind::OneHot);
            let tallies = sum_votes(size, candidates, &grid, &weights, &SumMode::Raw,
                BallotKind::OneHot);
            proof {
                let tv = tallies@.map_values(|v: Vec<u64>| v@);
                assert forall|k: int|
                    0 <= k < tallies@.len() implies 1 <= #[trigger] tallies@[k]@.len()
                    <= crate::MAX_CANDIDATES by {
                    assert(tv[k] == tallies@[k]@);
                    assert(tv[k].len() == cands.len());
                }
            }
            let w = declare_winner(&tallies, true);
            proof {
                lemma_declared_matches(si, cands, CellMode::OneHot, tallies@.map_values(
                    |v: Vec<u64>| v@,
                ), tallies@, w@, true);
            }
            w
        },
        ElectionMethod::Approval => {
            let grid = compute_votes(size, candidates, BallotKind::Close);
            let tallies = sum_votes(size, candidates, &grid, &weights, &SumMode::Raw,
                BallotKind::Close);
            proof {
                let tv = tallies@.map_values(|v: Vec<u64>| v@);
                assert forall|k: int|
                    0 <= k < tallies@.len() implies 1 <= #[trigger] tallies@[k]@.len()
                    <= crate::MAX_CANDIDATES by {
                    assert(tv[k] == tallies@[k]@);
                    assert(tv[k].len() == cands.len());
                }
            }
            let w = declare_winner(&tallies, true);
            proof {
                lemma_declared_matches(si, cands, CellMode::Close, tallies@.map_values(
                    |v: Vec<u64>| v@,
                ), tallies@, w@, true);
            }
            w
        },
        ElectionMethod::Borda => {
            let grid = compute_votes(size, candidates, BallotKind::Ranked);
            let tallies = sum_votes(size, candidates, &grid, &weights, &SumMode::Raw,
                BallotKind::Ranked);
            proof {
                let tv = tallies@.map_values(|v: Vec<u64>| v@);
                assert forall|k: int|
                    0 <= k < tallies@.len() implies 1 <= #[trigger] tallies@[k]@.len()
                    <= crate::MAX_CANDIDATES by {
                    assert(tv[k] == tallies@[k]@);
                    assert(tv[k].len() == cands.len());
                }
            }
            let w = declare_winner(&tallies, false);
            proof {
                lemma_declared_matches(si, cands, CellMode::Ranked, tallies@.map_values(
                    |v: Vec<u64>| v@,
                ), tallies@, w@, false);
            }
            w
        },
        ElectionMethod::Hare => {
            let grid = compute_votes(size, candidates, BallotKind::Ranked);
            let w = hare_winners(size, candidates, &grid, &weights);
            proof {
                assert forall|k: int| 0 <= k < w@.len() implies #[trigger] w@[k] as int
                    == winner_at(si, cands, ElectionMethod::Hare, k / si, k % si) by {
                    assert(w@[k] as int == crate::hare::hare_pixel(si, cands, k / si, k % si));
                }
            }
            w
        },
    };
    proof {
        let spec = compute_spec(si, cands, method);
        assert(winners@.len() == si * si);
        assert forall|k: int| 0 <= k < winners@.len() implies #[trigger] winners@[k] as int
            == winner_at(si, cands, method, k / si, k % si) && winners@[k] < n by {}
        assert(winners@ =~= spec);
    }
    winners
}

/// Bridges the per-vector selection of `declare_winner` to the pinned
/// per-pixel tally functions: entry `k` of the winner map is the
/// extremum of candidate tallies at pixel `(k / size, k % size)`.
proof fn lemma_declared_matches(
    size: int,
    cands: Seq<Point>,
    mode: CellMode,
    tv: Seq<Seq<u64>>,
    tallies: Seq<Vec<u64>>,
    w: Seq<u8>,
    maximize: bool,
)
    requires
        1 <= size,
        valid_candidates(cands),
        tv == tallies.map_values(|v: Vec<u64>| v@),
        crate::tally::tallies_ok(size, cands, mode, tv),
        w.len() == tallies.len(),
        forall|k: int|
            0 <= k < tallies.len() ==> #[trigger] w[k] as int == (if maximize {
                argmax_upto(seq_fn(tallies[k]@), tallies[k]@.len() as int)
            } else {
                argmin_upto(seq_fn(tallies[k]@), tallies[k]@.len() as int)
            }),
    ensures
        forall|k: int|
            0 <= k < w.len() ==> #[trigger] w[k] as int == (if maximize {
                argmax_upto(mode_tally_fn(size, cands, mode, k / size, k % size), cands.len() as int)
            } else {
                argmin_upto(mode_tally_fn(size, cands, mode, k / size, k % size), cands.len() as int)
            }),
        forall|k: int| 0 <= k < w.len() ==> #[trigger] w[k] < cands.len(),
{
    let n = cands.len() as int;
    assert forall|k: int|
        0 <= k < w.len() implies #[trigger] w[k] as int == (if maximize {
        argmax_upto(mode_tally_fn(size, cands, mode, k / size, k % size), n)
    } else {
        argmin_upto(mode_tally_fn(size, cands, mode, k / size, k % size), n)
    }) && w[k] < cands.len() by {
        assert(tv[k] == tallies[k]@);
        let g = mode_tally_fn(size, cands, mode, k / size, k % size);
        assert forall|c: int| 0 <= c < n implies #[trigger] seq_fn(tallies[k]@)(c) == g(c) by {
            assert(tv[k][c] as int == crate::tally::pixel_tally(
                size,
                cands,
                mode,
                k / size,
                k % size,
                c,
            ));
        }
        if maximize {
            lemma_argmax_congruence(seq_fn(tallies[k]@), g, n);
            lemma_argmax_props(g, n);
        } else {
            lemma_argmin_congruence(seq_fn(tallies[k]@), g, n);
            lemma_argmin_props(g, n);
        }
    }
}

/// Every winner index is a valid candidate index.
pub proof fn lemma_winner_at_range(
    size: int,
    cands: Seq<Point>,
    method: ElectionMethod,
    x: int,
    y: int,
)
    requires
        1 <= size,
        valid_candidates(cands),
    ensures
        0 <= winner_at(size, cands, method, x, y) < cands.len(),
{
    let n = cands.len() as int;
    match method {
        ElectionMethod::Plurality => {
            lemma_argmax_props(mode_tally_fn(size, cands, CellMode::OneHot, x, y), n);
        },
        ElectionMethod::Approval => {
            lemma_argmax_props(mode_tally_fn(size, cands, CellMode::Close, x, y), n);
        },
        ElectionMethod::Borda => {
            lemma_argmin_props(mode_tally_fn(size, cands, CellMode::Ranked, x, y), n);
        },
        ElectionMethod::Hare => {
            lemma_hare_decides(size, cands, x, y);
        },
    }
}

/// The candidate positions read out of a flat coordinate list: entry
/// `i` is the point `(coords[2i], coords[2i+1])`.
pub open spec fn points_of(coords: Seq<i64>) -> Seq<Point> {
    Seq::new((coords.len() / 2) as nat, |i: int| Point { x: coords[2 * i], y: coords[2 * i + 1] })
}

/// The rendered RGBA image of a winner map: pixel `(x, y)` of the
/// image, at byte offset `(y * size + x) * 4`, carries the palette
/// color of the winner at map entry `x * size + y`, with full alpha.
pub open spec fn render_spec(size: int, cands: Seq<Point>, method: ElectionMethod) -> Seq<u8> {
    Seq::new(
        (size * size * 4) as nat,
        |k: int|
            {
                let pix = k / 4;
                let ch = k % 4;
                let col = crate::palette::palette_spec(
                    winner_at(size, cands, method, pix % size, pix / size),
                );
                if ch == 0 {
                    col.r
                } else if ch == 1 {
                    col.g
                } else if ch == 2 {
                    col.b
                } else {
                    255u8
                }
            },
    )
}

/// Renders one election to an RGBA pixel buffer.  Coordinates come as
/// a flat list of fixed-point pairs; the method comes by name, and a
/// bad name fails with the same errors as [`election`].
pub fn render(size: usize, candidate_coords: &Vec<i64>, election_method: &str) -> (r: Result<
    Vec<u8>,
    MethodError,
>)
    requires
        1 <= size <= MAX_RESOLUTION,
        candidate_coords@.len() % 2 == 0,
        2 <= candidate_coords@.len() <= 2 * crate::MAX_CANDIDATES,
        forall|i: int|
            0 <= i < candidate_coords@.len() ==> -crate::MAX_COORD <= #[trigger] candidate_coords@[i]
                <= crate::MAX_COORD,
    ensures
        match parse_spec(election_method@) {
            Result::Ok(m) => r matches Result::Ok(img) && img@ == render_spec(
                size as int,
                points_of(candidate_coords@),
                m,
            ) && img@.len() == size * size * 4,
            Result::Err(e) => r matches Result::Err(e2) && e2 == e,
        },
{
    let ghost si = size as int;
    let m = match parse_method(election_method) {
        Result::Ok(m) => m,
        Result::Err(e) => {
            return Result::Err(e);
        },
    };
    let npts = candidate_coords.len() / 2;
    let mut candidates: Vec<Point> = Vec::new();
    let mut i: usize = 0;
    while i < npts
        invariant
            0 <= i <= npts,
            npts == candidate_coords@.len() / 2,
            candidate_coords@.len() % 2 == 0,
            candidate_coords@.len() <= 2 * crate::MAX_CANDIDATES,
            forall|j: int|
                0 <= j < candidate_coords@.len() ==> -crate::MAX_COORD
                    <= #[trigger] candidate_coords@[j] <= crate::MAX_COORD,
            candidates@.len() == i,
            forall|j: int|
                0 <= j < i ==> #[trigger] candidates@[j] == points_of(candidate_coords@)[j],
        decreases npts - i,
    {
        let x = candidate_coords[2 * i];
        let y = candidate_coords[2 * i + 1];
        candidates.push(Point { x, y });
        i = i + 1;
    }
    proof {
        assert(candidates@ =~= points_of(candidate_coords@));
        assert(valid_candidates(candidates@));
    }
    let winners = compute(size, &candidates, m);
    proof {
        assert(size * size <= 1024 * 1024 && size * size * 4 <= 4 * 1024 * 1024)
            by (nonlinear_arith)
            requires
                0 < size <= 1024,
        ;
    }
    let ncells: usize = size * size;
    let ghost cands = candidates@;
    let ghost spec = render_spec(si, cands, m);
    let mut img: Vec<u8> = Vec::new();
    let mut pix: usize = 0;
    while pix < ncells
        invariant
            0 <= pix <= ncells,
            ncells == size * size,
            1 <= size <= MAX_RESOLUTION,
            si == size as int,
            cands == candidates@,
            valid_candidates(cands),
            spec == render_spec(si, cands, m),
            spec.len() == si * si * 4,
            winners@ == compute_spec(si, cands, m),
            winners@.len() == size * size,
            img@.len() == 4 * pix,
            forall|k: int| 0 <= k < 4 * pix ==> #[trigger] img@[k] == spec[k],
        decreases ncells - pix,
    {
        let y: usize = pix / size;
        let x: usize = pix % size;
        proof {
            assert(pix / size < size && pix % size < size) by (nonlinear_arith)
                requires
                    0 <= pix < size * size,
                    0 < size,
            ;
            assert(x * size + y < size * size) by (nonlinear_arith)
                requires
                    0 <= (x as int) < size,
                    0 <= (y as int) < size,
            ;
        }
        let widx: usize = x * size + y;
        let w = winners[widx];
        proof {
            vstd::arithmetic::div_mod::lemma_fundamental_div_mod_converse(
                widx as int,
                si,
                x as int,
                y as int,
            );
            lemma_winner_at_range(si, cands, m, x as int, y as int);
            assert(winners@[widx as int] == compute_spec(si, cands, m)[widx as int]);
            assert(winners@[widx as int] as int == winner_at(si, cands, m, x as int, y as int));
        }
        let col = crate::palette::candidate_color(w as usize);
        img.push(col.r);
        img.push(col.g);
        img.push(col.b);
        img.push(255);
        proof {
            assert forall|k: int| 0 <= k < 4 * (pix + 1) implies #[trigger] img@[k] == spec[k] by {
                if k >= 4 * pix {
                    let ch = k - 4 * pix;
                    vstd::arithmetic::div_mod::lemma_fundamental_div_mod_converse(
                        k,
                        4,
                        pix as int,
                        ch,
                    );
                    assert(k / 4 == pix && k % 4 == ch);
                    assert(spec[k] == (if ch == 0 {
                        col.r
                    } else if ch == 1 {
                        col.g
                    } else if ch == 2 {
                        col.b
                    } else {
                        255u8
                    }));
                }
            }
        }
        pix = pix + 1;
    }
    proof {
        assert(img@ =~= spec);
    }
    Result::Ok(img)
}

/// Runs one election over the whole map.  `size` is the map side in
/// pixels, `candidates` the ordered candidate positions in fixed-point
/// coordinates, and `election_method` one of `plurality`, `approval`,
/// `borda`, or `hare`.  A bad method name fails without any partial
/// result; `condorcet` fails distinctly as unimplemented.
pub fn election(size: usize, candidates: &Vec<Point>, election_method: &str) -> (r: Result<
    Vec<u8>,
    MethodError,
>)
    requires
        1 <= size <= MAX_RESOLUTION,
        valid_candidates(candidates@),
    ensures
        match parse_spec(election_method@) {
            Result::Ok(m) => r matches Result::Ok(w) && w@ == compute_spec(
                size as int,
                candidates@,
                m,
            ) && w@.len() == size * size && forall|k: int|
                0 <= k < w@.len() ==> #[trigger] w@[k] < candidates@.len(),
            Result::Err(e) => r matches Result::Err(e2) && e2 == e,
        },
{
    match parse_method(election_method) {
        Result::Ok(m) => Result::Ok(compute(size, candidates, m)),
        Result::Err(e) => Result::Err(e),
    }
}

} // verus!
