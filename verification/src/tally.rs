//! Vote aggregation: the padded ballot grid and the separable Gaussian
//! convolution that turns ballots into a per-pixel tally.
//!
//! The map covers pixels `[0, size)^2`.  Because the kernel reaches one
//! full map width beyond each pixel, ballots are evaluated on a padded
//! grid of side `3 * size + 1`, whose cell `(gx, gy)` sits at the
//! fixed-point position `(gx - size) / size` per axis.  The padded grid
//! doubles as the coordinate-keyed ballot cache: kernel sampling
//! revisits the same absolute location from many pixel centers, and
//! each location's ballot is computed once.
//!
//! A tally entry is the double sum over kernel samples of
//! `weight(dx) * weight(dy) * value(ballot at (x+dx, y+dy), c)`,
//! carried out as two one-dimensional passes: a horizontal pass over
//! padded rows, then a vertical pass that lands on map pixels.
//! Grids are stored cell-major: one small vector of per-candidate
//! entries per cell, cells in row-major order.

use vstd::prelude::*;
use vstd::pervasive::VecAdditionalExecFns;
use vstd::arithmetic::div_mod::lemma_fundamental_div_mod_converse;
use crate::{MAX_RESOLUTION, SCALE, WEIGHT_ONE};
use crate::geom::{Point, rank_of, valid_candidates, valid_point, lemma_rank_of_range};
use crate::ballots::{
    approval_value, plurality_value, ranked_value, vote_close, vote_plurality, vote_rank,
};
use crate::kernel::{kernel_count, kernel_half, kernel_offset, kernel_stride, kernel_weight,
    lemma_kernel_bounds};
use crate::sums::wsum;

verus! {

/// Largest value any tally entry can take; sums of a few entries stay
/// far below `u64::MAX`.
pub const TALLY_BOUND: u64 = 2049 * 65536 * 671416320;

/// Largest value any horizontal line tally can take.
pub const LINE_BOUND: u64 = 2049 * 327680;

/// Which ballot shape a grid holds.
#[derive(Clone, Copy, Debug, PartialEq, Eq, Structural)]
pub enum BallotKind {
    /// One-hot ballots: a single vote for the nearest candidate.
    OneHot,
    /// Approval ballots: a vote for each candidate within the radius.
    Close,
    /// Ranked ballots: the full rank permutation.
    Ranked,
}

/// How ballots are credited while summing.
pub enum SumMode {
    /// Credit each candidate its own ballot entry.
    Raw,
    /// Credit one unit to the best-ranked candidate not yet eliminated;
    /// the vector marks eliminated candidate indices.
    FirstChoice(Vec<bool>),
}

/// What one grid cell contributes to each candidate's tally; the
/// `FirstChoice` case carries the elimination set.
pub enum CellMode {
    OneHot,
    Close,
    Ranked,
    FirstChoice(Seq<bool>),
}

/// The per-candidate value a ballot of the given kind assigns.
pub open spec fn ballot_value(kind: BallotKind, cands: Seq<Point>, p: Point, c: int) -> int {
    match kind {
        BallotKind::OneHot => plurality_value(cands, p, c),
        BallotKind::Close => approval_value(cands, p, c),
        BallotKind::Ranked => ranked_value(cands, p, c),
    }
}

/// The rank a voter at `p` assigns each candidate, as a function.
pub open spec fn rank_fn(cands: Seq<Point>, p: Point) -> spec_fn(int) -> int {
    |c: int| rank_of(cands, p, c)
}

/// Among candidates below `nn` that `elim` has not eliminated, the
/// index with the smallest `f` value, earlier indices winning ties.
pub open spec fn active_argmin_upto(f: spec_fn(int) -> int, elim: Seq<bool>, nn: int) -> Option<
    int,
>
    decreases nn,
{
    if nn <= 0 {
        None
    } else {
        let prev = active_argmin_upto(f, elim, nn - 1);
        if elim[nn - 1] {
            prev
        } else {
            match prev {
                Option::None => Option::Some(nn - 1),
                Option::Some(b) => if f(nn - 1) < f(b) {
                    Option::Some(nn - 1)
                } else {
                    Option::Some(b)
                },
            }
        }
    }
}

/// Some candidate is still in contention.
pub open spec fn has_active(elim: Seq<bool>) -> bool {
    exists|i: int| 0 <= i < elim.len() && !elim[i]
}

/// The first choice of a voter at `p` once the candidates in `elim` are
/// removed from contention: the non-eliminated candidate with the best
/// rank, or nothing when every candidate is eliminated.
pub open spec fn first_choice(cands: Seq<Point>, p: Point, elim: Seq<bool>) -> Option<int> {
    active_argmin_upto(rank_fn(cands, p), elim, elim.len() as int)
}

/// What a grid cell at `p` contributes to candidate `c` under `mode`.
pub open spec fn cell_value(mode: CellMode, cands: Seq<Point>, p: Point, c: int) -> int {
    match mode {
        CellMode::OneHot => plurality_value(cands, p, c),
        CellMode::Close => approval_value(cands, p, c),
        CellMode::Ranked => ranked_value(cands, p, c),
        CellMode::FirstChoice(elim) => if first_choice(cands, p, elim) == Option::Some(c) {
            1int
        } else {
            0int
        },
    }
}

/// The cell mode that reads a grid of the given ballot kind directly.
pub open spec fn ballot_cell_mode(kind: BallotKind) -> CellMode {
    match kind {
        BallotKind::OneHot => CellMode::OneHot,
        BallotKind::Close => CellMode::Close,
        BallotKind::Ranked => CellMode::Ranked,
    }
}

/// The cell mode a summing pass over a grid of kind `kind` realizes.
pub open spec fn sum_cell_mode(kind: BallotKind, mode: &SumMode) -> CellMode {
    match mode {
        SumMode::Raw => ballot_cell_mode(kind),
        SumMode::FirstChoice(elim) => CellMode::FirstChoice(elim@),
    }
}

/// A summing pass that is consistent with its grid: a first-choice pass
/// needs ranked ballots, a full elimination set never occurs.
pub open spec fn sum_mode_ok(kind: BallotKind, mode: &SumMode, n: int) -> bool {
    match mode {
        SumMode::Raw => true,
        SumMode::FirstChoice(elim) => kind == BallotKind::Ranked && elim@.len() == n && has_active(
            elim@,
        ),
    }
}

/// Side length of the padded ballot grid.
pub open spec fn grid_side(size: int) -> int {
    3 * size + 1
}

/// Fixed-point coordinate of padded grid line `g`.
pub open spec fn grid_coord(size: int, g: int) -> int {
    g * SCALE / size - SCALE
}

/// Position of padded grid cell `(gx, gy)`.
pub open spec fn grid_point(size: int, gx: int, gy: int) -> Point {
    Point { x: grid_coord(size, gx) as i64, y: grid_coord(size, gy) as i64 }
}

/// Position of the padded grid cell with row-major number `cell`.
pub open spec fn cell_point(size: int, cell: int) -> Point {
    grid_point(size, cell / grid_side(size), cell % grid_side(size))
}

/// A well-formed ballot grid: one entry vector per padded cell, each
/// holding the pinned ballot value for the cell's position.
pub open spec fn grid_ok(size: int, cands: Seq<Point>, kind: BallotKind, g: Seq<Seq<u8>>) -> bool {
    &&& g.len() == grid_side(size) * grid_side(size)
    &&& forall|cell: int| 0 <= cell < g.len() ==> #[trigger] g[cell].len() == cands.len()
    &&& forall|cell: int, c: int|
        0 <= cell < g.len() && 0 <= c < cands.len() ==> #[trigger] g[cell][c] as int
            == ballot_value(kind, cands, cell_point(size, cell), c)
}

/// A well-formed kernel weight table for `size`.
pub open spec fn weights_ok(size: int, w: Seq<u64>) -> bool {
    &&& w.len() == kernel_count(size)
    &&& forall|j: int| 0 <= j < w.len() ==> #[trigger] w[j] as int == kernel_weight(size, j)
    &&& forall|j: int| 0 <= j < w.len() ==> #[trigger] w[j] <= WEIGHT_ONE
}

/// Term `j` of the horizontal pass for map column `x`, padded row `gy`,
/// and candidate `c`.
pub open spec fn line_term(
    size: int,
    cands: Seq<Point>,
    mode: CellMode,
    x: int,
    gy: int,
    c: int,
) -> spec_fn(int) -> int {
    |j: int|
        kernel_weight(size, j) * cell_value(
            mode,
            cands,
            grid_point(size, x + size + kernel_offset(size, j), gy),
            c,
        )
}

/// Kernel-weighted sum of ballot values along the x axis at map column
/// `x` and padded row `gy`.
pub open spec fn line_tally(
    size: int,
    cands: Seq<Point>,
    mode: CellMode,
    x: int,
    gy: int,
    c: int,
) -> int {
    wsum(kernel_count(size) as nat, line_term(size, cands, mode, x, gy, c))
}

/// Term `j` of the vertical pass for pixel `(x, y)` and candidate `c`.
pub open spec fn pixel_term(
    size: int,
    cands: Seq<Point>,
    mode: CellMode,
    x: int,
    y: int,
    c: int,
) -> spec_fn(int) -> int {
    |j: int|
        kernel_weight(size, j) * line_tally(
            size,
            cands,
            mode,
            x,
            y + size + kernel_offset(size, j),
            c,
        )
}

/// The full two-dimensional tally of candidate `c` at pixel `(x, y)`:
/// the kernel-weighted sum, over both axes, of what each neighborhood
/// ballot contributes to `c`.
pub open spec fn pixel_tally(
    size: int,
    cands: Seq<Point>,
    mode: CellMode,
    x: int,
    y: int,
    c: int,
) -> int {
    wsum(kernel_count(size) as nat, pixel_term(size, cands, mode, x, y, c))
}

/// A well-formed line-tally grid: one vector per `(x, gy)` cell in
/// row-major order over map columns and padded rows.
pub open spec fn lines_ok(size: int, cands: Seq<Point>, mode: CellMode, l: Seq<Seq<u64>>) -> bool {
    &&& l.len() == size * grid_side(size)
    &&& forall|cell: int| 0 <= cell < l.len() ==> #[trigger] l[cell].len() == cands.len()
    &&& forall|cell: int, c: int|
        0 <= cell < l.len() && 0 <= c < cands.len() ==> #[trigger] l[cell][c] as int == line_tally(
            size,
            cands,
            mode,
            cell / grid_side(size),
            cell % grid_side(size),
            c,
        )
    &&& forall|cell: int, c: int|
        0 <= cell < l.len() && 0 <= c < cands.len() ==> #[trigger] l[cell][c] <= LINE_BOUND
}

/// A well-formed tally grid: one vector per map pixel in row-major
/// order (`x` outer, `y` inner), entry `c` holding `pixel_tally`.
pub open spec fn tallies_ok(size: int, cands: Seq<Point>, mode: CellMode, t: Seq<Seq<u64>>) -> bool {
    &&& t.len() == size * size
    &&& forall|cell: int| 0 <= cell < t.len() ==> #[trigger] t[cell].len() == cands.len()
    &&& forall|cell: int, c: int|
        0 <= cell < t.len() && 0 <= c < cands.len() ==> #[trigger] t[cell][c] as int == pixel_tally(
            size,
            cands,
            mode,
            cell / size,
            cell % size,
            c,
        )
    &&& forall|cell: int, c: int|
        0 <= cell < t.len() && 0 <= c < cands.len() ==> #[trigger] t[cell][c] <= TALLY_BOUND
}

/// Fixed-point coordinate of padded grid line `g`, computed exactly.
fn grid_coord_at(size: usize, g: usize) -> (v: i64)
    requires
        1 <= size <= MAX_RESOLUTION,
        g <= 3 * size,
    ensures
        v == grid_coord(size as int, g as int),
        -SCALE <= v <= 2 * SCALE,
{
    proof {
        let gi = g as int;
        let si = size as int;
        assert(gi * 65536 <= 3 * si * 65536 && 0 <= gi * 65536 && gi * 65536 / si <= 3 * 65536
            && gi * 65536 / si >= 0) by (nonlinear_arith)
            requires
                0 <= gi <= 3 * si,
                1 <= si,
        ;
    }
    let q: u64 = (g as u64) * 65536 / (size as u64);
    (q as i64) - SCALE
}

/// Grid positions stay within coordinate bounds.
pub proof fn lemma_grid_point_valid(size: int, gx: int, gy: int)
    requires
        1 <= size,
        0 <= gx <= 3 * size,
        0 <= gy <= 3 * size,
    ensures
        valid_point(grid_point(size, gx, gy)),
        -SCALE <= grid_coord(size, gx) <= 2 * SCALE,
{
    assert(0 <= gx * 65536 && gx * 65536 <= 3 * size * 65536 && gx * 65536 / size <= 3 * 65536
        && gx * 65536 / size >= 0) by (nonlinear_arith)
        requires
            0 <= gx <= 3 * size,
            1 <= size,
    ;
    assert(0 <= gy * 65536 && gy * 65536 <= 3 * size * 65536 && gy * 65536 / size <= 3 * 65536
        && gy * 65536 / size >= 0) by (nonlinear_arith)
        requires
            0 <= gy <= 3 * size,
            1 <= size,
    ;
}

/// Every ballot entry is at most the candidate count.
pub proof fn lemma_ballot_value_range(kind: BallotKind, cands: Seq<Point>, p: Point, c: int)
    requires
        valid_candidates(cands),
        0 <= c < cands.len(),
    ensures
        0 <= ballot_value(kind, cands, p, c) <= cands.len(),
{
    if kind == BallotKind::Ranked {
        lemma_rank_of_range(cands, p, c);
    }
}

/// A found active minimum lies in range and is itself active; none is
/// found exactly when nothing below `nn` is active.
pub proof fn lemma_active_argmin_props(f: spec_fn(int) -> int, elim: Seq<bool>, nn: int)
    requires
        nn <= elim.len(),
    ensures
        active_argmin_upto(f, elim, nn) is None <==> (forall|i: int|
            0 <= i < nn ==> elim[i]),
        active_argmin_upto(f, elim, nn) matches Option::Some(b) ==> 0 <= b < nn && !elim[b],
    decreases nn,
{
    if nn > 0 {
        lemma_active_argmin_props(f, elim, nn - 1);
    }
}

/// Every cell contribution is at most the candidate count.
pub proof fn lemma_cell_value_range(mode: CellMode, cands: Seq<Point>, p: Point, c: int)
    requires
        valid_candidates(cands),
        0 <= c < cands.len(),
    ensures
        0 <= cell_value(mode, cands, p, c) <= cands.len(),
{
    match mode {
        CellMode::Ranked => {
            lemma_rank_of_range(cands, p, c);
        },
        _ => {},
    }
}

/// Two cell modes that value every position alike produce the same
/// pixel tally.
pub proof fn lemma_pixel_tally_congruence(
    size: int,
    cands: Seq<Point>,
    m1: CellMode,
    m2: CellMode,
    x: int,
    y: int,
    c: int,
)
    requires
        1 <= size,
        forall|p: Point| #[trigger] cell_value(m1, cands, p, c) == cell_value(m2, cands, p, c),
    ensures
        pixel_tally(size, cands, m1, x, y, c) == pixel_tally(size, cands, m2, x, y, c),
{
    let kc = kernel_count(size) as nat;
    assert forall|j: int| 0 <= j < kc implies #[trigger] pixel_term(size, cands, m1, x, y, c)(j)
        == pixel_term(size, cands, m2, x, y, c)(j) by {
        let gy = y + size + kernel_offset(size, j);
        assert forall|jj: int|
            0 <= jj < kc implies #[trigger] line_term(size, cands, m1, x, gy, c)(jj) == line_term(
            size,
            cands,
            m2,
            x,
            gy,
            c,
        )(jj) by {
            let p = grid_point(size, x + size + kernel_offset(size, jj), gy);
            assert(cell_value(m1, cands, p, c) == cell_value(m2, cands, p, c));
        }
        crate::sums::lemma_wsum_congruence(
            kc,
            line_term(size, cands, m1, x, gy, c),
            line_term(size, cands, m2, x, gy, c),
        );
        assert(line_tally(size, cands, m1, x, gy, c) == line_tally(size, cands, m2, x, gy, c));
    }
    crate::sums::lemma_wsum_congruence(
        kc,
        pixel_term(size, cands, m1, x, y, c),
        pixel_term(size, cands, m2, x, y, c),
    );
}

/// Evaluates the chosen ballot at every cell of the padded grid.  Cell
/// `gx * (3*size+1) + gy` holds each candidate's ballot value for a
/// voter at the cell's position.
pub fn compute_votes(size: usize, candidates: &Vec<Point>, kind: BallotKind) -> (grid: Vec<
    Vec<u8>,
>)
    requires
        1 <= size <= MAX_RESOLUTION,
        valid_candidates(candidates@),
    ensures
        grid_ok(size as int, candidates@, kind, grid@.map_values(|v: Vec<u8>| v@)),
{
    let ghost si = size as int;
    let ghost cands = candidates@;
    let gside: usize = 3 * size + 1;
    proof {
        assert(gside * gside <= 3073 * 3073) by (nonlinear_arith)
            requires
                0 < gside <= 3073,
        ;
    }
    let ncells: usize = gside * gside;
    let mut grid: Vec<Vec<u8>> = Vec::new();
    let mut cell: usize = 0;
    while cell < ncells
        invariant
            0 <= cell <= ncells,
            gside == grid_side(si),
            ncells == gside * gside,
            1 <= size <= MAX_RESOLUTION,
            si == size as int,
            cands == candidates@,
            valid_candidates(cands),
            grid@.len() == cell,
            forall|k: int| 0 <= k < cell ==> #[trigger] grid@[k]@.len() == cands.len(),
            forall|k: int, c: int|
                0 <= k < cell && 0 <= c < cands.len() ==> #[trigger] grid@[k]@[c] as int
                    == ballot_value(kind, cands, cell_point(si, k), c),
        decreases ncells - cell,
    {
        let gx: usize = cell / gside;
        let gy: usize = cell % gside;
        proof {
            assert(cell / gside < gside && cell % gside < gside) by (nonlinear_arith)
                requires
                    0 <= cell < gside * gside,
                    0 < gside,
            ;
        }
        let px = grid_coord_at(size, gx);
        let py = grid_coord_at(size, gy);
        let p = Point { x: px, y: py };
        proof {
            lemma_grid_point_valid(si, gx as int, gy as int);
            assert(p == cell_point(si, cell as int));
        }
        let ballot = match kind {
            BallotKind::OneHot => vote_plurality(p, candidates),
            BallotKind::Close => vote_close(p, candidates),
            BallotKind::Ranked => vote_rank(p, candidates),
        };
        grid.push(ballot);
        cell = cell + 1;
    }
    proof {
        let gv = grid@.map_values(|v: Vec<u8>| v@);
        assert(gv.len() == grid@.len());
        assert forall|k: int| 0 <= k < gv.len() implies #[trigger] gv[k].len() == cands.len() by {
            assert(gv[k] == grid@[k]@);
        }
        assert forall|k: int, c: int|
            0 <= k < gv.len() && 0 <= c < cands.len() implies #[trigger] gv[k][c] as int
            == ballot_value(kind, cands, cell_point(si, k), c) by {
            assert(gv[k] == grid@[k]@);
        }
    }
    grid
}

/// The horizontal pass: for every map column `x` and padded row `gy`,
/// the kernel-weighted sum of cell contributions along the x axis.
fn sum_lines(
    size: usize,
    candidates: &Vec<Point>,
    grid: &Vec<Vec<u8>>,
    weights: &Vec<u64>,
    mode: &SumMode,
    kind: BallotKind,
) -> (lines: Vec<Vec<u64>>)
    requires
        1 <= size <= MAX_RESOLUTION,
        valid_candidates(candidates@),
        grid_ok(size as int, candidates@, kind, grid@.map_values(|v: Vec<u8>| v@)),
        weights_ok(size as int, weights@),
        sum_mode_ok(kind, mode, candidates@.len() as int),
    ensures
        lines_ok(
            size as int,
            candidates@,
            sum_cell_mode(kind, mode),
            lines@.map_values(|v: Vec<u64>| v@),
        ),
{
    let ghost si = size as int;
    let ghost cands = candidates@;
    let ghost cmode = sum_cell_mode(kind, mode);
    let ghost gv = grid@.map_values(|v: Vec<u8>| v@);
    let n = candidates.len();
    let gside: usize = 3 * size + 1;
    proof {
        lemma_kernel_bounds(si);
        assert(size * gside <= 1024 * 3073) by (nonlinear_arith)
            requires
                0 < size <= 1024,
                0 < gside <= 3073,
        ;
    }
    let ncells: usize = size * gside;
    let stride: usize = if size >= 16 {
        size / 16
    } else {
        1
    };
    let half: usize = size / stride;
    let kcount: usize = weights.len();
    let mut lines: Vec<Vec<u64>> = Vec::new();
    let mut cell: usize = 0;
    while cell < ncells
        invariant
            0 <= cell <= ncells,
            gside == grid_side(si),
            ncells == size * gside,
            1 <= size <= MAX_RESOLUTION,
            si == size as int,
            cands == candidates@,
            n == cands.len(),
            valid_candidates(cands),
            stride == kernel_stride(si),
            half == kernel_half(si),
            kcount == kernel_count(si),
            kcount <= 2049,
            half * stride <= size,
            weights@.len() == kcount,
            weights_ok(si, weights@),
            gv == grid@.map_values(|v: Vec<u8>| v@),
            grid_ok(si, cands, kind, gv),
            sum_mode_ok(kind, mode, n as int),
            cmode == sum_cell_mode(kind, mode),
            lines@.len() == cell,
            forall|k: int| 0 <= k < cell ==> #[trigger] lines@[k]@.len() == n,
            forall|k: int, c: int|
                0 <= k < cell && 0 <= c < n ==> #[trigger] lines@[k]@[c] as int == line_tally(
                    si,
                    cands,
                    cmode,
                    k / grid_side(si),
                    k % grid_side(si),
                    c,
                ),
            forall|k: int, c: int|
                0 <= k < cell && 0 <= c < n ==> #[trigger] lines@[k]@[c] <= LINE_BOUND,
        decreases ncells - cell,
    {
        let x: usize = cell / gside;
        let gy: usize = cell % gside;
        proof {
            assert(cell / gside < size && cell % gside < gside) by (nonlinear_arith)
                requires
                    0 <= cell < size * gside,
                    0 < gside,
                    0 < size,
            ;
        }
        let mut acc: Vec<u64> = Vec::new();
        let mut z: usize = 0;
        while z < n
            invariant
                0 <= z <= n,
                acc@.len() == z,
                forall|c: int| 0 <= c < z ==> #[trigger] acc@[c] == 0u64,
            decreases n - z,
        {
            acc.push(0);
            z = z + 1;
        }
        proof {
            assert forall|c: int| 0 <= c < n implies #[trigger] acc@[c] as int == wsum(
                0,
                line_term(si, cands, cmode, x as int, gy as int, c),
            ) by {}
        }
        let mut j: usize = 0;
        while j < kcount
            invariant
                0 <= j <= kcount,
                gside == grid_side(si),
                1 <= size <= MAX_RESOLUTION,
                si == size as int,
                cands == candidates@,
                n == cands.len(),
                valid_candidates(cands),
                stride == kernel_stride(si),
                half == kernel_half(si),
                kcount == kernel_count(si),
                kcount <= 2049,
                half * stride <= size,
                weights@.len() == kcount,
                weights_ok(si, weights@),
                gv == grid@.map_values(|v: Vec<u8>| v@),
                grid_ok(si, cands, kind, gv),
                sum_mode_ok(kind, mode, n as int),
                cmode == sum_cell_mode(kind, mode),
                0 <= (x as int) < size,
                0 <= (gy as int) < gside,
                acc@.len() == n,
                forall|c: int|
                    0 <= c < n ==> #[trigger] acc@[c] as int == wsum(
                        j as nat,
                        line_term(si, cands, cmode, x as int, gy as int, c),
                    ),
                forall|c: int| 0 <= c < n ==> #[trigger] acc@[c] as int <= (j as int) * 327680,
            decreases kcount - j,
        {
            proof {
                assert(j * stride <= 2 * (half * stride) && half * stride <= size)
                    by (nonlinear_arith)
                    requires
                        0 <= (j as int) < kcount,
                        kcount == 2 * half + 1,
                        (half as int) * stride <= size,
                        size <= 1024,
                        0 < stride,
                        0 <= half,
                ;
                assert(kernel_offset(si, j as int) == (j as int) * stride - (half as int) * stride)
                    by (nonlinear_arith)
                    requires
                        kernel_offset(si, j as int) == ((j as int) - half) * stride,
                ;
            }
            let gxs: usize = x + size + j * stride - half * stride;
            proof {
                assert((gxs as int) == x + size + kernel_offset(si, j as int));
                assert(0 <= (gxs as int) <= 3 * si);
            }
            proof {
                assert(gxs * gside + gy < gside * gside && gxs * gside + gy < 3073 * 3073)
                    by (nonlinear_arith)
                    requires
                        0 <= (gxs as int) < gside,
                        0 <= (gy as int) < gside,
                        gside <= 3073,
                ;
            }
            let gcell: usize = gxs * gside + gy;
            proof {
                lemma_fundamental_div_mod_converse(gcell as int, gside as int, gxs as int, gy as int);
                assert(cell_point(si, gcell as int) == grid_point(
                    si,
                    x + size + kernel_offset(si, j as int),
                    gy as int,
                ));
            }
            let cellvec = &grid[gcell];
            proof {
                assert(gv[gcell as int] == grid@[gcell as int]@);
            }
            let w = weights[j];
            match mode {
                SumMode::Raw => {
                    let mut c: usize = 0;
                    while c < n
                        invariant
                            0 <= c <= n,
                            n == cands.len(),
                            valid_candidates(cands),
                            si == size as int,
                            1 <= size <= MAX_RESOLUTION,
                            acc@.len() == n,
                            cellvec@.len() == n,
                            w <= WEIGHT_ONE,
                            w as int == kernel_weight(si, j as int),
                            cmode == ballot_cell_mode(kind),
                                                        0 <= (j as int) < kcount,
                            kcount <= 2049,
                            forall|k: int|
                                0 <= k < n ==> #[trigger] cellvec@[k] as int == ballot_value(
                                    kind,
                                    cands,
                                    cell_point(si, gcell as int),
                                    k,
                                ),
                            cell_point(si, gcell as int) == grid_point(
                                si,
                                x + size + kernel_offset(si, j as int),
                                gy as int,
                            ),
                            forall|k: int|
                                c <= k < n ==> #[trigger] acc@[k] as int == wsum(j as nat, line_term(si, cands, cmode, x as int, gy as int, k)),
                            forall|k: int|
                                0 <= k < c ==> #[trigger] acc@[k] as int == wsum(
                                    (j + 1) as nat,
                                    line_term(si, cands, cmode, x as int, gy as int, k),
                                ),
                            forall|k: int|
                                c <= k < n ==> #[trigger] acc@[k] as int <= (j as int) * 327680,
                            forall|k: int|
                                0 <= k < c ==> #[trigger] acc@[k] as int <= ((j as int) + 1)
                                    * 327680,
                        decreases n - c,
                    {
                        let v: u64 = cellvec[c] as u64;
                        proof {
                            let cp = cell_point(si, gcell as int);
                            lemma_ballot_value_range(kind, cands, cp, c as int);
                            assert(w * v <= 327680) by (nonlinear_arith)
                                requires
                                    0 <= w <= 65536,
                                    0 <= v <= 5,
                            ;
                            assert(cell_value(cmode, cands, cp, c as int) == ballot_value(
                                kind,
                                cands,
                                cp,
                                c as int,
                            )) by {
                                match kind {
                                    BallotKind::OneHot => {},
                                    BallotKind::Close => {},
                                    BallotKind::Ranked => {},
                                }
                            }
                            assert(line_term(si, cands, cmode, x as int, gy as int, c as int)(j as int) == w * v);
                            assert(wsum((j + 1) as nat, line_term(si, cands, cmode, x as int, gy as int, c as int)) == wsum(
                                j as nat,
                                line_term(si, cands, cmode, x as int, gy as int, c as int),
                            ) + line_term(si, cands, cmode, x as int, gy as int, c as int)(j as int));
                        }
                        let prod: u64 = w * v;
                        let cur: u64 = acc[c];
                        acc.set(c, cur + prod);
                        c = c + 1;
                    }
                },
                SumMode::FirstChoice(elim) => {
                    let ghost pt = cell_point(si, gcell as int);
                    let ghost rf = rank_fn(cands, pt);
                    let mut found = false;
                    let mut best: usize = 0;
                    let mut bestv: u8 = 0;
                    let mut c: usize = 0;
                    while c < n
                        invariant
                            0 <= c <= n,
                            n == cands.len(),
                            elim@.len() == n,
                            cellvec@.len() == n,
                            rf == rank_fn(cands, pt),
                            forall|k: int|
                                0 <= k < n ==> #[trigger] cellvec@[k] as int == rank_of(
                                    cands,
                                    pt,
                                    k,
                                ),
                            !found ==> active_argmin_upto(rf, elim@, c as int) is None,
                            found ==> active_argmin_upto(rf, elim@, c as int) == Option::Some(
                                best as int,
                            ),
                            found ==> 0 <= (best as int) < c && bestv as int == rf(best as int),
                        decreases n - c,
                    {
                        let r = cellvec[c];
                        proof {
                            assert(rf(c as int) == rank_of(cands, pt, c as int));
                        }
                        if !elim[c] && (!found || r < bestv) {
                            found = true;
                            best = c;
                            bestv = r;
                        }
                        c = c + 1;
                    }
                    proof {
                        lemma_active_argmin_props(rf, elim@, n as int);
                        if !found {
                            assert(has_active(elim@));
                            assert(false);
                        }
                        assert(first_choice(cands, pt, elim@) == Option::Some(best as int));
                    }
                    let cur: u64 = acc[best];
                    proof {
                        assert(line_term(si, cands, cmode, x as int, gy as int, best as int)(j as int) == w * 1int) by {
                            assert(cell_value(cmode, cands, pt, best as int) == 1int);
                        }
                        assert(w * 1int == w);
                    }
                    acc.set(best, cur + w);
                    proof {
                        assert forall|k: int| 0 <= k < n implies #[trigger] acc@[k] as int == wsum(
                            (j + 1) as nat,
                            line_term(si, cands, cmode, x as int, gy as int, k),
                        ) && acc@[k] as int <= ((j as int) + 1) * 327680 by {
                            if k != best as int {
                                assert(cell_value(cmode, cands, pt, k) == 0int);
                                assert(kernel_weight(si, j as int) * 0 == 0) by (nonlinear_arith);
                                assert(line_term(si, cands, cmode, x as int, gy as int, k)(j as int) == 0);
                            }
                            assert(wsum((j + 1) as nat, line_term(si, cands, cmode, x as int, gy as int, k)) == wsum(j as nat, line_term(si, cands, cmode, x as int, gy as int, k)) + line_term(si, cands, cmode, x as int, gy as int, k)(j as int));
                        }
                    }
                },
            }
            j = j + 1;
        }
        proof {
            assert forall|c: int| 0 <= c < n implies #[trigger] acc@[c] <= LINE_BOUND by {
                assert(acc@[c] as int <= (kcount as int) * 327680);
                assert((kcount as int) * 327680 <= 2049 * 327680) by (nonlinear_arith)
                    requires
                        0 <= (kcount as int) <= 2049,
                ;
            }
        }
        lines.push(acc);
        cell = cell + 1;
    }
    proof {
        let lv = lines@.map_values(|v: Vec<u64>| v@);
        assert(lv.len() == lines@.len());
        assert forall|k: int| 0 <= k < lv.len() implies #[trigger] lv[k].len() == cands.len() by {
            assert(lv[k] == lines@[k]@);
        }
        assert forall|k: int, c: int|
            0 <= k < lv.len() && 0 <= c < cands.len() implies #[trigger] lv[k][c] as int
            == line_tally(si, cands, cmode, k / grid_side(si), k % grid_side(si), c) && lv[k][c]
            <= LINE_BOUND by {
            assert(lv[k] == lines@[k]@);
        }
    }
    lines
}

/// The vertical pass: finishes the two-dimensional convolution, landing
/// one tally vector on every map pixel.
fn sum_pixels(
    size: usize,
    candidates: &Vec<Point>,
    lines: &Vec<Vec<u64>>,
    weights: &Vec<u64>,
    Ghost(cmode): Ghost<CellMode>,
) -> (tallies: Vec<Vec<u64>>)
    requires
        1 <= size <= MAX_RESOLUTION,
        valid_candidates(candidates@),
        lines_ok(size as int, candidates@, cmode, lines@.map_values(|v: Vec<u64>| v@)),
        weights_ok(size as int, weights@),
    ensures
        tallies_ok(size as int, candidates@, cmode, tallies@.map_values(|v: Vec<u64>| v@)),
{
    let ghost si = size as int;
    let ghost cands = candidates@;
    let ghost lv = lines@.map_values(|v: Vec<u64>| v@);
    let n = candidates.len();
    let gside: usize = 3 * size + 1;
    proof {
        lemma_kernel_bounds(si);
        assert(size * size <= 1024 * 1024 && size * gside <= 1024 * 3073) by (nonlinear_arith)
            requires
                0 < size <= 1024,
                0 < gside <= 3073,
        ;
    }
    let ncells: usize = size * size;
    let stride: usize = if size >= 16 {
        size / 16
    } else {
        1
    };
    let half: usize = size / stride;
    let kcount: usize = weights.len();
    let mut tallies: Vec<Vec<u64>> = Vec::new();
    let mut cell: usize = 0;
    while cell < ncells
        invariant
            0 <= cell <= ncells,
            gside == grid_side(si),
            ncells == size * size,
            1 <= size <= MAX_RESOLUTION,
            si == size as int,
            cands == candidates@,
            n == cands.len(),
            valid_candidates(cands),
            stride == kernel_stride(si),
            half == kernel_half(si),
            kcount == kernel_count(si),
            kcount <= 2049,
            half * stride <= size,
            weights@.len() == kcount,
            weights_ok(si, weights@),
            lv == lines@.map_values(|v: Vec<u64>| v@),
            lines_ok(si, cands, cmode, lv),
            tallies@.len() == cell,
            forall|k: int| 0 <= k < cell ==> #[trigger] tallies@[k]@.len() == n,
            forall|k: int, c: int|
                0 <= k < cell && 0 <= c < n ==> #[trigger] tallies@[k]@[c] as int == pixel_tally(
                    si,
                    cands,
                    cmode,
                    k / (size as int),
                    k % (size as int),
                    c,
                ),
            forall|k: int, c: int|
                0 <= k < cell && 0 <= c < n ==> #[trigger] tallies@[k]@[c] <= TALLY_BOUND,
        decreases ncells - cell,
    {
        let x: usize = cell / size;
        let y: usize = cell % size;
        proof {
            assert(cell / size < size && cell % size < size) by (nonlinear_arith)
                requires
                    0 <= cell < size * size,
                    0 < size,
            ;
        }
        let mut acc: Vec<u64> = Vec::new();
        let mut z: usize = 0;
        while z < n
            invariant
                0 <= z <= n,
                acc@.len() == z,
                forall|c: int| 0 <= c < z ==> #[trigger] acc@[c] == 0u64,
            decreases n - z,
        {
            acc.push(0);
            z = z + 1;
        }
        proof {
            assert forall|c: int| 0 <= c < n implies #[trigger] acc@[c] as int == wsum(
                0,
                pixel_term(si, cands, cmode, x as int, y as int, c),
            ) by {}
        }
        let mut j: usize = 0;
        while j < kcount
            invariant
                0 <= j <= kcount,
                gside == grid_side(si),
                1 <= size <= MAX_RESOLUTION,
                si == size as int,
                cands == candidates@,
                n == cands.len(),
                valid_candidates(cands),
                stride == kernel_stride(si),
                half == kernel_half(si),
                kcount == kernel_count(si),
                kcount <= 2049,
                half * stride <= size,
                weights@.len() == kcount,
                weights_ok(si, weights@),
                lv == lines@.map_values(|v: Vec<u64>| v@),
                lines_ok(si, cands, cmode, lv),
                0 <= (x as int) < size,
                0 <= (y as int) < size,
                acc@.len() == n,
                forall|c: int|
                    0 <= c < n ==> #[trigger] acc@[c] as int == wsum(
                        j as nat,
                        pixel_term(si, cands, cmode, x as int, y as int, c),
                    ),
                forall|c: int|
                    0 <= c < n ==> #[trigger] acc@[c] as int <= (j as int) * (65536 * 671416320),
            decreases kcount - j,
        {
            proof {
                assert(j * stride <= 2 * (half * stride) && half * stride <= size)
                    by (nonlinear_arith)
                    requires
                        0 <= (j as int) < kcount,
                        kcount == 2 * half + 1,
                        (half as int) * stride <= size,
                        size <= 1024,
                        0 < stride,
                        0 <= half,
                ;
                assert(kernel_offset(si, j as int) == (j as int) * stride - (half as int) * stride)
                    by (nonlinear_arith)
                    requires
                        kernel_offset(si, j as int) == ((j as int) - half) * stride,
                ;
            }
            let gys: usize = y + size + j * stride - half * stride;
            proof {
                assert((gys as int) == y + size + kernel_offset(si, j as int));
                assert(0 <= (gys as int) < gside);
            }
            proof {
                assert(x * gside + gys < size * gside && x * gside + gys < 1024 * 3073)
                    by (nonlinear_arith)
                    requires
                        0 <= (x as int) < size,
                        0 <= (gys as int) < gside,
                        gside <= 3073,
                        size <= 1024,
                ;
            }
            let lcell: usize = x * gside + gys;
            proof {
                lemma_fundamental_div_mod_converse(
                    lcell as int,
                    gside as int,
                    x as int,
                    gys as int,
                );
            }
            let linevec = &lines[lcell];
            proof {
                assert(lv[lcell as int] == lines@[lcell as int]@);
            }
            let w = weights[j];
            let mut c: usize = 0;
            while c < n
                invariant
                    0 <= c <= n,
                    n == cands.len(),
                    si == size as int,
                    1 <= size <= MAX_RESOLUTION,
                    acc@.len() == n,
                    linevec@.len() == n,
                    w <= WEIGHT_ONE,
                    w as int == kernel_weight(si, j as int),
                    (gys as int) == y + size + kernel_offset(si, j as int),
                                        0 <= (j as int) < kcount,
                    kcount <= 2049,
                    forall|k: int|
                        0 <= k < n ==> #[trigger] linevec@[k] as int == line_tally(
                            si,
                            cands,
                            cmode,
                            x as int,
                            gys as int,
                            k,
                        ),
                    forall|k: int| 0 <= k < n ==> #[trigger] linevec@[k] <= LINE_BOUND,
                    forall|k: int|
                        c <= k < n ==> #[trigger] acc@[k] as int == wsum(j as nat, pixel_term(si, cands, cmode, x as int, y as int, k)),
                    forall|k: int|
                        0 <= k < c ==> #[trigger] acc@[k] as int == wsum((j + 1) as nat, pixel_term(si, cands, cmode, x as int, y as int, k)),
                    forall|k: int|
                        c <= k < n ==> #[trigger] acc@[k] as int <= (j as int) * (65536
                            * 671416320),
                    forall|k: int|
                        0 <= k < c ==> #[trigger] acc@[k] as int <= ((j as int) + 1) * (65536
                            * 671416320),
                decreases n - c,
            {
                let v: u64 = linevec[c];
                proof {
                    assert(w * v <= 65536 * 671416320) by (nonlinear_arith)
                        requires
                            0 <= w <= 65536,
                            0 <= v <= 671416320,
                    ;
                    assert(pixel_term(si, cands, cmode, x as int, y as int, c as int)(j as int) == w * v);
                    assert(wsum((j + 1) as nat, pixel_term(si, cands, cmode, x as int, y as int, c as int)) == wsum(j as nat, pixel_term(si, cands, cmode, x as int, y as int, c as int))
                        + pixel_term(si, cands, cmode, x as int, y as int, c as int)(j as int));
                }
                let prod: u64 = w * v;
                let cur: u64 = acc[c];
                acc.set(c, cur + prod);
                c = c + 1;
            }
            j = j + 1;
        }
        proof {
            assert forall|c: int| 0 <= c < n implies #[trigger] acc@[c] <= TALLY_BOUND by {
                assert(acc@[c] as int <= (kcount as int) * (65536 * 671416320));
                assert((kcount as int) * (65536 * 671416320) <= 2049 * (65536 * 671416320))
                    by (nonlinear_arith)
                    requires
                        0 <= (kcount as int) <= 2049,
                ;
            }
        }
        tallies.push(acc);
        cell = cell + 1;
    }
    proof {
        let tv = tallies@.map_values(|v: Vec<u64>| v@);
        assert(tv.len() == tallies@.len());
        assert forall|k: int| 0 <= k < tv.len() implies #[trigger] tv[k].len() == cands.len() by {
            assert(tv[k] == tallies@[k]@);
        }
        assert forall|k: int, c: int|
            0 <= k < tv.len() && 0 <= c < cands.len() implies #[trigger] tv[k][c] as int
            == pixel_tally(si, cands, cmode, k / si, k % si, c) && tv[k][c] <= TALLY_BOUND by {
            assert(tv[k] == tallies@[k]@);
        }
    }
    tallies
}

/// Sums every ballot's kernel-weighted contribution into one tally
/// vector per map pixel.  In `Raw` mode each candidate is credited its
/// own ballot entry; in `FirstChoice` mode each neighborhood ballot
/// credits one unit to its best-ranked non-eliminated candidate.
pub fn sum_votes(
    size: usize,
    candidates: &Vec<Point>,
    grid: &Vec<Vec<u8>>,
    weights: &Vec<u64>,
    mode: &SumMode,
    kind: BallotKind,
) -> (tallies: Vec<Vec<u64>>)
    requires
        1 <= size <= MAX_RESOLUTION,
        valid_candidates(candidates@),
        grid_ok(size as int, candidates@, kind, grid@.map_values(|v: Vec<u8>| v@)),
        weights_ok(size as int, weights@),
        sum_mode_ok(kind, mode, candidates@.len() as int),
    ensures
        tallies_ok(
            size as int,
            candidates@,
            sum_cell_mode(kind, mode),
            tallies@.map_values(|v: Vec<u64>| v@),
        ),
{
    let lines = sum_lines(size, candidates, grid, weights, mode, kind);
    sum_pixels(size, candidates, &lines, weights, Ghost(sum_cell_mode(kind, mode)))
}

} // verus!
