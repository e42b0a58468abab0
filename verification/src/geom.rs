//! Points of the opinion space, squared distances, and the
//! distance-with-index order that every ballot is built from.
//!
//! Coordinates are fixed-point integers: `1.0` is [`crate::SCALE`].
//! A voter at point `p` prefers candidate `i` to candidate `j` when `i`
//! is strictly closer, with ties broken toward the lower index; this
//! order is pinned here once and reused by every voting method.

use vstd::prelude::*;
use crate::MAX_COORD;

verus! {

/// A position in (or near) the unit square, in fixed-point coordinates.
#[derive(Clone, Copy, Debug, PartialEq, Eq, Structural)]
pub struct Point {
    pub x: i64,
    pub y: i64,
}

/// A coordinate magnitude small enough that every squared distance the
/// engine forms stays far from `i64` overflow.
pub open spec fn valid_point(p: Point) -> bool {
    -MAX_COORD <= p.x <= MAX_COORD && -MAX_COORD <= p.y <= MAX_COORD
}

/// A usable candidate set: nonempty, at most one candidate per display
/// color, and every position within coordinate bounds.
pub open spec fn valid_candidates(cands: Seq<Point>) -> bool {
    &&& 1 <= cands.len() <= crate::MAX_CANDIDATES
    &&& forall|i: int| 0 <= i < cands.len() ==> valid_point(#[trigger] cands[i])
}

/// Squared Euclidean distance between two points.
pub open spec fn spec_dist2(p: Point, q: Point) -> int {
    (p.x - q.x) * (p.x - q.x) + (p.y - q.y) * (p.y - q.y)
}

impl Point {
    /// Builds a point from fixed-point coordinates.
    pub fn new(x: i64, y: i64) -> (p: Point)
        ensures
            p.x == x && p.y == y,
    {
        Point { x, y }
    }

    /// Squared Euclidean distance to `other`.
    pub fn l2_square(&self, other: &Point) -> (d: i64)
        requires
            valid_point(*self),
            valid_point(*other),
        ensures
            d == spec_dist2(*self, *other),
            0 <= d,
    {
        let dx = self.x - other.x;
        let dy = self.y - other.y;
        proof {
            assert(dx * dx + dy * dy <= 8 * MAX_COORD * MAX_COORD && dx * dx >= 0 && dy * dy >= 0)
                by (nonlinear_arith)
                requires
                    -2 * MAX_COORD <= dx <= 2 * MAX_COORD,
                    -2 * MAX_COORD <= dy <= 2 * MAX_COORD,
            ;
        }
        dx * dx + dy * dy
    }
}

/// A voter at `p` strictly prefers candidate `i` to candidate `j`:
/// `i` is closer, or equally close with the lower index.
pub open spec fn beats(cands: Seq<Point>, p: Point, i: int, j: int) -> bool {
    ||| spec_dist2(p, cands[i]) < spec_dist2(p, cands[j])
    ||| (spec_dist2(p, cands[i]) == spec_dist2(p, cands[j]) && i < j)
}

/// Index of the candidate nearest to `p` among the first `n`, the lowest
/// index winning ties.
pub open spec fn nearest_upto(cands: Seq<Point>, p: Point, n: int) -> int
    decreases n,
{
    if n <= 1 {
        0
    } else {
        let b = nearest_upto(cands, p, n - 1);
        if spec_dist2(p, cands[n - 1]) < spec_dist2(p, cands[b]) {
            n - 1
        } else {
            b
        }
    }
}

/// Index of the candidate nearest to `p`, the lowest index winning ties.
pub open spec fn nearest(cands: Seq<Point>, p: Point) -> int {
    nearest_upto(cands, p, cands.len() as int)
}

/// How many of the first `n` candidates a voter at `p` strictly prefers
/// to candidate `i`.
pub open spec fn count_beating_upto(cands: Seq<Point>, p: Point, i: int, n: int) -> int
    decreases n,
{
    if n <= 0 {
        0
    } else {
        count_beating_upto(cands, p, i, n - 1) + if beats(cands, p, n - 1, i) {
            1int
        } else {
            0int
        }
    }
}

/// The rank a voter at `p` gives candidate `i`: `1` for the most
/// preferred candidate, up to the candidate count for the least.
pub open spec fn rank_of(cands: Seq<Point>, p: Point, i: int) -> int {
    1 + count_beating_upto(cands, p, i, cands.len() as int)
}

/// The nearest index lies in range and nothing beats it.
pub proof fn lemma_nearest_minimal(cands: Seq<Point>, p: Point, n: int)
    requires
        1 <= n <= cands.len(),
    ensures
        0 <= nearest_upto(cands, p, n) < n,
        forall|j: int| 0 <= j < n ==> !beats(cands, p, j, nearest_upto(cands, p, n)),
    decreases n,
{
    if n > 1 {
        lemma_nearest_minimal(cands, p, n - 1);
        let b = nearest_upto(cands, p, n - 1);
        let w = nearest_upto(cands, p, n);
        assert forall|j: int| 0 <= j < n implies !beats(cands, p, j, w) by {
            if j < n - 1 {
                assert(!beats(cands, p, j, b));
            }
        }
    }
}

/// The preference order is transitive.
pub proof fn lemma_beats_trans(cands: Seq<Point>, p: Point, i: int, j: int, k: int)
    requires
        beats(cands, p, i, j),
        beats(cands, p, j, k),
    ensures
        beats(cands, p, i, k),
{
}

/// The preference order is total: two distinct candidates compare one
/// way or the other, never both.
pub proof fn lemma_beats_total(cands: Seq<Point>, p: Point, i: int, j: int)
    requires
        i != j,
    ensures
        beats(cands, p, i, j) <==> !beats(cands, p, j, i),
{
}

/// A more preferred candidate has strictly fewer candidates preferred
/// over it.
pub proof fn lemma_count_beating_mono(cands: Seq<Point>, p: Point, i: int, j: int, n: int)
    requires
        beats(cands, p, i, j),
        0 <= n <= cands.len(),
    ensures
        count_beating_upto(cands, p, i, n) <= count_beating_upto(cands, p, j, n),
        n > i >= 0 ==> count_beating_upto(cands, p, i, n) < count_beating_upto(cands, p, j, n),
    decreases n,
{
    if n > 0 {
        lemma_count_beating_mono(cands, p, i, j, n - 1);
        if beats(cands, p, n - 1, i) {
            lemma_beats_trans(cands, p, n - 1, i, j);
        }
        if n - 1 == i {
            lemma_beats_total(cands, p, i, j);
        }
    }
}

/// At most `n` candidates are counted, and candidate `i` never counts
/// itself.
pub proof fn lemma_count_beating_range(cands: Seq<Point>, p: Point, i: int, n: int)
    requires
        0 <= n <= cands.len(),
    ensures
        0 <= count_beating_upto(cands, p, i, n) <= n,
        n > i >= 0 ==> count_beating_upto(cands, p, i, n) <= n - 1,
    decreases n,
{
    if n > 0 {
        lemma_count_beating_range(cands, p, i, n - 1);
    }
}

/// Ranks run from `1` to the candidate count, order ranks exactly as the
/// preference order does, and distinct candidates get distinct ranks.
pub proof fn lemma_rank_of_order(cands: Seq<Point>, p: Point, i: int, j: int)
    requires
        0 <= i < cands.len(),
        0 <= j < cands.len(),
        i != j,
    ensures
        beats(cands, p, i, j) <==> rank_of(cands, p, i) < rank_of(cands, p, j),
        rank_of(cands, p, i) != rank_of(cands, p, j),
{
    lemma_beats_total(cands, p, i, j);
    if beats(cands, p, i, j) {
        lemma_count_beating_mono(cands, p, i, j, cands.len() as int);
    } else {
        lemma_count_beating_mono(cands, p, j, i, cands.len() as int);
    }
}

/// Rank bounds: every rank lies in `1 ..= cands.len()`.
pub proof fn lemma_rank_of_range(cands: Seq<Point>, p: Point, i: int)
    requires
        0 <= i < cands.len(),
    ensures
        1 <= rank_of(cands, p, i) <= cands.len(),
{
    lemma_count_beating_range(cands, p, i, cands.len() as int);
}

/// Nothing is preferred to the nearest candidate, so its rank is `1`.
pub proof fn lemma_rank_of_nearest(cands: Seq<Point>, p: Point)
    requires
        1 <= cands.len(),
    ensures
        rank_of(cands, p, nearest(cands, p)) == 1,
        0 <= nearest(cands, p) < cands.len(),
{
    lemma_nearest_minimal(cands, p, cands.len() as int);
    lemma_count_beating_none(cands, p, nearest(cands, p), cands.len() as int);
}

/// A candidate nothing beats has a zero count.
proof fn lemma_count_beating_none(cands: Seq<Point>, p: Point, i: int, n: int)
    requires
        0 <= n <= cands.len(),
        forall|j: int| 0 <= j < n ==> !beats(cands, p, j, i),
    ensures
        count_beating_upto(cands, p, i, n) == 0,
    decreases n,
{
    if n > 0 {
        lemma_count_beating_none(cands, p, i, n - 1);
    }
}

/// A ballot cast exactly at a candidate's own position puts that
/// candidate (or an earlier candidate at the very same position) first:
/// the chosen index is never later than `i`, sits at the same position,
/// and equals `i` whenever no earlier candidate shares the position.
pub proof fn lemma_plurality_own_point(cands: Seq<Point>, i: int)
    requires
        valid_candidates(cands),
        0 <= i < cands.len(),
    ensures
        cands[nearest(cands, cands[i])] == cands[i],
        nearest(cands, cands[i]) <= i,
        (forall|j: int| 0 <= j < i ==> cands[j] != cands[i]) ==> nearest(cands, cands[i]) == i,
{
    let p = cands[i];
    let w = nearest(cands, p);
    lemma_nearest_minimal(cands, p, cands.len() as int);
    assert(spec_dist2(p, cands[i]) == 0);
    assert(!beats(cands, p, i, w));
    assert(spec_dist2(p, cands[w]) >= 0) by {
        assert((p.x - cands[w].x) * (p.x - cands[w].x) >= 0) by (nonlinear_arith);
        assert((p.y - cands[w].y) * (p.y - cands[w].y) >= 0) by (nonlinear_arith);
    }
    assert(spec_dist2(p, cands[w]) == 0 && w <= i);
    assert(cands[w] == p) by {
        let dx = p.x - cands[w].x;
        let dy = p.y - cands[w].y;
        assert(dx == 0 && dy == 0) by (nonlinear_arith)
            requires
                dx * dx + dy * dy == 0,
        ;
    }
}

} // verus!
