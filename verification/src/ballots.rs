//! Ballot generation: what one voter, standing at a sample point, puts
//! on the ballot for each voting method.
//!
//! Every entry of a returned ballot is pinned exactly: a one-hot mark
//! for the nearest candidate (plurality), a mark per candidate within
//! the approval radius (approval), or the full rank permutation built
//! from the distance-with-index order (Borda and instant-runoff).

use vstd::prelude::*;
use crate::geom::{
    Point, count_beating_upto, nearest, nearest_upto, rank_of, spec_dist2, valid_candidates,
};

verus! {

/// Squared approval radius: a voter approves every candidate at squared
/// distance below `1.0`, here in fixed-point squared units.
pub const APPROVAL_RADIUS2: i64 = 65536 * 65536;

/// Plurality ballot entry for candidate `c`: one for the nearest
/// candidate, zero for all others.
pub open spec fn plurality_value(cands: Seq<Point>, p: Point, c: int) -> int {
    if c == nearest(cands, p) {
        1
    } else {
        0
    }
}

/// Approval ballot entry for candidate `c`: one when `c` lies within
/// the approval radius of the voter.
pub open spec fn approval_value(cands: Seq<Point>, p: Point, c: int) -> int {
    if spec_dist2(p, cands[c]) < APPROVAL_RADIUS2 {
        1
    } else {
        0
    }
}

/// Ranked ballot entry for candidate `c`: its rank, `1` meaning most
/// preferred.
pub open spec fn ranked_value(cands: Seq<Point>, p: Point, c: int) -> int {
    rank_of(cands, p, c)
}

/// Casts a plurality ballot: a single vote for the candidate nearest to
/// `p`, ties resolved toward the lowest index.
pub fn vote_plurality(p: Point, candidates: &Vec<Point>) -> (votes: Vec<u8>)
    requires
        valid_candidates(candidates@),
        crate::geom::valid_point(p),
    ensures
        votes@.len() == candidates@.len(),
        forall|c: int|
            0 <= c < candidates@.len() ==> #[trigger] votes@[c] as int == plurality_value(
                candidates@,
                p,
                c,
            ),
{
    let n = candidates.len();
    let mut closest_i: usize = 0;
    let mut closest_dist: i64 = p.l2_square(&candidates[0]);
    let mut i: usize = 1;
    while i < n
        invariant
            1 <= i <= n,
            n == candidates@.len(),
            valid_candidates(candidates@),
            crate::geom::valid_point(p),
            closest_i == nearest_upto(candidates@, p, i as int),
            0 <= closest_i < i,
            closest_dist == spec_dist2(p, candidates@[closest_i as int]),
        decreases n - i,
    {
        let dist = p.l2_square(&candidates[i]);
        if dist < closest_dist {
            closest_dist = dist;
            closest_i = i;
        }
        i = i + 1;
    }
    let mut votes: Vec<u8> = Vec::new();
    let mut c: usize = 0;
    while c < n
        invariant
            0 <= c <= n,
            n == candidates@.len(),
            closest_i == nearest(candidates@, p),
            votes@.len() == c,
            forall|k: int|
                0 <= k < c ==> #[trigger] votes@[k] as int == plurality_value(candidates@, p, k),
        decreases n - c,
    {
        if c == closest_i {
            votes.push(1);
        } else {
            votes.push(0);
        }
        c = c + 1;
    }
    votes
}

/// Casts an approval ballot: one vote for every candidate within the
/// approval radius; zero or many candidates may be approved.
pub fn vote_close(p: Point, candidates: &Vec<Point>) -> (votes: Vec<u8>)
    requires
        valid_candidates(candidates@),
        crate::geom::valid_point(p),
    ensures
        votes@.len() == candidates@.len(),
        forall|c: int|
            0 <= c < candidates@.len() ==> #[trigger] votes@[c] as int == approval_value(
                candidates@,
                p,
                c,
            ),
{
    let n = candidates.len();
    let mut votes: Vec<u8> = Vec::new();
    let mut c: usize = 0;
    while c < n
        invariant
            0 <= c <= n,
            n == candidates@.len(),
            valid_candidates(candidates@),
            crate::geom::valid_point(p),
            votes@.len() == c,
            forall|k: int|
                0 <= k < c ==> #[trigger] votes@[k] as int == approval_value(candidates@, p, k),
        decreases n - c,
    {
        let dist = p.l2_square(&candidates[c]);
        if dist < APPROVAL_RADIUS2 {
            votes.push(1);
        } else {
            votes.push(0);
        }
        c = c + 1;
    }
    votes
}

/// Casts a ranked ballot: candidate ranks `1 ..= n` in increasing
/// distance order, ties resolved toward the lowest index.  The rank of a
/// candidate is one more than the number of candidates the voter
/// strictly prefers to it.
pub fn vote_rank(p: Point, candidates: &Vec<Point>) -> (votes: Vec<u8>)
    requires
        valid_candidates(candidates@),
        crate::geom::valid_point(p),
    ensures
        votes@.len() == candidates@.len(),
        forall|c: int|
            0 <= c < candidates@.len() ==> #[trigger] votes@[c] as int == ranked_value(
                candidates@,
                p,
                c,
            ),
{
    let n = candidates.len();
    let mut votes: Vec<u8> = Vec::new();
    let mut c: usize = 0;
    while c < n
        invariant
            0 <= c <= n,
            n == candidates@.len(),
            valid_candidates(candidates@),
            crate::geom::valid_point(p),
            votes@.len() == c,
            forall|k: int|
                0 <= k < c ==> #[trigger] votes@[k] as int == ranked_value(candidates@, p, k),
        decreases n - c,
    {
        let dist_c = p.l2_square(&candidates[c]);
        let mut rank: u8 = 1;
        let mut j: usize = 0;
        while j < n
            invariant
                0 <= j <= n,
                0 <= c < n,
                n == candidates@.len(),
                valid_candidates(candidates@),
                crate::geom::valid_point(p),
                dist_c == spec_dist2(p, candidates@[c as int]),
                rank as int == 1 + count_beating_upto(candidates@, p, c as int, j as int),
                rank as int <= 1 + j,
            decreases n - j,
        {
            let dist_j = p.l2_square(&candidates[j]);
            if dist_j < dist_c || (dist_j == dist_c && j < c) {
                rank = rank + 1;
            }
            j = j + 1;
        }
        votes.push(rank);
        c = c + 1;
    }
    votes
}

} // verus!
