//! A verified election-map engine.
//!
//! For every pixel of a square map over a 2-D opinion space, the engine
//! simulates an election among a fixed set of candidates and records which
//! candidate wins under a chosen voting method (plurality, approval, Borda,
//! or instant-runoff).  Voter positions are smoothed by a discrete Gaussian
//! neighborhood kernel, so the winner boundaries in the produced map are
//! soft rather than artifacts of the sampling grid.
//!
//! All geometry is carried out in fixed-point integer arithmetic: a
//! coordinate of `1.0` is represented by [`SCALE`], and kernel weights are
//! fixed-point fractions of [`WEIGHT_ONE`].  This keeps every computation
//! exact and deterministic: identical inputs give byte-identical output.

use vstd::prelude::*;

pub mod sums;
pub mod geom;
pub mod ballots;
pub mod kernel;
pub mod tally;
pub mod select;
pub mod hare;
pub mod palette;
pub mod engine;
pub mod laws;
pub mod quadtree;
pub mod refine;

pub use ballots::{vote_close, vote_plurality, vote_rank};
pub use engine::{compute, election, parse_method, render, ElectionMethod, MethodError};
pub use geom::Point;
pub use hare::hare_winners;
pub use palette::{candidate_color, max_candidates, Color};
pub use quadtree::{insert, Pix, QuadTree, Rect};
pub use refine::compute_adaptive;
pub use select::{declare_winner, max_vote_candidate, min_vote_candidate};
pub use tally::{compute_votes, sum_votes};

verus! {

/// Fixed-point scale: the coordinate value that represents `1.0`.
pub const SCALE: i64 = 65536;

/// Largest magnitude a candidate coordinate may have.  Candidates are
/// expected in or near the unit square; this bound is generous enough for
/// any normalized input while keeping every squared distance inside `i64`.
pub const MAX_COORD: i64 = 524288;

/// Fixed-point scale for kernel weights: the weight value `1.0`.
pub const WEIGHT_ONE: u64 = 65536;

/// The number of display colors, and so the most candidates a map can show.
pub const MAX_CANDIDATES: usize = 5;

/// Largest supported map resolution (pixels per side).
pub const MAX_RESOLUTION: usize = 1024;

/// Sentinel value for a map entry that no evaluation has settled yet.
pub const UNDECIDED: u8 = 255;

} // verus!
