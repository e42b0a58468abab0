//! Adaptive spatial refinement: the quadtree-driven evaluation path.
//!
//! Evaluating every pixel independently pays the full selector cost —
//! for instant runoff, a whole elimination loop — at every pixel.  The
//! refiner instead seeds a quadtree with the candidate positions,
//! evaluates each leaf once at its center, writes that winner across
//! the leaf's pixel rectangle, and splits exactly the leaves whose
//! result disagrees with a neighboring pixel just outside their
//! rectangle.  Cost concentrates near the winner boundaries.
//!
//! The round budget is caller-supplied and only ever cuts refinement
//! between rounds; whatever it is, a final full-resolution pass settles
//! every pixel still undecided, so the returned map never holds the
//! undecided sentinel.

use vstd::prelude::*;
use vstd::pervasive::VecAdditionalExecFns;
use crate::{MAX_RESOLUTION, UNDECIDED};
use crate::engine::{lemma_winner_at_range, winner_at, ElectionMethod};
use crate::geom::{Point, valid_candidates};
use crate::hare::{cache_entry_ok, hare_cache_new, hare_pixel_exec, two_pow};
use crate::kernel::build_kernel;
use crate::quadtree::{
    child_rect, insert, lemma_child_rect, lemma_quadrant_contains, rect_contains, rect_wf,
    tree_wf, Pix, QuadTree, Rect,
};
use crate::select::{lemma_argmax_congruence, lemma_argmax_props, lemma_argmin_congruence,
    lemma_argmin_props, max_vote_candidate, min_vote_candidate, seq_fn};
use crate::tally::{
    compute_votes, grid_ok, pixel_tally, sum_votes, tallies_ok, weights_ok, BallotKind, CellMode,
    SumMode,
};

verus! {

/// The cell mode whose raw tally the method's selector reads.
pub open spec fn raw_mode(method: ElectionMethod) -> CellMode {
    match method {
        ElectionMethod::Plurality => CellMode::OneHot,
        ElectionMethod::Approval => CellMode::Close,
        ElectionMethod::Borda => CellMode::Ranked,
        ElectionMethod::Hare => CellMode::Ranked,
    }
}

/// One render call's evaluation state: the ballot grids and tallies
/// computed once, plus the per-elimination-set memoization for instant
/// runoff.  All of it is local to one call and discarded afterwards.
pub struct Evaluator {
    pub size: usize,
    pub method: ElectionMethod,
    pub candidates: Vec<Point>,
    pub weights: Vec<u64>,
    pub grid: Vec<Vec<u8>>,
    pub tallies: Vec<Vec<u64>>,
    pub cache: Vec<Option<Vec<Vec<u64>>>>,
}

impl Evaluator {
    /// The evaluator's internal consistency.
    pub open spec fn wf(self) -> bool {
        &&& 1 <= self.size <= MAX_RESOLUTION
        &&& valid_candidates(self.candidates@)
        &&& match self.method {
            ElectionMethod::Hare => {
                &&& grid_ok(
                    self.size as int,
                    self.candidates@,
                    BallotKind::Ranked,
                    self.grid@.map_values(|v: Vec<u8>| v@),
                )
                &&& weights_ok(self.size as int, self.weights@)
                &&& self.cache@.len() as int == two_pow(self.candidates@.len() as nat)
                &&& self.cache@.len() <= 32
                &&& forall|m: int|
                    0 <= m < self.cache@.len() ==> cache_entry_ok(
                        self.size as int,
                        self.candidates@,
                        m,
                        #[trigger] self.cache@[m],
                    )
            },
            _ => tallies_ok(
                self.size as int,
                self.candidates@,
                raw_mode(self.method),
                self.tallies@.map_values(|v: Vec<u64>| v@),
            ),
        }
    }

    /// Builds the evaluation state for one render call.
    pub fn new(size: usize, candidates: &Vec<Point>, method: ElectionMethod) -> (ev: Evaluator)
        requires
            1 <= size <= MAX_RESOLUTION,
            valid_candidates(candidates@),
        ensures
            ev.wf(),
            ev.size == size,
            ev.candidates@ == candidates@,
            ev.method == method,
    {
        let weights = build_kernel(size);
        let mut cands: Vec<Point> = Vec::new();
        let mut i: usize = 0;
        while i < candidates.len()
            invariant
                0 <= i <= candidates@.len(),
                cands@.len() == i,
                forall|k: int| 0 <= k < i ==> #[trigger] cands@[k] == candidates@[k],
            decreases candidates@.len() - i,
        {
            cands.push(candidates[i]);
            i = i + 1;
        }
        proof {
            assert(cands@ =~= candidates@);
        }
        match method {
            ElectionMethod::Hare => {
                let grid = compute_votes(size, candidates, BallotKind::Ranked);
                let cache = hare_cache_new(candidates.len());
                Evaluator {
                    size,
                    method,
                    candidates: cands,
                    weights,
                    grid,
                    tallies: Vec::new(),
                    cache,
                }
            },
            _ => {
                let kind = match method {
                    ElectionMethod::Plurality => BallotKind::OneHot,
                    ElectionMethod::Approval => BallotKind::Close,
                    _ => BallotKind::Ranked,
                };
                let grid = compute_votes(size, candidates, kind);
                let tallies = sum_votes(size, candidates, &grid, &weights, &SumMode::Raw, kind);
                proof {
                    assert(crate::tally::sum_cell_mode(kind, &SumMode::Raw) == raw_mode(method));
                }
                Evaluator {
                    size,
                    method,
                    candidates: cands,
                    weights,
                    grid,
                    tallies,
                    cache: Vec::new(),
                }
            },
        }
    }

    /// Resolves the winner at one pixel, exactly as the full-grid path
    /// would.
    pub fn eval(&mut self, x: usize, y: usize) -> (w: u8)
        requires
            old(self).wf(),
            x < old(self).size,
            y < old(self).size,
        ensures
            final(self).wf(),
            final(self).size == old(self).size,
            final(self).candidates@ == old(self).candidates@,
            final(self).method == old(self).method,
            w as int == winner_at(
                old(self).size as int,
                old(self).candidates@,
                old(self).method,
                x as int,
                y as int,
            ),
            (w as int) < old(self).candidates@.len(),
    {
        let ghost si = self.size as int;
        let ghost cands = self.candidates@;
        let n = self.candidates.len();
        match self.method {
            ElectionMethod::Hare => {
                let w = hare_pixel_exec(
                    self.size,
                    &self.candidates,
                    &self.grid,
                    &self.weights,
                    &mut self.cache,
                    x,
                    y,
                );
                w
            },
            _ => {
                let sz = self.size;
                proof {
                    assert(x * sz + y < sz * sz && x * sz + y < 1024 * 1024) by (nonlinear_arith)
                        requires
                            0 <= (x as int) < (sz as int),
                            0 <= (y as int) < (sz as int),
                            sz <= 1024,
                    ;
                }
                let cell: usize = x * sz + y;
                proof {
                    vstd::arithmetic::div_mod::lemma_fundamental_div_mod_converse(
                        cell as int,
                        si,
                        x as int,
                        y as int,
                    );
                    let tv = self.tallies@.map_values(|v: Vec<u64>| v@);
                    assert(tv[cell as int] == self.tallies@[cell as int]@);
                }
                let votes = &self.tallies[cell];
                let ghost g = crate::engine::mode_tally_fn(
                    si,
                    cands,
                    raw_mode(self.method),
                    x as int,
                    y as int,
                );
                proof {
                    let tv = self.tallies@.map_values(|v: Vec<u64>| v@);
                    assert forall|c: int| 0 <= c < n implies #[trigger] seq_fn(votes@)(c) == g(
                        c,
                    ) by {
                        assert(tv[cell as int][c] as int == pixel_tally(
                            si,
                            cands,
                            raw_mode(self.method),
                            (cell as int) / si,
                            (cell as int) % si,
                            c,
                        ));
                    }
                }
                let w: usize = match self.method {
                    ElectionMethod::Borda => {
                        let w = min_vote_candidate(votes);
                        proof {
                            lemma_argmin_congruence(seq_fn(votes@), g, n as int);
                            lemma_argmin_props(g, n as int);
                        }
                        w
                    },
                    _ => {
                        let w = max_vote_candidate(votes);
                        proof {
                            lemma_argmax_congruence(seq_fn(votes@), g, n as int);
                            lemma_argmax_props(g, n as int);
                        }
                        w
                    },
                };
                w as u8
            },
        }
    }
}

/// The value is the genuine winner of some map pixel.
pub open spec fn is_winner_value(
    size: int,
    cands: Seq<Point>,
    method: ElectionMethod,
    v: u8,
) -> bool {
    exists|x: int, y: int|
        0 <= x < size && 0 <= y < size && v as int == #[trigger] winner_at(
            size,
            cands,
            method,
            x,
            y,
        )
}

/// A result map in progress: one byte per pixel, each either the
/// undecided sentinel or the winner the selector produced at some
/// evaluated pixel.
pub open spec fn map_inv(
    m: Seq<u8>,
    size: int,
    cands: Seq<Point>,
    method: ElectionMethod,
) -> bool {
    &&& m.len() == size * size
    &&& forall|k: int|
        0 <= k < m.len() ==> #[trigger] m[k] == UNDECIDED || is_winner_value(
            size,
            cands,
            method,
            m[k],
        )
}

/// Writes `v` across the rectangle's pixels.
fn fill_rect(map: &mut Vec<u8>, size: usize, r: Rect, v: u8)
    requires
        1 <= size <= MAX_RESOLUTION,
        old(map)@.len() == size * size,
        rect_wf(r),
        r.x1 <= size,
        r.y1 <= size,
    ensures
        final(map)@.len() == old(map)@.len(),
        forall|k: int|
            0 <= k < final(map)@.len() ==> #[trigger] final(map)@[k] == v || final(map)@[k]
                == old(map)@[k],
{
    let mut x: usize = r.x0;
    while x < r.x1
        invariant
            r.x0 <= x <= r.x1,
            1 <= size <= MAX_RESOLUTION,
            r.x1 <= size,
            r.y1 <= size,
            rect_wf(r),
            map@.len() == size * size,
            map@.len() == old(map)@.len(),
            forall|k: int|
                0 <= k < map@.len() ==> #[trigger] map@[k] == v || map@[k] == old(map)@[k],
        decreases r.x1 - x,
    {
        let mut y: usize = r.y0;
        while y < r.y1
            invariant
                r.y0 <= y <= r.y1,
                r.x0 <= x < r.x1,
                1 <= size <= MAX_RESOLUTION,
                r.x1 <= size,
                r.y1 <= size,
                rect_wf(r),
                map@.len() == size * size,
                map@.len() == old(map)@.len(),
                forall|k: int|
                    0 <= k < map@.len() ==> #[trigger] map@[k] == v || map@[k] == old(map)@[k],
            decreases r.y1 - y,
        {
            proof {
                assert(x * size + y < size * size && x * size + y < 1024 * 1024)
                    by (nonlinear_arith)
                    requires
                        0 <= (x as int) < size,
                        0 <= (y as int) < size,
                        size <= 1024,
                ;
            }
            map.set(x * size + y, v);
            y = y + 1;
        }
        x = x + 1;
    }
}

/// Collects the rectangles of all leaves, in depth-first order.
fn collect_leaves(t: &QuadTree, r: Rect, out: &mut Vec<Rect>)
    requires
        tree_wf(*t, r),
        rect_wf(r),
    ensures
        final(out)@.len() >= old(out)@.len(),
        forall|k: int| 0 <= k < old(out)@.len() ==> #[trigger] final(out)@[k] == old(out)@[k],
        forall|k: int|
            old(out)@.len() <= k < final(out)@.len() ==> rect_wf(#[trigger] final(out)@[k])
                && final(out)@[k].x1 <= r.x1 && final(out)@[k].y1 <= r.y1,
    decreases *t,
{
    match t {
        QuadTree::Leaf(_) => {
            out.push(r);
        },
        QuadTree::Inner(c0, c1, c2, c3) => {
            proof {
                lemma_child_rect(r, 0);
                lemma_child_rect(r, 1);
                lemma_child_rect(r, 2);
                lemma_child_rect(r, 3);
            }
            let mx = (r.x0 + r.x1) / 2;
            let my = (r.y0 + r.y1) / 2;
            let r0 = Rect { x0: r.x0, y0: r.y0, x1: mx, y1: my };
            let r1 = Rect { x0: mx, y0: r.y0, x1: r.x1, y1: my };
            let r2 = Rect { x0: r.x0, y0: my, x1: mx, y1: r.y1 };
            let r3 = Rect { x0: mx, y0: my, x1: r.x1, y1: r.y1 };
            proof {
                assert(r0 == child_rect(r, 0));
                assert(r1 == child_rect(r, 1));
                assert(r2 == child_rect(r, 2));
                assert(r3 == child_rect(r, 3));
            }
            collect_leaves(c0, r0, out);
            collect_leaves(c1, r1, out);
            collect_leaves(c2, r2, out);
            collect_leaves(c3, r3, out);
        },
    }
}

/// Whether the rectangle is on the split list.
fn rect_in_list(marked: &Vec<Rect>, r: Rect) -> (found: bool) {
    let mut i: usize = 0;
    let mut found = false;
    while i < marked.len()
        invariant
            0 <= i <= marked@.len(),
        decreases marked@.len() - i,
    {
        if marked[i] == r {
            found = true;
        }
        i = i + 1;
    }
    found
}

/// Splits every marked leaf into four quadrant children, pushing any
/// seed down into the quadrant that covers it.
fn split_marked(t: QuadTree, r: Rect, marked: &Vec<Rect>) -> (res: QuadTree)
    requires
        tree_wf(t, r),
        rect_wf(r),
    ensures
        tree_wf(res, r),
    decreases t,
{
    let ghost t0 = t;
    match t {
        QuadTree::Leaf(seed) => {
            let do_split = r.x1 - r.x0 >= 2 && r.y1 - r.y0 >= 2 && rect_in_list(marked, r);
            if !do_split {
                proof {
                    assert(QuadTree::Leaf(seed) == t0);
                }
                QuadTree::Leaf(seed)
            } else {
                match seed {
                    Option::None => {
                        let res = QuadTree::Inner(
                            Box::new(QuadTree::Leaf(Option::None)),
                            Box::new(QuadTree::Leaf(Option::None)),
                            Box::new(QuadTree::Leaf(Option::None)),
                            Box::new(QuadTree::Leaf(Option::None)),
                        );
                        proof {
                            assert(tree_wf(QuadTree::Leaf(Option::<Pix>::None), child_rect(r, 0)));
                            assert(tree_wf(QuadTree::Leaf(Option::<Pix>::None), child_rect(r, 1)));
                            assert(tree_wf(QuadTree::Leaf(Option::<Pix>::None), child_rect(r, 2)));
                            assert(tree_wf(QuadTree::Leaf(Option::<Pix>::None), child_rect(r, 3)));
                            assert(tree_wf(res, r));
                        }
                        res
                    },
                    Option::Some(q) => {
                        proof {
                            lemma_quadrant_contains(r, q);
                            lemma_child_rect(r, 0);
                            lemma_child_rect(r, 1);
                            lemma_child_rect(r, 2);
                            lemma_child_rect(r, 3);
                        }
                        let mx = (r.x0 + r.x1) / 2;
                        let my = (r.y0 + r.y1) / 2;
                        let qq: usize = (if q.x >= mx {
                            1
                        } else {
                            0
                        }) + (if q.y >= my {
                            2
                        } else {
                            0
                        });
                        proof {
                            assert(qq as int == crate::quadtree::quadrant_of(r, q));
                            assert(rect_contains(child_rect(r, qq as int), q));
                        }
                        let l0: QuadTree = if qq == 0 {
                            QuadTree::Leaf(Option::Some(q))
                        } else {
                            QuadTree::Leaf(Option::None)
                        };
                        let l1: QuadTree = if qq == 1 {
                            QuadTree::Leaf(Option::Some(q))
                        } else {
                            QuadTree::Leaf(Option::None)
                        };
                        let l2: QuadTree = if qq == 2 {
                            QuadTree::Leaf(Option::Some(q))
                        } else {
                            QuadTree::Leaf(Option::None)
                        };
                        let l3: QuadTree = if qq == 3 {
                            QuadTree::Leaf(Option::Some(q))
                        } else {
                            QuadTree::Leaf(Option::None)
                        };
                        let res = QuadTree::Inner(
                            Box::new(l0),
                            Box::new(l1),
                            Box::new(l2),
                            Box::new(l3),
                        );
                        proof {
                            assert(tree_wf(l0, child_rect(r, 0)));
                            assert(tree_wf(l1, child_rect(r, 1)));
                            assert(tree_wf(l2, child_rect(r, 2)));
                            assert(tree_wf(l3, child_rect(r, 3)));
                            assert(tree_wf(res, r));
                        }
                        res
                    },
                }
            }
        },
        QuadTree::Inner(c0, c1, c2, c3) => {
            proof {
                lemma_child_rect(r, 0);
                lemma_child_rect(r, 1);
                lemma_child_rect(r, 2);
                lemma_child_rect(r, 3);
            }
            let mx = (r.x0 + r.x1) / 2;
            let my = (r.y0 + r.y1) / 2;
            let r0 = Rect { x0: r.x0, y0: r.y0, x1: mx, y1: my };
            let r1 = Rect { x0: mx, y0: r.y0, x1: r.x1, y1: my };
            let r2 = Rect { x0: r.x0, y0: my, x1: mx, y1: r.y1 };
            let r3 = Rect { x0: mx, y0: my, x1: r.x1, y1: r.y1 };
            proof {
                assert(r0 == child_rect(r, 0));
                assert(r1 == child_rect(r, 1));
                assert(r2 == child_rect(r, 2));
                assert(r3 == child_rect(r, 3));
            }
            QuadTree::Inner(
                Box::new(split_marked(*c0, r0, marked)),
                Box::new(split_marked(*c1, r1, marked)),
                Box::new(split_marked(*c2, r2, marked)),
                Box::new(split_marked(*c3, r3, marked)),
            )
        },
    }
}

/// Maps a fixed-point coordinate to the pixel that covers it, clamped
/// to the map.
fn seed_pixel(size: usize, v: i64) -> (p: usize)
    requires
        1 <= size <= MAX_RESOLUTION,
        -crate::MAX_COORD <= v <= crate::MAX_COORD,
    ensures
        p < size,
{
    if v <= 0 {
        0
    } else {
        proof {
            assert((v as u64) * (size as u64) <= 524288 * 1024) by (nonlinear_arith)
                requires
                    0 <= (v as int) <= 524288,
                    0 < (size as int) <= 1024,
            ;
        }
        let u: u64 = ((v as u64) * (size as u64)) / 65536;
        if u >= size as u64 {
            size - 1
        } else {
            u as usize
        }
    }
}

/// Computes the winner map by adaptive refinement.  The tree is seeded
/// with the candidate positions; for up to `rounds` rounds, undecided
/// leaves are evaluated at their centers and filled, and leaves whose
/// result disagrees with a bordering pixel are cleared and split.  A
/// final full-resolution pass settles every remaining pixel, so the
/// returned map holds a valid winner index everywhere: no pixel is left
/// undecided, whatever the round budget was.
pub fn compute_adaptive(
    size: usize,
    candidates: &Vec<Point>,
    method: ElectionMethod,
    rounds: usize,
) -> (map: Vec<u8>)
    requires
        1 <= size <= MAX_RESOLUTION,
        valid_candidates(candidates@),
    ensures
        map@.len() == size * size,
        forall|k: int| 0 <= k < map@.len() ==> #[trigger] map@[k] != UNDECIDED,
        forall|k: int| 0 <= k < map@.len() ==> #[trigger] map@[k] < candidates@.len(),
        forall|k: int|
            0 <= k < map@.len() ==> is_winner_value(
                size as int,
                candidates@,
                method,
                #[trigger] map@[k],
            ),
{
    let ghost si = size as int;
    let ghost cands = candidates@;
    let n = candidates.len();
    let mut ev = Evaluator::new(size, candidates, method);
    proof {
        assert(size * size <= 1024 * 1024) by (nonlinear_arith)
            requires
                0 < size <= 1024,
        ;
    }
    let ncells: usize = size * size;
    let mut map: Vec<u8> = Vec::new();
    let mut z: usize = 0;
    while z < ncells
        invariant
            0 <= z <= ncells,
            map@.len() == z,
            forall|k: int| 0 <= k < z ==> #[trigger] map@[k] == UNDECIDED,
        decreases ncells - z,
    {
        map.push(UNDECIDED);
        z = z + 1;
    }
    let root = Rect { x0: 0, y0: 0, x1: size, y1: size };
    let mut tree: QuadTree = QuadTree::Leaf(Option::None);
    let mut i: usize = 0;
    while i < n
        invariant
            0 <= i <= n,
            n == cands.len(),
            cands == candidates@,
            valid_candidates(cands),
            1 <= size <= MAX_RESOLUTION,
            root == (Rect { x0: 0usize, y0: 0usize, x1: size, y1: size }),
            rect_wf(root),
            tree_wf(tree, root),
        decreases n - i,
    {
        let c = candidates[i];
        let px = seed_pixel(size, c.x);
        let py = seed_pixel(size, c.y);
        tree = insert(tree, root, Pix { x: px, y: py });
        i = i + 1;
    }
    let mut round: usize = 0;
    while round < rounds
        invariant
            0 <= round <= rounds,
            n == cands.len(),
            cands == candidates@,
            valid_candidates(cands),
            1 <= n <= 5,
            1 <= size <= MAX_RESOLUTION,
            ncells == size * size,
            root == (Rect { x0: 0usize, y0: 0usize, x1: size, y1: size }),
            rect_wf(root),
            tree_wf(tree, root),
            si == size as int,
            map_inv(map@, si, cands, method),
            ev.wf(),
            ev.size == size,
            ev.candidates@ == cands,
            ev.method == method,
        decreases rounds - round,
    {
        let mut leaf_rects: Vec<Rect> = Vec::new();
        collect_leaves(&tree, root, &mut leaf_rects);
        let nleaves = leaf_rects.len();
        let mut li: usize = 0;
        while li < nleaves
            invariant
                0 <= li <= nleaves,
                nleaves == leaf_rects@.len(),
                forall|k: int|
                    0 <= k < nleaves ==> rect_wf(#[trigger] leaf_rects@[k]) && leaf_rects@[k].x1
                        <= size && leaf_rects@[k].y1 <= size,
                n == cands.len(),
                cands == candidates@,
                valid_candidates(cands),
                1 <= n <= 5,
                1 <= size <= MAX_RESOLUTION,
                ncells == size * size,
                si == size as int,
                map_inv(map@, si, cands, method),
                ev.wf(),
                ev.size == size,
                ev.candidates@ == cands,
                ev.method == method,
            decreases nleaves - li,
        {
            let r = leaf_rects[li];
            proof {
                assert(r.x0 * size + r.y0 < size * size && r.x0 * size + r.y0 < 1024 * 1024)
                    by (nonlinear_arith)
                    requires
                        0 <= (r.x0 as int) < size,
                        0 <= (r.y0 as int) < size,
                        size <= 1024,
                ;
            }
            let probe = map[r.x0 * size + r.y0];
            if probe == UNDECIDED {
                let cx = r.x0 + (r.x1 - r.x0) / 2;
                let cy = r.y0 + (r.y1 - r.y0) / 2;
                let w = ev.eval(cx, cy);
                proof {
                    assert(is_winner_value(si, cands, method, w)) by {
                        assert(w as int == winner_at(si, cands, method, cx as int, cy as int));
                    }
                }
                fill_rect(&mut map, size, r, w);
            }
            li = li + 1;
        }
        let mut marked: Vec<Rect> = Vec::new();
        let mut mi: usize = 0;
        while mi < nleaves
            invariant
                0 <= mi <= nleaves,
                nleaves == leaf_rects@.len(),
                forall|k: int|
                    0 <= k < nleaves ==> rect_wf(#[trigger] leaf_rects@[k]) && leaf_rects@[k].x1
                        <= size && leaf_rects@[k].y1 <= size,
                n == cands.len(),
                1 <= size <= MAX_RESOLUTION,
                ncells == size * size,
                si == size as int,
                cands == candidates@,
                map_inv(map@, si, cands, method),
                forall|k: int| 0 <= k < marked@.len() ==> rect_wf(#[trigger] marked@[k])
                    && marked@[k].x1 <= size && marked@[k].y1 <= size,
            decreases nleaves - mi,
        {
            let r = leaf_rects[mi];
            let differs = rect_border_differs(&map, size, r);
            if differs {
                marked.push(r);
                fill_rect(&mut map, size, r, UNDECIDED);
            }
            mi = mi + 1;
        }
        tree = split_marked(tree, root, &marked);
        round = round + 1;
    }
    let mut cell: usize = 0;
    while cell < ncells
        invariant
            0 <= cell <= ncells,
            n == cands.len(),
            cands == candidates@,
            valid_candidates(cands),
            1 <= n <= 5,
            1 <= size <= MAX_RESOLUTION,
            ncells == size * size,
            si == size as int,
            map_inv(map@, si, cands, method),
            forall|k: int| 0 <= k < cell ==> #[trigger] map@[k] < n,
            ev.wf(),
            ev.size == size,
            ev.candidates@ == cands,
            ev.method == method,
        decreases ncells - cell,
    {
        let v = map[cell];
        if v == UNDECIDED {
            let x: usize = cell / size;
            let y: usize = cell % size;
            proof {
                assert(cell / size < size && cell % size < size) by (nonlinear_arith)
                    requires
                        0 <= cell < size * size,
                        0 < size,
                ;
            }
            let w = ev.eval(x, y);
            proof {
                assert(is_winner_value(si, cands, method, w)) by {
                    assert(w as int == winner_at(si, cands, method, x as int, y as int));
                }
            }
            map.set(cell, w);
        }
        proof {
            if map@[cell as int] != UNDECIDED {
                assert(is_winner_value(si, cands, method, map@[cell as int]));
                let (wx, wy) = choose|wx: int, wy: int|
                    0 <= wx < si && 0 <= wy < si && map@[cell as int] as int == #[trigger] winner_at(
                        si,
                        cands,
                        method,
                        wx,
                        wy,
                    );
                lemma_winner_at_range(si, cands, method, wx, wy);
            }
        }
        cell = cell + 1;
    }
    map
}

/// Whether any pixel bordering the rectangle from outside disagrees
/// with the rectangle's settled value.
fn rect_border_differs(map: &Vec<u8>, size: usize, r: Rect) -> (differs: bool)
    requires
        1 <= size <= MAX_RESOLUTION,
        map@.len() == size * size,
        rect_wf(r),
        r.x1 <= size,
        r.y1 <= size,
{
    proof {
        assert(r.x0 * size + r.y0 < size * size && r.x0 * size + r.y0 < 1024 * 1024)
            by (nonlinear_arith)
            requires
                0 <= (r.x0 as int) < size,
                0 <= (r.y0 as int) < size,
                size <= 1024,
        ;
    }
    let v = map[r.x0 * size + r.y0];
    let mut differs = false;
    let mut y: usize = r.y0;
    while y < r.y1
        invariant
            r.y0 <= y <= r.y1,
            1 <= size <= MAX_RESOLUTION,
            map@.len() == size * size,
            rect_wf(r),
            r.x1 <= size,
            r.y1 <= size,
        decreases r.y1 - y,
    {
        if r.x0 > 0 {
            proof {
                assert((r.x0 - 1) * size + y < size * size && (r.x0 - 1) * size + y < 1024
                    * 1024) by (nonlinear_arith)
                    requires
                        0 <= (r.x0 as int) - 1 < size,
                        0 <= (y as int) < size,
                        size <= 1024,
                ;
            }
            if map[(r.x0 - 1) * size + y] != v {
                differs = true;
            }
        }
        if r.x1 < size {
            proof {
                assert((r.x1 as int) * size + y < size * size && (r.x1 as int) * size + y < 1024
                    * 1024) by (nonlinear_arith)
                    requires
                        0 <= (r.x1 as int) < size,
                        0 <= (y as int) < size,
                        size <= 1024,
                ;
            }
            if map[r.x1 * size + y] != v {
                differs = true;
            }
        }
        y = y + 1;
    }
    let mut x: usize = r.x0;
    while x < r.x1
        invariant
            r.x0 <= x <= r.x1,
            1 <= size <= MAX_RESOLUTION,
            map@.len() == size * size,
            rect_wf(r),
            r.x1 <= size,
            r.y1 <= size,
        decreases r.x1 - x,
    {
        if r.y0 > 0 {
            proof {
                assert(x * size + (r.y0 - 1) < size * size && x * size + (r.y0 - 1) < 1024
                    * 1024) by (nonlinear_arith)
                    requires
                        0 <= (x as int) < size,
                        0 <= (r.y0 as int) - 1 < size,
                        size <= 1024,
                ;
            }
            if map[x * size + (r.y0 - 1)] != v {
                differs = true;
            }
        }
        if r.y1 < size {
            proof {
                assert(x * size + r.y1 < size * size && x * size + r.y1 < 1024 * 1024)
                    by (nonlinear_arith)
                    requires
                        0 <= (x as int) < size,
                        0 <= (r.y1 as int) < size,
                        size <= 1024,
                ;
            }
            if map[x * size + r.y1] != v {
                differs = true;
            }
        }
        x = x + 1;
    }
    differs
}

} // verus!
