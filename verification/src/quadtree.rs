//! The adaptive quadtree over pixel space.
//!
//! A node covers a half-open pixel rectangle.  A leaf holds at most one
//! seed point; inserting a second, distinct point forces a split into
//! four quadrant children, repeated until the two points part ways.
//! Inserting a point a leaf already holds is a no-op, so duplicate
//! candidate positions never corrupt the tree.  A rectangle too small
//! to split keeps its first seed and ignores later ones.

use vstd::prelude::*;
use crate::MAX_RESOLUTION;

verus! {

/// A half-open pixel rectangle `[x0, x1) x [y0, y1)`.
#[derive(Clone, Copy, Debug, PartialEq, Eq, Structural)]
pub struct Rect {
    pub x0: usize,
    pub y0: usize,
    pub x1: usize,
    pub y1: usize,
}

/// A pixel position used as a seed point.
#[derive(Clone, Copy, Debug, PartialEq, Eq, Structural)]
pub struct Pix {
    pub x: usize,
    pub y: usize,
}

/// A quadtree node: a leaf with an optional seed, or an inner node
/// whose four children partition the rectangle into its quadrants.
#[derive(PartialEq, Eq)]
pub enum QuadTree {
    Leaf(Option<Pix>),
    Inner(Box<QuadTree>, Box<QuadTree>, Box<QuadTree>, Box<QuadTree>),
}

/// A nonempty rectangle of bounded size.
pub open spec fn rect_wf(r: Rect) -> bool {
    r.x0 < r.x1 <= MAX_RESOLUTION && r.y0 < r.y1 <= MAX_RESOLUTION
}

/// The rectangle covers the pixel.
pub open spec fn rect_contains(r: Rect, p: Pix) -> bool {
    r.x0 <= p.x < r.x1 && r.y0 <= p.y < r.y1
}

/// The rectangle is large enough to split into four nonempty
/// quadrants.
pub open spec fn can_split(r: Rect) -> bool {
    r.x1 - r.x0 >= 2 && r.y1 - r.y0 >= 2
}

/// The quadrant child rectangles, numbered low-x/low-y, high-x/low-y,
/// low-x/high-y, high-x/high-y.
pub open spec fn child_rect(r: Rect, q: int) -> Rect {
    let mx = ((r.x0 + r.x1) / 2) as usize;
    let my = ((r.y0 + r.y1) / 2) as usize;
    if q == 0 {
        Rect { x0: r.x0, y0: r.y0, x1: mx, y1: my }
    } else if q == 1 {
        Rect { x0: mx, y0: r.y0, x1: r.x1, y1: my }
    } else if q == 2 {
        Rect { x0: r.x0, y0: my, x1: mx, y1: r.y1 }
    } else {
        Rect { x0: mx, y0: my, x1: r.x1, y1: r.y1 }
    }
}

/// Which quadrant of `r` the pixel falls in.
pub open spec fn quadrant_of(r: Rect, p: Pix) -> int {
    let mx = (r.x0 + r.x1) / 2;
    let my = (r.y0 + r.y1) / 2;
    (if p.x >= mx {
        1int
    } else {
        0int
    }) + (if p.y >= my {
        2int
    } else {
        0int
    })
}

/// Quadrants of a splittable rectangle are nonempty, nested, strictly
/// smaller, and cover their points.
pub proof fn lemma_child_rect(r: Rect, q: int)
    requires
        rect_wf(r),
        can_split(r),
        0 <= q < 4,
    ensures
        rect_wf(child_rect(r, q)),
        r.x0 <= child_rect(r, q).x0,
        child_rect(r, q).x1 <= r.x1,
        r.y0 <= child_rect(r, q).y0,
        child_rect(r, q).y1 <= r.y1,
        rect_size(child_rect(r, q)) < rect_size(r),
{
}

/// A pixel lies in the quadrant assigned to it.
pub proof fn lemma_quadrant_contains(r: Rect, p: Pix)
    requires
        rect_wf(r),
        can_split(r),
        rect_contains(r, p),
    ensures
        0 <= quadrant_of(r, p) < 4,
        rect_contains(child_rect(r, quadrant_of(r, p)), p),
{
}

/// Perimeter-style size measure used for termination.
pub open spec fn rect_size(r: Rect) -> int {
    (r.x1 - r.x0) + (r.y1 - r.y0)
}

/// The tree that holds exactly the two distinct seeds `a` and `b`
/// inside `r`: quadrants are split until the seeds part ways; if the
/// rectangle bottoms out first, the earlier seed `a` is kept.
pub open spec fn spec_split_two(r: Rect, a: Pix, b: Pix) -> QuadTree
    decreases rect_size(r),
{
    if !(rect_wf(r) && can_split(r)) {
        QuadTree::Leaf(Option::Some(a))
    } else {
        let qa = quadrant_of(r, a);
        let qb = quadrant_of(r, b);
        if qa == qb {
            let inner = if can_split(child_rect(r, qa)) && rect_wf(child_rect(r, qa)) {
                spec_split_two(child_rect(r, qa), a, b)
            } else {
                QuadTree::Leaf(Option::Some(a))
            };
            QuadTree::Inner(
                Box::new(spec_leaf_for(0, qa, inner)),
                Box::new(spec_leaf_for(1, qa, inner)),
                Box::new(spec_leaf_for(2, qa, inner)),
                Box::new(spec_leaf_for(3, qa, inner)),
            )
        } else {
            QuadTree::Inner(
                Box::new(spec_two_leaf(0, qa, a, qb, b)),
                Box::new(spec_two_leaf(1, qa, a, qb, b)),
                Box::new(spec_two_leaf(2, qa, a, qb, b)),
                Box::new(spec_two_leaf(3, qa, a, qb, b)),
            )
        }
    }
}

/// Child `i`: the combined subtree at quadrant `qa`, an empty leaf
/// elsewhere.
pub open spec fn spec_leaf_for(i: int, qa: int, inner: QuadTree) -> QuadTree {
    if i == qa {
        inner
    } else {
        QuadTree::Leaf(Option::None)
    }
}

/// Child `i`: a seeded leaf at each of the two distinct quadrants, an
/// empty leaf elsewhere.
pub open spec fn spec_two_leaf(i: int, qa: int, a: Pix, qb: int, b: Pix) -> QuadTree {
    if i == qa {
        QuadTree::Leaf(Option::Some(a))
    } else if i == qb {
        QuadTree::Leaf(Option::Some(b))
    } else {
        QuadTree::Leaf(Option::None)
    }
}

/// Inserting `p` into the tree over `r`: an empty leaf takes the seed,
/// a leaf holding `p` is unchanged, a leaf holding another point is
/// split (when the rectangle allows), and an inner node passes `p` to
/// the quadrant child that covers it.
pub open spec fn spec_insert(t: QuadTree, r: Rect, p: Pix) -> QuadTree
    decreases rect_size(r), t,
{
    match t {
        QuadTree::Leaf(seed) => match seed {
            Option::None => QuadTree::Leaf(Option::Some(p)),
            Option::Some(q) => if q == p {
                t
            } else if can_split(r) && rect_wf(r) {
                spec_split_two(r, q, p)
            } else {
                t
            },
        },
        QuadTree::Inner(c0, c1, c2, c3) => {
            if rect_wf(r) && can_split(r) {
                let q = quadrant_of(r, p);
                QuadTree::Inner(
                    Box::new(
                        if q == 0 {
                            spec_insert(*c0, child_rect(r, 0), p)
                        } else {
                            *c0
                        },
                    ),
                    Box::new(
                        if q == 1 {
                            spec_insert(*c1, child_rect(r, 1), p)
                        } else {
                            *c1
                        },
                    ),
                    Box::new(
                        if q == 2 {
                            spec_insert(*c2, child_rect(r, 2), p)
                        } else {
                            *c2
                        },
                    ),
                    Box::new(
                        if q == 3 {
                            spec_insert(*c3, child_rect(r, 3), p)
                        } else {
                            *c3
                        },
                    ),
                )
            } else {
                t
            }
        },
    }
}

/// Inner nodes stand only on splittable rectangles, and every seed
/// lies inside its leaf's rectangle.
pub open spec fn tree_wf(t: QuadTree, r: Rect) -> bool
    decreases t,
{
    match t {
        QuadTree::Leaf(seed) => match seed {
            Option::None => true,
            Option::Some(q) => rect_contains(r, q),
        },
        QuadTree::Inner(c0, c1, c2, c3) => {
            &&& rect_wf(r)
            &&& can_split(r)
            &&& tree_wf(*c0, child_rect(r, 0))
            &&& tree_wf(*c1, child_rect(r, 1))
            &&& tree_wf(*c2, child_rect(r, 2))
            &&& tree_wf(*c3, child_rect(r, 3))
        },
    }
}

/// The split of two distinct seeds is well formed.
pub proof fn lemma_split_two_wf(r: Rect, a: Pix, b: Pix)
    requires
        rect_contains(r, a),
        rect_contains(r, b),
    ensures
        tree_wf(spec_split_two(r, a, b), r),
    decreases rect_size(r),
{
    if rect_wf(r) && can_split(r) {
        let qa = quadrant_of(r, a);
        let qb = quadrant_of(r, b);
        lemma_quadrant_contains(r, a);
        lemma_quadrant_contains(r, b);
        let t = spec_split_two(r, a, b);
        if qa == qb {
            let cr = child_rect(r, qa);
            let inner = if can_split(cr) && rect_wf(cr) {
                spec_split_two(cr, a, b)
            } else {
                QuadTree::Leaf(Option::Some(a))
            };
            if can_split(cr) && rect_wf(cr) {
                lemma_split_two_wf(cr, a, b);
            }
            assert(tree_wf(inner, cr));
            assert forall|i: int| 0 <= i < 4 implies tree_wf(
                spec_leaf_for(i, qa, inner),
                child_rect(r, i),
            ) by {}
        } else {
            assert forall|i: int| 0 <= i < 4 implies tree_wf(
                spec_two_leaf(i, qa, a, qb, b),
                child_rect(r, i),
            ) by {}
        }
    }
}

/// Insertion preserves well-formedness.
pub proof fn lemma_insert_wf(t: QuadTree, r: Rect, p: Pix)
    requires
        tree_wf(t, r),
        rect_contains(r, p),
    ensures
        tree_wf(spec_insert(t, r, p), r),
    decreases rect_size(r), t,
{
    match t {
        QuadTree::Leaf(seed) => {
            match seed {
                Option::None => {},
                Option::Some(q) => {
                    if q != p && can_split(r) && rect_wf(r) {
                        lemma_split_two_wf(r, q, p);
                    }
                },
            }
        },
        QuadTree::Inner(c0, c1, c2, c3) => {
            if rect_wf(r) && can_split(r) {
                let q = quadrant_of(r, p);
                lemma_quadrant_contains(r, p);
                lemma_child_rect(r, q);
                if q == 0 {
                    lemma_insert_wf(*c0, child_rect(r, 0), p);
                } else if q == 1 {
                    lemma_insert_wf(*c1, child_rect(r, 1), p);
                } else if q == 2 {
                    lemma_insert_wf(*c2, child_rect(r, 2), p);
                } else {
                    lemma_insert_wf(*c3, child_rect(r, 3), p);
                }
            }
        },
    }
}

/// Inserting into the two-seed split of `a` and `b` one of its own
/// seeds again changes nothing.
proof fn lemma_split_two_absorbs(r: Rect, a: Pix, b: Pix)
    requires
        a != b,
    ensures
        spec_insert(spec_split_two(r, a, b), r, b) == spec_split_two(r, a, b),
    decreases rect_size(r),
{
    if rect_wf(r) && can_split(r) {
        let qa = quadrant_of(r, a);
        let qb = quadrant_of(r, b);
        let t = spec_split_two(r, a, b);
        if qa == qb {
            let cr = child_rect(r, qa);
            let inner = if can_split(cr) && rect_wf(cr) {
                spec_split_two(cr, a, b)
            } else {
                QuadTree::Leaf(Option::Some(a))
            };
            if can_split(cr) && rect_wf(cr) {
                lemma_split_two_absorbs(cr, a, b);
            }
            assert(spec_insert(inner, cr, b) == inner);
            assert(spec_insert(t, r, b) == t) by {
                assert(t == QuadTree::Inner(
                    Box::new(spec_leaf_for(0, qa, inner)),
                    Box::new(spec_leaf_for(1, qa, inner)),
                    Box::new(spec_leaf_for(2, qa, inner)),
                    Box::new(spec_leaf_for(3, qa, inner)),
                ));
                assert(quadrant_of(r, b) == qa);
                assert(spec_insert(spec_leaf_for(qa, qa, inner), child_rect(r, qa), b)
                    == spec_leaf_for(qa, qa, inner));
            }
        } else {
            assert(spec_insert(t, r, b) == t) by {
                assert(spec_insert(spec_two_leaf(qb, qa, a, qb, b), child_rect(r, qb), b)
                    == spec_two_leaf(qb, qa, a, qb, b));
            }
        }
    }
}

/// Inserting the same point twice leaves the tree exactly as one
/// insertion leaves it: the shape, the leaf count, and every seed are
/// unchanged by the repeat insertion.
pub proof fn lemma_insert_idempotent(t: QuadTree, r: Rect, p: Pix)
    ensures
        spec_insert(spec_insert(t, r, p), r, p) == spec_insert(t, r, p),
    decreases rect_size(r), t,
{
    match t {
        QuadTree::Leaf(seed) => {
            match seed {
                Option::None => {},
                Option::Some(q) => {
                    if q != p && can_split(r) && rect_wf(r) {
                        lemma_split_two_absorbs(r, q, p);
                    }
                },
            }
        },
        QuadTree::Inner(c0, c1, c2, c3) => {
            if rect_wf(r) && can_split(r) {
                let q = quadrant_of(r, p);
                lemma_insert_idempotent(*c0, child_rect(r, 0), p);
                lemma_insert_idempotent(*c1, child_rect(r, 1), p);
                lemma_insert_idempotent(*c2, child_rect(r, 2), p);
                lemma_insert_idempotent(*c3, child_rect(r, 3), p);
            }
        },
    }
}

/// Builds the tree holding the two distinct seeds `a` and `b`.
fn split_two(r: Rect, a: Pix, b: Pix) -> (t: QuadTree)
    requires
        rect_wf(r),
        can_split(r),
        rect_contains(r, a),
        rect_contains(r, b),
        a != b,
    ensures
        t == spec_split_two(r, a, b),
    decreases rect_size(r),
{
    proof {
        lemma_quadrant_contains(r, a);
        lemma_quadrant_contains(r, b);
    }
    let mx = (r.x0 + r.x1) / 2;
    let my = (r.y0 + r.y1) / 2;
    let qa: usize = (if a.x >= mx {
        1
    } else {
        0
    }) + (if a.y >= my {
        2
    } else {
        0
    });
    let qb: usize = (if b.x >= mx {
        1
    } else {
        0
    }) + (if b.y >= my {
        2
    } else {
        0
    });
    if qa == qb {
        let cr = Rect {
            x0: if qa == 1 || qa == 3 {
                mx
            } else {
                r.x0
            },
            y0: if qa >= 2 {
                my
            } else {
                r.y0
            },
            x1: if qa == 1 || qa == 3 {
                r.x1
            } else {
                mx
            },
            y1: if qa >= 2 {
                r.y1
            } else {
                my
            },
        };
        proof {
            assert(cr == child_rect(r, qa as int));
            lemma_child_rect(r, qa as int);
        }
        let inner: QuadTree = if cr.x1 - cr.x0 >= 2 && cr.y1 - cr.y0 >= 2 {
            split_two(cr, a, b)
        } else {
            QuadTree::Leaf(Option::Some(a))
        };
        if qa == 0 {
            QuadTree::Inner(
                Box::new(inner),
                Box::new(QuadTree::Leaf(Option::None)),
                Box::new(QuadTree::Leaf(Option::None)),
                Box::new(QuadTree::Leaf(Option::None)),
            )
        } else if qa == 1 {
            QuadTree::Inner(
                Box::new(QuadTree::Leaf(Option::None)),
                Box::new(inner),
                Box::new(QuadTree::Leaf(Option::None)),
                Box::new(QuadTree::Leaf(Option::None)),
            )
        } else if qa == 2 {
            QuadTree::Inner(
                Box::new(QuadTree::Leaf(Option::None)),
                Box::new(QuadTree::Leaf(Option::None)),
                Box::new(inner),
                Box::new(QuadTree::Leaf(Option::None)),
            )
        } else {
            QuadTree::Inner(
                Box::new(QuadTree::Leaf(Option::None)),
                Box::new(QuadTree::Leaf(Option::None)),
                Box::new(QuadTree::Leaf(Option::None)),
                Box::new(inner),
            )
        }
    } else {
        QuadTree::Inner(
            Box::new(two_leaf(0, qa, a, qb, b)),
            Box::new(two_leaf(1, qa, a, qb, b)),
            Box::new(two_leaf(2, qa, a, qb, b)),
            Box::new(two_leaf(3, qa, a, qb, b)),
        )
    }
}

/// Inserts a seed point into the tree over rectangle `r`.  Inserting a
/// point a leaf already holds is a no-op; a second distinct point
/// forces quadrant splits until the two part ways.
pub fn insert(t: QuadTree, r: Rect, p: Pix) -> (res: QuadTree)
    requires
        rect_wf(r),
        rect_contains(r, p),
        tree_wf(t, r),
    ensures
        res == spec_insert(t, r, p),
        tree_wf(res, r),
    decreases rect_size(r), t,
{
    proof {
        lemma_insert_wf(t, r, p);
    }
    match t {
        QuadTree::Leaf(seed) => match seed {
            Option::None => QuadTree::Leaf(Option::Some(p)),
            Option::Some(q) => {
                if q == p {
                    QuadTree::Leaf(Option::Some(q))
                } else if r.x1 - r.x0 >= 2 && r.y1 - r.y0 >= 2 {
                    split_two(r, q, p)
                } else {
                    QuadTree::Leaf(Option::Some(q))
                }
            },
        },
        QuadTree::Inner(c0, c1, c2, c3) => {
            let mx = (r.x0 + r.x1) / 2;
            let my = (r.y0 + r.y1) / 2;
            let q: usize = (if p.x >= mx {
                1
            } else {
                0
            }) + (if p.y >= my {
                2
            } else {
                0
            });
            proof {
                lemma_quadrant_contains(r, p);
                lemma_child_rect(r, q as int);
            }
            if q == 0 {
                let cr = Rect { x0: r.x0, y0: r.y0, x1: mx, y1: my };
                proof {
                    assert(cr == child_rect(r, 0));
                }
                QuadTree::Inner(Box::new(insert(*c0, cr, p)), c1, c2, c3)
            } else if q == 1 {
                let cr = Rect { x0: mx, y0: r.y0, x1: r.x1, y1: my };
                proof {
                    assert(cr == child_rect(r, 1));
                }
                QuadTree::Inner(c0, Box::new(insert(*c1, cr, p)), c2, c3)
            } else if q == 2 {
                let cr = Rect { x0: r.x0, y0: my, x1: mx, y1: r.y1 };
                proof {
                    assert(cr == child_rect(r, 2));
                }
                QuadTree::Inner(c0, c1, Box::new(insert(*c2, cr, p)), c3)
            } else {
                let cr = Rect { x0: mx, y0: my, x1: r.x1, y1: r.y1 };
                proof {
                    assert(cr == child_rect(r, 3));
                }
                QuadTree::Inner(c0, c1, c2, Box::new(insert(*c3, cr, p)))
            }
        },
    }
}

/// Builds the seeded-or-empty leaf for child `i`.
fn two_leaf(i: usize, qa: usize, a: Pix, qb: usize, b: Pix) -> (t: QuadTree)
    ensures
        t == spec_two_leaf(i as int, qa as int, a, qb as int, b),
{
    if i == qa {
        QuadTree::Leaf(Option::Some(a))
    } else if i == qb {
        QuadTree::Leaf(Option::Some(b))
    } else {
        QuadTree::Leaf(Option::None)
    }
}

} // verus!
