//! The adaptive refinement path and its quadtree.

use voting_map::{compute_adaptive, election, insert, ElectionMethod, Pix, Point, QuadTree, Rect};

fn fixed(v: f64) -> i64 {
    (v * 65536.0).round() as i64
}

fn square_candidates() -> Vec<Point> {
    vec![
        Point::new(fixed(0.3), fixed(0.3)),
        Point::new(fixed(0.3), fixed(0.7)),
        Point::new(fixed(0.7), fixed(0.7)),
        Point::new(fixed(0.7), fixed(0.3)),
    ]
}

#[test]
fn adaptive_leaves_no_pixel_undecided() {
    // Quadtree coverage: after refinement every pixel is settled.
    let candidates = square_candidates();
    let map = compute_adaptive(64, &candidates, ElectionMethod::Hare, 6);
    assert_eq!(map.len(), 64 * 64);
    for &w in map.iter() {
        assert_ne!(w, 255, "pixel left undecided");
        assert!((w as usize) < candidates.len());
    }
}

#[test]
fn adaptive_settles_even_with_no_rounds() {
    // A zero round budget still ends in a full-resolution pass.
    let candidates = square_candidates();
    let map = compute_adaptive(32, &candidates, ElectionMethod::Plurality, 0);
    assert_eq!(map.len(), 32 * 32);
    for &w in map.iter() {
        assert_ne!(w, 255);
        assert!((w as usize) < candidates.len());
    }
}

#[test]
fn adaptive_with_no_rounds_matches_full_grid() {
    // Without any coarse rounds, the final pass evaluates every pixel
    // individually, which is exactly the full-grid path.
    let candidates = square_candidates();
    let map = compute_adaptive(24, &candidates, ElectionMethod::Borda, 0);
    let full = election(24, &candidates, "borda").unwrap();
    assert_eq!(map, full);
}

#[test]
fn adaptive_runs_for_every_method() {
    let candidates = square_candidates();
    for method in [
        ElectionMethod::Plurality,
        ElectionMethod::Approval,
        ElectionMethod::Borda,
        ElectionMethod::Hare,
    ] {
        let map = compute_adaptive(32, &candidates, method, 5);
        assert_eq!(map.len(), 32 * 32);
        for &w in map.iter() {
            assert!((w as usize) < candidates.len());
        }
    }
}

#[test]
fn quadtree_insert_twice_is_insert_once() {
    // Inserting the same point twice leaves tree shape and leaf count
    // unchanged.
    let r = Rect { x0: 0, y0: 0, x1: 64, y1: 64 };
    let p = Pix { x: 10, y: 20 };
    let once = insert(QuadTree::Leaf(None), r, p);
    let twice = insert(insert(QuadTree::Leaf(None), r, p), r, p);
    assert!(once == twice);
}

#[test]
fn quadtree_duplicate_insert_after_split_is_noop() {
    let r = Rect { x0: 0, y0: 0, x1: 64, y1: 64 };
    let a = Pix { x: 10, y: 20 };
    let b = Pix { x: 50, y: 52 };
    let base = insert(insert(QuadTree::Leaf(None), r, a), r, b);
    let again = insert(
        insert(insert(QuadTree::Leaf(None), r, a), r, b),
        r,
        b,
    );
    assert!(base == again);
}

#[test]
fn quadtree_second_point_forces_split() {
    let r = Rect { x0: 0, y0: 0, x1: 64, y1: 64 };
    let a = Pix { x: 10, y: 20 };
    let b = Pix { x: 50, y: 52 };
    let t = insert(insert(QuadTree::Leaf(None), r, a), r, b);
    match t {
        QuadTree::Inner(_, _, _, _) => {},
        QuadTree::Leaf(_) => panic!("distinct second point must split the leaf"),
    }
}

#[test]
fn quadtree_close_points_split_deeper() {
    // Two points in the same quadrant force splits until they part.
    let r = Rect { x0: 0, y0: 0, x1: 64, y1: 64 };
    let a = Pix { x: 2, y: 2 };
    let b = Pix { x: 5, y: 2 };
    let t = insert(insert(QuadTree::Leaf(None), r, a), r, b);
    match t {
        QuadTree::Inner(c0, _, _, _) => match *c0 {
            QuadTree::Inner(_, _, _, _) => {},
            QuadTree::Leaf(_) => panic!("points in one quadrant must split again"),
        },
        QuadTree::Leaf(_) => panic!("distinct second point must split the leaf"),
    }
}
