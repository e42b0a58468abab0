//! Whole-map election scenarios: the candidate layouts and resolutions
//! the engine is exercised with, one election per test.  Each run is
//! checked against the engine's stated guarantees: the map covers every
//! pixel, every entry is a valid candidate index (never the undecided
//! sentinel), and a repeated run is byte-identical.

use voting_map::{election, Point};

fn fixed(v: f64) -> i64 {
    (v * 65536.0).round() as i64
}

fn get_candidates(name: &str) -> Vec<(f64, f64)> {
    if name == "equilateral" {
        vec![(0.5, 0.99), (0.07, 0.25), (0.93, 0.25)]
    } else if name == "squeezed" {
        vec![(0.07, 0.17), (0.49, 0.01), (0.41, 0.02)]
    } else if name == "split" {
        vec![(0.93, 0.49), (0.79, 0.42), (0.27, 0.45)]
    } else if name == "nonmonotonic" {
        vec![(0.54, 0.47), (0.77, 0.64), (0.13, 0.10)]
    } else if name == "square" {
        vec![(0.3, 0.3), (0.3, 0.7), (0.7, 0.7), (0.7, 0.3)]
    } else if name == "shattered" {
        vec![(0.12, 0.28), (0.39, 0.28), (0.97, 0.14), (0.85, 0.70)]
    } else if name == "disjoint" {
        vec![(0.24, 0.25), (0.04, 0.64), (0.85, 0.55), (0.19, 0.62)]
    } else if name == "nonmonotonicity" {
        vec![(0.4, 0.57), (0.05, 0.62), (0.91, 0.7), (0.16, 0.54)]
    } else {
        panic!("unknown candidate set: {}", name);
    }
}

fn assert_election(method: &str, candidate_name: &str, size: u32) {
    let raw = get_candidates(candidate_name);
    let mut transformed: Vec<Point> = vec![];
    for (x, y) in raw {
        // Scale to [-0.25, 1.25] coordinates and flip the y axis.
        let tx = (x + 0.25) / 1.5;
        let ty = (1.0 - y + 0.25) / 1.5;
        transformed.push(Point::new(fixed(tx), fixed(ty)));
    }
    let n = transformed.len();
    let size = size as usize;
    let winners = election(size, &transformed, method).expect("method should be accepted");
    assert_eq!(winners.len(), size * size);
    for &w in winners.iter() {
        assert!((w as usize) < n, "winner index out of range");
        assert_ne!(w, 255, "pixel left undecided");
    }
    let again = election(size, &transformed, method).expect("method should be accepted");
    assert_eq!(winners, again, "identical inputs must give identical output");
}

#[test]
fn plurality_equilateral() {
    assert_election("plurality", "equilateral", 256);
}

#[test]
fn plurality_squeezed() {
    assert_election("plurality", "squeezed", 256);
}

#[test]
fn plurality_split() {
    assert_election("plurality", "split", 256);
}

#[test]
fn plurality_nonmonotonic() {
    assert_election("plurality", "nonmonotonic", 256);
}

#[test]
fn borda_equilateral() {
    assert_election("borda", "equilateral", 256);
}

#[test]
fn borda_squeezed() {
    assert_election("borda", "squeezed", 256);
}

#[test]
fn borda_split() {
    assert_election("borda", "split", 256);
}

#[test]
fn borda_nonmonotonic() {
    assert_election("borda", "nonmonotonic", 256);
}

#[test]
fn approval_equilateral() {
    assert_election("approval", "equilateral", 256);
}

#[test]
fn approval_squeezed() {
    assert_election("approval", "squeezed", 256);
}

#[test]
fn approval_split() {
    assert_election("approval", "split", 256);
}

#[test]
fn approval_nonmonotonic() {
    assert_election("approval", "nonmonotonic", 256);
}

#[test]
fn hare_equilateral() {
    assert_election("hare", "equilateral", 64);
}

#[test]
fn hare_squeezed() {
    assert_election("hare", "squeezed", 64);
}

#[test]
fn hare_split() {
    assert_election("hare", "split", 64);
}

#[test]
fn hare_nonmonotonic() {
    assert_election("hare", "nonmonotonic", 64);
}

#[test]
fn hare_square() {
    assert_election("hare", "square", 96);
}

#[test]
fn hare_shattered() {
    assert_election("hare", "shattered", 96);
}

#[test]
fn hare_disjoint() {
    assert_election("hare", "disjoint", 96);
}

#[test]
fn hare_nonmonotonicity() {
    assert_election("hare", "nonmonotonicity", 96);
}
