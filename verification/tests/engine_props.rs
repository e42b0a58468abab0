//! Unit-level checks: ballots, winner selection, method parsing, the
//! palette, rendering, and the cross-method agreements.

use voting_map::{
    candidate_color, election, max_candidates, parse_method, render, vote_close, vote_plurality,
    vote_rank, Color, ElectionMethod, MethodError, Point,
};

fn fixed(v: f64) -> i64 {
    (v * 65536.0).round() as i64
}

#[test]
fn plurality_ballot_votes_for_nearest() {
    let candidates = vec![
        Point::new(fixed(0.2), fixed(0.2)),
        Point::new(fixed(0.8), fixed(0.8)),
        Point::new(fixed(0.5), fixed(0.9)),
    ];
    let votes = vote_plurality(Point::new(fixed(0.75), fixed(0.75)), &candidates);
    assert_eq!(votes, vec![0, 1, 0]);
}

#[test]
fn plurality_ballot_at_own_location_resolves_to_candidate() {
    // A voter standing exactly on a candidate backs that candidate.
    let candidates = vec![
        Point::new(fixed(0.2), fixed(0.2)),
        Point::new(fixed(0.8), fixed(0.8)),
        Point::new(fixed(0.5), fixed(0.9)),
    ];
    for i in 0..candidates.len() {
        let votes = vote_plurality(candidates[i], &candidates);
        assert_eq!(votes[i], 1);
        for c in 0..candidates.len() {
            assert_eq!(votes[c], if c == i { 1 } else { 0 });
        }
    }
}

#[test]
fn plurality_ballot_tie_breaks_to_lowest_index() {
    // Two candidates at the same spot: the earlier one gets the vote.
    let p = Point::new(fixed(0.4), fixed(0.4));
    let candidates = vec![p, p, Point::new(fixed(0.9), fixed(0.9))];
    let votes = vote_plurality(p, &candidates);
    assert_eq!(votes, vec![1, 0, 0]);
}

#[test]
fn approval_ballot_marks_candidates_within_radius() {
    // Approval radius is a squared distance of 1.0 in normalized space.
    let candidates = vec![
        Point::new(fixed(0.1), fixed(0.1)),
        Point::new(fixed(1.05), fixed(0.1)),
        Point::new(fixed(3.0), fixed(3.0)),
    ];
    let votes = vote_close(Point::new(fixed(0.1), fixed(0.1)), &candidates);
    assert_eq!(votes, vec![1, 1, 0]);
}

#[test]
fn ranked_ballot_is_a_permutation_by_distance() {
    let candidates = vec![
        Point::new(fixed(0.9), fixed(0.9)),
        Point::new(fixed(0.1), fixed(0.1)),
        Point::new(fixed(0.5), fixed(0.5)),
    ];
    let votes = vote_rank(Point::new(fixed(0.05), fixed(0.05)), &candidates);
    assert_eq!(votes, vec![3, 1, 2]);
}

#[test]
fn ranked_ballot_ties_rank_by_index() {
    let p = Point::new(fixed(0.5), fixed(0.5));
    let candidates = vec![
        Point::new(fixed(0.5), fixed(0.7)),
        Point::new(fixed(0.5), fixed(0.3)),
    ];
    // Both candidates are equally far; the earlier index ranks first.
    let votes = vote_rank(p, &candidates);
    assert_eq!(votes, vec![1, 2]);
}

#[test]
fn parse_accepts_the_four_methods() {
    assert_eq!(parse_method("plurality"), Ok(ElectionMethod::Plurality));
    assert_eq!(parse_method("approval"), Ok(ElectionMethod::Approval));
    assert_eq!(parse_method("borda"), Ok(ElectionMethod::Borda));
    assert_eq!(parse_method("hare"), Ok(ElectionMethod::Hare));
}

#[test]
fn parse_rejects_condorcet_as_unimplemented() {
    assert_eq!(parse_method("condorcet"), Err(MethodError::Unimplemented));
}

#[test]
fn parse_rejects_unknown_methods() {
    assert_eq!(parse_method("alternative"), Err(MethodError::Unrecognized));
    assert_eq!(parse_method(""), Err(MethodError::Unrecognized));
    assert_eq!(parse_method("Plurality"), Err(MethodError::Unrecognized));
}

#[test]
fn election_fails_on_bad_method_without_partial_result() {
    let candidates = vec![
        Point::new(fixed(0.3), fixed(0.3)),
        Point::new(fixed(0.7), fixed(0.7)),
    ];
    assert_eq!(
        election(32, &candidates, "condorcet"),
        Err(MethodError::Unimplemented)
    );
    assert_eq!(
        election(32, &candidates, "range"),
        Err(MethodError::Unrecognized)
    );
}

#[test]
fn two_candidate_hare_equals_plurality() {
    // With two candidates, instant runoff decides in its first round
    // and agrees with plurality everywhere.
    let candidates = vec![
        Point::new(fixed(0.35), fixed(0.4)),
        Point::new(fixed(0.6), fixed(0.65)),
    ];
    let hare = election(48, &candidates, "hare").unwrap();
    let plurality = election(48, &candidates, "plurality").unwrap();
    assert_eq!(hare, plurality);
}

#[test]
fn single_candidate_wins_everywhere() {
    let candidates = vec![Point::new(fixed(0.5), fixed(0.5))];
    for method in ["plurality", "approval", "borda", "hare"] {
        let winners = election(16, &candidates, method).unwrap();
        assert_eq!(winners, vec![0u8; 16 * 16]);
    }
}

#[test]
fn five_candidate_hare_stays_in_range() {
    let candidates = vec![
        Point::new(fixed(0.2), fixed(0.2)),
        Point::new(fixed(0.8), fixed(0.2)),
        Point::new(fixed(0.5), fixed(0.5)),
        Point::new(fixed(0.2), fixed(0.8)),
        Point::new(fixed(0.8), fixed(0.8)),
    ];
    let winners = election(32, &candidates, "hare").unwrap();
    assert_eq!(winners.len(), 32 * 32);
    for &w in winners.iter() {
        assert!((w as usize) < 5);
        assert_ne!(w, 255);
    }
}

#[test]
fn palette_colors_are_fixed_and_ordered() {
    assert_eq!(max_candidates(), 5);
    assert_eq!(candidate_color(0), Color { r: 255, g: 0, b: 0 });
    assert_eq!(candidate_color(1), Color { r: 0, g: 255, b: 0 });
    assert_eq!(candidate_color(2), Color { r: 0, g: 0, b: 255 });
    assert_eq!(candidate_color(3), Color { r: 255, g: 255, b: 0 });
    assert_eq!(candidate_color(4), Color { r: 255, g: 20, b: 147 });
}

#[test]
fn palette_falls_back_to_white_beyond_range() {
    assert_eq!(candidate_color(5), Color { r: 255, g: 255, b: 255 });
    assert_eq!(candidate_color(255), Color { r: 255, g: 255, b: 255 });
}

#[test]
fn render_produces_rgba_of_the_winner_map() {
    let coords = vec![fixed(0.25), fixed(0.25), fixed(0.75), fixed(0.75)];
    let size = 16usize;
    let img = render(size, &coords, "plurality").unwrap();
    assert_eq!(img.len(), size * size * 4);
    let candidates = vec![
        Point::new(coords[0], coords[1]),
        Point::new(coords[2], coords[3]),
    ];
    let winners = election(size, &candidates, "plurality").unwrap();
    for x in 0..size {
        for y in 0..size {
            let c = candidate_color(winners[x * size + y] as usize);
            let base = (y * size + x) * 4;
            assert_eq!(img[base], c.r);
            assert_eq!(img[base + 1], c.g);
            assert_eq!(img[base + 2], c.b);
            assert_eq!(img[base + 3], 255);
        }
    }
}

#[test]
fn render_rejects_bad_methods() {
    let coords = vec![fixed(0.25), fixed(0.25), fixed(0.75), fixed(0.75)];
    assert_eq!(render(16, &coords, "condorcet"), Err(MethodError::Unimplemented));
    assert_eq!(render(16, &coords, "star"), Err(MethodError::Unrecognized));
}

#[test]
fn kernel_weights_are_a_symmetric_bell() {
    let weights = voting_map::kernel::build_kernel(64);
    let count = weights.len();
    assert!(count % 2 == 1, "kernel has a center sample");
    let half = count / 2;
    for j in 0..count {
        assert!(weights[j] <= 65536);
        assert_eq!(weights[j], weights[count - 1 - j], "kernel is symmetric");
        assert!(weights[j] <= weights[half], "center weight is largest");
    }
    assert!(weights[half] > weights[0], "weights decay away from the center");
}
