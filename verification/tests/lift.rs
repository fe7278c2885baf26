//! Stitching observed paths together.

use alkabi::analysis::lift::merge_observations;
use alkabi::plan::{BoolExpr, BytesExpr, NumExpr};

// `stored_epoch < computed_epoch` — a representative divergence predicate.
fn pred() -> BoolExpr {
    BoolExpr::Lt(Box::new(NumExpr::Height), Box::new(NumExpr::Const(100)))
}
fn c(b: &[u8]) -> BytesExpr {
    BytesExpr::Const(b.to_vec())
}

#[test]
fn merge_stitches_two_branches() {
    // one predicate, taken both ways → if(pred, then, else)
    let obs = vec![
        (vec![(pred(), true)], c(b"A")),
        (vec![(pred(), false)], c(b"B")),
    ];
    let merged = merge_observations(&obs, 0).expect("should merge");
    assert_eq!(
        merged,
        BytesExpr::If {
            cond: Box::new(pred()),
            if_true: Box::new(c(b"A")),
            if_false: Box::new(c(b"B")),
        }
    );
}

#[test]
fn merge_collapses_identical_results() {
    // every world agrees → single expr, no conditional (the straight-line case)
    let obs = vec![
        (vec![(pred(), true)], c(b"X")),
        (vec![(pred(), false)], c(b"X")),
        (vec![], c(b"X")),
    ];
    assert_eq!(merge_observations(&obs, 0), Some(c(b"X")));
}

#[test]
fn merge_rejects_uncaptured_divergence() {
    // same predicate trace, different results → the split point wasn't
    // captured, so refuse to merge rather than fabricate a plan.
    let obs = vec![
        (vec![(pred(), false)], c(b"A")),
        (vec![(pred(), false)], c(b"B")),
    ];
    assert_eq!(merge_observations(&obs, 0), None);
}

#[test]
fn merge_stops_at_its_depth() {
    let obs = vec![(vec![(pred(), true)], c(b"A"))];
    assert_eq!(merge_observations(&obs, 16), Some(c(b"A")));
    assert_eq!(merge_observations(&obs, 17), None);
    assert_eq!(merge_observations(&[], 0), None);
}
