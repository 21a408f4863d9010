//! The filtered score listing: bound resolution, the conflict errors, and
//! byte-for-byte agreement with generic tuple serialization.
use meritrank_client::payload::{mr_scores_payload, mr_scores_superposition_payload, QueryError};

fn reference_scores(
    ego: &str,
    hide_personal: bool,
    prefix: &str,
    gcmp: &str,
    gt: f64,
    lcmp: &str,
    lt: f64,
    limit: Option<i32>,
) -> Vec<u8> {
    let q = (
        (
            ("src", "=", ego),
            ("target", "like", prefix),
            ("hide_personal", hide_personal),
            ("score", gcmp, gt),
            ("score", lcmp, lt),
            ("limit", limit),
        ),
        (),
    );
    rmp_serde::to_vec(&q).unwrap()
}

#[test]
fn no_bounds_uses_inactive_sentinels() {
    let ours =
        mr_scores_payload(b"U1", false, b"", None, None, None, None, None, None).unwrap();
    let reference =
        reference_scores("U1", false, "", ">", f64::MAX, "<", f64::MIN, None);
    assert_eq!(ours, reference);
}

#[test]
fn strict_bounds_use_strict_operators() {
    let ours = mr_scores_payload(
        b"U1",
        true,
        b"",
        Some(b"B"),
        Some(7.5f64.to_bits()),
        None,
        Some(0.25f64.to_bits()),
        None,
        Some(50),
    )
    .unwrap();
    let reference = reference_scores("U1", true, "B", ">", 0.25, "<", 7.5, Some(50));
    assert_eq!(ours, reference);
}

#[test]
fn non_strict_bounds_use_non_strict_operators() {
    let ours = mr_scores_payload(
        b"U1",
        false,
        b"",
        None,
        None,
        Some(9.0f64.to_bits()),
        None,
        Some((-1.0f64).to_bits()),
        None,
    )
    .unwrap();
    let reference = reference_scores("U1", false, "", ">=", -1.0, "<=", 9.0, None);
    assert_eq!(ours, reference);
}

#[test]
fn scores_with_context_wrap_the_filters() {
    let ours =
        mr_scores_payload(b"U1", false, b"X", None, None, None, None, None, Some(5)).unwrap();
    let inner = reference_scores("U1", false, "", ">", f64::MAX, "<", f64::MIN, Some(5));
    let q: (&str, &str, Vec<u8>) = ("context", "X", inner);
    assert_eq!(ours, rmp_serde::to_vec(&q).unwrap());
}

#[test]
fn both_upper_bounds_are_refused() {
    let r = mr_scores_payload(
        b"U1",
        false,
        b"",
        None,
        Some(1.0f64.to_bits()),
        Some(2.0f64.to_bits()),
        None,
        None,
        None,
    );
    assert_eq!(r.unwrap_err(), QueryError::DuplicateUpperBound);
}

#[test]
fn both_lower_bounds_are_refused() {
    let r = mr_scores_payload(
        b"U1",
        false,
        b"",
        None,
        None,
        None,
        Some(1.0f64.to_bits()),
        Some(2.0f64.to_bits()),
        None,
    );
    assert_eq!(r.unwrap_err(), QueryError::DuplicateLowerBound);
}

#[test]
fn upper_conflict_is_reported_before_lower_conflict() {
    let r = mr_scores_payload(
        b"U1",
        false,
        b"",
        None,
        Some(1.0f64.to_bits()),
        Some(2.0f64.to_bits()),
        Some(3.0f64.to_bits()),
        Some(4.0f64.to_bits()),
        None,
    );
    assert_eq!(r.unwrap_err(), QueryError::DuplicateUpperBound);
}

#[test]
fn conflict_messages_match_the_callers_wording() {
    assert_eq!(QueryError::DuplicateUpperBound.message(), "either lt or lte allowed!");
    assert_eq!(QueryError::DuplicateLowerBound.message(), "either gt or gte allowed!");
}

#[test]
fn superposition_scores_hide_nothing_and_wrap_nothing() {
    let ours = mr_scores_superposition_payload(
        b"U1",
        Some(b"C"),
        Some(4.0f64.to_bits()),
        None,
        None,
        None,
        Some(7),
    )
    .unwrap();
    let reference = reference_scores("U1", false, "C", ">", f64::MAX, "<", 4.0, Some(7));
    assert_eq!(ours, reference);
}

#[test]
fn superposition_scores_refuse_conflicting_bounds_too() {
    let r = mr_scores_superposition_payload(
        b"U1",
        None,
        None,
        None,
        Some(1.0f64.to_bits()),
        Some(2.0f64.to_bits()),
        None,
    );
    assert_eq!(r.unwrap_err(), QueryError::DuplicateLowerBound);
}
