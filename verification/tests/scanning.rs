use grassfinder::results::ScanError;
use grassfinder::scan::{scan_scored_box, scan_strict_box};

fn always_match_entry() -> (Vec<i32>, Vec<i32>, Vec<i32>, Vec<u16>, Vec<u16>, Vec<u8>) {
    // A zero mask constrains nothing, so expected 0 matches every candidate.
    (vec![0], vec![0], vec![0], vec![0], vec![0], vec![0])
}

#[test]
fn degenerate_box_single_point() {
    let (dx, dy, dz, expected, mask, drip) = always_match_entry();
    let out = scan_strict_box(&dx, &dy, &dz, &expected, &mask, &drip, false, 5, 5, 6, 6, 7, 7, 10)
        .unwrap();
    assert_eq!(out, vec![5, 6, 7]);
}

#[test]
fn truncation_keeps_first_matches_in_scan_order() {
    let (dx, dy, dz, expected, mask, drip) = always_match_entry();
    // The box holds 10 candidates (y fixed, z in 0..=1, x in 0..=4), all of
    // which match; only the first 3 in (y, z, x) nesting order come back.
    let out = scan_strict_box(&dx, &dy, &dz, &expected, &mask, &drip, false, 0, 4, 0, 0, 0, 1, 3)
        .unwrap();
    assert_eq!(out, vec![0, 0, 0, 1, 0, 0, 2, 0, 0]);
}

#[test]
fn full_box_comes_back_in_scan_order() {
    let (dx, dy, dz, expected, mask, drip) = always_match_entry();
    let out = scan_strict_box(&dx, &dy, &dz, &expected, &mask, &drip, false, 0, 1, 0, 1, 0, 1, 100)
        .unwrap();
    assert_eq!(
        out,
        vec![
            0, 0, 0, 1, 0, 0, 0, 0, 1, 1, 0, 1, // y = 0: z = 0 then z = 1
            0, 1, 0, 1, 1, 0, 0, 1, 1, 1, 1, 1, // y = 1: z = 0 then z = 1
        ],
    );
}

#[test]
fn max_matches_zero_returns_nothing() {
    let (dx, dy, dz, expected, mask, drip) = always_match_entry();
    let out = scan_strict_box(&dx, &dy, &dz, &expected, &mask, &drip, false, 5, 5, 6, 6, 7, 7, 0)
        .unwrap();
    assert_eq!(out, Vec::<i32>::new());
}

#[test]
fn y_invariant_mode_scans_single_plane() {
    let (dx, dy, dz, expected, mask, drip) = always_match_entry();
    // y runs 0..=3, but in y-invariant mode only the plane at y0 is visited.
    let out = scan_strict_box(&dx, &dy, &dz, &expected, &mask, &drip, true, 0, 1, 0, 3, 0, 0, 100)
        .unwrap();
    assert_eq!(out, vec![0, 0, 0, 1, 0, 0]);
}

#[test]
fn fully_masked_pattern_finds_unique_origin() {
    // Two entries pin the full 12-bit signature at the origin and one step
    // east of it; in the scanned box exactly one origin fits both.
    let dx = vec![0, 1];
    let dy = vec![0, 0];
    let dz = vec![0, 0];
    let expected = vec![2726u16, 1127u16];
    let mask = vec![0xFFFu16, 0xFFFu16];
    let drip = vec![0u8, 0u8];
    let out = scan_strict_box(&dx, &dy, &dz, &expected, &mask, &drip, false, 0, 4, 2, 4, 2, 6, 100)
        .unwrap();
    assert_eq!(out, vec![2, 3, 4]);
}

#[test]
fn drip_entry_uses_zone_matching() {
    // The signature at (0, 0, 0) is 0, so every predicted nibble is 0.
    // A drip entry expecting a low-zone nibble (2) on axis 0 matches...
    let dx = vec![0];
    let dy = vec![0];
    let dz = vec![0];
    let mask = vec![0x00Fu16];
    let drip = vec![1u8];
    let out = scan_strict_box(&dx, &dy, &dz, &[0x002], &mask, &drip, false, 0, 0, 0, 0, 0, 0, 10)
        .unwrap();
    assert_eq!(out, vec![0, 0, 0]);
    // ...while a mid-zone expectation (4) demands exact equality and fails.
    let out = scan_strict_box(&dx, &dy, &dz, &[0x004], &mask, &drip, false, 0, 0, 0, 0, 0, 0, 10)
        .unwrap();
    assert_eq!(out, Vec::<i32>::new());
}

#[test]
fn exact_entry_rejects_on_any_masked_bit() {
    // Strict (non-drip) entries compare all 12 masked bits at once: the
    // signature at (0, 0, 0) is 0, so expecting bit 0 set fails.
    let dx = vec![0];
    let dy = vec![0];
    let dz = vec![0];
    let out = scan_strict_box(&dx, &dy, &dz, &[1], &[0xFFF], &[0], false, 0, 0, 0, 0, 0, 0, 10)
        .unwrap();
    assert_eq!(out, Vec::<i32>::new());
}

#[test]
fn scored_scan_adds_per_axis_penalties() {
    // Signature at (0, 0, 0) is 0; expecting 0x121 gives axis distances
    // (1, 2, 1). With tol = 1 the middle axis exceeds the tolerance and is
    // squared: 1 + 4 + 1 = 6.
    let dx = vec![0];
    let dy = vec![0];
    let dz = vec![0];
    let out = scan_scored_box(
        &dx, &dy, &dz, &[0x121], &[0xFFF], &[0], false, 0, 0, 0, 0, 0, 0, 10, 1, 100,
    )
    .unwrap();
    assert_eq!(out, vec![0, 0, 0, 6]);
    // A budget below that score rejects the candidate.
    let out = scan_scored_box(
        &dx, &dy, &dz, &[0x121], &[0xFFF], &[0], false, 0, 0, 0, 0, 0, 0, 10, 1, 5,
    )
    .unwrap();
    assert_eq!(out, Vec::<i32>::new());
}

#[test]
fn scored_scan_uses_tolerant_distance_on_drip_axes() {
    // Same pattern as above but drip-flagged: the horizontal axes expect a
    // low-zone nibble (1) and predict 0, which is distance 0; only the y
    // axis contributes, 2 > tol so squared: score 4.
    let dx = vec![0];
    let dy = vec![0];
    let dz = vec![0];
    let out = scan_scored_box(
        &dx, &dy, &dz, &[0x121], &[0xFFF], &[1], false, 0, 0, 0, 0, 0, 0, 10, 1, 100,
    )
    .unwrap();
    assert_eq!(out, vec![0, 0, 0, 4]);
}

#[test]
fn scored_rejection_is_monotonic() {
    // The first entry alone costs 225 (distance 15, tol 0, squared); the
    // second entry constrains nothing and would add 0. The candidate is
    // dropped the moment the budget is exceeded — a later zero-cost entry
    // earns no credit back.
    let dx = vec![0, 0];
    let dy = vec![0, 0];
    let dz = vec![0, 0];
    let expected = vec![0x00Fu16, 0u16];
    let mask = vec![0x00Fu16, 0u16];
    let drip = vec![0u8, 0u8];
    let out = scan_scored_box(
        &dx, &dy, &dz, &expected, &mask, &drip, false, 0, 0, 0, 0, 0, 0, 10, 0, 224,
    )
    .unwrap();
    assert_eq!(out, Vec::<i32>::new());
    let out = scan_scored_box(
        &dx, &dy, &dz, &expected, &mask, &drip, false, 0, 0, 0, 0, 0, 0, 10, 0, 225,
    )
    .unwrap();
    assert_eq!(out, vec![0, 0, 0, 225]);
}

#[test]
fn scored_scan_with_no_constrained_axis_never_checks_budget() {
    // With every mask zero no penalty is ever accumulated and the budget is
    // never consulted, so even a negative max_score accepts with score 0.
    let (dx, dy, dz, expected, mask, drip) = always_match_entry();
    let out = scan_scored_box(
        &dx, &dy, &dz, &expected, &mask, &drip, false, 0, 0, 0, 0, 0, 0, 10, 0, -1,
    )
    .unwrap();
    assert_eq!(out, vec![0, 0, 0, 0]);
}

#[test]
fn scored_truncation_keeps_first_matches() {
    let (dx, dy, dz, expected, mask, drip) = always_match_entry();
    let out = scan_scored_box(
        &dx, &dy, &dz, &expected, &mask, &drip, false, 0, 4, 0, 0, 0, 0, 2, 0, 100,
    )
    .unwrap();
    assert_eq!(out, vec![0, 0, 0, 0, 1, 0, 0, 0]);
}

#[test]
fn mismatched_lengths_are_rejected() {
    let dx = vec![0, 1];
    let dy = vec![0];
    let dz = vec![0, 0];
    let expected = vec![0u16, 0u16];
    let mask = vec![0u16, 0u16];
    let drip = vec![0u8, 0u8];
    assert_eq!(
        scan_strict_box(&dx, &dy, &dz, &expected, &mask, &drip, false, 0, 1, 0, 1, 0, 1, 10),
        Err(ScanError::ArrayLengthMismatch),
    );
    assert_eq!(
        scan_scored_box(&dx, &dy, &dz, &expected, &mask, &drip, false, 0, 1, 0, 1, 0, 1, 10, 0, 10),
        Err(ScanError::ArrayLengthMismatch),
    );
}

#[test]
fn inverted_bounds_are_rejected() {
    let (dx, dy, dz, expected, mask, drip) = always_match_entry();
    assert_eq!(
        scan_strict_box(&dx, &dy, &dz, &expected, &mask, &drip, false, 1, 0, 0, 1, 0, 1, 10),
        Err(ScanError::InvalidBounds),
    );
    assert_eq!(
        scan_strict_box(&dx, &dy, &dz, &expected, &mask, &drip, false, 0, 1, 5, 4, 0, 1, 10),
        Err(ScanError::InvalidBounds),
    );
    assert_eq!(
        scan_scored_box(&dx, &dy, &dz, &expected, &mask, &drip, false, 0, 1, 0, 1, 2, -2, 10, 0, 10),
        Err(ScanError::InvalidBounds),
    );
}

#[test]
fn wrapping_offsets_reach_across_integer_boundary() {
    // An offset of 1 from x = i32::MAX wraps to i32::MIN, exactly as the
    // hash's coordinate arithmetic does.
    let dx = vec![1];
    let dy = vec![0];
    let dz = vec![0];
    let out = scan_strict_box(
        &dx, &dy, &dz, &[0], &[0], &[0], false, 2147483647, 2147483647, 0, 0, 0, 0, 10,
    )
    .unwrap();
    assert_eq!(out, vec![2147483647, 0, 0]);
}
