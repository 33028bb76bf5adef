use grassfinder::signature::packed_offset_12bit;

#[test]
fn signature_zero_origin() {
    assert_eq!(packed_offset_12bit(0, 0, 0, false), 0);
}

#[test]
fn signature_known_vectors() {
    assert_eq!(packed_offset_12bit(1, 64, -1, false), 656);
    assert_eq!(packed_offset_12bit(-100000, 7, 99999, false), 2703);
    assert_eq!(packed_offset_12bit(123, 456, 789, false), 3992);
    assert_eq!(packed_offset_12bit(0, 1, 0, false), 645);
}

#[test]
fn signature_extreme_coordinates() {
    assert_eq!(packed_offset_12bit(2147483647, -2147483648, -1, false), 1461);
}

#[test]
fn signature_deterministic() {
    for &(x, y, z, mode) in &[
        (0i32, 0i32, 0i32, false),
        (1, 64, -1, false),
        (123, 456, 789, true),
        (-5, 17, 2000000, false),
    ] {
        let first = packed_offset_12bit(x, y, z, mode);
        let second = packed_offset_12bit(x, y, z, mode);
        assert_eq!(first, second);
    }
}

#[test]
fn signature_y_invariant_mode_ignores_y() {
    let reference = packed_offset_12bit(1, 0, -1, true);
    assert_eq!(reference, 537);
    for y in [-1000, -1, 0, 1, 64, 12345] {
        assert_eq!(packed_offset_12bit(1, y, -1, true), reference);
    }
    assert_eq!(packed_offset_12bit(5, 5, 5, true), 1890);
    assert_eq!(packed_offset_12bit(123, 999, 789, true), 3993);
    // In y-invariant mode the hash behaves as if y were 0.
    assert_eq!(packed_offset_12bit(123, 0, 789, false), 3993);
}

#[test]
fn signature_fits_in_12_bits() {
    for x in -20..20 {
        for z in -20..20 {
            assert!(packed_offset_12bit(x, 7, z, false) < 0x1000);
        }
    }
}
