use grassfinder::nibble::{axis_nibble, dripstone_nibble_distance, dripstone_nibble_matches};

#[test]
fn axis_nibble_extracts_each_axis() {
    assert_eq!(axis_nibble(0xABC, 0), 0xC);
    assert_eq!(axis_nibble(0xABC, 1), 0xB);
    assert_eq!(axis_nibble(0xABC, 2), 0xA);
    assert_eq!(axis_nibble(0x0F0, 0), 0x0);
    assert_eq!(axis_nibble(0x0F0, 1), 0xF);
    assert_eq!(axis_nibble(0x0F0, 2), 0x0);
}

#[test]
fn low_expected_matches_low_zone() {
    for predicted in 0..=3u8 {
        assert!(dripstone_nibble_matches(2, predicted));
    }
    assert!(!dripstone_nibble_matches(2, 4));
}

#[test]
fn high_expected_matches_high_zone() {
    for predicted in 12..=15u8 {
        assert!(dripstone_nibble_matches(13, predicted));
    }
    assert!(!dripstone_nibble_matches(13, 11));
}

#[test]
fn mid_expected_matches_only_itself() {
    assert!(dripstone_nibble_matches(7, 7));
    for predicted in 0..=15u8 {
        if predicted != 7 {
            assert!(!dripstone_nibble_matches(7, predicted));
        }
    }
}

#[test]
fn tolerant_distance_cases() {
    assert_eq!(dripstone_nibble_distance(2, 5), 2);
    assert_eq!(dripstone_nibble_distance(13, 9), 3);
    assert_eq!(dripstone_nibble_distance(7, 9), 2);
    assert_eq!(dripstone_nibble_distance(2, 1), 0);
}

#[test]
fn tolerant_distance_zero_exactly_on_match() {
    for expected in 0..=15u8 {
        for predicted in 0..=15u8 {
            let matches = dripstone_nibble_matches(expected, predicted);
            let distance = dripstone_nibble_distance(expected, predicted);
            assert_eq!(distance == 0, matches);
            assert!(distance >= 0);
        }
    }
}
