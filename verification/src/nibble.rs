//! Nibble-level comparison rules.
//!
//! A 12-bit signature decomposes into three 4-bit nibbles, one per spatial
//! axis: axis 0 is bits 0..4 (x), axis 1 is bits 4..8 (y), axis 2 is
//! bits 8..12 (z). Tolerant ("drip") matching groups the nibble values of a
//! horizontal axis into three zones: low (0..=3), high (12..=15) and the
//! exact values in between. The y axis always compares exactly.

use vstd::prelude::*;

verus! {

/// The 4-bit slice of `v` for the given axis.
pub open spec fn spec_axis_nibble(v: u16, axis: int) -> u8 {
    if axis == 0 {
        (v & 0xF) as u8
    } else if axis == 1 {
        ((v >> 4u16) & 0xF) as u8
    } else {
        ((v >> 8u16) & 0xF) as u8
    }
}

/// Extracts the 4-bit nibble of `v` that belongs to the given axis.
pub fn axis_nibble(v: u16, axis: usize) -> (r: u8)
    requires
        axis < 3,
    ensures
        r == spec_axis_nibble(v, axis as int),
        r <= 0xF,
{
    let shifted: u16 = if axis == 0 {
        v
    } else if axis == 1 {
        v >> 4u16
    } else {
        v >> 8u16
    };
    let masked: u16 = shifted & 0xF;
    proof {
        assert((v & 0xF) <= 0xF && ((v >> 4u16) & 0xF) <= 0xF && ((v >> 8u16) & 0xF) <= 0xF)
            by (bit_vector);
    }
    masked as u8
}

/// The three-zone tolerant rule for a horizontal axis: a low expected nibble
/// (<= 3) accepts any low predicted nibble, a high expected nibble (>= 12)
/// accepts any high predicted nibble, and anything in between must be equal.
pub open spec fn spec_dripstone_nibble_matches(expected: u8, predicted: u8) -> bool {
    if expected <= 3 {
        predicted <= 3
    } else if expected >= 12 {
        predicted >= 12
    } else {
        predicted == expected
    }
}

/// Decides the three-zone tolerant rule for one pair of nibbles.
pub fn dripstone_nibble_matches(expected: u8, predicted: u8) -> (r: bool)
    ensures
        r == spec_dripstone_nibble_matches(expected, predicted),
{
    if expected <= 3 {
        predicted <= 3
    } else if expected >= 12 {
        predicted >= 12
    } else {
        predicted == expected
    }
}

/// The tolerant distance: 0 inside the matching zone, otherwise the distance
/// to the near edge of the zone (for low/high expected nibbles) or the plain
/// absolute difference (for an exact expected nibble).
pub open spec fn spec_dripstone_nibble_distance(expected: u8, predicted: u8) -> int {
    if expected <= 3 {
        if predicted <= 3 {
            0
        } else {
            predicted - 3
        }
    } else if expected >= 12 {
        if predicted >= 12 {
            0
        } else {
            12 - predicted
        }
    } else {
        spec_abs_diff(expected, predicted)
    }
}

/// The absolute difference of two nibble values.
pub open spec fn spec_abs_diff(a: u8, b: u8) -> int {
    if a >= b {
        a - b
    } else {
        b - a
    }
}

/// Both distance notions are non-negative.
pub broadcast proof fn lemma_distance_nonneg(expected: u8, predicted: u8)
    ensures
        #[trigger] spec_dripstone_nibble_distance(expected, predicted) >= 0,
        #[trigger] spec_abs_diff(expected, predicted) >= 0,
{
}

/// Computes the tolerant distance between an expected and a predicted nibble.
pub fn dripstone_nibble_distance(expected: u8, predicted: u8) -> (r: i32)
    ensures
        r == spec_dripstone_nibble_distance(expected, predicted),
{
    if expected <= 3 {
        if predicted <= 3 {
            0
        } else {
            (predicted - 3) as i32
        }
    } else if expected >= 12 {
        if predicted >= 12 {
            0
        } else {
            (12 - predicted) as i32
        }
    } else {
        if predicted >= expected {
            (predicted - expected) as i32
        } else {
            (expected - predicted) as i32
        }
    }
}

} // verus!
