//! The positional hash: a deterministic 12-bit code computed from an integer
//! coordinate triple with a fixed 64-bit mixing formula.
//!
//! The arithmetic is deliberately mixed-precision: the x term is multiplied
//! with 32-bit wraparound and then sign-extended, while the z term is
//! multiplied with full 64-bit wraparound. That asymmetry is part of the
//! hash being reproduced and must be kept bit-exact.

use vstd::prelude::*;

verus! {

/// The 64-bit mixed value before the final shift/mask, as a function of the
/// coordinates and the y-invariant mode flag.
pub open spec fn spec_mix(x: i32, y: i32, z: i32, post1_12: bool) -> i64 {
    let yy: i32 = if post1_12 { 0 } else { y };
    let x_term: i64 = vstd::wrapping::i32_specs::wrapping_mul(x, 3_129_871) as i64;
    let z_term: i64 = vstd::wrapping::i64_specs::wrapping_mul(z as i64, 116_129_781i64);
    let l: i64 = x_term ^ z_term ^ (yy as i64);
    vstd::wrapping::i64_specs::wrapping_add(
        vstd::wrapping::i64_specs::wrapping_mul(
            vstd::wrapping::i64_specs::wrapping_mul(l, l),
            42_317_861i64,
        ),
        vstd::wrapping::i64_specs::wrapping_mul(l, 11i64),
    )
}

/// The 12-bit signature: bits 16..28 of the mixed value.
///
/// Taking bits through an arithmetic right shift followed by `& 0xFFF` picks
/// the same 12 bits as the unsigned (logical) shift would, since the mask
/// discards every bit the two shifts disagree on.
pub open spec fn spec_signature(x: i32, y: i32, z: i32, post1_12: bool) -> u16 {
    (((spec_mix(x, y, z, post1_12) >> 16u64) & 0xFFFi64) as u16)
}

/// Computes the 12-bit positional signature of the coordinate `(x, y, z)`.
/// With `post1_12` set, the y coordinate is ignored (treated as 0).
pub fn packed_offset_12bit(x: i32, y: i32, z: i32, post1_12: bool) -> (r: u16)
    ensures
        r == spec_signature(x, y, z, post1_12),
        r < 0x1000,
{
    let yy: i32 = if post1_12 {
        0
    } else {
        y
    };
    let x_term: i64 = x.wrapping_mul(3_129_871) as i64;
    let z_term: i64 = (z as i64).wrapping_mul(116_129_781i64);
    let l: i64 = x_term ^ z_term ^ (yy as i64);
    let mixed: i64 = l.wrapping_mul(l).wrapping_mul(42_317_861i64).wrapping_add(
        l.wrapping_mul(11i64),
    );
    let low: i64 = (mixed >> 16u64) & 0xFFFi64;
    proof {
        assert(0 <= ((mixed >> 16u64) & 0xFFFi64) < 0x1000) by (bit_vector);
    }
    low as u16
}

/// Determinism: the signature is a function of its arguments alone, so any
/// two results obtained for the same input are equal.
pub proof fn lemma_signature_deterministic(
    x: i32,
    y: i32,
    z: i32,
    post1_12: bool,
    r1: u16,
    r2: u16,
)
    requires
        r1 == spec_signature(x, y, z, post1_12),
        r2 == spec_signature(x, y, z, post1_12),
    ensures
        r1 == r2,
{
}

/// y-invariance: with the mode flag set, the signature does not depend on y.
pub proof fn lemma_signature_y_invariant(x: i32, y1: i32, y2: i32, z: i32)
    ensures
        spec_signature(x, y1, z, true) == spec_signature(x, y2, z, true),
{
}

} // verus!
