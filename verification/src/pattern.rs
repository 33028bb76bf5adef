//! The constraint model: what it means for one candidate origin to match a
//! pattern, strictly or by score.
//!
//! A pattern is six parallel, equal-length sequences; entry `i` holds a
//! relative offset `(dx, dy, dz)`, an expected 12-bit signature, a 12-bit
//! mask, and a flag selecting tolerant ("drip") nibble semantics on the
//! horizontal axes.

use crate::nibble::{
    lemma_distance_nonneg,
    spec_abs_diff,
    spec_axis_nibble,
    spec_dripstone_nibble_distance,
    spec_dripstone_nibble_matches,
};
use crate::signature::spec_signature;
use vstd::prelude::*;

verus! {

/// The mathematical view of the six parallel constraint sequences.
pub struct Constraints {
    pub dx: Seq<i32>,
    pub dy: Seq<i32>,
    pub dz: Seq<i32>,
    pub expected: Seq<u16>,
    pub mask: Seq<u16>,
    pub drip: Seq<u8>,
}

impl Constraints {
    /// All six sequences share one length.
    pub open spec fn wf(self) -> bool {
        self.dy.len() == self.dx.len() && self.dz.len() == self.dx.len() && self.expected.len()
            == self.dx.len() && self.mask.len() == self.dx.len() && self.drip.len()
            == self.dx.len()
    }

    pub open spec fn len(self) -> nat {
        self.dx.len()
    }
}

/// Bundles the views of the six slices a caller hands in.
pub open spec fn spec_constraints(
    dx: Seq<i32>,
    dy: Seq<i32>,
    dz: Seq<i32>,
    expected: Seq<u16>,
    mask: Seq<u16>,
    drip: Seq<u8>,
) -> Constraints {
    Constraints { dx, dy, dz, expected, mask, drip }
}

/// The signature predicted at the offset position of entry `i` relative to
/// the candidate `c`. Offsets are added with 32-bit wraparound.
pub open spec fn spec_predicted(cs: Constraints, i: int, c: (i32, i32, i32), post1_12: bool) -> u16 {
    spec_signature(
        vstd::wrapping::i32_specs::wrapping_add(c.0, cs.dx[i]),
        vstd::wrapping::i32_specs::wrapping_add(c.1, cs.dy[i]),
        vstd::wrapping::i32_specs::wrapping_add(c.2, cs.dz[i]),
        post1_12,
    )
}

/// The tolerant entry rule: every axis whose mask nibble is nonzero must
/// match, exactly on axis 1 and by the three-zone rule on axes 0 and 2.
pub open spec fn spec_drip_entry_matches(expected: u16, mask: u16, predicted: u16) -> bool {
    &&& (spec_axis_nibble(mask, 0) != 0 ==> spec_dripstone_nibble_matches(
        spec_axis_nibble(expected, 0),
        spec_axis_nibble(predicted, 0),
    ))
    &&& (spec_axis_nibble(mask, 1) != 0 ==> spec_axis_nibble(predicted, 1) == spec_axis_nibble(
        expected,
        1,
    ))
    &&& (spec_axis_nibble(mask, 2) != 0 ==> spec_dripstone_nibble_matches(
        spec_axis_nibble(expected, 2),
        spec_axis_nibble(predicted, 2),
    ))
}

/// Whether entry `i` accepts the candidate `c`: one 12-bit masked equality
/// for an exact entry, the per-axis tolerant rule for a drip entry.
pub open spec fn spec_entry_matches(cs: Constraints, i: int, c: (i32, i32, i32), post1_12: bool) -> bool {
    let predicted = spec_predicted(cs, i, c, post1_12);
    if cs.drip[i] == 0 {
        (predicted & cs.mask[i]) == cs.expected[i]
    } else {
        spec_drip_entry_matches(cs.expected[i], cs.mask[i], predicted)
    }
}

/// A candidate matches strictly when every entry accepts it.
pub open spec fn spec_candidate_matches(cs: Constraints, c: (i32, i32, i32), post1_12: bool) -> bool {
    forall|i: int| 0 <= i < cs.len() ==> spec_entry_matches(cs, i, c, post1_12)
}

/// The per-axis distance used by the scored scanner: the tolerant distance on
/// drip-flagged horizontal axes, the plain absolute difference otherwise.
pub open spec fn spec_axis_distance(expected: u8, predicted: u8, drip: bool, axis: int) -> int {
    if drip && axis != 1 {
        spec_dripstone_nibble_distance(expected, predicted)
    } else {
        spec_abs_diff(expected, predicted)
    }
}

/// A distance within the tolerance contributes itself; beyond it, the penalty
/// grows quadratically.
pub open spec fn spec_penalty(d: int, tol: int) -> int {
    if d <= tol {
        d
    } else {
        d * d
    }
}

/// The score contribution of one axis of one entry: 0 where the mask nibble
/// is zero, otherwise the penalty of the axis distance.
pub open spec fn spec_axis_score(
    expected: u16,
    mask: u16,
    predicted: u16,
    drip: bool,
    tol: int,
    axis: int,
) -> int {
    if spec_axis_nibble(mask, axis) == 0 {
        0
    } else {
        spec_penalty(
            spec_axis_distance(
                spec_axis_nibble(expected, axis),
                spec_axis_nibble(predicted, axis),
                drip,
                axis,
            ),
            tol,
        )
    }
}

/// The score contribution of entry `i` for candidate `c`: the sum over its
/// three axes.
pub open spec fn spec_entry_score(
    cs: Constraints,
    i: int,
    c: (i32, i32, i32),
    post1_12: bool,
    tol: int,
) -> int {
    let predicted = spec_predicted(cs, i, c, post1_12);
    let drip = cs.drip[i] != 0;
    spec_axis_score(cs.expected[i], cs.mask[i], predicted, drip, tol, 0) + spec_axis_score(
        cs.expected[i],
        cs.mask[i],
        predicted,
        drip,
        tol,
        1,
    ) + spec_axis_score(cs.expected[i], cs.mask[i], predicted, drip, tol, 2)
}

/// The running score after the first `k` entries.
pub open spec fn spec_score_upto(
    cs: Constraints,
    c: (i32, i32, i32),
    post1_12: bool,
    tol: int,
    k: int,
) -> int
    decreases k,
{
    if k <= 0 {
        0
    } else {
        spec_score_upto(cs, c, post1_12, tol, k - 1) + spec_entry_score(cs, k - 1, c, post1_12, tol)
    }
}

/// The total score of a candidate over all entries.
pub open spec fn spec_candidate_score(
    cs: Constraints,
    c: (i32, i32, i32),
    post1_12: bool,
    tol: int,
) -> int {
    spec_score_upto(cs, c, post1_12, tol, cs.len() as int)
}

/// Whether an entry constrains any axis at all (any nonzero mask nibble).
pub open spec fn spec_entry_active(mask: u16) -> bool {
    spec_axis_nibble(mask, 0) != 0 || spec_axis_nibble(mask, 1) != 0 || spec_axis_nibble(mask, 2)
        != 0
}

/// Whether any of the first `k` entries constrains an axis.
pub open spec fn spec_has_active(cs: Constraints, k: int) -> bool {
    exists|i: int| 0 <= i < k && spec_entry_active(cs.mask[i])
}

/// The scored scanner accepts a candidate when its total score stays within
/// `max_score`. A pattern with no constrained axis never accumulates and
/// never checks, so it accepts every candidate (with score 0) even when
/// `max_score` is negative.
pub open spec fn spec_scored_accepts(
    cs: Constraints,
    c: (i32, i32, i32),
    post1_12: bool,
    tol: int,
    max_score: int,
) -> bool {
    !spec_has_active(cs, cs.len() as int) || spec_candidate_score(cs, c, post1_12, tol)
        <= max_score
}

/// Every axis score is non-negative.
pub proof fn lemma_axis_score_nonneg(
    expected: u16,
    mask: u16,
    predicted: u16,
    drip: bool,
    tol: int,
    axis: int,
)
    ensures
        spec_axis_score(expected, mask, predicted, drip, tol, axis) >= 0,
{
    broadcast use lemma_distance_nonneg;

    let d = spec_axis_distance(
        spec_axis_nibble(expected, axis),
        spec_axis_nibble(predicted, axis),
        drip,
        axis,
    );
    assert(d >= 0);
    assert(d > tol ==> d * d >= 0) by (nonlinear_arith);
}

/// Every entry score is non-negative.
pub proof fn lemma_entry_score_nonneg(
    cs: Constraints,
    i: int,
    c: (i32, i32, i32),
    post1_12: bool,
    tol: int,
)
    ensures
        spec_entry_score(cs, i, c, post1_12, tol) >= 0,
{
    let predicted = spec_predicted(cs, i, c, post1_12);
    let drip = cs.drip[i] != 0;
    lemma_axis_score_nonneg(cs.expected[i], cs.mask[i], predicted, drip, tol, 0);
    lemma_axis_score_nonneg(cs.expected[i], cs.mask[i], predicted, drip, tol, 1);
    lemma_axis_score_nonneg(cs.expected[i], cs.mask[i], predicted, drip, tol, 2);
}

/// The running score never decreases as more entries are evaluated.
pub proof fn lemma_score_upto_monotone(
    cs: Constraints,
    c: (i32, i32, i32),
    post1_12: bool,
    tol: int,
    j: int,
    k: int,
)
    requires
        0 <= j <= k,
    ensures
        spec_score_upto(cs, c, post1_12, tol, j) <= spec_score_upto(cs, c, post1_12, tol, k),
    decreases k - j,
{
    if j < k {
        lemma_score_upto_monotone(cs, c, post1_12, tol, j, k - 1);
        lemma_entry_score_nonneg(cs, k - 1, c, post1_12, tol);
    }
}

/// Monotonic rejection: once the running score of a candidate exceeds
/// `max_score` after some prefix of the entries, later entries cannot bring
/// it back — the candidate is rejected, provided the pattern constrains at
/// least one axis (otherwise no score is ever checked).
pub proof fn lemma_scored_running_rejection(
    cs: Constraints,
    c: (i32, i32, i32),
    post1_12: bool,
    tol: int,
    max_score: int,
    k: int,
)
    requires
        0 <= k <= cs.len(),
        spec_has_active(cs, cs.len() as int),
        spec_score_upto(cs, c, post1_12, tol, k) > max_score,
    ensures
        !spec_scored_accepts(cs, c, post1_12, tol, max_score),
{
    lemma_score_upto_monotone(cs, c, post1_12, tol, k, cs.len() as int);
}

} // verus!
