//! The two box scanners: enumerate every candidate origin of an inclusive
//! box in canonical order (y outermost, then z, then x), evaluate the
//! constraint entries against each, and return the accepted candidates as a
//! flattened integer sequence, truncated at `max_matches`.

use crate::nibble::axis_nibble;
use crate::nibble::dripstone_nibble_distance;
use crate::nibble::dripstone_nibble_matches;
use crate::order::{
    lemma_cube_single,
    lemma_cube_split,
    lemma_plane_single,
    lemma_plane_split,
    lemma_row_split,
    lemma_take_one_more,
    spec_candidates,
    spec_cube,
    spec_plane,
    spec_row,
};
use crate::pattern::{
    lemma_axis_score_nonneg,
    lemma_scored_running_rejection,
    spec_axis_score,
    spec_candidate_matches,
    spec_candidate_score,
    spec_constraints,
    spec_entry_active,
    spec_entry_matches,
    spec_entry_score,
    spec_has_active,
    spec_predicted,
    spec_score_upto,
    spec_scored_accepts,
};
use crate::results::{
    flat3,
    flat4,
    lemma_flat3_push,
    lemma_flat4_push,
    lemma_scored_matches_add,
    lemma_scored_matches_push,
    lemma_strict_matches_add,
    lemma_strict_matches_push,
    lemma_take_all,
    lemma_take_of_add,
    scored_matches,
    spec_quad,
    spec_scored_result,
    spec_strict_result,
    strict_matches,
    ScanError,
};
use crate::signature::packed_offset_12bit;
use vstd::prelude::*;
use vstd::seq_lib::group_seq_properties;

verus! {

/// Splits the cube at a scan position: everything before the candidate at
/// `(y, z, x0 + k)` in scan order, and everything from it on.
proof fn lemma_box_decompose(
    y0: int,
    y_hi: int,
    z0: int,
    z1: int,
    x0: int,
    x1: int,
    y: i32,
    z: i32,
    k: int,
)
    requires
        y0 <= y as int <= y_hi,
        z0 <= z as int <= z1,
        x0 <= x1,
        0 <= k <= x1 - x0 + 1,
    ensures
        spec_cube(y0, y_hi, z0, z1, x0, x1) == ((spec_cube(y0, y - 1, z0, z1, x0, x1)
            + spec_plane(y, z0, z - 1, x0, x1)) + spec_row(y, z, x0, x1).take(k)) + (spec_row(
            y,
            z,
            x0,
            x1,
        ).skip(k) + (spec_plane(y, z + 1, z1, x0, x1) + spec_cube(y + 1, y_hi, z0, z1, x0, x1))),
{
    broadcast use group_seq_properties;

    let a1 = spec_cube(y0, y - 1, z0, z1, x0, x1);
    let p1 = spec_plane(y, z0, z - 1, x0, x1);
    let row = spec_row(y, z, x0, x1);
    let r1 = row.take(k);
    let r2 = row.skip(k);
    let p2 = spec_plane(y, z + 1, z1, x0, x1);
    let c2 = spec_cube(y + 1, y_hi, z0, z1, x0, x1);

    lemma_cube_split(y0, y - 1, y_hi, z0, z1, x0, x1);
    lemma_cube_split(y as int, y as int, y_hi, z0, z1, x0, x1);
    lemma_cube_single(y as int, z0, z1, x0, x1);
    assert(spec_cube(y0, y_hi, z0, z1, x0, x1) == a1 + (spec_plane(y, z0, z1, x0, x1) + c2));

    lemma_plane_split(y, z0, z - 1, z1, x0, x1);
    lemma_plane_split(y, z as int, z as int, z1, x0, x1);
    lemma_plane_single(y, z as int, x0, x1);
    assert(spec_plane(y, z0, z1, x0, x1) == p1 + (row + p2));

    lemma_row_split(y, z, x0, x1, k);
    assert(spec_cube(y0, y_hi, z0, z1, x0, x1) =~= ((a1 + p1) + r1) + (r2 + (p2 + c2)));
}

/// Evaluates every constraint entry against the candidate `(x, y, z)`,
/// stopping at the first mismatch.
fn candidate_matches(
    rel_dx: &[i32],
    rel_dy: &[i32],
    rel_dz: &[i32],
    rel_packed: &[u16],
    rel_mask: &[u16],
    rel_drip: &[u8],
    x: i32,
    y: i32,
    z: i32,
    post1_12_any_y: bool,
) -> (r: bool)
    requires
        spec_constraints(rel_dx@, rel_dy@, rel_dz@, rel_packed@, rel_mask@, rel_drip@).wf(),
    ensures
        r == spec_candidate_matches(
            spec_constraints(rel_dx@, rel_dy@, rel_dz@, rel_packed@, rel_mask@, rel_drip@),
            (x, y, z),
            post1_12_any_y,
        ),
{
    let ghost cs = spec_constraints(rel_dx@, rel_dy@, rel_dz@, rel_packed@, rel_mask@, rel_drip@);
    let ghost c = (x, y, z);
    let n = rel_dx.len();
    let mut i: usize = 0;
    #[verifier::loop_isolation(false)]
    while i < n
        invariant
            i <= n,
            forall|j: int| 0 <= j < i ==> spec_entry_matches(cs, j, c, post1_12_any_y),
        decreases n - i,
    {
        let ax = x.wrapping_add(rel_dx[i]);
        let ay = y.wrapping_add(rel_dy[i]);
        let az = z.wrapping_add(rel_dz[i]);
        let predicted = packed_offset_12bit(ax, ay, az, post1_12_any_y);
        let expected = rel_packed[i];
        let mask = rel_mask[i];
        proof {
            assert(predicted == spec_predicted(cs, i as int, c, post1_12_any_y));
        }
        let entry_ok: bool = if rel_drip[i] == 0 {
            (predicted & mask) == expected
        } else {
            (axis_nibble(mask, 0) == 0 || dripstone_nibble_matches(
                axis_nibble(expected, 0),
                axis_nibble(predicted, 0),
            )) && (axis_nibble(mask, 1) == 0 || axis_nibble(predicted, 1) == axis_nibble(
                expected,
                1,
            )) && (axis_nibble(mask, 2) == 0 || dripstone_nibble_matches(
                axis_nibble(expected, 2),
                axis_nibble(predicted, 2),
            ))
        };
        if !entry_ok {
            proof {
                assert(!spec_entry_matches(cs, i as int, c, post1_12_any_y));
            }
            return false;
        }
        i = i + 1;
    }
    true
}

/// Scans the box `[x0, x1] x [y0, y1] x [z0, z1]` for candidate origins
/// whose every constraint entry matches, strictly or tolerantly per its
/// flag.
///
/// Candidates are visited y-outermost, then z, then x; in y-invariant mode
/// (`post1_12_any_y`) only the plane at `y0` is visited. Accepted candidates
/// are appended in scan order as `[x, y, z, ...]` triples, and the scan
/// stops the moment `max_matches` of them have been collected, so the
/// result is always exactly the truncated prefix of the full ordered match
/// set.
#[verifier::rlimit(80)]
pub fn scan_strict_box(
    rel_dx: &[i32],
    rel_dy: &[i32],
    rel_dz: &[i32],
    rel_packed: &[u16],
    rel_mask: &[u16],
    rel_drip: &[u8],
    post1_12_any_y: bool,
    x0: i32,
    x1: i32,
    y0: i32,
    y1: i32,
    z0: i32,
    z1: i32,
    max_matches: u32,
) -> (r: Result<Vec<i32>, ScanError>)
    ensures
        ({
            let cs = spec_constraints(rel_dx@, rel_dy@, rel_dz@, rel_packed@, rel_mask@, rel_drip@);
            let ok_bounds = x0 <= x1 && y0 <= y1 && z0 <= z1;
            &&& (!cs.wf() ==> r == Err::<Vec<i32>, ScanError>(ScanError::ArrayLengthMismatch))
            &&& (cs.wf() && !ok_bounds ==> r == Err::<Vec<i32>, ScanError>(
                ScanError::InvalidBounds,
            ))
            &&& (cs.wf() && ok_bounds ==> (r matches Ok(out) && out@ == spec_strict_result(
                cs,
                post1_12_any_y,
                spec_candidates(x0, x1, y0, y1, z0, z1, post1_12_any_y),
                max_matches,
            )))
        }),
{
    let n = rel_dx.len();
    if rel_dy.len() != n || rel_dz.len() != n || rel_packed.len() != n || rel_mask.len() != n
        || rel_drip.len() != n {
        return Err(ScanError::ArrayLengthMismatch);
    }
    if x0 > x1 || y0 > y1 || z0 > z1 {
        return Err(ScanError::InvalidBounds);
    }
    let ghost cs = spec_constraints(rel_dx@, rel_dy@, rel_dz@, rel_packed@, rel_mask@, rel_drip@);
    let ghost all = spec_candidates(x0, x1, y0, y1, z0, z1, post1_12_any_y);
    let y_hi: i32 = if post1_12_any_y {
        y0
    } else {
        y1
    };
    proof {
        assert(all == spec_cube(y0 as int, y_hi as int, z0 as int, z1 as int, x0 as int, x1 as int));
    }

    let mut out: Vec<i32> = Vec::new();
    let mut count: u32 = 0;
    if max_matches == 0 {
        proof {
            let m = strict_matches(cs, post1_12_any_y, all);
            assert(out@ =~= flat3(m.take(0)));
        }
        return Ok(out);
    }

    let mut yc: i64 = y0 as i64;
    #[verifier::loop_isolation(false)]
    while yc <= y_hi as i64
        invariant
            y0 as i64 <= yc <= y_hi as i64 + 1,
            count < max_matches,
            out@.len() == 3 * count,
            ({
                let sm = strict_matches(
                    cs,
                    post1_12_any_y,
                    spec_cube(y0 as int, yc - 1, z0 as int, z1 as int, x0 as int, x1 as int),
                );
                out@ == flat3(sm) && count == sm.len()
            }),
        decreases y_hi - yc + 1,
    {
        let y: i32 = yc as i32;
        let ghost cube_done = spec_cube(
            y0 as int,
            yc - 1,
            z0 as int,
            z1 as int,
            x0 as int,
            x1 as int,
        );
        let mut zc: i64 = z0 as i64;
        #[verifier::loop_isolation(false)]
        while zc <= z1 as i64
            invariant
                z0 as i64 <= zc <= z1 as i64 + 1,
                count < max_matches,
                out@.len() == 3 * count,
                ({
                    let sm = strict_matches(
                        cs,
                        post1_12_any_y,
                        cube_done + spec_plane(y, z0 as int, zc - 1, x0 as int, x1 as int),
                    );
                    out@ == flat3(sm) && count == sm.len()
                }),
            decreases z1 - zc + 1,
        {
            let z: i32 = zc as i32;
            let ghost plane_done = cube_done + spec_plane(y, z0 as int, zc - 1, x0 as int, x1 as int);
            let ghost row = spec_row(y, z, x0 as int, x1 as int);
            let mut xc: i64 = x0 as i64;
            #[verifier::loop_isolation(false)]
            while xc <= x1 as i64
                invariant
                    x0 as i64 <= xc <= x1 as i64 + 1,
                    count < max_matches,
                    out@.len() == 3 * count,
                    ({
                        let sm = strict_matches(
                            cs,
                            post1_12_any_y,
                            plane_done + row.take(xc - x0),
                        );
                        out@ == flat3(sm) && count == sm.len()
                    }),
                decreases x1 - xc + 1,
            {
                let x: i32 = xc as i32;
                let ghost k = xc - x0;
                let ghost seen = plane_done + row.take(k);
                let matched = candidate_matches(
                    rel_dx,
                    rel_dy,
                    rel_dz,
                    rel_packed,
                    rel_mask,
                    rel_drip,
                    x,
                    y,
                    z,
                    post1_12_any_y,
                );
                proof {
                    broadcast use group_seq_properties;

                    assert(row[k] == (x, y, z));
                    lemma_take_one_more(row, k);
                    assert(plane_done + row.take(k + 1) == seen.push((x, y, z)));
                    lemma_strict_matches_push(cs, post1_12_any_y, seen, (x, y, z));
                }
                if matched {
                    out.push(x);
                    out.push(y);
                    out.push(z);
                    count = count + 1;
                    proof {
                        lemma_flat3_push(
                            strict_matches(cs, post1_12_any_y, seen),
                            (x, y, z),
                        );
                    }
                    if count >= max_matches {
                        proof {
                            lemma_box_decompose(
                                y0 as int,
                                y_hi as int,
                                z0 as int,
                                z1 as int,
                                x0 as int,
                                x1 as int,
                                y,
                                z,
                                k + 1,
                            );
                            let rest = row.skip(k + 1) + (spec_plane(
                                y,
                                zc + 1,
                                z1 as int,
                                x0 as int,
                                x1 as int,
                            ) + spec_cube(
                                yc + 1,
                                y_hi as int,
                                z0 as int,
                                z1 as int,
                                x0 as int,
                                x1 as int,
                            ));
                            let done = plane_done + row.take(k + 1);
                            assert(all == done + rest);
                            lemma_strict_matches_add(cs, post1_12_any_y, done, rest);
                            let md = strict_matches(cs, post1_12_any_y, done);
                            let mr = strict_matches(cs, post1_12_any_y, rest);
                            lemma_take_of_add(md, mr);
                        }
                        return Ok(out);
                    }
                }
                xc = xc + 1;
            }
            proof {
                broadcast use group_seq_properties;

                lemma_take_all(row);
                assert(plane_done + row.take(xc - x0) == cube_done + spec_plane(
                    y,
                    z0 as int,
                    zc as int,
                    x0 as int,
                    x1 as int,
                )) by {
                    assert(spec_plane(y, z0 as int, zc as int, x0 as int, x1 as int) == spec_plane(
                        y,
                        z0 as int,
                        zc - 1,
                        x0 as int,
                        x1 as int,
                    ) + row);
                    assert(plane_done + row =~= cube_done + (spec_plane(
                        y,
                        z0 as int,
                        zc - 1,
                        x0 as int,
                        x1 as int,
                    ) + row));
                };
            }
            zc = zc + 1;
        }
        proof {
            assert(cube_done + spec_plane(y, z0 as int, zc - 1, x0 as int, x1 as int) == spec_cube(
                y0 as int,
                yc as int,
                z0 as int,
                z1 as int,
                x0 as int,
                x1 as int,
            ));
        }
        yc = yc + 1;
    }
    proof {
        let m = strict_matches(cs, post1_12_any_y, all);
        lemma_take_all(m);
    }
    Ok(out)
}

/// The penalty one axis of one entry contributes to a candidate's score:
/// nothing where the mask nibble is zero, otherwise the axis distance, or
/// its square once it exceeds the tolerance.
fn axis_penalty(
    expected: u16,
    mask: u16,
    predicted: u16,
    drip: bool,
    tol: u8,
    axis: usize,
) -> (p: i64)
    requires
        axis < 3,
    ensures
        p == spec_axis_score(expected, mask, predicted, drip, tol as int, axis as int),
        0 <= p <= 225,
{
    let m = axis_nibble(mask, axis);
    if m == 0 {
        return 0;
    }
    let en = axis_nibble(expected, axis);
    let pn = axis_nibble(predicted, axis);
    let d: i32 = if drip && axis != 1 {
        dripstone_nibble_distance(en, pn)
    } else {
        if pn >= en {
            (pn - en) as i32
        } else {
            (en - pn) as i32
        }
    };
    assert(0 <= d <= 15);
    if d <= tol as i32 {
        d as i64
    } else {
        let dd: i64 = d as i64;
        proof {
            assert(0 <= dd * dd <= 225) by (nonlinear_arith)
                requires
                    0 <= dd <= 15,
            ;
        }
        dd * dd
    }
}

/// Accumulates the score of the candidate `(x, y, z)` over every constraint
/// entry and axis, rejecting the moment the running score exceeds
/// `max_score`.
fn candidate_score(
    rel_dx: &[i32],
    rel_dy: &[i32],
    rel_dz: &[i32],
    rel_packed: &[u16],
    rel_mask: &[u16],
    rel_drip: &[u8],
    x: i32,
    y: i32,
    z: i32,
    post1_12_any_y: bool,
    tol: u8,
    max_score: i32,
) -> (r: Option<i32>)
    requires
        spec_constraints(rel_dx@, rel_dy@, rel_dz@, rel_packed@, rel_mask@, rel_drip@).wf(),
    ensures
        ({
            let cs = spec_constraints(rel_dx@, rel_dy@, rel_dz@, rel_packed@, rel_mask@, rel_drip@);
            let c = (x, y, z);
            match r {
                Some(s) => spec_scored_accepts(cs, c, post1_12_any_y, tol as int, max_score as int)
                    && s == spec_candidate_score(cs, c, post1_12_any_y, tol as int),
                None => !spec_scored_accepts(cs, c, post1_12_any_y, tol as int, max_score as int),
            }
        }),
{
    let ghost cs = spec_constraints(rel_dx@, rel_dy@, rel_dz@, rel_packed@, rel_mask@, rel_drip@);
    let ghost c = (x, y, z);
    let ghost tol_i = tol as int;
    let n = rel_dx.len();
    let mut acc: i64 = 0;
    let mut i: usize = 0;
    #[verifier::loop_isolation(false)]
    while i < n
        invariant
            i <= n,
            acc == spec_score_upto(cs, c, post1_12_any_y, tol_i, i as int),
            0 <= acc <= 0x7FFF_FFFF,
            acc <= max_score as i64 || !spec_has_active(cs, i as int),
        decreases n - i,
    {
        let ax = x.wrapping_add(rel_dx[i]);
        let ay = y.wrapping_add(rel_dy[i]);
        let az = z.wrapping_add(rel_dz[i]);
        let predicted = packed_offset_12bit(ax, ay, az, post1_12_any_y);
        let expected = rel_packed[i];
        let mask = rel_mask[i];
        let drip = rel_drip[i] != 0;
        proof {
            assert(predicted == spec_predicted(cs, i as int, c, post1_12_any_y));
        }
        let ghost acc0 = acc;
        let ghost s0 = spec_axis_score(expected, mask, predicted, drip, tol_i, 0);
        let ghost s1 = spec_axis_score(expected, mask, predicted, drip, tol_i, 1);
        let ghost s2 = spec_axis_score(expected, mask, predicted, drip, tol_i, 2);

        let m0 = axis_nibble(mask, 0);
        let m1 = axis_nibble(mask, 1);
        let m2 = axis_nibble(mask, 2);

        if m0 != 0 {
            let p = axis_penalty(expected, mask, predicted, drip, tol, 0);
            acc = acc + p;
            if acc > max_score as i64 {
                proof {
                    lemma_axis_score_nonneg(expected, mask, predicted, drip, tol_i, 1);
                    lemma_axis_score_nonneg(expected, mask, predicted, drip, tol_i, 2);
                    assert(spec_score_upto(cs, c, post1_12_any_y, tol_i, i as int + 1) == acc0 + s0
                        + s1 + s2);
                    assert(spec_has_active(cs, rel_dx@.len() as int));
                    lemma_scored_running_rejection(
                        cs,
                        c,
                        post1_12_any_y,
                        tol_i,
                        max_score as int,
                        i as int + 1,
                    );
                }
                return None;
            }
        }
        if m1 != 0 {
            let p = axis_penalty(expected, mask, predicted, drip, tol, 1);
            acc = acc + p;
            if acc > max_score as i64 {
                proof {
                    assert(m0 == 0 ==> s0 == 0);
                    lemma_axis_score_nonneg(expected, mask, predicted, drip, tol_i, 2);
                    assert(spec_score_upto(cs, c, post1_12_any_y, tol_i, i as int + 1) == acc0 + s0
                        + s1 + s2);
                    assert(spec_has_active(cs, rel_dx@.len() as int));
                    lemma_scored_running_rejection(
                        cs,
                        c,
                        post1_12_any_y,
                        tol_i,
                        max_score as int,
                        i as int + 1,
                    );
                }
                return None;
            }
        }
        if m2 != 0 {
            let p = axis_penalty(expected, mask, predicted, drip, tol, 2);
            acc = acc + p;
            if acc > max_score as i64 {
                proof {
                    assert(m0 == 0 ==> s0 == 0);
                    assert(m1 == 0 ==> s1 == 0);
                    assert(spec_score_upto(cs, c, post1_12_any_y, tol_i, i as int + 1) == acc0 + s0
                        + s1 + s2);
                    assert(spec_has_active(cs, rel_dx@.len() as int));
                    lemma_scored_running_rejection(
                        cs,
                        c,
                        post1_12_any_y,
                        tol_i,
                        max_score as int,
                        i as int + 1,
                    );
                }
                return None;
            }
        }
        proof {
            assert(m0 == 0 ==> s0 == 0);
            assert(m1 == 0 ==> s1 == 0);
            assert(m2 == 0 ==> s2 == 0);
            assert(acc == acc0 + spec_entry_score(cs, i as int, c, post1_12_any_y, tol_i));
            if m0 != 0 || m1 != 0 || m2 != 0 {
                assert(spec_entry_active(cs.mask[i as int]));
                assert(acc <= max_score as i64);
            } else {
                assert(!spec_entry_active(cs.mask[i as int]));
                if !(acc <= max_score as i64) {
                    assert(!spec_has_active(cs, i as int));
                    assert forall|j: int| 0 <= j < i as int + 1 implies !spec_entry_active(
                        cs.mask[j],
                    ) by {
                        if j < i as int {
                            assert(!spec_has_active(cs, i as int));
                        }
                    };
                    assert(!spec_has_active(cs, i as int + 1));
                }
            }
        }
        i = i + 1;
    }
    proof {
        assert(spec_scored_accepts(cs, c, post1_12_any_y, tol_i, max_score as int));
    }
    Some(acc as i32)
}

/// Scans the box like `scan_strict_box`, but scores each candidate instead
/// of accepting or rejecting it outright: every constrained axis of every
/// entry contributes its distance (or its square, beyond the tolerance
/// `tol`), a candidate whose running score ever exceeds `max_score` is
/// dropped, and an accepted candidate is emitted as `[x, y, z, score]`.
#[verifier::rlimit(80)]
pub fn scan_scored_box(
    rel_dx: &[i32],
    rel_dy: &[i32],
    rel_dz: &[i32],
    rel_packed: &[u16],
    rel_mask: &[u16],
    rel_drip: &[u8],
    post1_12_any_y: bool,
    x0: i32,
    x1: i32,
    y0: i32,
    y1: i32,
    z0: i32,
    z1: i32,
    max_matches: u32,
    tol: u8,
    max_score: i32,
) -> (r: Result<Vec<i32>, ScanError>)
    ensures
        ({
            let cs = spec_constraints(rel_dx@, rel_dy@, rel_dz@, rel_packed@, rel_mask@, rel_drip@);
            let ok_bounds = x0 <= x1 && y0 <= y1 && z0 <= z1;
            &&& (!cs.wf() ==> r == Err::<Vec<i32>, ScanError>(ScanError::ArrayLengthMismatch))
            &&& (cs.wf() && !ok_bounds ==> r == Err::<Vec<i32>, ScanError>(
                ScanError::InvalidBounds,
            ))
            &&& (cs.wf() && ok_bounds ==> (r matches Ok(out) && out@ == spec_scored_result(
                cs,
                post1_12_any_y,
                tol as int,
                max_score as int,
                spec_candidates(x0, x1, y0, y1, z0, z1, post1_12_any_y),
                max_matches,
            )))
        }),
{
    let n = rel_dx.len();
    if rel_dy.len() != n || rel_dz.len() != n || rel_packed.len() != n || rel_mask.len() != n
        || rel_drip.len() != n {
        return Err(ScanError::ArrayLengthMismatch);
    }
    if x0 > x1 || y0 > y1 || z0 > z1 {
        return Err(ScanError::InvalidBounds);
    }
    let ghost cs = spec_constraints(rel_dx@, rel_dy@, rel_dz@, rel_packed@, rel_mask@, rel_drip@);
    let ghost all = spec_candidates(x0, x1, y0, y1, z0, z1, post1_12_any_y);
    let ghost tol_i = tol as int;
    let ghost ms = max_score as int;
    let y_hi: i32 = if post1_12_any_y {
        y0
    } else {
        y1
    };
    proof {
        assert(all == spec_cube(y0 as int, y_hi as int, z0 as int, z1 as int, x0 as int, x1 as int));
    }

    let mut out: Vec<i32> = Vec::new();
    let mut count: u32 = 0;
    if max_matches == 0 {
        proof {
            let m = scored_matches(cs, post1_12_any_y, tol_i, ms, all);
            assert(out@ =~= flat4(m.take(0)));
        }
        return Ok(out);
    }

    let mut yc: i64 = y0 as i64;
    #[verifier::loop_isolation(false)]
    while yc <= y_hi as i64
        invariant
            y0 as i64 <= yc <= y_hi as i64 + 1,
            count < max_matches,
            out@.len() == 4 * count,
            ({
                let sm = scored_matches(
                    cs,
                    post1_12_any_y,
                    tol_i,
                    ms,
                    spec_cube(y0 as int, yc - 1, z0 as int, z1 as int, x0 as int, x1 as int),
                );
                out@ == flat4(sm) && count == sm.len()
            }),
        decreases y_hi - yc + 1,
    {
        let y: i32 = yc as i32;
        let ghost cube_done = spec_cube(
            y0 as int,
            yc - 1,
            z0 as int,
            z1 as int,
            x0 as int,
            x1 as int,
        );
        let mut zc: i64 = z0 as i64;
        #[verifier::loop_isolation(false)]
        while zc <= z1 as i64
            invariant
                z0 as i64 <= zc <= z1 as i64 + 1,
                count < max_matches,
                out@.len() == 4 * count,
                ({
                    let sm = scored_matches(
                        cs,
                        post1_12_any_y,
                        tol_i,
                        ms,
                        cube_done + spec_plane(y, z0 as int, zc - 1, x0 as int, x1 as int),
                    );
                    out@ == flat4(sm) && count == sm.len()
                }),
            decreases z1 - zc + 1,
        {
            let z: i32 = zc as i32;
            let ghost plane_done = cube_done + spec_plane(y, z0 as int, zc - 1, x0 as int, x1 as int);
            let ghost row = spec_row(y, z, x0 as int, x1 as int);
            let mut xc: i64 = x0 as i64;
            #[verifier::loop_isolation(false)]
            while xc <= x1 as i64
                invariant
                    x0 as i64 <= xc <= x1 as i64 + 1,
                    count < max_matches,
                    out@.len() == 4 * count,
                    ({
                        let sm = scored_matches(
                            cs,
                            post1_12_any_y,
                            tol_i,
                            ms,
                            plane_done + row.take(xc - x0),
                        );
                        out@ == flat4(sm) && count == sm.len()
                    }),
                decreases x1 - xc + 1,
            {
                let x: i32 = xc as i32;
                let ghost k = xc - x0;
                let ghost seen = plane_done + row.take(k);
                let scored = candidate_score(
                    rel_dx,
                    rel_dy,
                    rel_dz,
                    rel_packed,
                    rel_mask,
                    rel_drip,
                    x,
                    y,
                    z,
                    post1_12_any_y,
                    tol,
                    max_score,
                );
                proof {
                    broadcast use group_seq_properties;

                    assert(row[k] == (x, y, z));
                    lemma_take_one_more(row, k);
                    assert(plane_done + row.take(k + 1) == seen.push((x, y, z)));
                    lemma_scored_matches_push(cs, post1_12_any_y, tol_i, ms, seen, (x, y, z));
                }
                if let Some(score) = scored {
                    out.push(x);
                    out.push(y);
                    out.push(z);
                    out.push(score);
                    count = count + 1;
                    proof {
                        assert(spec_quad(cs, (x, y, z), post1_12_any_y, tol_i) == (x, y, z, score));
                        lemma_flat4_push(
                            scored_matches(cs, post1_12_any_y, tol_i, ms, seen),
                            (x, y, z, score),
                        );
                    }
                    if count >= max_matches {
                        proof {
                            lemma_box_decompose(
                                y0 as int,
                                y_hi as int,
                                z0 as int,
                                z1 as int,
                                x0 as int,
                                x1 as int,
                                y,
                                z,
                                k + 1,
                            );
                            let rest = row.skip(k + 1) + (spec_plane(
                                y,
                                zc + 1,
                                z1 as int,
                                x0 as int,
                                x1 as int,
                            ) + spec_cube(
                                yc + 1,
                                y_hi as int,
                                z0 as int,
                                z1 as int,
                                x0 as int,
                                x1 as int,
                            ));
                            let done = plane_done + row.take(k + 1);
                            assert(all == done + rest);
                            lemma_scored_matches_add(cs, post1_12_any_y, tol_i, ms, done, rest);
                            let md = scored_matches(cs, post1_12_any_y, tol_i, ms, done);
                            let mr = scored_matches(cs, post1_12_any_y, tol_i, ms, rest);
                            lemma_take_of_add(md, mr);
                        }
                        return Ok(out);
                    }
                }
                xc = xc + 1;
            }
            proof {
                broadcast use group_seq_properties;

                lemma_take_all(row);
                assert(plane_done + row.take(xc - x0) == cube_done + spec_plane(
                    y,
                    z0 as int,
                    zc as int,
                    x0 as int,
                    x1 as int,
                )) by {
                    assert(spec_plane(y, z0 as int, zc as int, x0 as int, x1 as int) == spec_plane(
                        y,
                        z0 as int,
                        zc - 1,
                        x0 as int,
                        x1 as int,
                    ) + row);
                    assert(plane_done + row =~= cube_done + (spec_plane(
                        y,
                        z0 as int,
                        zc - 1,
                        x0 as int,
                        x1 as int,
                    ) + row));
                };
            }
            zc = zc + 1;
        }
        proof {
            assert(cube_done + spec_plane(y, z0 as int, zc - 1, x0 as int, x1 as int) == spec_cube(
                y0 as int,
                yc as int,
                z0 as int,
                z1 as int,
                x0 as int,
                x1 as int,
            ));
        }
        yc = yc + 1;
    }
    proof {
        let m = scored_matches(cs, post1_12_any_y, tol_i, ms, all);
        lemma_take_all(m);
    }
    Ok(out)
}

} // verus!
