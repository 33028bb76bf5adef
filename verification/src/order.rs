//! Scan-order geometry: the canonical sequence of candidate origins of an
//! inclusive box, enumerated y-outermost, then z, then x innermost.
//!
//! The sequence is built as nested concatenations — a row of x values, a
//! plane of rows, a cube of planes — each defined by peeling the last piece,
//! so a scanning loop extends the processed prefix one definitional step at
//! a time. The split lemmas cut a cube or plane at an arbitrary position,
//! which is what an early exit in the middle of the box needs.

use vstd::prelude::*;
use vstd::seq_lib::group_seq_properties;

verus! {

/// One row of candidates: x from `x0` to `x1` at fixed `y`, `z`.
pub open spec fn spec_row(y: i32, z: i32, x0: int, x1: int) -> Seq<(i32, i32, i32)> {
    Seq::new(
        if x1 >= x0 {
            (x1 - x0 + 1) as nat
        } else {
            0
        },
        |i: int| (((x0 + i) as i32), y, z),
    )
}

/// One plane of candidates: the rows for z from `z0` to `z1` at fixed `y`,
/// in order.
pub open spec fn spec_plane(y: i32, z0: int, z1: int, x0: int, x1: int) -> Seq<(i32, i32, i32)>
    decreases z1 - z0 + 1,
{
    if z1 < z0 {
        Seq::empty()
    } else {
        spec_plane(y, z0, z1 - 1, x0, x1) + spec_row(y, z1 as i32, x0, x1)
    }
}

/// The whole cube: the planes for y from `y0` to `y1`, in order.
pub open spec fn spec_cube(y0: int, y1: int, z0: int, z1: int, x0: int, x1: int) -> Seq<
    (i32, i32, i32),
>
    decreases y1 - y0 + 1,
{
    if y1 < y0 {
        Seq::empty()
    } else {
        spec_cube(y0, y1 - 1, z0, z1, x0, x1) + spec_plane(y1 as i32, z0, z1, x0, x1)
    }
}

/// The candidates a scan call enumerates: the full cube normally, and the
/// single plane at `y0` in y-invariant mode.
pub open spec fn spec_candidates(
    x0: i32,
    x1: i32,
    y0: i32,
    y1: i32,
    z0: i32,
    z1: i32,
    post1_12_any_y: bool,
) -> Seq<(i32, i32, i32)> {
    if post1_12_any_y {
        spec_cube(y0 as int, y0 as int, z0 as int, z1 as int, x0 as int, x1 as int)
    } else {
        spec_cube(y0 as int, y1 as int, z0 as int, z1 as int, x0 as int, x1 as int)
    }
}

/// A plane splits at any interior position `zm`.
pub proof fn lemma_plane_split(y: i32, z0: int, zm: int, z1: int, x0: int, x1: int)
    requires
        z0 - 1 <= zm <= z1,
    ensures
        spec_plane(y, z0, z1, x0, x1) == spec_plane(y, z0, zm, x0, x1) + spec_plane(
            y,
            zm + 1,
            z1,
            x0,
            x1,
        ),
    decreases z1 - zm,
{
    broadcast use group_seq_properties;

    if zm == z1 {
        assert(spec_plane(y, z0, z1, x0, x1) == spec_plane(y, z0, zm, x0, x1) + spec_plane(
            y,
            zm + 1,
            z1,
            x0,
            x1,
        ));
    } else {
        lemma_plane_split(y, z0, zm, z1 - 1, x0, x1);
        assert((spec_plane(y, z0, zm, x0, x1) + spec_plane(y, zm + 1, z1 - 1, x0, x1)) + spec_row(
            y,
            z1 as i32,
            x0,
            x1,
        ) == spec_plane(y, z0, zm, x0, x1) + (spec_plane(y, zm + 1, z1 - 1, x0, x1) + spec_row(
            y,
            z1 as i32,
            x0,
            x1,
        )));
    }
}

/// A cube splits at any interior position `ym`.
pub proof fn lemma_cube_split(y0: int, ym: int, y1: int, z0: int, z1: int, x0: int, x1: int)
    requires
        y0 - 1 <= ym <= y1,
    ensures
        spec_cube(y0, y1, z0, z1, x0, x1) == spec_cube(y0, ym, z0, z1, x0, x1) + spec_cube(
            ym + 1,
            y1,
            z0,
            z1,
            x0,
            x1,
        ),
    decreases y1 - ym,
{
    broadcast use group_seq_properties;

    if ym == y1 {
        assert(spec_cube(y0, y1, z0, z1, x0, x1) == spec_cube(y0, ym, z0, z1, x0, x1) + spec_cube(
            ym + 1,
            y1,
            z0,
            z1,
            x0,
            x1,
        ));
    } else {
        lemma_cube_split(y0, ym, y1 - 1, z0, z1, x0, x1);
        assert((spec_cube(y0, ym, z0, z1, x0, x1) + spec_cube(ym + 1, y1 - 1, z0, z1, x0, x1))
            + spec_plane(y1 as i32, z0, z1, x0, x1) == spec_cube(y0, ym, z0, z1, x0, x1) + (
        spec_cube(ym + 1, y1 - 1, z0, z1, x0, x1) + spec_plane(y1 as i32, z0, z1, x0, x1)));
    }
}

/// A one-plane cube is that plane.
pub proof fn lemma_cube_single(y: int, z0: int, z1: int, x0: int, x1: int)
    ensures
        spec_cube(y, y, z0, z1, x0, x1) == spec_plane(y as i32, z0, z1, x0, x1),
{
    broadcast use group_seq_properties;

    assert(spec_cube(y, y - 1, z0, z1, x0, x1) == Seq::<(i32, i32, i32)>::empty());
}

/// A one-row plane is that row.
pub proof fn lemma_plane_single(y: i32, z: int, x0: int, x1: int)
    ensures
        spec_plane(y, z, z, x0, x1) == spec_row(y, z as i32, x0, x1),
{
    broadcast use group_seq_properties;

    assert(spec_plane(y, z, z - 1, x0, x1) == Seq::<(i32, i32, i32)>::empty());
}

/// A row splits into a taken prefix and the rest.
pub proof fn lemma_row_split(y: i32, z: i32, x0: int, x1: int, k: int)
    requires
        0 <= k <= spec_row(y, z, x0, x1).len(),
    ensures
        spec_row(y, z, x0, x1) == spec_row(y, z, x0, x1).take(k) + spec_row(y, z, x0, x1).skip(k),
{
    assert(spec_row(y, z, x0, x1) =~= spec_row(y, z, x0, x1).take(k) + spec_row(
        y,
        z,
        x0,
        x1,
    ).skip(k));
}

/// Taking one more element of a sequence appends exactly that element.
pub proof fn lemma_take_one_more<A>(s: Seq<A>, k: int)
    requires
        0 <= k < s.len(),
    ensures
        s.take(k + 1) == s.take(k).push(s[k]),
{
    assert(s.take(k + 1) =~= s.take(k).push(s[k]));
}

} // verus!
