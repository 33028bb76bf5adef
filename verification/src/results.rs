//! What a scan returns: the matched candidates of a candidate sequence, in
//! order, truncated at `max_matches`, and flattened to plain integers.

use crate::pattern::{
    spec_candidate_matches,
    spec_candidate_score,
    spec_scored_accepts,
    Constraints,
};
use vstd::prelude::*;
use vstd::seq_lib::group_seq_properties;

verus! {

/// The two validation failures; both are detected before any scanning.
#[derive(Clone, Copy, PartialEq, Eq, Structural, Debug)]
pub enum ScanError {
    /// The six constraint sequences do not share a common length.
    ArrayLengthMismatch,
    /// Some axis of the box has min > max.
    InvalidBounds,
}

/// The subsequence of `s` whose candidates match every constraint entry.
pub open spec fn strict_matches(cs: Constraints, post1_12: bool, s: Seq<(i32, i32, i32)>) -> Seq<
    (i32, i32, i32),
>
    decreases s.len(),
{
    if s.len() == 0 {
        Seq::empty()
    } else {
        let rest = strict_matches(cs, post1_12, s.drop_last());
        if spec_candidate_matches(cs, s.last(), post1_12) {
            rest.push(s.last())
        } else {
            rest
        }
    }
}

/// A scored result: the candidate and its total score.
pub open spec fn spec_quad(cs: Constraints, c: (i32, i32, i32), post1_12: bool, tol: int) -> (
    i32,
    i32,
    i32,
    i32,
) {
    (c.0, c.1, c.2, spec_candidate_score(cs, c, post1_12, tol) as i32)
}

/// The scored results of the candidates of `s` that stay within `max_score`.
pub open spec fn scored_matches(
    cs: Constraints,
    post1_12: bool,
    tol: int,
    max_score: int,
    s: Seq<(i32, i32, i32)>,
) -> Seq<(i32, i32, i32, i32)>
    decreases s.len(),
{
    if s.len() == 0 {
        Seq::empty()
    } else {
        let rest = scored_matches(cs, post1_12, tol, max_score, s.drop_last());
        if spec_scored_accepts(cs, s.last(), post1_12, tol, max_score) {
            rest.push(spec_quad(cs, s.last(), post1_12, tol))
        } else {
            rest
        }
    }
}

/// Flattens coordinate triples to `[x, y, z, x, y, z, ...]`.
pub open spec fn flat3(s: Seq<(i32, i32, i32)>) -> Seq<i32>
    decreases s.len(),
{
    if s.len() == 0 {
        Seq::empty()
    } else {
        flat3(s.drop_last()) + seq![s.last().0, s.last().1, s.last().2]
    }
}

/// Flattens scored quadruples to `[x, y, z, score, ...]`.
pub open spec fn flat4(s: Seq<(i32, i32, i32, i32)>) -> Seq<i32>
    decreases s.len(),
{
    if s.len() == 0 {
        Seq::empty()
    } else {
        flat4(s.drop_last()) + seq![s.last().0, s.last().1, s.last().2, s.last().3]
    }
}

/// How many results a scan may emit: `max_matches`, or fewer if the box does
/// not yield that many.
pub open spec fn spec_limit(max_matches: u32, available: int) -> int {
    if max_matches as int <= available {
        max_matches as int
    } else {
        available
    }
}

/// Everything `scan_strict_box` promises about its output on valid input:
/// the flattened prefix, truncated at `max_matches`, of the strictly matched
/// candidates of `s` in scan order.
pub open spec fn spec_strict_result(
    cs: Constraints,
    post1_12: bool,
    s: Seq<(i32, i32, i32)>,
    max_matches: u32,
) -> Seq<i32> {
    let m = strict_matches(cs, post1_12, s);
    flat3(m.take(spec_limit(max_matches, m.len() as int)))
}

/// Everything `scan_scored_box` promises about its output on valid input.
pub open spec fn spec_scored_result(
    cs: Constraints,
    post1_12: bool,
    tol: int,
    max_score: int,
    s: Seq<(i32, i32, i32)>,
    max_matches: u32,
) -> Seq<i32> {
    let m = scored_matches(cs, post1_12, tol, max_score, s);
    flat4(m.take(spec_limit(max_matches, m.len() as int)))
}

/// Appending a candidate extends the strict matches by that candidate
/// exactly when it matches.
pub proof fn lemma_strict_matches_push(
    cs: Constraints,
    post1_12: bool,
    s: Seq<(i32, i32, i32)>,
    c: (i32, i32, i32),
)
    ensures
        strict_matches(cs, post1_12, s.push(c)) == if spec_candidate_matches(cs, c, post1_12) {
            strict_matches(cs, post1_12, s).push(c)
        } else {
            strict_matches(cs, post1_12, s)
        },
{
    assert(s.push(c).drop_last() =~= s);
    assert(s.push(c).last() == c);
}

/// The strict matches of a concatenation are the concatenated matches.
pub proof fn lemma_strict_matches_add(
    cs: Constraints,
    post1_12: bool,
    a: Seq<(i32, i32, i32)>,
    b: Seq<(i32, i32, i32)>,
)
    ensures
        strict_matches(cs, post1_12, a + b) == strict_matches(cs, post1_12, a) + strict_matches(
            cs,
            post1_12,
            b,
        ),
    decreases b.len(),
{
    broadcast use group_seq_properties;

    if b.len() == 0 {
        assert(a + b =~= a);
        assert(strict_matches(cs, post1_12, a) + strict_matches(cs, post1_12, b)
            =~= strict_matches(cs, post1_12, a));
    } else {
        lemma_strict_matches_add(cs, post1_12, a, b.drop_last());
        assert((a + b).drop_last() =~= a + b.drop_last());
        assert((a + b).last() == b.last());
        if spec_candidate_matches(cs, b.last(), post1_12) {
            assert((strict_matches(cs, post1_12, a) + strict_matches(cs, post1_12, b.drop_last()))
                .push(b.last()) =~= strict_matches(cs, post1_12, a) + strict_matches(
                cs,
                post1_12,
                b.drop_last(),
            ).push(b.last()));
        }
    }
}

/// Appending a candidate extends the scored matches by its quadruple exactly
/// when it is accepted.
pub proof fn lemma_scored_matches_push(
    cs: Constraints,
    post1_12: bool,
    tol: int,
    max_score: int,
    s: Seq<(i32, i32, i32)>,
    c: (i32, i32, i32),
)
    ensures
        scored_matches(cs, post1_12, tol, max_score, s.push(c)) == if spec_scored_accepts(
            cs,
            c,
            post1_12,
            tol,
            max_score,
        ) {
            scored_matches(cs, post1_12, tol, max_score, s).push(spec_quad(cs, c, post1_12, tol))
        } else {
            scored_matches(cs, post1_12, tol, max_score, s)
        },
{
    assert(s.push(c).drop_last() =~= s);
    assert(s.push(c).last() == c);
}

/// The scored matches of a concatenation are the concatenated matches.
pub proof fn lemma_scored_matches_add(
    cs: Constraints,
    post1_12: bool,
    tol: int,
    max_score: int,
    a: Seq<(i32, i32, i32)>,
    b: Seq<(i32, i32, i32)>,
)
    ensures
        scored_matches(cs, post1_12, tol, max_score, a + b) == scored_matches(
            cs,
            post1_12,
            tol,
            max_score,
            a,
        ) + scored_matches(cs, post1_12, tol, max_score, b),
    decreases b.len(),
{
    broadcast use group_seq_properties;

    if b.len() == 0 {
        assert(a + b =~= a);
        assert(scored_matches(cs, post1_12, tol, max_score, a) + scored_matches(
            cs,
            post1_12,
            tol,
            max_score,
            b,
        ) =~= scored_matches(cs, post1_12, tol, max_score, a));
    } else {
        lemma_scored_matches_add(cs, post1_12, tol, max_score, a, b.drop_last());
        assert((a + b).drop_last() =~= a + b.drop_last());
        assert((a + b).last() == b.last());
        if spec_scored_accepts(cs, b.last(), post1_12, tol, max_score) {
            assert((scored_matches(cs, post1_12, tol, max_score, a) + scored_matches(
                cs,
                post1_12,
                tol,
                max_score,
                b.drop_last(),
            )).push(spec_quad(cs, b.last(), post1_12, tol)) =~= scored_matches(
                cs,
                post1_12,
                tol,
                max_score,
                a,
            ) + scored_matches(cs, post1_12, tol, max_score, b.drop_last()).push(
                spec_quad(cs, b.last(), post1_12, tol),
            ));
        }
    }
}

/// Flattening a push appends the three coordinates.
pub proof fn lemma_flat3_push(s: Seq<(i32, i32, i32)>, c: (i32, i32, i32))
    ensures
        flat3(s.push(c)) == flat3(s) + seq![c.0, c.1, c.2],
{
    assert(s.push(c).drop_last() =~= s);
    assert(s.push(c).last() == c);
}

/// Flattening a push appends the four values.
pub proof fn lemma_flat4_push(s: Seq<(i32, i32, i32, i32)>, q: (i32, i32, i32, i32))
    ensures
        flat4(s.push(q)) == flat4(s) + seq![q.0, q.1, q.2, q.3],
{
    assert(s.push(q).drop_last() =~= s);
    assert(s.push(q).last() == q);
}

/// A concatenation truncated at the length of its first part is that part.
pub proof fn lemma_take_of_add<A>(a: Seq<A>, b: Seq<A>)
    ensures
        (a + b).take(a.len() as int) == a,
{
    assert((a + b).take(a.len() as int) =~= a);
}

/// Truncating a sequence at its own length changes nothing.
pub proof fn lemma_take_all<A>(s: Seq<A>)
    ensures
        s.take(s.len() as int) == s,
{
    assert(s.take(s.len() as int) =~= s);
}

} // verus!
