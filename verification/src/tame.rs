//! Tangents that keep the curve from falling: what the correction of a
//! segment leaves behind on points that rise from left to right.

use vstd::prelude::*;
use crate::arith::{lemma_sqrt_ceil_exists, lemma_square_le, lemma_trunc_div_bound, sqrt_ceil};
use crate::spline::{
    corrected_pair, initial_tangent, is_flat, lemma_rescaled_shrinks, lemma_secant_range,
    overshoots, secant, tangents_after, ControlPoint,
};

verus! {

/// No point lies below the one before it.
pub open spec fn rising(p: Seq<ControlPoint>) -> bool {
    forall|i: int, j: int| 0 <= i <= j < p.len() ==> p[i].y <= p[j].y
}

/// The end tangents `m0` and `m1` of the segment from `a` to `b` keep the
/// cubic from falling: neither is negative, both are zero on a level segment,
/// and together they stay inside the circle of radius 3.
pub open spec fn tame(a: ControlPoint, b: ControlPoint, m0: int, m1: int) -> bool {
    &&& m0 >= 0
    &&& m1 >= 0
    &&& is_flat(a, b) ==> m0 == 0 && m1 == 0
    &&& !overshoots(a, b, m0, m1)
}

/// The correction of a segment that does not fall leaves its tangents tame,
/// and makes neither of them larger.
pub proof fn lemma_corrected_pair_tame(a: ControlPoint, b: ControlPoint, m0: int, m1: int)
    requires
        a.y <= b.y,
        m0 >= 0,
        m1 >= 0,
    ensures
        tame(a, b, corrected_pair(a, b, m0, m1).0, corrected_pair(a, b, m0, m1).1),
        corrected_pair(a, b, m0, m1).0 <= m0,
        corrected_pair(a, b, m0, m1).1 <= m1,
{
    let dx = b.x - a.x;
    let dy = b.y - a.y;
    let dx2 = dx * dx;
    let dy2 = dy * dy;
    assert(dx2 >= 0 && dy2 >= 0) by (nonlinear_arith)
        requires
            dx2 == dx * dx,
            dy2 == dy * dy,
    ;
    if is_flat(a, b) {
        assert((0int * 0int + 0int * 0int) * dx2 == 0) by (nonlinear_arith);
    } else if overshoots(a, b, m0, m1) {
        let s = m0 * m0 + m1 * m1;
        let r = sqrt_ceil(s);
        let f = 196608 * dy;
        let d = dx * r;
        let n0 = f * m0;
        let n1 = f * m1;
        let c0 = n0 / d;
        let c1 = n1 / d;
        lemma_rescaled_shrinks(a, b, m0, m1, m0);
        lemma_rescaled_shrinks(a, b, m0, m1, m1);
        lemma_sqrt_ceil_exists(s);
        assert(d > 0) by (nonlinear_arith)
            requires
                d == dx * r,
                dx > 0,
                r > 0,
        ;
        assert(n0 >= 0 && n1 >= 0) by (nonlinear_arith)
            requires
                n0 == f * m0,
                n1 == f * m1,
                f >= 0,
                m0 >= 0,
                m1 >= 0,
        ;
        assert(corrected_pair(a, b, m0, m1) == (c0, c1));
        let e0 = c0 * d;
        let e1 = c1 * d;
        assert(0 <= e0 <= n0) by (nonlinear_arith)
            requires
                e0 == c0 * d,
                c0 == n0 / d,
                d > 0,
                n0 >= 0,
        ;
        assert(0 <= e1 <= n1) by (nonlinear_arith)
            requires
                e1 == c1 * d,
                c1 == n1 / d,
                d > 0,
                n1 >= 0,
        ;
        lemma_square_le(e0, n0);
        lemma_square_le(e1, n1);
        let x0 = c0 * c0;
        let x1 = c1 * c1;
        let w = r * r;
        let d2 = d * d;
        let f2 = f * f;
        assert(e0 * e0 == x0 * d2) by (nonlinear_arith)
            requires
                e0 == c0 * d,
                x0 == c0 * c0,
                d2 == d * d,
        ;
        assert(e1 * e1 == x1 * d2) by (nonlinear_arith)
            requires
                e1 == c1 * d,
                x1 == c1 * c1,
                d2 == d * d,
        ;
        assert(d2 == dx2 * w) by (nonlinear_arith)
            requires
                d2 == d * d,
                d == dx * r,
                dx2 == dx * dx,
                w == r * r,
        ;
        assert(n0 * n0 == f2 * (m0 * m0)) by (nonlinear_arith)
            requires
                n0 == f * m0,
                f2 == f * f,
        ;
        assert(n1 * n1 == f2 * (m1 * m1)) by (nonlinear_arith)
            requires
                n1 == f * m1,
                f2 == f * f,
        ;
        let e = (x0 + x1) * dx2;
        assert(e * w == x0 * d2 + x1 * d2) by (nonlinear_arith)
            requires
                e == (x0 + x1) * dx2,
                d2 == dx2 * w,
        ;
        assert(f2 * (m0 * m0) + f2 * (m1 * m1) == f2 * s) by (nonlinear_arith)
            requires
                s == m0 * m0 + m1 * m1,
        ;
        assert(f2 * s <= f2 * w) by (nonlinear_arith)
            requires
                s <= w,
                f2 == f * f,
        ;
        assert(e <= f2) by (nonlinear_arith)
            requires
                e * w <= f2 * w,
                w > 0,
        ;
        assert(f2 == 38654705664 * dy2) by (nonlinear_arith)
            requires
                f2 == f * f,
                f == 196608 * dy,
                dy2 == dy * dy,
        ;
    } else {
    }
}

/// Tame tangents stay tame when the right one shrinks toward zero.
pub proof fn lemma_tame_shrink(a: ControlPoint, b: ControlPoint, m0: int, m1: int, n1: int)
    requires
        tame(a, b, m0, m1),
        0 <= n1 <= m1,
    ensures
        tame(a, b, m0, n1),
{
    lemma_square_le(n1, m1);
    let x = m0 * m0;
    let y1 = n1 * n1;
    let y2 = m1 * m1;
    let z = (b.x - a.x) * (b.x - a.x);
    assert((x + y1) * z <= (x + y2) * z) by (nonlinear_arith)
        requires
            y1 <= y2,
            z == (b.x - a.x) * (b.x - a.x),
    ;
}

/// On points that do not fall, no tangent is negative at the start.
pub proof fn lemma_initial_tangent_nonnegative(p: Seq<ControlPoint>, i: int)
    requires
        p.len() >= 2,
        rising(p),
        0 <= i < p.len(),
    ensures
        initial_tangent(p, i) >= 0,
{
    if i == 0 {
        lemma_secant_range(p[0], p[1]);
    } else if i == p.len() - 1 {
        lemma_secant_range(p[i - 1], p[i]);
    } else {
        lemma_secant_range(p[i - 1], p[i]);
        lemma_secant_range(p[i], p[i + 1]);
        lemma_trunc_div_bound(secant(p[i - 1], p[i]) + secant(p[i], p[i + 1]), 2);
    }
}

/// On points that do not fall, every segment that has been corrected has tame
/// tangents, and stays so while the segments to its right are corrected.
pub proof fn lemma_tangents_after_tame(p: Seq<ControlPoint>, j: nat)
    requires
        p.len() >= 2,
        rising(p),
        j <= p.len() - 1,
    ensures
        tangents_after(p, j).len() == p.len(),
        forall|i: int| 0 <= i < p.len() ==> #[trigger] tangents_after(p, j)[i] >= 0,
        forall|k: int|
            0 <= k < j ==> tame(
                #[trigger] p[k],
                p[k + 1],
                tangents_after(p, j)[k],
                tangents_after(p, j)[k + 1],
            ),
    decreases j,
{
    if j == 0 {
        assert forall|i: int| 0 <= i < p.len() implies #[trigger] tangents_after(p, j)[i]
            >= 0 by {
            lemma_initial_tangent_nonnegative(p, i);
        }
    } else {
        let s = j - 1;
        lemma_tangents_after_tame(p, s as nat);
        let m = tangents_after(p, s as nat);
        let n = tangents_after(p, j);
        let c = corrected_pair(p[s], p[s + 1], m[s], m[s + 1]);
        lemma_corrected_pair_tame(p[s], p[s + 1], m[s], m[s + 1]);
        assert(n == m.update(s, c.0).update(s + 1, c.1));
        assert forall|k: int| 0 <= k < j implies tame(
            #[trigger] p[k],
            p[k + 1],
            n[k],
            n[k + 1],
        ) by {
            if k == s {
            } else if k == s - 1 {
                assert(tame(p[k], p[k + 1], m[k], m[k + 1]));
                lemma_tame_shrink(p[k], p[k + 1], m[k], m[k + 1], c.0);
            } else {
                assert(tame(p[k], p[k + 1], m[k], m[k + 1]));
            }
        }
    }
}

} // verus!
