//! Why the tone curve never inverts brightness: on points that rise from left
//! to right, the transfer table rises with them.

use vstd::prelude::*;
use vstd::arithmetic::div_mod::{lemma_div_is_ordered, lemma_div_multiples_vanish_quotient};
use vstd::arithmetic::mul::lemma_mul_is_commutative;
use crate::cubic::{lemma_rise_form_monotone, rise_form};
use crate::order::{lemma_sort_fixes_ordered, lemma_sort_ordered, ordered, sort_by_place};
use crate::spline::{
    curve_lut, curve_value, hermite_numerator, level_position, quantize, segment_from, tangents,
    ControlPoint, Ratio,
};
use crate::tame::{lemma_tangents_after_tame, rising, tame};

verus! {

/// The value `v` is not above the level `y`.
pub open spec fn at_most(v: Ratio, y: int) -> bool {
    v.num <= y * v.den
}

/// The value `v` is not below the level `y`.
pub open spec fn at_least(v: Ratio, y: int) -> bool {
    v.num >= y * v.den
}

/// A value that is not above a level is not above a higher level.
proof fn lemma_at_most_weaken(v: Ratio, y: int, z: int)
    requires
        v.den > 0,
        at_most(v, y),
        y <= z,
    ensures
        at_most(v, z),
{
    assert(y * v.den <= z * v.den) by (nonlinear_arith)
        requires
            y <= z,
            v.den > 0,
    ;
}

/// A value that is not below a level is not below a lower level.
proof fn lemma_at_least_weaken(v: Ratio, y: int, z: int)
    requires
        v.den > 0,
        at_least(v, y),
        z <= y,
    ensures
        at_least(v, z),
{
    assert(z * v.den <= y * v.den) by (nonlinear_arith)
        requires
            z <= y,
            v.den > 0,
    ;
}

/// Of two values over one denominator, the one with the smaller numerator
/// gets the smaller table entry.
proof fn lemma_quantize_ordered(n1: int, n2: int, den: int)
    requires
        den > 0,
        n1 <= n2,
    ensures
        quantize(Ratio { num: n1, den }) <= quantize(Ratio { num: n2, den }),
{
    lemma_div_is_ordered(n1, n2, 257 * den);
}

/// Two values with a level between them get table entries in the same order.
proof fn lemma_quantize_across(v1: Ratio, v2: Ratio, y: int)
    requires
        v1.den > 0,
        v2.den > 0,
        y >= 0,
        at_most(v1, y),
        at_least(v2, y),
    ensures
        quantize(v1) <= quantize(v2),
{
    lemma_div_multiples_vanish_quotient(v1.den, y, 257);
    lemma_mul_is_commutative(v1.den, y);
    lemma_div_is_ordered(v1.num, y * v1.den, 257 * v1.den);
    lemma_div_multiples_vanish_quotient(v2.den, y, 257);
    lemma_mul_is_commutative(v2.den, y);
    lemma_div_is_ordered(y * v2.den, v2.num, 257 * v2.den);
}

/// The cubic as its value at the left end plus the part that depends on the
/// offset.
proof fn lemma_hermite_is_rise(a: ControlPoint, b: ControlPoint, m0: int, m1: int, u: int)
    ensures
        hermite_numerator(a, b, m0, m1, u) == 65536 * ((b.x - a.x) * (b.x - a.x) * (b.x - a.x))
            * a.y + rise_form(m0 * (b.x - a.x), m1 * (b.x - a.x), 65536 * (b.y - a.y), b.x - a.x, u),
{
}

/// The cubic passes through both end points.
pub proof fn lemma_hermite_ends(a: ControlPoint, b: ControlPoint, m0: int, m1: int)
    ensures
        hermite_numerator(a, b, m0, m1, 0) == a.y * (65536 * ((b.x - a.x) * (b.x - a.x) * (b.x
            - a.x))),
        hermite_numerator(a, b, m0, m1, b.x - a.x) == b.y * (65536 * ((b.x - a.x) * (b.x - a.x) * (
        b.x - a.x))),
{
    let h = b.x - a.x;
    let h3 = h * h * h;
    let g0 = m0 * h;
    let g1 = m1 * h;
    let d = 65536 * (b.y - a.y);
    lemma_mul_is_commutative(65536 * h3, a.y as int);
    assert(0int * 0int * (3 * h - 2 * 0int) == 0 && 0int * ((h - 0int) * (h - 0int)) == 0 && 0int
        * 0int * (h - 0int) == 0) by (nonlinear_arith);
    assert(d * 0int == 0 && g0 * 0int == 0 && g1 * 0int == 0) by (nonlinear_arith);
    assert(h * h * (3 * h - 2 * h) == h3 && h * ((h - h) * (h - h)) == 0 && h * h * (h - h) == 0)
        by (nonlinear_arith)
        requires
            h3 == h * h * h,
    ;
    assert(65536 * h3 * a.y + d * h3 == b.y * (65536 * h3)) by (nonlinear_arith)
        requires
            d == 65536 * (b.y - a.y),
    ;
}

/// With tame tangents the cubic does not fall on its segment.
pub proof fn lemma_hermite_monotone(
    a: ControlPoint,
    b: ControlPoint,
    m0: int,
    m1: int,
    u1: int,
    u2: int,
)
    requires
        a.x < b.x,
        a.y <= b.y,
        tame(a, b, m0, m1),
        0 <= u1 <= u2 <= b.x - a.x,
    ensures
        hermite_numerator(a, b, m0, m1, u1) <= hermite_numerator(a, b, m0, m1, u2),
{
    let h = b.x - a.x;
    let dy = b.y - a.y;
    let g0 = m0 * h;
    let g1 = m1 * h;
    let d = 65536 * dy;
    let h2 = h * h;
    let dy2 = dy * dy;
    let s = m0 * m0 + m1 * m1;
    assert(g0 >= 0 && g1 >= 0) by (nonlinear_arith)
        requires
            g0 == m0 * h,
            g1 == m1 * h,
            m0 >= 0,
            m1 >= 0,
            h > 0,
    ;
    assert(g0 * g0 + g1 * g1 == s * h2) by (nonlinear_arith)
        requires
            g0 == m0 * h,
            g1 == m1 * h,
            s == m0 * m0 + m1 * m1,
            h2 == h * h,
    ;
    assert(9 * (d * d) == 38654705664 * dy2) by (nonlinear_arith)
        requires
            d == 65536 * dy,
            dy2 == dy * dy,
    ;
    lemma_rise_form_monotone(g0, g1, d, h, u1, u2);
    lemma_hermite_is_rise(a, b, m0, m1, u1);
    lemma_hermite_is_rise(a, b, m0, m1, u2);
}

/// The segment that holds a position between the first and the last point
/// has the position right of its left end and not right of its right end.
pub proof fn lemma_segment_from_holds(p: Seq<ControlPoint>, x: int, k: int)
    requires
        0 <= k <= p.len() - 2,
        p[k].x < x,
        x <= p[p.len() - 1].x,
    ensures
        k <= segment_from(p, x, k) <= p.len() - 2,
        p[segment_from(p, x, k)].x < x <= p[segment_from(p, x, k) + 1].x,
    decreases p.len() - k,
{
    if k + 2 >= p.len() || x <= p[k + 1].x {
    } else {
        lemma_segment_from_holds(p, x, k + 1);
    }
}

/// The curve between its points: where a position falls, and the levels that
/// hold the value there.
pub proof fn lemma_curve_value_bounds(p: Seq<ControlPoint>, x: int)
    requires
        p.len() >= 2,
        ordered(p),
        rising(p),
        0 <= x <= 65535,
    ensures
        curve_value(p, tangents(p), x).den > 0,
        x <= p[0].x ==> at_most(curve_value(p, tangents(p), x), p[0].y as int),
        x > p[0].x ==> at_least(curve_value(p, tangents(p), x), p[0].y as int),
        x < p[p.len() - 1].x ==> at_most(curve_value(p, tangents(p), x), p[p.len() - 1].y as int),
        x > p[0].x && x >= p[p.len() - 1].x ==> at_least(
            curve_value(p, tangents(p), x),
            p[p.len() - 1].y as int,
        ),
        p[0].x < x < p[p.len() - 1].x ==> {
            let k = segment_from(p, x, 0);
            &&& 0 <= k <= p.len() - 2
            &&& p[k].x < x <= p[k + 1].x
            &&& at_least(curve_value(p, tangents(p), x), p[k].y as int)
            &&& at_most(curve_value(p, tangents(p), x), p[k + 1].y as int)
        },
{
    let n = p.len() as int;
    let m = tangents(p);
    let v = curve_value(p, m, x);
    let first = p[0];
    let last = p[n - 1];
    assert(first.y <= last.y);
    if x <= first.x {
        if first.x > 0 {
            assert(x * first.y <= first.y * first.x) by (nonlinear_arith)
                requires
                    0 <= x <= first.x,
                    first.y >= 0,
            ;
        }
        lemma_at_most_weaken(v, first.y as int, last.y as int);
    } else if x >= last.x {
        if last.x < 65535 {
            let run = 65535 - last.x;
            let rise = 65535 - last.y;
            assert(last.y * run + (x - last.x) * rise >= last.y * run) by (nonlinear_arith)
                requires
                    x - last.x >= 0,
                    rise >= 0,
            ;
        }
        lemma_at_least_weaken(v, last.y as int, first.y as int);
    } else {
        lemma_segment_from_holds(p, x, 0);
        let k = segment_from(p, x, 0);
        let a = p[k];
        let b = p[k + 1];
        let h = b.x - a.x;
        let h3 = h * h * h;
        assert(h3 > 0) by (nonlinear_arith)
            requires
                h3 == h * h * h,
                h > 0,
        ;
        lemma_tangents_after_tame(p, (n - 1) as nat);
        assert(tame(p[k], p[k + 1], m[k], m[k + 1]));
        assert(a.y <= b.y);
        lemma_hermite_ends(a, b, m[k], m[k + 1]);
        lemma_hermite_monotone(a, b, m[k], m[k + 1], 0, x - a.x);
        lemma_hermite_monotone(a, b, m[k], m[k + 1], x - a.x, h);
        assert(first.y <= a.y);
        assert(b.y <= last.y);
        lemma_at_least_weaken(v, a.y as int, first.y as int);
        lemma_at_most_weaken(v, b.y as int, last.y as int);
    }
}

/// On ordered points that do not fall, the curve does not fall: a position
/// further right gets a table entry that is not smaller.
pub proof fn lemma_curve_value_monotone(p: Seq<ControlPoint>, x1: int, x2: int)
    requires
        p.len() >= 2,
        ordered(p),
        rising(p),
        0 <= x1 <= x2 <= 65535,
    ensures
        quantize(curve_value(p, tangents(p), x1)) <= quantize(curve_value(p, tangents(p), x2)),
{
    let n = p.len() as int;
    let m = tangents(p);
    let v1 = curve_value(p, m, x1);
    let v2 = curve_value(p, m, x2);
    let first = p[0];
    let last = p[n - 1];
    lemma_curve_value_bounds(p, x1);
    lemma_curve_value_bounds(p, x2);
    if x2 <= first.x {
        if first.x > 0 {
            assert(x1 * first.y <= x2 * first.y) by (nonlinear_arith)
                requires
                    x1 <= x2,
                    first.y >= 0,
            ;
            lemma_quantize_ordered(x1 * first.y, x2 * first.y, first.x as int);
        }
    } else if x1 <= first.x {
        lemma_quantize_across(v1, v2, first.y as int);
    } else if x1 >= last.x {
        if last.x < 65535 {
            let run = 65535 - last.x;
            let rise = 65535 - last.y;
            assert((x1 - last.x) * rise <= (x2 - last.x) * rise) by (nonlinear_arith)
                requires
                    x1 <= x2,
                    rise >= 0,
            ;
            lemma_quantize_ordered(v1.num, v2.num, run);
        }
    } else if x2 >= last.x {
        lemma_quantize_across(v1, v2, last.y as int);
    } else {
        let k1 = segment_from(p, x1, 0);
        let k2 = segment_from(p, x2, 0);
        if k1 == k2 {
            let a = p[k1];
            let b = p[k1 + 1];
            let h = b.x - a.x;
            lemma_tangents_after_tame(p, (n - 1) as nat);
            assert(tame(p[k1], p[k1 + 1], m[k1], m[k1 + 1]));
            assert(a.y <= b.y);
            lemma_hermite_monotone(a, b, m[k1], m[k1 + 1], x1 - a.x, x2 - a.x);
            lemma_quantize_ordered(v1.num, v2.num, 65536 * (h * h * h));
        } else {
            if k1 > k2 {
                assert(p[k2 + 1].x <= p[k1].x);
            }
            assert(p[k1 + 1].y <= p[k2].y);
            lemma_at_least_weaken(v2, p[k2].y as int, p[k1 + 1].y as int);
            lemma_quantize_across(v1, v2, p[k1 + 1].y as int);
        }
    }
}

/// On control points that do not fall once they are brought into order, the
/// transfer table does not fall: a brighter input never comes out darker than
/// a darker one.
pub proof fn lemma_curve_lut_monotone_in_any_order(points: Seq<ControlPoint>, i: int, j: int)
    requires
        rising(sort_by_place(points)),
        0 <= i <= j < 256,
    ensures
        curve_lut(points)[i] <= curve_lut(points)[j],
{
    if points.len() >= 2 {
        lemma_sort_ordered(points);
        lemma_curve_value_monotone(sort_by_place(points), level_position(i), level_position(j));
    }
}

/// On control points that are ordered from left to right and do not fall, the
/// transfer table does not fall. Points whose `y` grows strictly from each to
/// the next are the common case.
pub proof fn lemma_curve_lut_monotone(points: Seq<ControlPoint>, i: int, j: int)
    requires
        ordered(points),
        rising(points),
        0 <= i <= j < 256,
    ensures
        curve_lut(points)[i] <= curve_lut(points)[j],
{
    lemma_sort_fixes_ordered(points);
    lemma_curve_lut_monotone_in_any_order(points, i, j);
}

} // verus!
