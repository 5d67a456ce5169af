//! The curve goes through its control points: a level that falls on a point
//! gets the height of that point. Fewer than two points make no curve; what
//! the table is then is said here too. And the order in which points of
//! different `x` are handed over does not matter.

use vstd::prelude::*;
use vstd::arithmetic::div_mod::lemma_div_multiples_vanish_quotient;
use vstd::arithmetic::mul::lemma_mul_is_commutative;
use vstd::relations::{sorted_by, total_ordering};
use vstd::seq_lib::lemma_sorted_unique;
use crate::monotone::{lemma_hermite_ends, lemma_segment_from_holds};
use crate::order::{lemma_sort_fixes_ordered, lemma_sort_ordered, ordered, sort_by_place};
use crate::spline::{
    curve_lut, curve_value, hermite_numerator, quantize, segment_from, tangents, ControlPoint,
    Ratio,
};

verus! {

/// Every point lies right of the one before it.
pub open spec fn strictly_ordered(p: Seq<ControlPoint>) -> bool {
    forall|i: int, j: int| 0 <= i < j < p.len() ==> p[i].x < p[j].x
}

/// A value of exactly `y` gets the table entry of `y`, whatever its
/// denominator.
proof fn lemma_quantize_exact(y: int, den: int)
    requires
        0 <= y <= 65535,
        den > 0,
    ensures
        quantize(Ratio { num: y * den, den }) == y / 257,
{
    lemma_div_multiples_vanish_quotient(den, y, 257);
    lemma_mul_is_commutative(den, y);
}

/// Through points of which each lies right of the one before, the curve
/// passes exactly: where input level `i` falls on the point `k`, entry `i` of
/// the table is the height of that point as a level.
pub proof fn lemma_curve_passes_through(points: Seq<ControlPoint>, k: int, i: int)
    requires
        points.len() >= 2,
        strictly_ordered(points),
        0 <= k < points.len(),
        0 <= i < 256,
        points[k].x == 257 * i,
    ensures
        curve_lut(points)[i] == points[k].y / 257,
{
    let p = points;
    let n = p.len() as int;
    let x = 257 * i;
    assert(ordered(p)) by {
        assert forall|a: int, b: int| 0 <= a <= b < p.len() implies p[a].x <= p[b].x by {
            if a < b {
                assert(p[a].x < p[b].x);
            }
        }
    }
    lemma_sort_fixes_ordered(p);
    let m = tangents(p);
    let v = curve_value(p, m, x);
    let y = p[k].y as int;
    if k == 0 {
        if p[0].x > 0 {
            lemma_mul_is_commutative(x, y);
        }
        lemma_quantize_exact(y, v.den);
    } else if k == n - 1 {
        assert(p[0].x < p[k].x);
        if p[k].x < 65535 {
            assert((x - p[k].x) * (65535 - p[k].y) == 0) by (nonlinear_arith)
                requires
                    x - p[k].x == 0,
            ;
        }
        lemma_quantize_exact(y, v.den);
    } else {
        assert(p[0].x < p[k].x);
        assert(p[k].x < p[n - 1].x);
        lemma_segment_from_holds(p, x, 0);
        let s = segment_from(p, x, 0);
        // the segment that ends at the point
        if s + 1 < k {
            assert(p[s + 1].x < p[k].x);
        }
        if s + 1 > k {
            assert(p[k].x <= p[s].x);
        }
        assert(s + 1 == k);
        let h = p[k].x - p[s].x;
        let h3 = h * h * h;
        assert(h3 > 0) by (nonlinear_arith)
            requires
                h3 == h * h * h,
                h > 0,
        ;
        lemma_hermite_ends(p[s], p[k], m[s], m[k]);
        assert(v.num == hermite_numerator(p[s], p[k], m[s], m[k], h));
        lemma_quantize_exact(y, v.den);
    }
    assert(quantize(v) == y / 257);
}

/// One point alone gives a level table: every entry is the height of the
/// point as a level.
pub proof fn lemma_single_point_lut(points: Seq<ControlPoint>, i: int)
    requires
        points.len() == 1,
        0 <= i < 256,
    ensures
        curve_lut(points)[i] == points[0].y / 257,
{
}

/// Without any point the table changes nothing.
pub proof fn lemma_no_point_lut(points: Seq<ControlPoint>, i: int)
    requires
        points.len() == 0,
        0 <= i < 256,
    ensures
        curve_lut(points)[i] == i,
{
}

/// No two points share an `x`.
pub open spec fn distinct_x(p: Seq<ControlPoint>) -> bool {
    forall|i: int, j: int| 0 <= i < p.len() && 0 <= j < p.len() && i != j ==> p[i].x != p[j].x
}

/// The order of points by `x` and, at one `x`, by `y`.
pub open spec fn left_of() -> spec_fn(ControlPoint, ControlPoint) -> bool {
    |p: ControlPoint, q: ControlPoint| p.x < q.x || (p.x == q.x && p.y <= q.y)
}

/// An ordered sequence of the points of `a`, which share no `x`, has each
/// point left of every later one.
proof fn lemma_ordered_is_sorted(a: Seq<ControlPoint>, s: Seq<ControlPoint>)
    requires
        distinct_x(a),
        s.to_multiset() == a.to_multiset(),
        ordered(s),
    ensures
        sorted_by(s, left_of()),
{
    broadcast use vstd::seq_lib::group_to_multiset_ensures;

    assert(a.no_duplicates());
    a.lemma_multiset_has_no_duplicates();
    s.lemma_multiset_has_no_duplicates_conv();
    assert forall|i: int, j: int| 0 <= i < j < s.len() implies #[trigger] left_of()(
        s[i],
        s[j],
    ) by {
        assert(s[i].x <= s[j].x);
        if s[i].x == s[j].x {
            assert(s[i] != s[j]);
            assert(s.to_multiset().count(s[i]) > 0);
            assert(s.to_multiset().count(s[j]) > 0);
            assert(a.contains(s[i]));
            assert(a.contains(s[j]));
            let p = choose|p: int| 0 <= p < a.len() && a[p] == s[i];
            let q = choose|q: int| 0 <= q < a.len() && a[q] == s[j];
            assert(p != q);
            assert(a[p].x != a[q].x);
        }
    }
}

/// Points that share no `x` give one table in whatever order they are
/// handed over.
pub proof fn lemma_curve_lut_of_rearranged(a: Seq<ControlPoint>, b: Seq<ControlPoint>)
    requires
        distinct_x(a),
        a.to_multiset() == b.to_multiset(),
    ensures
        sort_by_place(a) == sort_by_place(b),
        curve_lut(a) == curve_lut(b),
{
    lemma_sort_ordered(a);
    lemma_sort_ordered(b);
    let sa = sort_by_place(a);
    let sb = sort_by_place(b);
    lemma_ordered_is_sorted(a, sa);
    lemma_ordered_is_sorted(a, sb);
    assert(total_ordering(left_of()));
    lemma_sorted_unique(sa, sb, left_of());
    assert(a.len() == b.len());
    if a.len() == 1 {
        reveal_with_fuel(sort_by_place, 2);
        assert(sa[0] == a[0]);
        assert(sb[0] == b[0]);
    }
    assert(curve_lut(a) =~= curve_lut(b));
}

} // verus!
