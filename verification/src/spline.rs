//! The tone curve: control points, their normal form, and the monotone cubic
//! that turns them into a 256-entry transfer table.

use vstd::prelude::*;
use crate::order::{lemma_sort_ordered, sort_by_place, sorted, Placed};
use crate::arith::{
    ceil_sqrt, clamp_to, lemma_mul_bound, lemma_mul_bound_signed, lemma_sqrt_ceil_exists,
    lemma_trunc_div_bound, magnitude, sqrt_ceil, trunc_div,
};

verus! {

/// A point of a tone curve. Both coordinates are normalised to 16 bits:
/// 0 is 0.0 and 65535 is 1.0.
#[derive(Clone, Copy, Debug, PartialEq, Eq, Structural)]
pub struct ControlPoint {
    pub x: u16,
    pub y: u16,
}

impl Placed for ControlPoint {
    /// A control point has its place at its `x`.
    open spec fn place(&self) -> int {
        self.x as int
    }

    fn place_of(&self) -> (k: u16) {
        self.x
    }
}

/// The slope of the straight line from `a` to `b`, in units of 1/65536 and
/// rounded toward zero. A segment without width has no slope and counts as
/// level.
pub open spec fn secant(a: ControlPoint, b: ControlPoint) -> int {
    if b.x <= a.x {
        0
    } else {
        trunc_div(65536 * (b.y - a.y), b.x - a.x)
    }
}

/// The segment from `a` to `b` is level: its slope is exactly zero.
pub open spec fn is_flat(a: ControlPoint, b: ControlPoint) -> bool {
    b.x <= a.x || b.y == a.y
}

/// The tangent a point starts with: the secant slope at either end of the
/// curve, the mean of the two adjacent secant slopes in between.
pub open spec fn initial_tangent(p: Seq<ControlPoint>, i: int) -> int {
    if i == 0 {
        secant(p[0], p[1])
    } else if i == p.len() - 1 {
        secant(p[i - 1], p[i])
    } else {
        trunc_div(secant(p[i - 1], p[i]) + secant(p[i], p[i + 1]), 2)
    }
}

/// The tangents before any correction.
pub open spec fn initial_tangents(p: Seq<ControlPoint>) -> Seq<int> {
    Seq::new(p.len(), |i: int| initial_tangent(p, i))
}

/// The tangents `m0` and `m1` at the ends of the segment from `a` to `b` leave
/// the region in which the cubic is monotone: with `s` the segment's slope,
/// `(m0 / s)^2 + (m1 / s)^2 > 9`. The constant is `9 * 65536^2`.
pub open spec fn overshoots(a: ControlPoint, b: ControlPoint, m0: int, m1: int) -> bool {
    (m0 * m0 + m1 * m1) * ((b.x - a.x) * (b.x - a.x)) > 38654705664 * ((b.y - a.y) * (b.y - a.y))
}

/// The tangent `m` scaled by `3 |s| / r`, where `s` is the slope of the
/// segment from `a` to `b` and `r` the length of the tangent pair; rounded
/// toward zero. The constant is `3 * 65536`.
pub open spec fn rescaled(a: ControlPoint, b: ControlPoint, m: int, r: int) -> int {
    trunc_div(196608 * magnitude(b.y - a.y) * m, (b.x - a.x) * r)
}

/// The tangents at the two ends of one segment after its correction: both
/// zero on a level segment; both scaled back onto the circle of radius 3 where
/// they overshoot; unchanged otherwise.
pub open spec fn corrected_pair(a: ControlPoint, b: ControlPoint, m0: int, m1: int) -> (int, int) {
    if is_flat(a, b) {
        (0, 0)
    } else if overshoots(a, b, m0, m1) {
        let r = sqrt_ceil(m0 * m0 + m1 * m1);
        (rescaled(a, b, m0, r), rescaled(a, b, m1, r))
    } else {
        (m0, m1)
    }
}

/// The tangents `m` with segment `k` corrected.
pub open spec fn correct_segment(p: Seq<ControlPoint>, m: Seq<int>, k: int) -> Seq<int> {
    let c = corrected_pair(p[k], p[k + 1], m[k], m[k + 1]);
    m.update(k, c.0).update(k + 1, c.1)
}

/// The tangents once the first `j` segments have been corrected, in order.
pub open spec fn tangents_after(p: Seq<ControlPoint>, j: nat) -> Seq<int>
    decreases j,
{
    if j == 0 {
        initial_tangents(p)
    } else {
        correct_segment(p, tangents_after(p, (j - 1) as nat), j - 1)
    }
}

/// The tangents of the curve through `p`, one for each point, in units of
/// 1/65536.
pub open spec fn tangents(p: Seq<ControlPoint>) -> Seq<int> {
    if p.len() < 2 {
        Seq::empty()
    } else {
        tangents_after(p, (p.len() - 1) as nat)
    }
}

/// The numbers of `v` as mathematical integers.
pub open spec fn as_ints(v: Seq<i64>) -> Seq<int> {
    Seq::new(v.len(), |i: int| v[i] as int)
}

/// `m` is no larger in magnitude than the steepest secant slope: a rise of
/// 65535 over a run of 1, in units of 1/65536.
pub open spec fn tangent_in_range(m: int) -> bool {
    -4294901760 <= m <= 4294901760
}

/// A secant slope is within the range of tangents, and has the sign of the
/// rise.
pub proof fn lemma_secant_range(a: ControlPoint, b: ControlPoint)
    ensures
        tangent_in_range(secant(a, b)),
        b.y >= a.y ==> secant(a, b) >= 0,
        b.y <= a.y ==> secant(a, b) <= 0,
{
    if b.x > a.x {
        lemma_trunc_div_bound(65536 * (b.y - a.y), b.x - a.x);
    }
}

/// A tangent scaled back is no larger in magnitude than before and keeps its
/// sign.
pub proof fn lemma_rescaled_shrinks(a: ControlPoint, b: ControlPoint, m0: int, m1: int, m: int)
    requires
        !is_flat(a, b),
        overshoots(a, b, m0, m1),
    ensures
        sqrt_ceil(m0 * m0 + m1 * m1) > 0,
        m >= 0 ==> 0 <= rescaled(a, b, m, sqrt_ceil(m0 * m0 + m1 * m1)) <= m,
        m <= 0 ==> m <= rescaled(a, b, m, sqrt_ceil(m0 * m0 + m1 * m1)) <= 0,
{
    let s = m0 * m0 + m1 * m1;
    let r = sqrt_ceil(s);
    let dx = b.x - a.x;
    let f = 196608 * magnitude(b.y - a.y);
    let d = dx * r;
    let dy2 = (b.y - a.y) * (b.y - a.y);
    assert(dy2 >= 0) by (nonlinear_arith)
        requires
            dy2 == (b.y - a.y) * (b.y - a.y),
    ;
    assert(s > 0) by (nonlinear_arith)
        requires
            s * (dx * dx) > 38654705664 * dy2,
            dy2 >= 0,
            dx > 0,
    ;
    lemma_sqrt_ceil_exists(s);
    assert(r > 0) by (nonlinear_arith)
        requires
            r >= 0,
            r * r >= s,
            s > 0,
    ;
    assert(f * f == 38654705664 * dy2) by (nonlinear_arith)
        requires
            f == 196608 * magnitude(b.y - a.y),
            dy2 == (b.y - a.y) * (b.y - a.y),
    ;
    assert(d * d > f * f) by (nonlinear_arith)
        requires
            d == dx * r,
            r * r >= s,
            s * (dx * dx) > f * f,
            dx > 0,
    ;
    assert(d > f && d > 0) by (nonlinear_arith)
        requires
            d * d > f * f,
            f >= 0,
            d == dx * r,
            dx > 0,
            r > 0,
    ;
    if m >= 0 {
        let n = f * m;
        assert(0 <= n && n / d <= m) by (nonlinear_arith)
            requires
                n == f * m,
                m >= 0,
                d > f,
                f >= 0,
        ;
        assert(n / d >= 0) by (nonlinear_arith)
            requires
                n >= 0,
                d > 0,
        ;
        assert(196608 * magnitude(b.y - a.y) * m == n);
    }
    if m <= 0 {
        let k = -m;
        let n = f * k;
        assert(0 <= n && n / d <= k) by (nonlinear_arith)
            requires
                n == f * k,
                k >= 0,
                d > f,
                f >= 0,
        ;
        assert(n / d >= 0) by (nonlinear_arith)
            requires
                n >= 0,
                d > 0,
        ;
        assert(196608 * magnitude(b.y - a.y) * m == -n) by (nonlinear_arith)
            requires
                n == f * k,
                k == -m,
                f == 196608 * magnitude(b.y - a.y),
        ;
    }
}

/// The slope of the straight line from `a` to `b`, in units of 1/65536.
pub fn secant_slope(a: ControlPoint, b: ControlPoint) -> (s: i64)
    ensures
        s == secant(a, b),
        tangent_in_range(s as int),
{
    if b.x <= a.x {
        return 0;
    }
    let dx: i64 = (b.x - a.x) as i64;
    proof {
        lemma_secant_range(a, b);
    }
    if b.y >= a.y {
        let dy: i64 = (b.y - a.y) as i64;
        (65536 * dy) / dx
    } else {
        let dy: i64 = (a.y - b.y) as i64;
        -((65536 * dy) / dx)
    }
}

/// The tangents at the two ends of the segment from `a` to `b` after the
/// segment's correction.
pub fn correct_pair(a: ControlPoint, b: ControlPoint, m0: i64, m1: i64) -> (c: (i64, i64))
    requires
        tangent_in_range(m0 as int),
        tangent_in_range(m1 as int),
    ensures
        (c.0 as int, c.1 as int) == corrected_pair(a, b, m0 as int, m1 as int),
        tangent_in_range(c.0 as int),
        tangent_in_range(c.1 as int),
{
    if b.x <= a.x || b.y == a.y {
        return (0, 0);
    }
    let dx: u128 = (b.x - a.x) as u128;
    let dy: u128 = if b.y >= a.y {
        (b.y - a.y) as u128
    } else {
        (a.y - b.y) as u128
    };
    let a0: u128 = if m0 >= 0 {
        m0 as u128
    } else {
        (-m0) as u128
    };
    let a1: u128 = if m1 >= 0 {
        m1 as u128
    } else {
        (-m1) as u128
    };
    proof {
        lemma_mul_bound(a0 as int, a0 as int, 4294901760, 4294901760);
        lemma_mul_bound(a1 as int, a1 as int, 4294901760, 4294901760);
        lemma_mul_bound(dx as int, dx as int, 65535, 65535);
        lemma_mul_bound(dy as int, dy as int, 65535, 65535);
        assert(a0 * a0 == m0 * m0) by (nonlinear_arith)
            requires
                a0 == m0 || a0 == -m0,
        ;
        assert(a1 * a1 == m1 * m1) by (nonlinear_arith)
            requires
                a1 == m1 || a1 == -m1,
        ;
        assert(dx * dx == (b.x - a.x) * (b.x - a.x));
        assert(dy * dy == (b.y - a.y) * (b.y - a.y)) by (nonlinear_arith)
            requires
                dy == b.y - a.y || dy == -(b.y - a.y),
        ;
    }
    let s: u128 = a0 * a0 + a1 * a1;
    let dx2: u128 = dx * dx;
    let dy2: u128 = dy * dy;
    proof {
        lemma_mul_bound(s as int, dx2 as int, 36892362256102195200, 4294836225);
    }
    let lhs: u128 = s * dx2;
    let rhs: u128 = 38654705664 * dy2;
    if lhs > rhs {
        let r: u128 = ceil_sqrt(s) as u128;
        let f: u128 = 196608 * dy;
        proof {
            lemma_rescaled_shrinks(a, b, m0 as int, m1 as int, m0 as int);
            lemma_rescaled_shrinks(a, b, m0 as int, m1 as int, m1 as int);
            lemma_mul_bound(dx as int, r as int, 65535, 0x2_0000_0000);
            lemma_mul_bound(f as int, a0 as int, 12884705280, 4294901760);
            lemma_mul_bound(f as int, a1 as int, 12884705280, 4294901760);
            assert(dx * r > 0) by (nonlinear_arith)
                requires
                    dx > 0,
                    r > 0,
            ;
            assert(f * m0 == if m0 >= 0 {
                f * a0
            } else {
                -(f * a0)
            }) by (nonlinear_arith)
                requires
                    a0 == if m0 >= 0 {
                        m0 as int
                    } else {
                        -m0
                    },
            ;
            assert(f * m1 == if m1 >= 0 {
                f * a1
            } else {
                -(f * a1)
            }) by (nonlinear_arith)
                requires
                    a1 == if m1 >= 0 {
                        m1 as int
                    } else {
                        -m1
                    },
            ;
            assert(f * a0 >= 0 && f * a1 >= 0);
        }
        let den: u128 = dx * r;
        let q0: u128 = (f * a0) / den;
        let q1: u128 = (f * a1) / den;
        let c0: i64 = if m0 >= 0 {
            q0 as i64
        } else {
            -(q0 as i64)
        };
        let c1: i64 = if m1 >= 0 {
            q1 as i64
        } else {
            -(q1 as i64)
        };
        (c0, c1)
    } else {
        (m0, m1)
    }
}

/// The tangents of the curve through `p`, one for each point.
pub fn curve_tangents(p: &Vec<ControlPoint>) -> (m: Vec<i64>)
    requires
        p.len() >= 2,
    ensures
        as_ints(m@) == tangents(p@),
        m.len() == p.len(),
        forall|i: int| 0 <= i < m.len() ==> tangent_in_range(#[trigger] m[i] as int),
{
    let n = p.len();
    let mut m: Vec<i64> = Vec::new();
    let mut i: usize = 0;
    while i < n
        invariant
            n == p.len(),
            n >= 2,
            i <= n,
            m.len() == i,
            forall|j: int| 0 <= j < i ==> #[trigger] m[j] as int == initial_tangent(p@, j),
            forall|j: int| 0 <= j < i ==> tangent_in_range(#[trigger] m[j] as int),
        decreases n - i,
    {
        let t: i64 = if i == 0 {
            secant_slope(p[0], p[1])
        } else if i == n - 1 {
            secant_slope(p[i - 1], p[i])
        } else {
            let sum: i64 = secant_slope(p[i - 1], p[i]) + secant_slope(p[i], p[i + 1]);
            if sum >= 0 {
                sum / 2
            } else {
                -((-sum) / 2)
            }
        };
        m.push(t);
        i = i + 1;
    }
    assert(as_ints(m@) =~= tangents_after(p@, 0));
    let mut k: usize = 0;
    while k < n - 1
        invariant
            n == p.len(),
            n >= 2,
            k <= n - 1,
            m.len() == n,
            as_ints(m@) == tangents_after(p@, k as nat),
            forall|j: int| 0 <= j < n ==> tangent_in_range(#[trigger] m[j] as int),
        decreases n - 1 - k,
    {
        let ghost before = as_ints(m@);
        let c = correct_pair(p[k], p[k + 1], m[k], m[k + 1]);
        m.set(k, c.0);
        m.set(k + 1, c.1);
        assert(as_ints(m@) =~= correct_segment(p@, before, k as int));
        k = k + 1;
    }
    m
}

/// A rational number `num / den` with a positive `den`.
pub struct Ratio {
    pub num: int,
    pub den: int,
}

/// The table entry for a value given in units of 1/65535: the value held to
/// the range from 0 to 1, scaled to 255 and rounded down.
pub open spec fn quantize(v: Ratio) -> int {
    clamp_to(v.num / (257 * v.den), 0, 255)
}

/// The position of input level `i` on the axis of the control points.
pub open spec fn level_position(i: int) -> int {
    257 * i
}

/// The segment that holds `x`, looked for from segment `k` on: the first whose
/// right end is not left of `x`, or the last segment.
pub open spec fn segment_from(p: Seq<ControlPoint>, x: int, k: int) -> int
    decreases p.len() - k,
{
    if k + 2 >= p.len() || x <= p[k + 1].x {
        k
    } else {
        segment_from(p, x, k + 1)
    }
}

/// The cubic Hermite curve on the segment from `a` to `b` with end tangents
/// `m0` and `m1`, at the offset `u` from `a.x`, as a numerator over
/// `65536 h^3`, where `h` is the width of the segment. With `t = u / h` it is
/// `h00(t) a.y + h10(t) h m0 + h01(t) b.y + h11(t) h m1`.
pub open spec fn hermite_numerator(a: ControlPoint, b: ControlPoint, m0: int, m1: int, u: int) -> int {
    let h = b.x - a.x;
    let w = h - u;
    65536 * (h * h * h) * a.y + 65536 * (b.y - a.y) * (u * u * (3 * h - 2 * u)) + (m0 * h) * (u * (w
        * w)) - (m1 * h) * (u * u * w)
}

/// The curve through the ordered points `p` with tangents `m`, at the
/// position `x`, in units of 1/65535. Left of the first point it is the
/// straight line from (0, 0) to that point, right of the last point the
/// straight line from that point to (1, 1), and the cubic in between.
pub open spec fn curve_value(p: Seq<ControlPoint>, m: Seq<int>, x: int) -> Ratio {
    let first = p[0];
    let last = p[p.len() - 1];
    if x <= first.x {
        if first.x > 0 {
            Ratio { num: x * first.y, den: first.x as int }
        } else {
            Ratio { num: first.y as int, den: 1 }
        }
    } else if x >= last.x {
        if last.x < 65535 {
            Ratio {
                num: last.y * (65535 - last.x) + (x - last.x) * (65535 - last.y),
                den: 65535 - last.x,
            }
        } else {
            Ratio { num: last.y as int, den: 1 }
        }
    } else {
        let k = segment_from(p, x, 0);
        let h = p[k + 1].x - p[k].x;
        Ratio {
            num: hermite_numerator(p[k], p[k + 1], m[k], m[k + 1], x - p[k].x),
            den: 65536 * (h * h * h),
        }
    }
}

/// Entry `i` of the transfer table of the curve through `points`.
///
/// Without points the table is the identity. One point gives a constant
/// table. Otherwise the points are brought into order and the monotone cubic
/// through them is sampled.
pub open spec fn curve_level(points: Seq<ControlPoint>, i: int) -> int {
    if points.len() == 0 {
        i
    } else if points.len() == 1 {
        points[0].y as int / 257
    } else {
        let p = sort_by_place(points);
        quantize(curve_value(p, tangents(p), level_position(i)))
    }
}

/// The transfer table of the curve through `points`: 256 entries, entry `i`
/// for the input level `i / 255`.
pub open spec fn curve_lut(points: Seq<ControlPoint>) -> Seq<u8> {
    Seq::new(256, |i: int| curve_level(points, i) as u8)
}

/// The table entry for the value `num / den`.
pub fn quantize_ratio(num: i128, den: i128) -> (e: u8)
    requires
        0 < den <= 0x1_0000_0000_0000_0000,
    ensures
        e == quantize(Ratio { num: num as int, den: den as int }),
{
    if num <= 0 {
        assert(num as int / (257 * den) <= 0) by (nonlinear_arith)
            requires
                num <= 0,
                den > 0,
        ;
        0
    } else {
        let d: i128 = 257 * den;
        let q: i128 = num / d;
        assert(q >= 0) by (nonlinear_arith)
            requires
                q == num / d,
                num > 0,
                d > 0,
        ;
        if q > 255 {
            255
        } else {
            q as u8
        }
    }
}

/// The value of the cubic on the segment from `a` to `b`, at the offset `u`
/// from `a.x`, as a table entry.
pub fn hermite_entry(a: ControlPoint, b: ControlPoint, m0: i64, m1: i64, u: u16) -> (e: u8)
    requires
        a.x < b.x,
        0 <= u <= b.x - a.x,
        tangent_in_range(m0 as int),
        tangent_in_range(m1 as int),
    ensures
        e == quantize(
            Ratio {
                num: hermite_numerator(a, b, m0 as int, m1 as int, u as int),
                den: 65536 * ((b.x - a.x) * (b.x - a.x) * (b.x - a.x)),
            },
        ),
{
    let h: i128 = (b.x - a.x) as i128;
    let u: i128 = u as i128;
    let w: i128 = h - u;
    let dy: i128 = b.y as i128 - a.y as i128;
    proof {
        lemma_mul_bound(h as int, h as int, 65535, 65535);
        lemma_mul_bound(h * h, h as int, 4294836225, 65535);
        lemma_mul_bound(u as int, u as int, 65535, 65535);
        lemma_mul_bound(u * u, 3 * h - 2 * u, 4294836225, 196605);
        lemma_mul_bound(w as int, w as int, 65535, 65535);
        lemma_mul_bound(u as int, w * w, 65535, 4294836225);
        lemma_mul_bound(u * u, w as int, 4294836225, 65535);
        lemma_mul_bound_signed(m0 as int, h as int, 4294901760, 65535);
        lemma_mul_bound_signed(m1 as int, h as int, 4294901760, 65535);
    }
    let h3: i128 = h * h * h;
    let bump: i128 = u * u * (3 * h - 2 * u);
    let c0: i128 = u * (w * w);
    let c1: i128 = u * u * w;
    let g0: i128 = (m0 as i128) * h;
    let g1: i128 = (m1 as i128) * h;
    proof {
        lemma_mul_bound(65536 * h3, a.y as int, 18445899661664256000, 65535);
        lemma_mul_bound_signed(65536 * dy, bump as int, 4294901760, 844386276016125);
        lemma_mul_bound_signed(g0 as int, c0 as int, 281466386841600, 281462092005375);
        lemma_mul_bound_signed(g1 as int, c1 as int, 281466386841600, 281462092005375);
        assert(h3 > 0) by (nonlinear_arith)
            requires
                h3 == h * h * h,
                h > 0,
        ;
    }
    let num: i128 = 65536 * h3 * (a.y as i128) + 65536 * dy * bump + g0 * c0 - g1 * c1;
    let den: i128 = 65536 * h3;
    quantize_ratio(num, den)
}

/// Entry `i` of the table of the curve through the points `p` with the
/// tangents `m`.
pub fn curve_entry(p: &Vec<ControlPoint>, m: &Vec<i64>, i: usize) -> (e: u8)
    requires
        p.len() >= 2,
        m.len() == p.len(),
        forall|j: int| 0 <= j < m.len() ==> tangent_in_range(#[trigger] m[j] as int),
        i < 256,
    ensures
        e == quantize(curve_value(p@, as_ints(m@), level_position(i as int))),
{
    let n = p.len();
    let x: u16 = (257 * i) as u16;
    let first = p[0];
    let last = p[n - 1];
    if x <= first.x {
        if first.x > 0 {
            proof {
                lemma_mul_bound(x as int, first.y as int, 65535, 65535);
            }
            quantize_ratio((x as i128) * (first.y as i128), first.x as i128)
        } else {
            quantize_ratio(first.y as i128, 1)
        }
    } else if x >= last.x {
        if last.x < 65535 {
            let run: i128 = 65535 - last.x as i128;
            let rise: i128 = 65535 - last.y as i128;
            proof {
                lemma_mul_bound(last.y as int, run as int, 65535, 65535);
                lemma_mul_bound(x - last.x, rise as int, 65535, 65535);
            }
            quantize_ratio((last.y as i128) * run + ((x - last.x) as i128) * rise, run)
        } else {
            quantize_ratio(last.y as i128, 1)
        }
    } else {
        let mut k: usize = 0;
        while k + 2 < n && x > p[k + 1].x
            invariant
                n == p.len(),
                k + 2 <= n,
                x > p[k as int].x,
                segment_from(p@, x as int, 0) == segment_from(p@, x as int, k as int),
            decreases n - k,
        {
            k = k + 1;
        }
        assert(x <= p[k + 1].x);
        let a = p[k];
        let b = p[k + 1];
        assert(as_ints(m@)[k as int] == m[k as int] && as_ints(m@)[k + 1] == m[k + 1]);
        proof {
            let h = b.x - a.x;
            assert(h * h * h == (b.x - a.x) * (b.x - a.x) * (b.x - a.x));
        }
        hermite_entry(a, b, m[k], m[k + 1], x - a.x)
    }
}

/// The transfer table of the tone curve through `points`.
///
/// Entry `i` answers the input level `i / 255`. The points may come in any
/// order; points of equal `x` keep theirs. Without points the table is the
/// identity, and one point gives a constant table.
pub fn interpolate_spline(points: &[ControlPoint]) -> (lut: [u8; 256])
    ensures
        lut@ == curve_lut(points@),
{
    let mut lut: [u8; 256] = [0u8; 256];
    if points.len() == 0 {
        let mut i: usize = 0;
        while i < 256
            invariant
                i <= 256,
                points.len() == 0,
                forall|j: int| 0 <= j < i ==> lut[j] == curve_level(points@, j),
            decreases 256 - i,
        {
            lut[i] = i as u8;
            i = i + 1;
        }
        assert(lut@ =~= curve_lut(points@));
        return lut;
    }
    if points.len() == 1 {
        let level: u8 = (points[0].y / 257) as u8;
        let mut i: usize = 0;
        while i < 256
            invariant
                i <= 256,
                points.len() == 1,
                level == points[0].y / 257,
                forall|j: int| 0 <= j < i ==> lut[j] == curve_level(points@, j),
            decreases 256 - i,
        {
            lut[i] = level;
            i = i + 1;
        }
        assert(lut@ =~= curve_lut(points@));
        return lut;
    }
    let p = sorted(points);
    proof {
        lemma_sort_ordered(points@);
    }
    let m = curve_tangents(&p);
    let mut i: usize = 0;
    while i < 256
        invariant
            i <= 256,
            points.len() >= 2,
            p@ == sort_by_place(points@),
            p.len() == points.len(),
            m.len() == p.len(),
            as_ints(m@) == tangents(p@),
            forall|j: int| 0 <= j < m.len() ==> tangent_in_range(#[trigger] m[j] as int),
            forall|j: int| 0 <= j < i ==> lut[j] == curve_level(points@, j),
        decreases 256 - i,
    {
        lut[i] = curve_entry(&p, &m, i);
        i = i + 1;
    }
    assert(lut@ =~= curve_lut(points@));
    lut
}

/// The tone-curve table as the GPU takes it: for each level the grey value in
/// red, green and blue, and a full alpha.
pub open spec fn grey_lut_bytes(lut: Seq<u8>) -> Seq<u8> {
    Seq::new(
        1024,
        |k: int|
            if k % 4 == 3 {
                255u8
            } else {
                lut[k / 4]
            },
    )
}

/// Spreads a transfer table over red, green and blue, with a full alpha: the
/// content of the tone-curve texture.
pub fn expand_curve_lut(lut: &[u8; 256]) -> (data: [u8; 1024])
    ensures
        data@ == grey_lut_bytes(lut@),
{
    let mut data: [u8; 1024] = [0u8; 1024];
    let mut i: usize = 0;
    while i < 256
        invariant
            i <= 256,
            forall|k: int| 0 <= k < 4 * i ==> data[k] == grey_lut_bytes(lut@)[k],
        decreases 256 - i,
    {
        data[i * 4] = lut[i];
        data[i * 4 + 1] = lut[i];
        data[i * 4 + 2] = lut[i];
        data[i * 4 + 3] = 255;
        i = i + 1;
    }
    assert(data@ =~= grey_lut_bytes(lut@));
    data
}

/// The table is a function of the points alone: what two evaluations of the
/// same points give is the same, byte for byte.
pub proof fn lemma_curve_lut_repeatable(points: Seq<ControlPoint>, first: Seq<u8>, second: Seq<u8>)
    requires
        first == curve_lut(points),
        second == curve_lut(points),
    ensures
        first == second,
        first.len() == 256,
{
}

} // verus!
