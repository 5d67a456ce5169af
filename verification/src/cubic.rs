//! The algebra of one segment of the curve: the cubic as a polynomial in the
//! offset from the left end, its slope as a quadratic form, and the circle
//! of radius 3 inside which the slope is never negative.

use vstd::prelude::*;

verus! {

/// The part of the cubic that depends on the offset `u`, on a segment of
/// width `h`: `d` weighs the rise, `a` and `b` are the end tangents times `h`.
pub open spec fn rise_form(a: int, b: int, d: int, h: int, u: int) -> int {
    d * (u * u * (3 * h - 2 * u)) + a * (u * ((h - u) * (h - u))) - b * (u * u * (h - u))
}

/// The derivative of `rise_form` at the offset `p`, with `q = h - p`, as a
/// quadratic form in `p` and `q`.
pub open spec fn slope_form(a: int, b: int, d: int, p: int, q: int) -> int {
    d * (6 * (p * q)) + a * (q * q - 2 * (p * q)) + b * (p * p - 2 * (p * q))
}

/// The products of the neighbours of `u` and `w`, by the products of `u` and
/// `w` themselves.
proof fn lemma_neighbour_products(u: int, w: int)
    ensures
        (u + 1) * (u + 1) == u * u + 2 * u + 1,
        (w - 1) * (w - 1) == w * w - 2 * w + 1,
        (u + 1) * (w - 1) == u * w - u + w - 1,
        (2 * u + 1) * (2 * w - 1) == 4 * (u * w) - 2 * u + 2 * w - 1,
        (2 * u + 1) * (2 * u + 1) == 4 * (u * u) + 4 * u + 1,
        (2 * w - 1) * (2 * w - 1) == 4 * (w * w) - 4 * w + 1,
{
    assert((u + 1) * (u + 1) == u * u + 2 * u + 1) by (nonlinear_arith);
    assert((w - 1) * (w - 1) == w * w - 2 * w + 1) by (nonlinear_arith);
    assert((u + 1) * (w - 1) == u * w - u + w - 1) by (nonlinear_arith);
    assert((2 * u + 1) * (2 * w - 1) == 4 * (u * w) - 2 * u + 2 * w - 1) by (nonlinear_arith);
    assert((2 * u + 1) * (2 * u + 1) == 4 * (u * u) + 4 * u + 1) by (nonlinear_arith);
    assert((2 * w - 1) * (2 * w - 1) == 4 * (w * w) - 4 * w + 1) by (nonlinear_arith);
}

/// Simpson's rule over one step, on the part that the rise weighs.
proof fn lemma_step_of_rise(h: int, u: int)
    ensures
        6 * ((u + 1) * (u + 1) * (3 * h - 2 * u - 2) - u * u * (3 * h - 2 * u)) == 6 * (u * (h
            - u)) + 6 * ((2 * u + 1) * (2 * h - 2 * u - 1)) + 6 * ((u + 1) * (h - u - 1)),
{
    let w = h - u;
    let a = u * u;
    let c = 3 * h - 2 * u;
    let k = 2 * u + 1;
    lemma_neighbour_products(u, w);
    assert((a + k) * (c - 2) - a * c == k * (c - 2) - 2 * a) by (nonlinear_arith);
    assert(k * (c - 2) == 3 * (k * (w - 1)) + k * (u + 1)) by (nonlinear_arith)
        requires
            c - 2 == 3 * (w - 1) + (u + 1),
    ;
    assert(k * (w - 1) == 2 * (u * w) - 2 * u + w - 1) by (nonlinear_arith)
        requires
            k == 2 * u + 1,
    ;
    assert(k * (u + 1) == 2 * (u * u) + 3 * u + 1) by (nonlinear_arith)
        requires
            k == 2 * u + 1,
    ;
}

/// Simpson's rule over one step, on the part that the left tangent weighs.
proof fn lemma_step_of_left(h: int, u: int)
    ensures
        6 * ((u + 1) * ((h - u - 1) * (h - u - 1)) - u * ((h - u) * (h - u))) == ((h - u) * (h - u)
            - 2 * (u * (h - u))) + ((2 * h - 2 * u - 1) * (2 * h - 2 * u - 1) - 2 * ((2 * u + 1)
            * (2 * h - 2 * u - 1))) + ((h - u - 1) * (h - u - 1) - 2 * ((u + 1) * (h - u - 1))),
{
    let w = h - u;
    let ww = w * w;
    let k = 1 - 2 * w;
    lemma_neighbour_products(u, w);
    assert((u + 1) * (ww + k) - u * ww == ww + (u + 1) * k) by (nonlinear_arith);
    assert((u + 1) * k == u + 1 - 2 * (u * w) - 2 * w) by (nonlinear_arith)
        requires
            k == 1 - 2 * w,
    ;
}

/// Simpson's rule over one step, on the part that the right tangent weighs.
proof fn lemma_step_of_right(h: int, u: int)
    ensures
        6 * (u * u * (h - u) - (u + 1) * (u + 1) * (h - u - 1)) == (u * u - 2 * (u * (h - u))) + ((2
            * u + 1) * (2 * u + 1) - 2 * ((2 * u + 1) * (2 * h - 2 * u - 1))) + ((u + 1) * (u + 1)
            - 2 * ((u + 1) * (h - u - 1))),
{
    let w = h - u;
    let a = u * u;
    let k = 2 * u + 1;
    lemma_neighbour_products(u, w);
    assert(a * w - (a + k) * (w - 1) == a - k * (w - 1)) by (nonlinear_arith);
    assert(k * (w - 1) == 2 * (u * w) - 2 * u + w - 1) by (nonlinear_arith)
        requires
            k == 2 * u + 1,
    ;
}

/// A weight carried through a difference and a sum of three.
proof fn lemma_weigh(w: int, r1: int, r2: int, t1: int, t2: int, t3: int)
    requires
        6 * (r2 - r1) == t1 + t2 + t3,
    ensures
        6 * (w * r2 - w * r1) == w * t1 + w * t2 + w * t3,
{
    let r = r2 - r1;
    let t = t1 + t2 + t3;
    assert(w * r2 - w * r1 == w * r) by (nonlinear_arith)
        requires
            r == r2 - r1,
    ;
    assert(6 * (w * r) == w * (6 * r)) by (nonlinear_arith);
    assert(w * (6 * r) == w * t);
    assert(w * t == w * t1 + w * t2 + w * t3) by (nonlinear_arith)
        requires
            t == t1 + t2 + t3,
    ;
}

/// Simpson's rule is exact on a quadratic: six times the rise over one step
/// is the slope at both ends plus four times the slope in the middle. The
/// middle is taken at twice the scale, which makes its slope four times as
/// large.
pub proof fn lemma_rise_step(a: int, b: int, d: int, h: int, u: int)
    ensures
        6 * (rise_form(a, b, d, h, u + 1) - rise_form(a, b, d, h, u)) == slope_form(
            a,
            b,
            d,
            u,
            h - u,
        ) + slope_form(a, b, d, 2 * u + 1, 2 * h - 2 * u - 1) + slope_form(
            a,
            b,
            d,
            u + 1,
            h - u - 1,
        ),
{
    let pa = u;
    let qa = h - u;
    let pb = 2 * u + 1;
    let qb = 2 * h - 2 * u - 1;
    let pc = u + 1;
    let qc = h - u - 1;
    lemma_step_of_rise(h, u);
    lemma_step_of_left(h, u);
    lemma_step_of_right(h, u);
    lemma_weigh(
        d,
        u * u * (3 * h - 2 * u),
        (u + 1) * (u + 1) * (3 * h - 2 * u - 2),
        6 * (pa * qa),
        6 * (pb * qb),
        6 * (pc * qc),
    );
    lemma_weigh(
        a,
        u * ((h - u) * (h - u)),
        (u + 1) * ((h - u - 1) * (h - u - 1)),
        qa * qa - 2 * (pa * qa),
        qb * qb - 2 * (pb * qb),
        qc * qc - 2 * (pc * qc),
    );
    lemma_weigh(
        b,
        (u + 1) * (u + 1) * (h - u - 1),
        u * u * (h - u),
        pa * pa - 2 * (pa * qa),
        pb * pb - 2 * (pb * qb),
        pc * pc - 2 * (pc * qc),
    );
}

/// Inside the circle of radius 3 the slope is never negative.
pub proof fn lemma_slope_form_nonnegative(a: int, b: int, d: int, p: int, q: int)
    requires
        a >= 0,
        b >= 0,
        d >= 0,
        a * a + b * b <= 9 * (d * d),
        p >= 0,
        q >= 0,
    ensures
        slope_form(a, b, d, p, q) >= 0,
{
    let c = a + b - 3 * d;
    let x = p * q;
    let y = q * q;
    let z = p * p;
    assert(x >= 0 && y >= 0 && z >= 0) by (nonlinear_arith)
        requires
            p >= 0,
            q >= 0,
            x == p * q,
            y == q * q,
            z == p * p,
    ;
    assert(slope_form(a, b, d, p, q) == a * y + b * z - 2 * x * c) by {
        assert(d * (6 * x) + a * (y - 2 * x) + b * (z - 2 * x) == a * y + b * z - 2 * x * c)
            by (nonlinear_arith)
            requires
                c == a + b - 3 * d,
        ;
    }
    if c <= 0 {
        assert(a * y + b * z - 2 * x * c >= 0) by (nonlinear_arith)
            requires
                a >= 0,
                b >= 0,
                x >= 0,
                y >= 0,
                z >= 0,
                c <= 0,
        ;
    } else {
        assert(c <= 6 * d) by (nonlinear_arith)
            requires
                a >= 0,
                b >= 0,
                d >= 0,
                a * a + b * b <= 9 * (d * d),
                c == a + b - 3 * d,
        ;
        assert(a * b >= c * c) by (nonlinear_arith)
            requires
                a * a + b * b <= 9 * (d * d),
                c == a + b - 3 * d,
                0 < c <= 6 * d,
        ;
        assert(a > 0) by (nonlinear_arith)
            requires
                a >= 0,
                a * b >= c * c,
                c > 0,
        ;
        let form = a * y + b * z - 2 * x * c;
        assert(a * form >= 0) by (nonlinear_arith)
            requires
                form == a * (q * q) + b * (p * p) - 2 * (p * q) * c,
                a * b >= c * c,
        ;
        assert(form >= 0) by (nonlinear_arith)
            requires
                a * form >= 0,
                a > 0,
        ;
    }
}

/// Inside the circle of radius 3 the cubic does not fall from one offset to
/// the next.
pub proof fn lemma_rise_form_step_up(a: int, b: int, d: int, h: int, u: int)
    requires
        a >= 0,
        b >= 0,
        d >= 0,
        a * a + b * b <= 9 * (d * d),
        0 <= u < h,
    ensures
        rise_form(a, b, d, h, u) <= rise_form(a, b, d, h, u + 1),
{
    lemma_rise_step(a, b, d, h, u);
    lemma_slope_form_nonnegative(a, b, d, u, h - u);
    lemma_slope_form_nonnegative(a, b, d, 2 * u + 1, 2 * h - 2 * u - 1);
    lemma_slope_form_nonnegative(a, b, d, u + 1, h - u - 1);
}

/// Inside the circle of radius 3 the cubic does not fall.
pub proof fn lemma_rise_form_monotone(a: int, b: int, d: int, h: int, u1: int, u2: int)
    requires
        a >= 0,
        b >= 0,
        d >= 0,
        a * a + b * b <= 9 * (d * d),
        0 <= u1 <= u2 <= h,
    ensures
        rise_form(a, b, d, h, u1) <= rise_form(a, b, d, h, u2),
    decreases u2 - u1,
{
    if u1 < u2 {
        lemma_rise_form_monotone(a, b, d, h, u1, u2 - 1);
        lemma_rise_form_step_up(a, b, d, h, u2 - 1);
    }
}

} // verus!
