//! The colour gradient: stops along the input range and the piecewise-linear
//! ramp that turns them into a 256-entry remap table.

use vstd::prelude::*;
use vstd::arithmetic::div_mod::lemma_div_is_ordered;
use crate::arith::{clamp_to, lemma_mul_bound, magnitude};
use crate::order::{
    insert_by_place, insert_index, lemma_insert_index, lemma_insert_ordered, ordered,
    sort_by_place, Placed,
};

verus! {

/// A colour without alpha.
#[derive(Clone, Copy, Debug, PartialEq, Eq, Structural)]
pub struct Rgb {
    pub r: u8,
    pub g: u8,
    pub b: u8,
}

/// An anchor of the gradient. `id` names the stop for its whole life and has
/// no part in the ramp; `pos` is normalised to 16 bits: 0 is 0.0 and 65535 is
/// 1.0.
#[derive(Clone, Copy, Debug, PartialEq, Eq, Structural)]
pub struct GradientStop {
    pub id: u64,
    pub pos: u16,
    pub color: Rgb,
}

impl Placed for GradientStop {
    /// A stop has its place at its position.
    open spec fn place(&self) -> int {
        self.pos as int
    }

    fn place_of(&self) -> (k: u16) {
        self.pos
    }
}

/// The index of the lower stop for the position `t` once the first `n` stops
/// have been looked at. It starts at the first stop; a stop that is not right
/// of `t` and not left of the present choice takes its place.
pub open spec fn lower_after(stops: Seq<GradientStop>, t: int, n: nat) -> int
    decreases n,
{
    if n == 0 {
        0
    } else {
        let l = lower_after(stops, t, (n - 1) as nat);
        if stops[n - 1].pos <= t && stops[n - 1].pos >= stops[l].pos {
            n - 1
        } else {
            l
        }
    }
}

/// The index of the upper stop for the position `t` once the first `n` stops
/// have been looked at. It starts at the last stop; a stop that is not left
/// of `t` and not right of the present choice takes its place.
pub open spec fn upper_after(stops: Seq<GradientStop>, t: int, n: nat) -> int
    decreases n,
{
    if n == 0 {
        stops.len() - 1
    } else {
        let u = upper_after(stops, t, (n - 1) as nat);
        if stops[n - 1].pos >= t && stops[n - 1].pos <= stops[u].pos {
            n - 1
        } else {
            u
        }
    }
}

/// The index of the stop that bounds `t` from below.
pub open spec fn lower_stop(stops: Seq<GradientStop>, t: int) -> int {
    lower_after(stops, t, stops.len())
}

/// The index of the stop that bounds `t` from above.
pub open spec fn upper_stop(stops: Seq<GradientStop>, t: int) -> int {
    upper_after(stops, t, stops.len())
}

/// Two positions are closer than a ten-thousandth of the range, too close to
/// divide by their distance.
pub open spec fn coincide(a: int, b: int) -> bool {
    magnitude(b - a) * 10000 < 65535
}

/// One channel between two stops: `lo` at the position `lpos`, `hi` at `upos`,
/// read at `t`, rounded down and held to the range of a byte.
pub open spec fn blend(lo: int, hi: int, lpos: int, upos: int, t: int) -> int {
    let span = upos - lpos;
    let num = lo * (upos - t) + hi * (t - lpos);
    if span > 0 {
        clamp_to(num / span, 0, 255)
    } else {
        clamp_to((-num) / (-span), 0, 255)
    }
}

/// The colour of the gradient at input level `i`.
pub open spec fn gradient_color(stops: Seq<GradientStop>, i: int) -> Rgb {
    let t = 257 * i;
    let lo = stops[lower_stop(stops, t)];
    let hi = stops[upper_stop(stops, t)];
    if coincide(lo.pos as int, hi.pos as int) {
        lo.color
    } else {
        Rgb {
            r: blend(lo.color.r as int, hi.color.r as int, lo.pos as int, hi.pos as int, t) as u8,
            g: blend(lo.color.g as int, hi.color.g as int, lo.pos as int, hi.pos as int, t) as u8,
            b: blend(lo.color.b as int, hi.color.b as int, lo.pos as int, hi.pos as int, t) as u8,
        }
    }
}

/// Byte `k` of the remap table: red, green, blue and a full alpha for each of
/// the 256 levels.
pub open spec fn gradient_byte(stops: Seq<GradientStop>, k: int) -> u8 {
    let c = gradient_color(stops, k / 4);
    if k % 4 == 0 {
        c.r
    } else if k % 4 == 1 {
        c.g
    } else if k % 4 == 2 {
        c.b
    } else {
        255
    }
}

/// The remap table of the gradient through `stops`: 1024 bytes.
pub open spec fn gradient_lut(stops: Seq<GradientStop>) -> Seq<u8> {
    Seq::new(1024, |k: int| gradient_byte(stops, k))
}

/// The stops chosen so far are stops.
pub proof fn lemma_bracket_in_range(stops: Seq<GradientStop>, t: int, n: nat)
    requires
        stops.len() >= 1,
        n <= stops.len(),
    ensures
        0 <= lower_after(stops, t, n) < stops.len(),
        0 <= upper_after(stops, t, n) < stops.len(),
    decreases n,
{
    if n > 0 {
        lemma_bracket_in_range(stops, t, (n - 1) as nat);
    }
}

/// One channel between two stops.
pub fn blend_channel(lo: u8, hi: u8, lpos: u16, upos: u16, t: u16) -> (c: u8)
    requires
        lpos != upos,
    ensures
        c == blend(lo as int, hi as int, lpos as int, upos as int, t as int),
{
    let span: i64 = upos as i64 - lpos as i64;
    proof {
        lemma_mul_bound(lo as int, magnitude(upos - t), 255, 65535);
        lemma_mul_bound(hi as int, magnitude(t - lpos), 255, 65535);
        assert(lo * (upos - t) == lo * magnitude(upos - t) || lo * (upos - t) == -(lo * magnitude(
            upos - t,
        ))) by (nonlinear_arith);
        assert(hi * (t - lpos) == hi * magnitude(t - lpos) || hi * (t - lpos) == -(hi * magnitude(
            t - lpos,
        ))) by (nonlinear_arith);
    }
    let num: i64 = (lo as i64) * (upos as i64 - t as i64) + (hi as i64) * (t as i64 - lpos as i64);
    let (n, d): (i64, i64) = if span > 0 {
        (num, span)
    } else {
        (-num, -span)
    };
    if n <= 0 {
        assert(n as int / d as int <= 0) by (nonlinear_arith)
            requires
                n <= 0,
                d > 0,
        ;
        0
    } else {
        let q: i64 = n / d;
        assert(q >= 0) by (nonlinear_arith)
            requires
                q == n as int / d as int,
                n > 0,
                d > 0,
        ;
        if q > 255 {
            255
        } else {
            q as u8
        }
    }
}

/// The colour of the gradient at input level `i`.
pub fn gradient_entry(stops: &[GradientStop], i: usize) -> (c: Rgb)
    requires
        stops.len() >= 1,
        i < 256,
    ensures
        c == gradient_color(stops@, i as int),
{
    let t: u16 = (257 * i) as u16;
    let mut lower: usize = 0;
    let mut upper: usize = stops.len() - 1;
    let mut k: usize = 0;
    while k < stops.len()
        invariant
            k <= stops.len(),
            lower < stops.len(),
            upper < stops.len(),
            lower == lower_after(stops@, t as int, k as nat),
            upper == upper_after(stops@, t as int, k as nat),
        decreases stops.len() - k,
    {
        let pos = stops[k].pos;
        if pos <= t && pos >= stops[lower].pos {
            lower = k;
        }
        if pos >= t && pos <= stops[upper].pos {
            upper = k;
        }
        k = k + 1;
    }
    let lo = stops[lower];
    let hi = stops[upper];
    let gap: u32 = if hi.pos >= lo.pos {
        (hi.pos - lo.pos) as u32
    } else {
        (lo.pos - hi.pos) as u32
    };
    if gap * 10000 < 65535 {
        lo.color
    } else {
        Rgb {
            r: blend_channel(lo.color.r, hi.color.r, lo.pos, hi.pos, t),
            g: blend_channel(lo.color.g, hi.color.g, lo.pos, hi.pos, t),
            b: blend_channel(lo.color.b, hi.color.b, lo.pos, hi.pos, t),
        }
    }
}

/// Fills `data` with the remap table of the gradient through `stops`: for
/// each of the 256 input levels the red, green and blue of the ramp at that
/// level, and a full alpha.
pub fn generate_gradient_data(stops: &[GradientStop], data: &mut [u8; 1024])
    requires
        stops.len() >= 1,
    ensures
        final(data)@ == gradient_lut(stops@),
{
    let mut i: usize = 0;
    while i < 256
        invariant
            i <= 256,
            stops.len() >= 1,
            forall|k: int| 0 <= k < 4 * i ==> data[k] == gradient_byte(stops@, k),
        decreases 256 - i,
    {
        let c = gradient_entry(stops, i);
        data[i * 4] = c.r;
        data[i * 4 + 1] = c.g;
        data[i * 4 + 2] = c.b;
        data[i * 4 + 3] = 255;
        i = i + 1;
    }
    assert(data@ =~= gradient_lut(stops@));
}

/// Among ordered stops the lower stop is the last one that is not right of
/// `t`, and the first stop where every stop is right of `t`.
pub proof fn lemma_lower_after_ordered(stops: Seq<GradientStop>, t: int, n: nat)
    requires
        stops.len() >= 1,
        ordered(stops),
        n <= stops.len(),
    ensures
        (forall|k: int| 0 <= k < n ==> stops[k].pos > t) ==> lower_after(stops, t, n) == 0,
        forall|k: int|
            0 <= k < n && #[trigger] stops[k].pos <= t ==> {
                &&& k <= lower_after(stops, t, n) < n
                &&& stops[lower_after(stops, t, n)].pos <= t
            },
    decreases n,
{
    if n > 0 {
        lemma_lower_after_ordered(stops, t, (n - 1) as nat);
        lemma_bracket_in_range(stops, t, (n - 1) as nat);
        let l = lower_after(stops, t, (n - 1) as nat);
        if stops[n - 1].pos <= t {
            if l >= n {
                assert(forall|k: int| 0 <= k < n - 1 ==> stops[k].pos > t);
            }
            assert(stops[l].pos <= stops[n - 1].pos);
        }
    }
}

/// Among ordered stops the upper stop has the least position that is not left
/// of `t` and is the last stop at that position; it is the last stop of all
/// where every stop is left of `t`.
pub proof fn lemma_upper_after_ordered(stops: Seq<GradientStop>, t: int, n: nat)
    requires
        stops.len() >= 1,
        ordered(stops),
        n <= stops.len(),
    ensures
        (forall|k: int| 0 <= k < n ==> stops[k].pos < t) ==> upper_after(stops, t, n) == stops.len()
            - 1,
        forall|k: int|
            0 <= k < n && #[trigger] stops[k].pos >= t ==> {
                &&& upper_after(stops, t, n) < n
                &&& t <= stops[upper_after(stops, t, n)].pos <= stops[k].pos
                &&& stops[k].pos == stops[upper_after(stops, t, n)].pos ==> k <= upper_after(
                    stops,
                    t,
                    n,
                )
            },
    decreases n,
{
    if n > 0 {
        lemma_upper_after_ordered(stops, t, (n - 1) as nat);
        lemma_bracket_in_range(stops, t, (n - 1) as nat);
        let u = upper_after(stops, t, (n - 1) as nat);
        let s = stops[n - 1];
        if s.pos >= t {
            if forall|k: int| 0 <= k < n - 1 ==> stops[k].pos < t {
                assert(s.pos <= stops[stops.len() - 1].pos);
            } else {
                let w = choose|w: int| 0 <= w < n - 1 && stops[w].pos >= t;
                assert(stops[w].pos >= t);
                assert(stops[u].pos <= stops[w].pos <= s.pos);
            }
            assert forall|k: int| 0 <= k < n && #[trigger] stops[k].pos >= t implies stops[k].pos
                >= stops[upper_after(stops, t, n)].pos by {
                if k < n - 1 {
                    assert(stops[u].pos <= stops[k].pos);
                }
            }
        }
    }
}

/// Among ordered stops, the two chosen for a level either hold the level
/// between them or lie at one position.
pub proof fn lemma_bracket_ordered(stops: Seq<GradientStop>, t: int)
    requires
        stops.len() >= 1,
        ordered(stops),
    ensures
        0 <= lower_stop(stops, t) < stops.len(),
        0 <= upper_stop(stops, t) < stops.len(),
        stops[lower_stop(stops, t)].pos == stops[upper_stop(stops, t)].pos || stops[lower_stop(
            stops,
            t,
        )].pos <= t <= stops[upper_stop(stops, t)].pos,
{
    let n = stops.len();
    lemma_bracket_in_range(stops, t, n);
    lemma_lower_after_ordered(stops, t, n);
    lemma_upper_after_ordered(stops, t, n);
    let l = lower_stop(stops, t);
    let u = upper_stop(stops, t);
    if forall|k: int| 0 <= k < n ==> stops[k].pos > t {
        assert(l == 0);
        assert(stops[0].pos >= t);
        assert(stops[u].pos <= stops[0].pos);
        assert(stops[0].pos <= stops[u].pos);
    } else if forall|k: int| 0 <= k < n ==> stops[k].pos < t {
        assert(u == n - 1);
        assert(stops[n - 1].pos <= t);
        assert(n - 1 <= l);
    } else {
        let a = choose|a: int| 0 <= a < n && !(stops[a].pos > t);
        let b = choose|b: int| 0 <= b < n && !(stops[b].pos < t);
        assert(stops[a].pos <= t);
        assert(stops[b].pos >= t);
    }
}

/// Where the two stops chosen for a level lie closer together than a
/// ten-thousandth of the range, the colour of the lower stop is taken as it
/// is and nothing is divided.
pub proof fn lemma_coinciding_stops_take_lower(stops: Seq<GradientStop>, i: int)
    requires
        stops.len() >= 1,
        0 <= i < 256,
        coincide(
            stops[lower_stop(stops, 257 * i)].pos as int,
            stops[upper_stop(stops, 257 * i)].pos as int,
        ),
    ensures
        gradient_color(stops, i) == stops[lower_stop(stops, 257 * i)].color,
        gradient_lut(stops)[4 * i] == stops[lower_stop(stops, 257 * i)].color.r,
        gradient_lut(stops)[4 * i + 1] == stops[lower_stop(stops, 257 * i)].color.g,
        gradient_lut(stops)[4 * i + 2] == stops[lower_stop(stops, 257 * i)].color.b,
        gradient_lut(stops)[4 * i + 3] == 255,
{
    assert(gradient_lut(stops)[4 * i] == gradient_byte(stops, 4 * i));
    assert(gradient_lut(stops)[4 * i + 1] == gradient_byte(stops, 4 * i + 1));
    assert(gradient_lut(stops)[4 * i + 2] == gradient_byte(stops, 4 * i + 2));
    assert(gradient_lut(stops)[4 * i + 3] == gradient_byte(stops, 4 * i + 3));
}

/// Two stops at one position never divide by their distance: a level that
/// falls on them takes the colour of the last stop there.
pub proof fn lemma_stops_at_one_position(stops: Seq<GradientStop>, i: int, k: int)
    requires
        ordered(stops),
        0 <= i < 256,
        0 <= k < stops.len(),
        stops[k].pos == 257 * i,
        k == stops.len() - 1 || stops[k + 1].pos > 257 * i,
    ensures
        lower_stop(stops, 257 * i) == k,
        upper_stop(stops, 257 * i) == k,
        gradient_color(stops, i) == stops[k].color,
{
    let t = 257 * i;
    let n = stops.len();
    lemma_bracket_in_range(stops, t, n);
    lemma_lower_after_ordered(stops, t, n);
    lemma_upper_after_ordered(stops, t, n);
    let l = lower_stop(stops, t);
    let u = upper_stop(stops, t);
    assert(stops[k].pos <= t);
    assert(stops[k].pos >= t);
    if l > k {
        assert(stops[k + 1].pos <= stops[l].pos);
    }
    if u > k {
        assert(stops[k + 1].pos <= stops[u].pos);
    }
}

/// A blend of two channel values lies between them where the position read
/// lies between the two stops.
pub proof fn lemma_blend_between(lo: int, hi: int, lpos: int, upos: int, t: int)
    requires
        0 <= lo <= 255,
        0 <= hi <= 255,
        lpos <= t <= upos,
        lpos < upos,
    ensures
        lo <= hi ==> lo <= blend(lo, hi, lpos, upos, t) <= hi,
        hi <= lo ==> hi <= blend(lo, hi, lpos, upos, t) <= lo,
{
    let span = upos - lpos;
    let a = upos - t;
    let b = t - lpos;
    let num = lo * a + hi * b;
    if lo <= hi {
        assert(lo * span <= num <= hi * span) by (nonlinear_arith)
            requires
                num == lo * a + hi * b,
                span == a + b,
                a >= 0,
                b >= 0,
                lo <= hi,
        ;
        assert(lo <= num / span <= hi) by (nonlinear_arith)
            requires
                lo * span <= num <= hi * span,
                span > 0,
        ;
    }
    if hi <= lo {
        assert(hi * span <= num <= lo * span) by (nonlinear_arith)
            requires
                num == lo * a + hi * b,
                span == a + b,
                a >= 0,
                b >= 0,
                hi <= lo,
        ;
        assert(hi <= num / span <= lo) by (nonlinear_arith)
            requires
                hi * span <= num <= lo * span,
                span > 0,
        ;
    }
}

/// `c` lies between `a` and `b`, whichever of the two is larger.
pub open spec fn between(c: int, a: int, b: int) -> bool {
    (a <= c <= b) || (b <= c <= a)
}

/// Among ordered stops the ramp never leaves the colours of the two stops
/// around a level: each channel lies between theirs.
pub proof fn lemma_gradient_color_between(stops: Seq<GradientStop>, i: int)
    requires
        stops.len() >= 1,
        ordered(stops),
    ensures
        between(
            gradient_color(stops, i).r as int,
            stops[lower_stop(stops, 257 * i)].color.r as int,
            stops[upper_stop(stops, 257 * i)].color.r as int,
        ),
        between(
            gradient_color(stops, i).g as int,
            stops[lower_stop(stops, 257 * i)].color.g as int,
            stops[upper_stop(stops, 257 * i)].color.g as int,
        ),
        between(
            gradient_color(stops, i).b as int,
            stops[lower_stop(stops, 257 * i)].color.b as int,
            stops[upper_stop(stops, 257 * i)].color.b as int,
        ),
{
    let t = 257 * i;
    lemma_bracket_ordered(stops, t);
    let lo = stops[lower_stop(stops, t)];
    let hi = stops[upper_stop(stops, t)];
    if !coincide(lo.pos as int, hi.pos as int) {
        lemma_blend_between(lo.color.r as int, hi.color.r as int, lo.pos as int, hi.pos as int, t);
        lemma_blend_between(lo.color.g as int, hi.color.g as int, lo.pos as int, hi.pos as int, t);
        lemma_blend_between(lo.color.b as int, hi.color.b as int, lo.pos as int, hi.pos as int, t);
    }
}

/// Channel `k` of a colour: red, green and blue are channels 0, 1 and 2.
pub open spec fn channel(c: Rgb, k: int) -> int {
    if k == 0 {
        c.r as int
    } else if k == 1 {
        c.g as int
    } else {
        c.b as int
    }
}

/// Channel `k` does not fall from any stop to a later one.
pub open spec fn channel_rising(stops: Seq<GradientStop>, k: int) -> bool {
    forall|a: int, b: int|
        0 <= a <= b < stops.len() ==> channel(stops[a].color, k) <= channel(stops[b].color, k)
}

/// Between two stops of which the upper is not darker, the blend does not
/// fall as the position moves right.
pub proof fn lemma_blend_monotone(lo: int, hi: int, lpos: int, upos: int, t1: int, t2: int)
    requires
        0 <= lo <= hi <= 255,
        lpos <= t1 <= t2 <= upos,
        lpos < upos,
    ensures
        blend(lo, hi, lpos, upos, t1) <= blend(lo, hi, lpos, upos, t2),
{
    let span = upos - lpos;
    let n1 = lo * (upos - t1) + hi * (t1 - lpos);
    let n2 = lo * (upos - t2) + hi * (t2 - lpos);
    assert(n1 <= n2) by (nonlinear_arith)
        requires
            n1 == lo * (upos - t1) + hi * (t1 - lpos),
            n2 == lo * (upos - t2) + hi * (t2 - lpos),
            lo <= hi,
            t1 <= t2,
    ;
    lemma_div_is_ordered(n1, n2, span);
}

/// Among ordered stops the lower stop of a level is not behind its upper
/// stop.
pub proof fn lemma_lower_before_upper(stops: Seq<GradientStop>, t: int)
    requires
        stops.len() >= 1,
        ordered(stops),
    ensures
        0 <= lower_stop(stops, t) <= upper_stop(stops, t) < stops.len(),
{
    let n = stops.len();
    lemma_bracket_in_range(stops, t, n);
    lemma_lower_after_ordered(stops, t, n);
    lemma_upper_after_ordered(stops, t, n);
    let l = lower_stop(stops, t);
    let u = upper_stop(stops, t);
    if forall|k: int| 0 <= k < n ==> stops[k].pos < t {
    } else if forall|k: int| 0 <= k < n ==> stops[k].pos > t {
    } else {
        let a = choose|a: int| 0 <= a < n && !(stops[a].pos > t);
        let b = choose|b: int| 0 <= b < n && !(stops[b].pos < t);
        assert(stops[a].pos <= t);
        assert(stops[b].pos >= t);
        assert(stops[l].pos <= t <= stops[u].pos);
        if l > u {
            assert(stops[u].pos <= stops[l].pos);
            assert(stops[l].pos >= t);
        }
    }
}

/// Among ordered stops, of two levels the left one has its upper stop not
/// behind the lower stop of the right one, or both levels lie between the
/// same two stops.
pub proof fn lemma_brackets_in_order(stops: Seq<GradientStop>, t1: int, t2: int)
    requires
        stops.len() >= 1,
        ordered(stops),
        t1 <= t2,
    ensures
        upper_stop(stops, t1) <= lower_stop(stops, t2) || (lower_stop(stops, t1) == lower_stop(
            stops,
            t2,
        ) && upper_stop(stops, t1) == upper_stop(stops, t2)),
{
    let n = stops.len();
    lemma_bracket_in_range(stops, t1, n);
    lemma_bracket_in_range(stops, t2, n);
    lemma_lower_after_ordered(stops, t1, n);
    lemma_upper_after_ordered(stops, t1, n);
    lemma_lower_after_ordered(stops, t2, n);
    lemma_upper_after_ordered(stops, t2, n);
    let l1 = lower_stop(stops, t1);
    let u1 = upper_stop(stops, t1);
    let l2 = lower_stop(stops, t2);
    let u2 = upper_stop(stops, t2);
    if u1 > l2 {
        // the upper stop of the left level lies right of both levels
        if stops[u1].pos <= t2 {
            assert(u1 <= l2);
        }
        assert(stops[u1].pos > t2);
        assert(stops[u1].pos >= t1);
        // so no stop lies from the left level to the right level
        assert forall|k: int| 0 <= k < n && stops[k].pos >= t1 implies stops[k].pos > t2 by {
            assert(stops[u1].pos <= stops[k].pos);
        }
        assert(stops[u2].pos >= t2);
        assert(stops[u2].pos >= t1);
        assert(stops[u1].pos <= stops[u2].pos);
        assert(stops[u2].pos <= stops[u1].pos);
        assert(u1 == u2);
        if forall|k: int| 0 <= k < n ==> stops[k].pos > t2 {
            assert forall|k: int| 0 <= k < n implies stops[k].pos > t1 by {
                assert(stops[k].pos > t2);
            }
        } else {
            let a = choose|a: int| 0 <= a < n && !(stops[a].pos > t2);
            assert(stops[a].pos <= t2);
            assert(stops[l2].pos <= t2);
            if stops[l2].pos >= t1 {
                assert(stops[l2].pos > t2);
            }
            assert(stops[l2].pos <= t1);
            assert(l2 <= l1);
            assert(stops[l1].pos <= t1);
            assert(stops[l1].pos <= t2);
            assert(l1 <= l2);
        }
    }
}

/// Among ordered stops whose channel `k` does not fall from stop to stop, the
/// channel does not fall from level to level: the ramp rises with its stops.
pub proof fn lemma_gradient_channel_monotone(stops: Seq<GradientStop>, k: int, i: int, j: int)
    requires
        stops.len() >= 1,
        ordered(stops),
        channel_rising(stops, k),
        0 <= k < 3,
        0 <= i <= j < 256,
    ensures
        channel(gradient_color(stops, i), k) <= channel(gradient_color(stops, j), k),
{
    let t1 = 257 * i;
    let t2 = 257 * j;
    lemma_lower_before_upper(stops, t1);
    lemma_lower_before_upper(stops, t2);
    lemma_brackets_in_order(stops, t1, t2);
    lemma_gradient_color_between(stops, i);
    lemma_gradient_color_between(stops, j);
    let l1 = lower_stop(stops, t1);
    let u1 = upper_stop(stops, t1);
    let l2 = lower_stop(stops, t2);
    let u2 = upper_stop(stops, t2);
    let c1 = channel(gradient_color(stops, i), k);
    let c2 = channel(gradient_color(stops, j), k);
    assert(channel(stops[l1].color, k) <= channel(stops[u1].color, k));
    assert(channel(stops[l2].color, k) <= channel(stops[u2].color, k));
    assert(channel(stops[l1].color, k) <= c1 <= channel(stops[u1].color, k));
    assert(channel(stops[l2].color, k) <= c2 <= channel(stops[u2].color, k));
    if u1 <= l2 {
        assert(channel(stops[u1].color, k) <= channel(stops[l2].color, k));
    } else {
        let lo = stops[l1];
        let hi = stops[u1];
        if !coincide(lo.pos as int, hi.pos as int) {
            lemma_bracket_ordered(stops, t1);
            lemma_bracket_ordered(stops, t2);
            lemma_blend_monotone(
                channel(lo.color, k),
                channel(hi.color, k),
                lo.pos as int,
                hi.pos as int,
                t1,
                t2,
            );
        }
    }
}

/// The table is a function of the stops alone: what two evaluations of the
/// same stops give is the same, byte for byte.
pub proof fn lemma_gradient_lut_repeatable(
    stops: Seq<GradientStop>,
    first: Seq<u8>,
    second: Seq<u8>,
)
    requires
        first == gradient_lut(stops),
        second == gradient_lut(stops),
    ensures
        first == second,
        first.len() == 1024,
{
}

/// Some stop of `s` has the name `id`.
pub open spec fn has_id(s: Seq<GradientStop>, id: u64) -> bool {
    exists|k: int| 0 <= k < s.len() && #[trigger] s[k].id == id
}

/// No two stops of `s` have one name.
pub open spec fn ids_unique(s: Seq<GradientStop>) -> bool {
    forall|i: int, j: int| 0 <= i < j < s.len() ==> s[i].id != s[j].id
}

/// Inserting a stop keeps the order, adds the stop's name to the names, and
/// keeps the names apart if the new one was not taken.
pub proof fn lemma_insert_by_pos_keeps(s: Seq<GradientStop>, p: GradientStop)
    ensures
        insert_by_place(s, p).len() == s.len() + 1,
        ordered(s) ==> ordered(insert_by_place(s, p)),
        forall|id: u64| has_id(insert_by_place(s, p), id) <==> (has_id(s, id) || id == p.id),
        ids_unique(s) && !has_id(s, p.id) ==> ids_unique(insert_by_place(s, p)),
        forall|k: int|
            0 <= k < insert_by_place(s, p).len() ==> (#[trigger] insert_by_place(s, p)[k] == p || exists|
                w: int,
            |
                0 <= w < s.len() && s[w] == insert_by_place(s, p)[k]),
    decreases s.len(),
{
    // the index at which the new stop comes to stand
    let j = insert_index(s, p);
    lemma_insert_index(s, p);
    let r = s.insert(j, p);
    assert forall|id: u64| has_id(r, id) <==> (has_id(s, id) || id == p.id) by {
        if has_id(r, id) {
            let k = choose|k: int| 0 <= k < r.len() && #[trigger] r[k].id == id;
            if k < j {
                assert(s[k].id == id);
            } else if k > j {
                assert(s[k - 1].id == id);
            }
        }
        if has_id(s, id) {
            let k = choose|k: int| 0 <= k < s.len() && #[trigger] s[k].id == id;
            if k < j {
                assert(r[k].id == id);
            } else {
                assert(r[k + 1].id == id);
            }
        }
        if id == p.id {
            assert(r[j].id == id);
        }
    }
    if ordered(s) {
        lemma_insert_ordered(s, p);
    }
    if ids_unique(s) && !has_id(s, p.id) {
        assert forall|a: int, b: int| 0 <= a < b < r.len() implies r[a].id != r[b].id by {
            let a0 = if a < j {
                a
            } else {
                a - 1
            };
            let b0 = if b < j {
                b
            } else {
                b - 1
            };
            if a != j && b != j {
                assert(s[a0].id != s[b0].id);
            } else if a == j {
                assert(s[b0].id == r[b].id);
            } else {
                assert(s[a0].id == r[a].id);
            }
        }
    }
    assert forall|k: int| 0 <= k < r.len() implies (#[trigger] r[k] == p || exists|w: int|
        0 <= w < s.len() && s[w] == r[k]) by {
        if k < j {
            assert(s[k] == r[k]);
        } else if k > j {
            assert(s[k - 1] == r[k]);
        }
    }
}

/// Ordering the stops keeps their number, their names and their being
/// apart, and leaves them ordered.
pub proof fn lemma_sort_by_pos_keeps(s: Seq<GradientStop>)
    ensures
        sort_by_place(s).len() == s.len(),
        ordered(sort_by_place(s)),
        forall|id: u64| has_id(sort_by_place(s), id) <==> has_id(s, id),
        ids_unique(s) ==> ids_unique(sort_by_place(s)),
        forall|k: int|
            0 <= k < s.len() ==> exists|w: int|
                0 <= w < s.len() && s[w] == #[trigger] sort_by_place(s)[k],
    decreases s.len(),
{
    if s.len() > 0 {
        let t = s.drop_last();
        let p = s.last();
        lemma_sort_by_pos_keeps(t);
        let u = sort_by_place(t);
        lemma_insert_by_pos_keeps(u, p);
        let r = sort_by_place(s);
        assert forall|id: u64| has_id(r, id) <==> has_id(s, id) by {
            if has_id(t, id) {
                let k = choose|k: int| 0 <= k < t.len() && #[trigger] t[k].id == id;
                assert(s[k].id == id);
            }
            if has_id(s, id) {
                let k = choose|k: int| 0 <= k < s.len() && #[trigger] s[k].id == id;
                if k < t.len() {
                    assert(t[k].id == id);
                }
            }
            if id == p.id {
                assert(s[s.len() - 1].id == id);
            }
        }
        if ids_unique(s) {
            assert(ids_unique(t)) by {
                assert forall|i: int, j: int| 0 <= i < j < t.len() implies t[i].id != t[j].id by {
                    assert(s[i].id != s[j].id);
                }
            }
            if has_id(t, p.id) {
                let k = choose|k: int| 0 <= k < t.len() && #[trigger] t[k].id == p.id;
                assert(s[k].id != s[s.len() - 1].id);
            }
        }
        assert forall|k: int| 0 <= k < s.len() implies exists|w: int|
            0 <= w < s.len() && s[w] == #[trigger] r[k] by {
            if r[k] == p {
                assert(s[s.len() - 1] == r[k]);
            } else {
                let w = choose|w: int| 0 <= w < u.len() && u[w] == r[k];
                let v = choose|v: int| 0 <= v < t.len() && t[v] == u[w];
                assert(s[v] == r[k]);
            }
        }
    }
}

} // verus!
