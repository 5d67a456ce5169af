//! The control points of the tone curve under editing: a pointer grabs,
//! drags, adds and removes points, and the collection stays fit for the
//! evaluator whatever is done to it.

use vstd::prelude::*;
use crate::arith::magnitude;
use crate::order::{
    insert_by_place, lemma_insert_at, lemma_sort_fixes_ordered, ordered, sort_by_place,
};
use crate::spline::{
    curve_level, curve_lut, curve_value, hermite_numerator, initial_tangents, quantize,
    segment_from, tangents, tangents_after, ControlPoint, Ratio,
};

verus! {

/// The least distance in `x` between two neighbours: a thousandth of the
/// range, rounded up.
pub const MIN_GAP: u16 = 66;

/// Two positions are closer than `num / den` of the range.
pub open spec fn closer_than(a: int, b: int, num: int, den: int) -> bool {
    magnitude(a - b) * den < num * 65535
}

/// A pointer at `x` grabs a point at `px`: they are closer than 0.05.
pub open spec fn in_grab_reach(px: int, x: int) -> bool {
    closer_than(px, x, 1, 20)
}

/// A point at `px` is in the way of a new point at `x`: they are closer than
/// 0.02.
pub open spec fn in_the_way(px: int, x: int) -> bool {
    closer_than(px, x, 1, 50)
}

/// A pointer at `x` removes a point at `px`: they are closer than 0.03.
pub open spec fn in_remove_reach(px: int, x: int) -> bool {
    closer_than(px, x, 3, 100)
}

/// The collection as the editor keeps it: at least the two end points, the
/// first at the left edge and the last at the right edge, and every point at
/// least `MIN_GAP` right of every point before it.
pub open spec fn curve_well_formed(p: Seq<ControlPoint>) -> bool {
    &&& p.len() >= 2
    &&& p[0].x == 0
    &&& p[p.len() - 1].x == 65535
    &&& forall|i: int, j: int| 0 <= i < j < p.len() ==> p[i].x + 66 <= p[j].x
}

/// The straight curve from (0, 0) to (1, 1).
pub open spec fn identity_curve() -> Seq<ControlPoint> {
    seq![ControlPoint { x: 0, y: 0 }, ControlPoint { x: 65535, y: 65535 }]
}

/// `v` held to the range from `lo` to `hi`.
pub open spec fn clamp_x(v: u16, lo: int, hi: int) -> int {
    if v < lo {
        lo
    } else if v > hi {
        hi
    } else {
        v as int
    }
}

/// The collection after the point `i` has been dragged to (`x`, `y`). An end
/// point keeps its `x`. A point in between stays between its neighbours, at
/// least `MIN_GAP` away from each.
pub open spec fn dragged(p: Seq<ControlPoint>, i: int, x: u16, y: u16) -> Seq<ControlPoint> {
    if i == 0 || i == p.len() - 1 {
        p.update(i, ControlPoint { x: p[i].x, y })
    } else {
        p.update(
            i,
            ControlPoint { x: clamp_x(x, p[i - 1].x + 66, p[i + 1].x - 66) as u16, y },
        )
    }
}

/// The point that a pointer at `x` grabs is `g`: the nearest point if it is
/// within reach, among equally near ones the first; none if no point is
/// within reach.
pub open spec fn is_grabbed(p: Seq<ControlPoint>, x: int, g: Option<usize>) -> bool {
    match g {
        Some(i) => {
            &&& i < p.len()
            &&& in_grab_reach(p[i as int].x as int, x)
            &&& forall|j: int|
                0 <= j < p.len() ==> magnitude(p[i as int].x - x) <= magnitude(#[trigger] p[j].x - x)
            &&& forall|j: int|
                0 <= j < i ==> magnitude(p[i as int].x - x) < magnitude(#[trigger] p[j].x - x)
        },
        None => forall|j: int| 0 <= j < p.len() ==> !in_grab_reach(#[trigger] p[j].x as int, x),
    }
}

/// The index of the point that a pointer at `x` removes is `r`: the first
/// point within reach that is not an end point; none if there is no such
/// point.
pub open spec fn is_removable(p: Seq<ControlPoint>, x: int, r: Option<usize>) -> bool {
    match r {
        Some(i) => {
            &&& 0 < i < p.len() - 1
            &&& in_remove_reach(p[i as int].x as int, x)
            &&& forall|j: int| 0 < j < i ==> !in_remove_reach(#[trigger] p[j].x as int, x)
        },
        None => forall|j: int| 0 < j < p.len() - 1 ==> !in_remove_reach(#[trigger] p[j].x as int, x),
    }
}

/// A well-formed collection is ordered.
pub proof fn lemma_well_formed_is_ordered(p: Seq<ControlPoint>)
    requires
        curve_well_formed(p),
    ensures
        ordered(p),
{
    assert forall|i: int, j: int| 0 <= i <= j < p.len() implies p[i].x <= p[j].x by {
        if i < j {
            assert(p[i].x + 66 <= p[j].x);
        }
    }
}

/// The distance between two positions.
fn distance(a: u16, b: u16) -> (d: u32)
    ensures
        d == magnitude(a - b),
        d <= 65535,
{
    if a >= b {
        (a - b) as u32
    } else {
        (b - a) as u32
    }
}

/// The control points of the tone curve and the point that the pointer
/// holds.
pub struct CurveEditor {
    points: Vec<ControlPoint>,
    dragging: Option<usize>,
}

impl CurveEditor {
    #[verifier::type_invariant]
    spec fn well_formed(self) -> bool {
        &&& curve_well_formed(self.points@)
        &&& self.dragging matches Some(i) ==> i < self.points.len()
    }

    /// The control points, from left to right.
    pub closed spec fn view(&self) -> Seq<ControlPoint> {
        self.points@
    }

    /// The index of the point that the pointer holds.
    pub closed spec fn held(&self) -> Option<usize> {
        self.dragging
    }

    /// An editor over the straight curve, with no point held.
    pub fn new() -> (e: CurveEditor)
        ensures
            e@ == identity_curve(),
            e.held() is None,
    {
        let mut points: Vec<ControlPoint> = Vec::new();
        points.push(ControlPoint { x: 0, y: 0 });
        points.push(ControlPoint { x: 65535, y: 65535 });
        assert(points@ =~= identity_curve());
        CurveEditor { points, dragging: None }
    }

    /// The control points, from left to right.
    pub fn points(&self) -> (p: &Vec<ControlPoint>)
        ensures
            p@ == self@,
            curve_well_formed(self@),
            ordered(self@),
    {
        proof {
            use_type_invariant(self);
            lemma_well_formed_is_ordered(self.points@);
        }
        &self.points
    }

    /// The index of the point that the pointer holds.
    pub fn dragging(&self) -> (d: Option<usize>)
        ensures
            d == self.held(),
            d matches Some(i) ==> i < self@.len(),
    {
        proof {
            use_type_invariant(self);
        }
        self.dragging
    }

    /// Moves the state out and leaves the straight curve behind. A change is
    /// made to what was moved out, and the result moved back in as a whole,
    /// so that no value of this type is ever seen half changed.
    fn take(&mut self) -> (parts: (Vec<ControlPoint>, Option<usize>))
        ensures
            parts.0@ == old(self)@,
            parts.1 == old(self).held(),
            curve_well_formed(parts.0@),
            ordered(parts.0@),
            parts.1 matches Some(i) ==> i < parts.0.len(),
    {
        let mut taken = CurveEditor::new();
        core::mem::swap(self, &mut taken);
        proof {
            use_type_invariant(&taken);
            lemma_well_formed_is_ordered(taken.points@);
        }
        (taken.points, taken.dragging)
    }

    /// Back to the straight curve. The pointer lets go.
    pub fn reset(&mut self)
        ensures
            final(self)@ == identity_curve(),
            final(self).held() is None,
    {
        *self = CurveEditor::new();
    }

    /// The pointer goes down at `x` and takes hold of the nearest point
    /// within reach, if there is one.
    pub fn begin_drag(&mut self, x: u16)
        ensures
            final(self)@ == old(self)@,
            is_grabbed(old(self)@, x as int, final(self).held()),
    {
        let (points, _) = self.take();
        let mut closest: Option<usize> = None;
        // the least distance so far, times 20; the reach itself at the start
        let mut best: u32 = 65535;
        let mut i: usize = 0;
        while i < points.len()
            invariant
                i <= points.len(),
                best <= 65535,
                match closest {
                    Some(c) => {
                        &&& c < i
                        &&& best == magnitude(points[c as int].x - x) * 20
                        &&& best < 65535
                        &&& forall|j: int|
                            0 <= j < i ==> magnitude(points[c as int].x - x) <= magnitude(
                                #[trigger] points[j].x - x,
                            )
                        &&& forall|j: int|
                            0 <= j < c ==> magnitude(points[c as int].x - x) < magnitude(
                                #[trigger] points[j].x - x,
                            )
                    },
                    None => {
                        &&& best == 65535
                        &&& forall|j: int|
                            0 <= j < i ==> !in_grab_reach(#[trigger] points[j].x as int, x as int)
                    },
                },
            decreases points.len() - i,
        {
            let d = distance(points[i].x, x);
            if d * 20 < best {
                best = d * 20;
                closest = Some(i);
            }
            i = i + 1;
        }
        *self = CurveEditor { points, dragging: closest };
    }

    /// The pointer lets go.
    pub fn end_drag(&mut self)
        ensures
            final(self)@ == old(self)@,
            final(self).held() is None,
    {
        let (points, _) = self.take();
        *self = CurveEditor { points, dragging: None };
    }

    /// The pointer moves to (`x`, `y`) and takes the point it holds along.
    /// Tells whether the curve changed, which it did if a point is held.
    pub fn drag_to(&mut self, x: u16, y: u16) -> (changed: bool)
        ensures
            final(self).held() == old(self).held(),
            changed == old(self).held() is Some,
            old(self).held() matches Some(i) ==> final(self)@ == dragged(
                old(self)@,
                i as int,
                x,
                y,
            ),
            old(self).held() is None ==> final(self)@ == old(self)@,
            curve_well_formed(final(self)@),
    {
        let (mut points, dragging) = self.take();
        let changed = match dragging {
            None => false,
            Some(i) => {
                let n = points.len();
                let ghost before = points@;
                let p = if i == 0 || i == n - 1 {
                    ControlPoint { x: points[i].x, y }
                } else {
                    assert(before[i as int].x + 66 <= before[i + 1].x);
                    assert(before[i - 1].x + 66 <= before[i as int].x);
                    let lo: u16 = points[i - 1].x + MIN_GAP;
                    let hi: u16 = points[i + 1].x - MIN_GAP;
                    let nx: u16 = if x < lo {
                        lo
                    } else if x > hi {
                        hi
                    } else {
                        x
                    };
                    ControlPoint { x: nx, y }
                };
                points.set(i, p);
                proof {
                    let after = points@;
                    assert(after =~= dragged(before, i as int, x, y));
                    assert forall|k: int, l: int| 0 <= k < l < after.len() implies after[k].x + 66
                        <= after[l].x by {
                        assert(before[k].x + 66 <= before[l].x);
                        if k == i && l > i + 1 {
                            assert(before[i + 1].x + 66 <= before[l].x);
                        }
                        if l == i && k < i - 1 {
                            assert(before[k].x + 66 <= before[i - 1].x);
                        }
                    }
                }
                true
            },
        };
        *self = CurveEditor { points, dragging };
        changed
    }

    /// A click at (`x`, `y`) adds a point there, unless a point is in the
    /// way. Tells whether the curve changed.
    pub fn add_point(&mut self, x: u16, y: u16) -> (changed: bool)
        ensures
            final(self).held() == old(self).held(),
            changed == (forall|j: int|
                0 <= j < old(self)@.len() ==> !in_the_way(#[trigger] old(self)@[j].x as int, x as int)),
            changed ==> final(self)@ == insert_by_place(old(self)@, ControlPoint { x, y })
                && final(self)@.len() == old(self)@.len() + 1,
            !changed ==> final(self)@ == old(self)@,
            curve_well_formed(final(self)@),
    {
        let (mut points, dragging) = self.take();
        let n = points.len();
        let ghost before = points@;
        let mut free = true;
        let mut i: usize = 0;
        while i < n
            invariant
                i <= n,
                n == points.len(),
                points@ == before,
                free == (forall|j: int|
                    0 <= j < i ==> !in_the_way(#[trigger] before[j].x as int, x as int)),
            decreases n - i,
        {
            let d = distance(points[i].x, x);
            if d * 50 < 65535 {
                assert(in_the_way(before[i as int].x as int, x as int));
                free = false;
            }
            i = i + 1;
        }
        if free {
            // the place of the new point: behind the last point left of it
            let mut j: usize = n;
            while j > 0 && points[j - 1].x > x
                invariant
                    j <= n,
                    n == points.len(),
                    points@ == before,
                    forall|k: int| j <= k < n ==> before[k].x > x,
                decreases j,
            {
                j = j - 1;
            }
            let p = ControlPoint { x, y };
            proof {
                lemma_insert_at(before, p, j as int);
                assert(!in_the_way(before[0].x as int, x as int));
                assert(!in_the_way(before[n - 1].x as int, x as int));
                assert(0 < j < n);
            }
            points.insert(j, p);
            proof {
                let after = points@;
                assert forall|k: int, l: int| 0 <= k < l < after.len() implies after[k].x + 66
                    <= after[l].x by {
                    if k == j {
                        assert(!in_the_way(before[l - 1].x as int, x as int));
                    } else if l == j {
                        assert(!in_the_way(before[k].x as int, x as int));
                    } else {
                        let k0 = if k < j { k } else { k - 1 };
                        let l0 = if l < j { l } else { l - 1 };
                        assert(before[k0].x + 66 <= before[l0].x);
                    }
                }
            }
        }
        *self = CurveEditor { points, dragging };
        free
    }

    /// A secondary click at `x` removes the first point within reach that is
    /// not an end point. Tells whether the curve changed. The pointer lets go
    /// of what it holds when a point goes.
    pub fn remove_near(&mut self, x: u16) -> (changed: bool)
        ensures
            changed == exists|i: usize| is_removable(old(self)@, x as int, Some(i)),
            changed ==> exists|i: usize|
                is_removable(old(self)@, x as int, Some(i)) && final(self)@ == old(self)@.remove(
                    i as int,
                ),
            changed ==> final(self).held() is None,
            !changed ==> final(self)@ == old(self)@ && final(self).held() == old(self).held(),
            curve_well_formed(final(self)@),
    {
        let (mut points, dragging) = self.take();
        let n = points.len();
        let ghost before = points@;
        let mut found: Option<usize> = None;
        let mut i: usize = 1;
        while i < n - 1 && found.is_none()
            invariant
                1 <= i <= n - 1,
                n == points.len(),
                points@ == before,
                found is None ==> forall|j: int|
                    0 < j < i ==> !in_remove_reach(#[trigger] before[j].x as int, x as int),
                found matches Some(r) ==> is_removable(before, x as int, Some(r)),
            decreases n - i,
        {
            let d = distance(points[i].x, x);
            if d * 100 < 196605 {
                found = Some(i);
            }
            i = i + 1;
        }
        match found {
            Some(r) => {
                points.remove(r);
                proof {
                    let after = points@;
                    assert(after =~= before.remove(r as int));
                    assert forall|k: int, l: int| 0 <= k < l < after.len() implies after[k].x + 66
                        <= after[l].x by {
                        let k0 = if k < r { k } else { k + 1 };
                        let l0 = if l < r { l } else { l + 1 };
                        assert(before[k0].x + 66 <= before[l0].x);
                    }
                }
                *self = CurveEditor { points, dragging: None };
                true
            },
            None => {
                proof {
                    assert forall|r: usize| !is_removable(before, x as int, Some(r)) by {
                        if 0 < r < n - 1 {
                            assert(!in_remove_reach(before[r as int].x as int, x as int));
                        }
                    }
                }
                *self = CurveEditor { points, dragging };
                false
            },
        }
    }
}

/// The straight curve changes nothing: its table maps every level to itself.
pub proof fn lemma_identity_curve_lut(i: int)
    requires
        0 <= i < 256,
    ensures
        curve_lut(identity_curve())[i] == i,
{
    let p = identity_curve();
    assert(ordered(p));
    lemma_sort_fixes_ordered(p);
    let m0 = initial_tangents(p);
    assert(m0[0] == 65536 && m0[1] == 65536);
    reveal_with_fuel(tangents_after, 2);
    let m = tangents(p);
    assert(65536int * 65536 == 4294967296 && 65535int * 65535 == 4294836225) by (nonlinear_arith);
    assert(m =~= m0);
    let x = 257 * i;
    let v = curve_value(p, m, x);
    assert(p.len() == 2);
    assert(p[0] == ControlPoint { x: 0, y: 0 });
    assert(p[1] == ControlPoint { x: 65535, y: 65535 });
    if i == 0 {
        assert(v == Ratio { num: 0, den: 1 });
        assert(0int / 257 == 0);
    } else if i == 255 {
        assert(v == Ratio { num: 65535, den: 1 });
        assert(65535int / 257 == 255);
    } else {
        assert(segment_from(p, x, 0) == 0);
        let u = x;
        let h = p[1].x - p[0].x;
        let w = h - u;
        let y0 = p[0].y as int;
        let dy = p[1].y - p[0].y;
        let g = 65536 * h;
        let n = hermite_numerator(p[0], p[1], 65536, 65536, u);
        assert(n == 65536 * (h * h * h) * y0 + 65536 * dy * (u * u * (3 * h - 2 * u)) + g * (u * (w
            * w)) - g * (u * u * w));
        assert(n == 18445899661664256000 * u) by (nonlinear_arith)
            requires
                n == 65536 * (h * h * h) * y0 + 65536 * dy * (u * u * (3 * h - 2 * u)) + g * (u * (w
                    * w)) - g * (u * u * w),
                h == 65535,
                w == h - u,
                y0 == 0,
                dy == 65535,
                g == 65536 * h,
        ;
        assert(h * h * h == 281462092005375) by (nonlinear_arith)
            requires
                h == 65535,
        ;
        assert(v.num == n);
        assert(v.den == 18445899661664256000);
        let q = 257 * v.den;
        assert(q == 4740596213047713792000);
        assert(v.num == 4740596213047713792000 * i);
        assert(v.num / q == i) by (nonlinear_arith)
            requires
                v.num == q * i,
                q > 0,
        ;
    }
    assert(v.num / (257 * v.den) == i);
    assert(quantize(v) == i);
    assert(curve_level(p, i) == quantize(curve_value(sort_by_place(p), tangents(sort_by_place(p)), 257 * i)));
    assert(curve_level(p, i) == i);
    assert(curve_lut(p)[i] == curve_level(p, i) as u8);
}

} // verus!
