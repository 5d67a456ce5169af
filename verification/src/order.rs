//! Values with a place on an axis, and their normal form: ordered by place,
//! values at one place in the order they came in.

use vstd::prelude::*;

verus! {

/// A value that has a place on the axis of input levels.
pub trait Placed: Sized {
    /// The place of the value, a 16-bit normalised number.
    spec fn place(&self) -> int;

    /// The place of the value.
    fn place_of(&self) -> (k: u16)
        ensures
            k == self.place(),
    ;
}

/// No value lies left of the one before it.
pub open spec fn ordered<T: Placed>(s: Seq<T>) -> bool {
    forall|i: int, j: int| 0 <= i <= j < s.len() ==> s[i].place() <= s[j].place()
}

/// `s` with `p` put behind every value whose place is not right of `p`'s.
/// In an ordered sequence this keeps the order, and among values at one
/// place the new one comes last.
pub open spec fn insert_by_place<T: Placed>(s: Seq<T>, p: T) -> Seq<T>
    decreases s.len(),
{
    if s.len() == 0 {
        seq![p]
    } else if s.last().place() <= p.place() {
        s.push(p)
    } else {
        insert_by_place(s.drop_last(), p).push(s.last())
    }
}

/// The values ordered by place; values at one place keep the order they came
/// in.
pub open spec fn sort_by_place<T: Placed>(s: Seq<T>) -> Seq<T>
    decreases s.len(),
{
    if s.len() == 0 {
        Seq::empty()
    } else {
        insert_by_place(sort_by_place(s.drop_last()), s.last())
    }
}

/// The index at which `insert_by_place` puts the new value.
pub open spec fn insert_index<T: Placed>(s: Seq<T>, p: T) -> int
    decreases s.len(),
{
    if s.len() == 0 || s.last().place() <= p.place() {
        s.len() as int
    } else {
        insert_index(s.drop_last(), p)
    }
}

/// The values at the place `v`.
pub open spec fn at_place<T: Placed>(v: int) -> spec_fn(T) -> bool {
    |q: T| q.place() == v
}

/// Where `insert_by_place` puts the new value: at the index `j` that has
/// only places further right from it on and no such place just before it.
pub proof fn lemma_insert_at<T: Placed>(s: Seq<T>, p: T, j: int)
    requires
        0 <= j <= s.len(),
        forall|k: int| j <= k < s.len() ==> s[k].place() > p.place(),
        j == 0 || s[j - 1].place() <= p.place(),
    ensures
        insert_by_place(s, p) == s.insert(j, p),
        insert_index(s, p) == j,
    decreases s.len(),
{
    if s.len() == 0 {
        assert(s.insert(j, p) =~= seq![p]);
    } else if s.last().place() <= p.place() {
        assert(j == s.len());
        assert(s.insert(j, p) =~= s.push(p));
    } else {
        assert(j < s.len());
        lemma_insert_at(s.drop_last(), p, j);
        assert(s.drop_last().insert(j, p).push(s.last()) =~= s.insert(j, p));
    }
}

/// The index at which the new value comes to stand has only places further
/// right from it on and no such place just before it.
pub proof fn lemma_insert_index<T: Placed>(s: Seq<T>, p: T)
    ensures
        0 <= insert_index(s, p) <= s.len(),
        forall|k: int| insert_index(s, p) <= k < s.len() ==> s[k].place() > p.place(),
        insert_index(s, p) == 0 || s[insert_index(s, p) - 1].place() <= p.place(),
        insert_by_place(s, p) == s.insert(insert_index(s, p), p),
    decreases s.len(),
{
    if s.len() == 0 || s.last().place() <= p.place() {
    } else {
        let t = s.drop_last();
        lemma_insert_index(t, p);
        let j = insert_index(s, p);
        assert forall|k: int| j <= k < s.len() implies s[k].place() > p.place() by {
            if k < t.len() {
                assert(t[k].place() > p.place());
            }
        }
        if j > 0 {
            assert(t[j - 1] == s[j - 1]);
        }
    }
    lemma_insert_at(s, p, insert_index(s, p));
}

/// Inserting into an ordered sequence leaves it ordered.
pub proof fn lemma_insert_ordered<T: Placed>(s: Seq<T>, p: T)
    requires
        ordered(s),
    ensures
        ordered(insert_by_place(s, p)),
{
    lemma_insert_index(s, p);
    let j = insert_index(s, p);
    let r = s.insert(j, p);
    assert forall|a: int, b: int| 0 <= a <= b < r.len() implies r[a].place() <= r[b].place() by {
        let a0 = if a < j {
            a
        } else {
            a - 1
        };
        let b0 = if b < j {
            b
        } else {
            b - 1
        };
        if a != j && b != j {
            assert(s[a0].place() <= s[b0].place());
        } else if a == j && b != j {
            assert(s[b0].place() > p.place());
        } else if b == j && a != j {
            assert(s[a0].place() <= s[j - 1].place());
        }
    }
}

/// The normal form is ordered and holds the same values as often as the
/// sequence it was made from.
pub proof fn lemma_sort_ordered<T: Placed>(s: Seq<T>)
    ensures
        ordered(sort_by_place(s)),
        sort_by_place(s).len() == s.len(),
        sort_by_place(s).to_multiset() == s.to_multiset(),
    decreases s.len(),
{
    broadcast use vstd::seq_lib::group_to_multiset_ensures;

    if s.len() == 0 {
        assert(s =~= Seq::empty());
    } else {
        let t = s.drop_last();
        let u = sort_by_place(t);
        lemma_sort_ordered(t);
        lemma_insert_ordered(u, s.last());
        lemma_insert_index(u, s.last());
        assert(s =~= t.push(s.last()));
    }
}

/// A sequence that is ordered already is its own normal form.
pub proof fn lemma_sort_fixes_ordered<T: Placed>(s: Seq<T>)
    requires
        ordered(s),
    ensures
        sort_by_place(s) == s,
    decreases s.len(),
{
    if s.len() == 0 {
        assert(s =~= Seq::empty());
    } else {
        let t = s.drop_last();
        assert(ordered(t)) by {
            assert forall|i: int, j: int| 0 <= i <= j < t.len() implies t[i].place()
                <= t[j].place() by {
                assert(s[i].place() <= s[j].place());
            }
        }
        lemma_sort_fixes_ordered(t);
        if t.len() > 0 {
            assert(s[t.len() - 1].place() <= s[s.len() - 1].place());
        }
        assert(t.push(s.last()) =~= s);
    }
}

/// Inserting a value does not disturb the values at any one place, and puts
/// the new value behind those at its own place.
pub proof fn lemma_insert_stable<T: Placed>(s: Seq<T>, p: T, v: int)
    ensures
        insert_by_place(s, p).filter(at_place(v)) == if p.place() == v {
            s.filter(at_place(v)).push(p)
        } else {
            s.filter(at_place(v))
        },
    decreases s.len(),
{
    let pred = at_place::<T>(v);
    if s.len() == 0 {
        assert(s =~= Seq::empty());
        assert(seq![p] =~= s.push(p));
        s.lemma_filter_push(p, pred);
    } else if s.last().place() <= p.place() {
        s.lemma_filter_push(p, pred);
    } else {
        let t = s.drop_last();
        lemma_insert_stable(t, p, v);
        insert_by_place(t, p).lemma_filter_push(s.last(), pred);
        t.lemma_filter_push(s.last(), pred);
        assert(t.push(s.last()) =~= s);
        if p.place() == v {
            assert(!pred(s.last()));
        } else if pred(s.last()) {
        }
    }
}

/// The normal form is stable: the values at any one place stand in the
/// order in which they came.
pub proof fn lemma_sort_stable<T: Placed>(s: Seq<T>, v: int)
    ensures
        sort_by_place(s).filter(at_place(v)) == s.filter(at_place(v)),
    decreases s.len(),
{
    let pred = at_place::<T>(v);
    if s.len() == 0 {
        assert(s =~= Seq::empty());
    } else {
        let t = s.drop_last();
        lemma_sort_stable(t, v);
        lemma_insert_stable(sort_by_place(t), s.last(), v);
        t.lemma_filter_push(s.last(), pred);
        assert(t.push(s.last()) =~= s);
    }
}

/// The values in their normal form: ordered by place, values at one place in
/// the order they came in.
pub fn sorted<T: Placed + Copy>(items: &[T]) -> (out: Vec<T>)
    ensures
        out@ == sort_by_place(items@),
        out.len() == items.len(),
{
    let mut out: Vec<T> = Vec::new();
    let mut i: usize = 0;
    while i < items.len()
        invariant
            i <= items.len(),
            out@ == sort_by_place(items@.take(i as int)),
            out.len() == i,
        decreases items.len() - i,
    {
        let p = items[i];
        let place = p.place_of();
        let mut j: usize = out.len();
        while j > 0 && out[j - 1].place_of() > place
            invariant
                j <= out.len(),
                place == p.place(),
                forall|k: int| j <= k < out.len() ==> out[k].place() > p.place(),
            decreases j,
        {
            j = j - 1;
        }
        proof {
            lemma_insert_at(out@, p, j as int);
            assert(items@.take(i + 1).drop_last() =~= items@.take(i as int));
        }
        out.insert(j, p);
        i = i + 1;
    }
    proof {
        assert(items@.take(i as int) =~= items@);
    }
    out
}

} // verus!
