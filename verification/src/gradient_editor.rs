//! The stops of the gradient under editing: stops are selected, moved,
//! recoloured, added and removed, and the collection stays ordered, with at
//! least two stops and a name of its own for each.

use vstd::prelude::*;
use crate::gradient::{
    blend, gradient_color, gradient_lut, has_id, ids_unique, lemma_sort_by_pos_keeps,
    lower_after, upper_after, GradientStop, Rgb,
};
use crate::order::{ordered, sort_by_place, sorted};

verus! {

/// The position of a new stop: the middle of the range.
pub const NEW_STOP_POS: u16 = 32768;

/// The collection as the editor keeps it: at least two stops, ordered by
/// position, no two with one name, every name below the next name to be
/// given, and the selected name that of a stop.
pub open spec fn gradient_well_formed(
    stops: Seq<GradientStop>,
    selected: Option<u64>,
    next_id: u64,
) -> bool {
    &&& stops.len() >= 2
    &&& ordered(stops)
    &&& ids_unique(stops)
    &&& forall|k: int| 0 <= k < stops.len() ==> #[trigger] stops[k].id < next_id
    &&& selected matches Some(id) ==> has_id(stops, id)
}

/// The gradient from black at the left edge to white at the right edge.
pub open spec fn initial_gradient() -> Seq<GradientStop> {
    seq![
        GradientStop { id: 0, pos: 0, color: Rgb { r: 0, g: 0, b: 0 } },
        GradientStop { id: 1, pos: 65535, color: Rgb { r: 255, g: 255, b: 255 } },
    ]
}

/// The stop that `add_stop` makes: in the middle of the range, in the grey
/// of a fresh handle.
pub open spec fn new_stop(id: u64) -> GradientStop {
    GradientStop { id, pos: 32768, color: Rgb { r: 160, g: 160, b: 160 } }
}

/// The index of the first stop of `s` with the name `id`, or the length of
/// `s` where no stop has it.
pub open spec fn index_of_id(s: Seq<GradientStop>, id: u64) -> int
    decreases s.len(),
{
    if s.len() == 0 {
        0
    } else {
        let k = index_of_id(s.drop_last(), id);
        if k < s.len() - 1 {
            k
        } else if s.last().id == id {
            s.len() - 1
        } else {
            s.len() as int
        }
    }
}

/// `index_of_id` finds the first stop with the name, and finds one exactly
/// where there is one.
pub proof fn lemma_index_of_id(s: Seq<GradientStop>, id: u64)
    ensures
        0 <= index_of_id(s, id) <= s.len(),
        index_of_id(s, id) < s.len() <==> has_id(s, id),
        index_of_id(s, id) < s.len() ==> s[index_of_id(s, id)].id == id,
        forall|k: int| 0 <= k < index_of_id(s, id) ==> #[trigger] s[k].id != id,
    decreases s.len(),
{
    if s.len() > 0 {
        let t = s.drop_last();
        lemma_index_of_id(t, id);
        let k = index_of_id(t, id);
        if k < t.len() {
            assert(s[k].id == id);
            assert forall|j: int| 0 <= j < k implies #[trigger] s[j].id != id by {
                assert(t[j].id != id);
            }
        } else {
            assert forall|j: int| 0 <= j < t.len() implies #[trigger] s[j].id != id by {
                assert(t[j].id != id);
            }
            if has_id(s, id) {
                let w = choose|w: int| 0 <= w < s.len() && #[trigger] s[w].id == id;
                assert(w == s.len() - 1);
            }
            if s.last().id == id {
                assert(s[s.len() - 1].id == id);
            }
        }
    }
}

/// The stops of the gradient, the name of the selected stop and the name
/// that the next new stop gets.
pub struct GradientEditor {
    stops: Vec<GradientStop>,
    selected: Option<u64>,
    next_id: u64,
}

impl GradientEditor {
    #[verifier::type_invariant]
    spec fn well_formed(self) -> bool {
        gradient_well_formed(self.stops@, self.selected, self.next_id)
    }

    /// The stops, from left to right.
    pub closed spec fn view(&self) -> Seq<GradientStop> {
        self.stops@
    }

    /// The name of the selected stop.
    pub closed spec fn chosen(&self) -> Option<u64> {
        self.selected
    }

    /// The name that the next new stop gets.
    pub closed spec fn upcoming_id(&self) -> u64 {
        self.next_id
    }

    /// An editor over the gradient from black to white, with the black stop
    /// selected.
    pub fn new() -> (e: GradientEditor)
        ensures
            e@ == initial_gradient(),
            e.chosen() == Some(0u64),
            e.upcoming_id() == 2,
    {
        let mut stops: Vec<GradientStop> = Vec::new();
        stops.push(GradientStop { id: 0, pos: 0, color: Rgb { r: 0, g: 0, b: 0 } });
        stops.push(GradientStop { id: 1, pos: 65535, color: Rgb { r: 255, g: 255, b: 255 } });
        assert(stops@ =~= initial_gradient());
        assert(stops@[0].id == 0);
        GradientEditor { stops, selected: Some(0), next_id: 2 }
    }

    /// The stops, from left to right.
    pub fn stops(&self) -> (s: &Vec<GradientStop>)
        ensures
            s@ == self@,
            gradient_well_formed(self@, self.chosen(), self.upcoming_id()),
    {
        proof {
            use_type_invariant(self);
        }
        &self.stops
    }

    /// The name of the selected stop.
    pub fn selected(&self) -> (id: Option<u64>)
        ensures
            id == self.chosen(),
            id matches Some(i) ==> has_id(self@, i),
    {
        proof {
            use_type_invariant(self);
        }
        self.selected
    }

    /// Moves the state out and leaves the first gradient behind. A change is
    /// made to what was moved out, and the result moved back in as a whole.
    fn take(&mut self) -> (parts: (Vec<GradientStop>, Option<u64>, u64))
        ensures
            parts.0@ == old(self)@,
            parts.1 == old(self).chosen(),
            parts.2 == old(self).upcoming_id(),
            gradient_well_formed(parts.0@, parts.1, parts.2),
    {
        let mut taken = GradientEditor::new();
        core::mem::swap(self, &mut taken);
        proof {
            use_type_invariant(&taken);
        }
        (taken.stops, taken.selected, taken.next_id)
    }

    /// Back to the gradient from black to white.
    pub fn reset(&mut self)
        ensures
            final(self)@ == initial_gradient(),
            final(self).chosen() == Some(0u64),
            final(self).upcoming_id() == 2,
    {
        *self = GradientEditor::new();
    }

    /// The index of the stop with the name `id`.
    fn find(stops: &Vec<GradientStop>, id: u64) -> (k: usize)
        ensures
            k == index_of_id(stops@, id),
            k <= stops.len(),
            k < stops.len() <==> has_id(stops@, id),
            k < stops.len() ==> stops[k as int].id == id,
    {
        proof {
            lemma_index_of_id(stops@, id);
        }
        let mut k: usize = 0;
        while k < stops.len() && stops[k].id != id
            invariant
                k <= stops.len(),
                k <= index_of_id(stops@, id),
            decreases stops.len() - k,
        {
            proof {
                lemma_index_of_id(stops@, id);
            }
            k = k + 1;
        }
        k
    }

    /// Selects the stop with the name `id`. Tells whether there is such a
    /// stop; nothing changes where there is none.
    pub fn select(&mut self, id: u64) -> (found: bool)
        ensures
            found == has_id(old(self)@, id),
            final(self)@ == old(self)@,
            final(self).upcoming_id() == old(self).upcoming_id(),
            final(self).chosen() == if found {
                Some(id)
            } else {
                old(self).chosen()
            },
    {
        let (stops, selected, next_id) = self.take();
        let k = GradientEditor::find(&stops, id);
        let found = k < stops.len();
        let selected = if found {
            Some(id)
        } else {
            selected
        };
        *self = GradientEditor { stops, selected, next_id };
        found
    }

    /// Moves the stop with the name `id` to `pos`, selects it and brings the
    /// stops back into order. Tells whether the gradient changed, which it
    /// did if there is such a stop.
    pub fn move_stop(&mut self, id: u64, pos: u16) -> (changed: bool)
        ensures
            changed == has_id(old(self)@, id),
            final(self).upcoming_id() == old(self).upcoming_id(),
            changed ==> final(self).chosen() == Some(id) && final(self)@ == sort_by_place(
                old(self)@.update(
                    index_of_id(old(self)@, id),
                    GradientStop { pos, ..old(self)@[index_of_id(old(self)@, id)] },
                ),
            ),
            final(self)@.len() == old(self)@.len(),
            !changed ==> final(self)@ == old(self)@ && final(self).chosen() == old(self).chosen(),
            gradient_well_formed(final(self)@, final(self).chosen(), final(self).upcoming_id()),
    {
        let (mut stops, selected, next_id) = self.take();
        let k = GradientEditor::find(&stops, id);
        if k < stops.len() {
            let ghost before = stops@;
            let moved = GradientStop { id: stops[k].id, pos, color: stops[k].color };
            stops.set(k, moved);
            let ghost edited = stops@;
            let sorted = sorted(stops.as_slice());
            proof {
                lemma_sort_by_pos_keeps(edited);
                assert(ids_unique(edited)) by {
                    assert forall|i: int, j: int| 0 <= i < j < edited.len() implies edited[i].id
                        != edited[j].id by {
                        assert(before[i].id != before[j].id);
                    }
                }
                assert(has_id(edited, id)) by {
                    assert(edited[k as int].id == id);
                }
                assert forall|j: int| 0 <= j < sorted.len() implies #[trigger] sorted[j].id
                    < next_id by {
                    let w = choose|w: int| 0 <= w < edited.len() && edited[w] == sorted@[j];
                    assert(before[w].id < next_id);
                }
            }
            *self = GradientEditor { stops: sorted, selected: Some(id), next_id };
            true
        } else {
            *self = GradientEditor { stops, selected, next_id };
            false
        }
    }

    /// Gives the stop with the name `id` the colour `color`. Tells whether
    /// the gradient changed, which it did if there is such a stop.
    pub fn recolor(&mut self, id: u64, color: Rgb) -> (changed: bool)
        ensures
            changed == has_id(old(self)@, id),
            final(self).upcoming_id() == old(self).upcoming_id(),
            final(self).chosen() == old(self).chosen(),
            changed ==> final(self)@ == old(self)@.update(
                index_of_id(old(self)@, id),
                GradientStop { color, ..old(self)@[index_of_id(old(self)@, id)] },
            ),
            !changed ==> final(self)@ == old(self)@,
            gradient_well_formed(final(self)@, final(self).chosen(), final(self).upcoming_id()),
    {
        let (mut stops, selected, next_id) = self.take();
        let k = GradientEditor::find(&stops, id);
        let changed = k < stops.len();
        if changed {
            let ghost before = stops@;
            let painted = GradientStop { id: stops[k].id, pos: stops[k].pos, color };
            stops.set(k, painted);
            proof {
                let after = stops@;
                assert forall|i: int, j: int| 0 <= i <= j < after.len() implies after[i].pos
                    <= after[j].pos by {
                    assert(before[i].pos <= before[j].pos);
                }
                assert forall|i: int, j: int| 0 <= i < j < after.len() implies after[i].id
                    != after[j].id by {
                    assert(before[i].id != before[j].id);
                }
                assert forall|j: int| 0 <= j < after.len() implies #[trigger] after[j].id
                    < next_id by {
                    assert(before[j].id < next_id);
                }
                if let Some(sel) = selected {
                    let w = choose|w: int| 0 <= w < before.len() && #[trigger] before[w].id == sel;
                    assert(after[w].id == sel);
                }
            }
        }
        *self = GradientEditor { stops, selected, next_id };
        changed
    }

    /// Adds a stop in the middle of the range under a name that no stop has
    /// had before, selects it, and gives its name back. Where the names have
    /// run out nothing changes and nothing is given back.
    pub fn add_stop(&mut self) -> (added: Option<u64>)
        ensures
            added is Some <==> old(self).upcoming_id() < u64::MAX,
            added matches Some(id) ==> {
                &&& id == old(self).upcoming_id()
                &&& final(self).upcoming_id() == id + 1
                &&& final(self).chosen() == Some(id)
                &&& final(self)@ == sort_by_place(old(self)@.push(new_stop(id)))
                &&& final(self)@.len() == old(self)@.len() + 1
            },
            added is None ==> {
                &&& final(self)@ == old(self)@
                &&& final(self).chosen() == old(self).chosen()
                &&& final(self).upcoming_id() == old(self).upcoming_id()
            },
            gradient_well_formed(final(self)@, final(self).chosen(), final(self).upcoming_id()),
    {
        let (mut stops, selected, next_id) = self.take();
        if next_id == u64::MAX {
            *self = GradientEditor { stops, selected, next_id };
            return None;
        }
        let ghost before = stops@;
        let id = next_id;
        stops.push(
            GradientStop { id, pos: NEW_STOP_POS, color: Rgb { r: 160, g: 160, b: 160 } },
        );
        let ghost edited = stops@;
        let sorted = sorted(stops.as_slice());
        proof {
            lemma_sort_by_pos_keeps(edited);
            assert(ids_unique(edited)) by {
                assert forall|i: int, j: int| 0 <= i < j < edited.len() implies edited[i].id
                    != edited[j].id by {
                    assert(before[i].id < next_id);
                    if j < before.len() {
                        assert(before[i].id != before[j].id);
                    }
                }
            }
            assert(has_id(edited, id)) by {
                assert(edited[edited.len() - 1].id == id);
            }
            assert forall|j: int| 0 <= j < sorted.len() implies #[trigger] sorted[j].id < next_id
                + 1 by {
                let w = choose|w: int| 0 <= w < edited.len() && edited[w] == sorted@[j];
                if w < before.len() {
                    assert(before[w].id < next_id);
                }
            }
        }
        *self = GradientEditor { stops: sorted, selected: Some(id), next_id: next_id + 1 };
        Some(id)
    }

    /// Removes the selected stop, if more than two stops are there, and
    /// selects the first of those that stay. Tells whether the gradient
    /// changed.
    pub fn remove_selected(&mut self) -> (changed: bool)
        ensures
            changed == (old(self).chosen() is Some && old(self)@.len() > 2),
            final(self).upcoming_id() == old(self).upcoming_id(),
            changed ==> {
                &&& final(self)@ == old(self)@.remove(
                    index_of_id(old(self)@, old(self).chosen().unwrap()),
                )
                &&& final(self).chosen() == Some(final(self)@[0].id)
            },
            !changed ==> final(self)@ == old(self)@ && final(self).chosen() == old(self).chosen(),
            gradient_well_formed(final(self)@, final(self).chosen(), final(self).upcoming_id()),
    {
        let (mut stops, selected, next_id) = self.take();
        match selected {
            Some(id) => {
                if stops.len() > 2 {
                    let ghost before = stops@;
                    let k = GradientEditor::find(&stops, id);
                    stops.remove(k);
                    let first = stops[0].id;
                    proof {
                        let after = stops@;
                        assert(after =~= before.remove(k as int));
                        assert forall|i: int, j: int| 0 <= i <= j < after.len() implies after[i].pos
                            <= after[j].pos by {
                            let i0 = if i < k {
                                i
                            } else {
                                i + 1
                            };
                            let j0 = if j < k {
                                j
                            } else {
                                j + 1
                            };
                            assert(before[i0].pos <= before[j0].pos);
                        }
                        assert forall|i: int, j: int| 0 <= i < j < after.len() implies after[i].id
                            != after[j].id by {
                            let i0 = if i < k {
                                i
                            } else {
                                i + 1
                            };
                            let j0 = if j < k {
                                j
                            } else {
                                j + 1
                            };
                            assert(before[i0].id != before[j0].id);
                        }
                        assert forall|j: int| 0 <= j < after.len() implies #[trigger] after[j].id
                            < next_id by {
                            let j0 = if j < k {
                                j
                            } else {
                                j + 1
                            };
                            assert(before[j0].id < next_id);
                        }
                        assert(after[0].id == first);
                    }
                    *self = GradientEditor { stops, selected: Some(first), next_id };
                    true
                } else {
                    *self = GradientEditor { stops, selected, next_id };
                    false
                }
            },
            None => {
                *self = GradientEditor { stops, selected, next_id };
                false
            },
        }
    }
}

/// The gradient from black to white is the grey ramp: level `i` gets the
/// grey `i`, from black at level 0 to white at level 255.
pub proof fn lemma_initial_gradient_lut(i: int)
    requires
        0 <= i < 256,
    ensures
        gradient_color(initial_gradient(), i) == (Rgb { r: i as u8, g: i as u8, b: i as u8 }),
        gradient_lut(initial_gradient())[4 * i] == i,
        gradient_lut(initial_gradient())[4 * i + 1] == i,
        gradient_lut(initial_gradient())[4 * i + 2] == i,
        gradient_lut(initial_gradient())[4 * i + 3] == 255,
{
    let s = initial_gradient();
    let t = 257 * i;
    reveal_with_fuel(lower_after, 3);
    reveal_with_fuel(upper_after, 3);
    if 0 < i < 255 {
        assert(lower_after(s, t, 2) == 0);
        assert(upper_after(s, t, 2) == 1);
        assert(blend(0, 255, 0, 65535, t) == i);
    } else if i == 0 {
        assert(lower_after(s, t, 2) == 0);
        assert(upper_after(s, t, 2) == 0);
    } else {
        assert(lower_after(s, t, 2) == 1);
        assert(upper_after(s, t, 2) == 1);
    }
}

} // verus!
