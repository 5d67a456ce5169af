//! One edit from its first state on: the settings, the tone curve and the
//! gradient, and the two tables that follow from them. The tables are made
//! anew from the whole collection whenever they are asked for, never patched.

use vstd::prelude::*;
use crate::curve_editor::{identity_curve, CurveEditor};
use crate::gradient::{generate_gradient_data, gradient_lut};
use crate::gradient_editor::{initial_gradient, GradientEditor};
use crate::pipeline::settings::ColorSettings;
use crate::spline::{curve_lut, expand_curve_lut, grey_lut_bytes, interpolate_spline};

verus! {

/// The state of one edit.
pub struct EditSession {
    pub settings: ColorSettings,
    pub curve: CurveEditor,
    pub gradient: GradientEditor,
}

impl EditSession {
    /// A fresh edit: the settings of a fresh edit, the straight tone curve,
    /// and the gradient from black to white with its black stop selected.
    pub fn new() -> (s: EditSession)
        ensures
            s.settings == ColorSettings::initial(),
            s.curve@ == identity_curve(),
            s.curve.held() is None,
            s.gradient@ == initial_gradient(),
            s.gradient.chosen() == Some(0u64),
            s.gradient.upcoming_id() == 2,
    {
        EditSession {
            settings: ColorSettings::default(),
            curve: CurveEditor::new(),
            gradient: GradientEditor::new(),
        }
    }

    /// Back to a fresh edit. Both tables change with it and are to be copied
    /// to the GPU again.
    pub fn reset_adjustments(&mut self)
        ensures
            final(self).settings == ColorSettings::initial(),
            final(self).curve@ == identity_curve(),
            final(self).curve.held() is None,
            final(self).gradient@ == initial_gradient(),
            final(self).gradient.chosen() == Some(0u64),
            final(self).gradient.upcoming_id() == 2,
    {
        *self = EditSession::new();
    }

    /// The content of the tone-curve texture for the present control points.
    pub fn curves_data(&self) -> (data: [u8; 1024])
        ensures
            data@ == grey_lut_bytes(curve_lut(self.curve@)),
    {
        let lut = interpolate_spline(self.curve.points().as_slice());
        expand_curve_lut(&lut)
    }

    /// The content of the gradient texture for the present stops.
    pub fn gradient_data(&self) -> (data: [u8; 1024])
        ensures
            data@ == gradient_lut(self.gradient@),
    {
        let mut data: [u8; 1024] = [0u8; 1024];
        generate_gradient_data(self.gradient.stops().as_slice(), &mut data);
        data
    }
}

} // verus!
