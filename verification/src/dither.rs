//! The dithering algorithms and the numbers that select them in the settings
//! record.
//!
//! The record holds single-precision numbers as their bits. For numbers of
//! positive sign the order of the bits is the order of the numbers, so a
//! number is compared with a constant by comparing bits; no number is ever
//! computed with.

use vstd::prelude::*;
use crate::pipeline::settings::ColorSettings;

verus! {

/// The dithering algorithms that the fragment stage knows, in the order of
/// their selectors.
#[derive(Clone, Copy, Debug, PartialEq, Eq, Structural)]
pub enum DitherAlgorithm {
    /// No dithering.
    Off,
    Threshold,
    Random,
    Bayer,
    BlueNoise,
    DiffusionApprox,
    Stucki,
    Atkinson,
    GradientBased,
    LatticeBoltzmann,
}

/// The bits of the whole number `n`, for `n` from 0 to 10.
pub open spec fn whole_bits(n: int) -> u32 {
    if n == 0 {
        0x0000_0000
    } else if n == 1 {
        0x3F80_0000
    } else if n == 2 {
        0x4000_0000
    } else if n == 3 {
        0x4040_0000
    } else if n == 4 {
        0x4080_0000
    } else if n == 5 {
        0x40A0_0000
    } else if n == 6 {
        0x40C0_0000
    } else if n == 7 {
        0x40E0_0000
    } else if n == 8 {
        0x4100_0000
    } else if n == 9 {
        0x4110_0000
    } else {
        0x4120_0000
    }
}

/// The bits encode a number above 0.5: a flag that is on. Not-a-number
/// encodings and numbers of negative sign are not above anything.
pub open spec fn is_on(bits: u32) -> bool {
    0x3F00_0000 < bits <= 0x7F80_0000
}

/// The whole part of the number that the bits encode, as far as it matters
/// for choosing among ten: 0 for a not-a-number encoding and for every
/// number below 1, the number rounded down from 1 on, and 10 for everything
/// from 10 on.
pub open spec fn whole_part(bits: u32) -> int {
    if bits > 0x7F80_0000 {
        0
    } else if bits < whole_bits(1) {
        0
    } else if bits < whole_bits(2) {
        1
    } else if bits < whole_bits(3) {
        2
    } else if bits < whole_bits(4) {
        3
    } else if bits < whole_bits(5) {
        4
    } else if bits < whole_bits(6) {
        5
    } else if bits < whole_bits(7) {
        6
    } else if bits < whole_bits(8) {
        7
    } else if bits < whole_bits(9) {
        8
    } else if bits < whole_bits(10) {
        9
    } else {
        10
    }
}

impl DitherAlgorithm {
    /// The place of the algorithm in the list, from 0.
    pub open spec fn index(self) -> int {
        match self {
            DitherAlgorithm::Off => 0,
            DitherAlgorithm::Threshold => 1,
            DitherAlgorithm::Random => 2,
            DitherAlgorithm::Bayer => 3,
            DitherAlgorithm::BlueNoise => 4,
            DitherAlgorithm::DiffusionApprox => 5,
            DitherAlgorithm::Stucki => 6,
            DitherAlgorithm::Atkinson => 7,
            DitherAlgorithm::GradientBased => 8,
            DitherAlgorithm::LatticeBoltzmann => 9,
        }
    }

    /// The algorithm at place `i` of the list, for `i` from 0 to 9.
    pub open spec fn at(i: int) -> DitherAlgorithm {
        if i == 0 {
            DitherAlgorithm::Off
        } else if i == 1 {
            DitherAlgorithm::Threshold
        } else if i == 2 {
            DitherAlgorithm::Random
        } else if i == 3 {
            DitherAlgorithm::Bayer
        } else if i == 4 {
            DitherAlgorithm::BlueNoise
        } else if i == 5 {
            DitherAlgorithm::DiffusionApprox
        } else if i == 6 {
            DitherAlgorithm::Stucki
        } else if i == 7 {
            DitherAlgorithm::Atkinson
        } else if i == 8 {
            DitherAlgorithm::GradientBased
        } else {
            DitherAlgorithm::LatticeBoltzmann
        }
    }

    /// The algorithm that a number in the settings record selects: the one
    /// at the place of the number's whole part, or none where the number is
    /// 10 or more.
    pub open spec fn from_selector_spec(bits: u32) -> Option<DitherAlgorithm> {
        if whole_part(bits) < 10 {
            Some(DitherAlgorithm::at(whole_part(bits)))
        } else {
            None
        }
    }

    /// The algorithm at place `i` of the list, if there is one.
    pub fn from_index(i: usize) -> (a: Option<DitherAlgorithm>)
        ensures
            a is Some <==> i < 10,
            a matches Some(alg) ==> alg == DitherAlgorithm::at(i as int) && alg.index() == i,
    {
        match i {
            0 => Some(DitherAlgorithm::Off),
            1 => Some(DitherAlgorithm::Threshold),
            2 => Some(DitherAlgorithm::Random),
            3 => Some(DitherAlgorithm::Bayer),
            4 => Some(DitherAlgorithm::BlueNoise),
            5 => Some(DitherAlgorithm::DiffusionApprox),
            6 => Some(DitherAlgorithm::Stucki),
            7 => Some(DitherAlgorithm::Atkinson),
            8 => Some(DitherAlgorithm::GradientBased),
            9 => Some(DitherAlgorithm::LatticeBoltzmann),
            _ => None,
        }
    }

    /// The place of the algorithm in the list, from 0.
    pub fn to_index(self) -> (i: usize)
        ensures
            i == self.index(),
            i < 10,
    {
        match self {
            DitherAlgorithm::Off => 0,
            DitherAlgorithm::Threshold => 1,
            DitherAlgorithm::Random => 2,
            DitherAlgorithm::Bayer => 3,
            DitherAlgorithm::BlueNoise => 4,
            DitherAlgorithm::DiffusionApprox => 5,
            DitherAlgorithm::Stucki => 6,
            DitherAlgorithm::Atkinson => 7,
            DitherAlgorithm::GradientBased => 8,
            DitherAlgorithm::LatticeBoltzmann => 9,
        }
    }

    /// The number that selects the algorithm in the settings record: its
    /// place in the list as a single-precision number.
    pub fn selector(self) -> (bits: u32)
        ensures
            bits == whole_bits(self.index()),
    {
        match self {
            DitherAlgorithm::Off => 0x0000_0000,
            DitherAlgorithm::Threshold => 0x3F80_0000,
            DitherAlgorithm::Random => 0x4000_0000,
            DitherAlgorithm::Bayer => 0x4040_0000,
            DitherAlgorithm::BlueNoise => 0x4080_0000,
            DitherAlgorithm::DiffusionApprox => 0x40A0_0000,
            DitherAlgorithm::Stucki => 0x40C0_0000,
            DitherAlgorithm::Atkinson => 0x40E0_0000,
            DitherAlgorithm::GradientBased => 0x4100_0000,
            DitherAlgorithm::LatticeBoltzmann => 0x4110_0000,
        }
    }

    /// The algorithm that a number in the settings record selects: the one
    /// at the place of the number's whole part, or none where the number is
    /// 10 or more.
    pub fn from_selector(bits: u32) -> (a: Option<DitherAlgorithm>)
        ensures
            a == DitherAlgorithm::from_selector_spec(bits),
            a matches Some(alg) ==> alg.index() == whole_part(bits),
    {
        if bits > 0x7F80_0000 || bits < 0x3F80_0000 {
            Some(DitherAlgorithm::Off)
        } else if bits < 0x4000_0000 {
            Some(DitherAlgorithm::Threshold)
        } else if bits < 0x4040_0000 {
            Some(DitherAlgorithm::Random)
        } else if bits < 0x4080_0000 {
            Some(DitherAlgorithm::Bayer)
        } else if bits < 0x40A0_0000 {
            Some(DitherAlgorithm::BlueNoise)
        } else if bits < 0x40C0_0000 {
            Some(DitherAlgorithm::DiffusionApprox)
        } else if bits < 0x40E0_0000 {
            Some(DitherAlgorithm::Stucki)
        } else if bits < 0x4100_0000 {
            Some(DitherAlgorithm::Atkinson)
        } else if bits < 0x4110_0000 {
            Some(DitherAlgorithm::GradientBased)
        } else if bits < 0x4120_0000 {
            Some(DitherAlgorithm::LatticeBoltzmann)
        } else {
            None
        }
    }
}

/// Whether the bits encode a number above 0.5: a flag that is on.
pub fn flag_is_on(bits: u32) -> (on: bool)
    ensures
        on == is_on(bits),
{
    bits > 0x3F00_0000 && bits <= 0x7F80_0000
}

/// The bits of a flag: 1.0 for on and 0.0 for off.
pub fn flag_bits(on: bool) -> (bits: u32)
    ensures
        bits == if on {
            0x3F80_0000u32
        } else {
            0u32
        },
        is_on(bits) == on,
{
    if on {
        0x3F80_0000
    } else {
        0
    }
}

/// The selector of an algorithm selects that algorithm.
pub proof fn lemma_selector_round_trip(a: DitherAlgorithm)
    ensures
        whole_part(whole_bits(a.index())) == a.index(),
        DitherAlgorithm::from_selector_spec(whole_bits(a.index())) == Some(a),
{
}

impl ColorSettings {
    /// The settings with the algorithm `a` chosen: its selector is set,
    /// dithering is on for every algorithm but the first, and dithering in
    /// colour is off.
    pub open spec fn with_dither(self, a: DitherAlgorithm) -> ColorSettings {
        ColorSettings {
            dither_type: whole_bits(a.index()),
            dither_enabled: if a.index() > 0 {
                0x3F80_0000
            } else {
                0
            },
            dither_color: 0,
            ..self
        }
    }

    /// Chooses the dithering algorithm `a`.
    pub fn select_dither(&mut self, a: DitherAlgorithm)
        ensures
            *final(self) == old(self).with_dither(a),
            DitherAlgorithm::from_selector_spec(final(self).dither_type) == Some(a),
    {
        self.dither_type = a.selector();
        self.dither_enabled = flag_bits(a.to_index() > 0);
        self.dither_color = 0;
    }

    /// The algorithm that the settings select.
    pub fn dither_algorithm(&self) -> (a: Option<DitherAlgorithm>)
        ensures
            a == DitherAlgorithm::from_selector_spec(self.dither_type),
    {
        DitherAlgorithm::from_selector(self.dither_type)
    }

    /// Whether the gradient remap is on.
    pub fn gradient_enabled(&self) -> (on: bool)
        ensures
            on == is_on(self.grad_enabled),
    {
        flag_is_on(self.grad_enabled)
    }

    /// Turns posterizing on, at 4 levels, or off.
    pub fn set_posterize(&mut self, on: bool)
        ensures
            *final(self) == (ColorSettings {
                posterize_levels: if on {
                    0x4080_0000
                } else {
                    0
                },
                ..*old(self)
            }),
    {
        self.posterize_levels = if on {
            0x4080_0000
        } else {
            0
        };
    }
}

} // verus!
