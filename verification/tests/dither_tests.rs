use vibe_dither::dither::{flag_bits, flag_is_on, DitherAlgorithm};
use vibe_dither::pipeline::ColorSettings;

const ALL: [DitherAlgorithm; 10] = [
    DitherAlgorithm::Off,
    DitherAlgorithm::Threshold,
    DitherAlgorithm::Random,
    DitherAlgorithm::Bayer,
    DitherAlgorithm::BlueNoise,
    DitherAlgorithm::DiffusionApprox,
    DitherAlgorithm::Stucki,
    DitherAlgorithm::Atkinson,
    DitherAlgorithm::GradientBased,
    DitherAlgorithm::LatticeBoltzmann,
];

#[test]
fn selectors_are_the_places_as_numbers() {
    for (i, a) in ALL.iter().enumerate() {
        assert_eq!(a.to_index(), i);
        assert_eq!(f32::from_bits(a.selector()), i as f32);
        assert_eq!(DitherAlgorithm::from_index(i), Some(*a));
        assert_eq!(DitherAlgorithm::from_selector(a.selector()), Some(*a));
    }
    assert_eq!(DitherAlgorithm::from_index(10), None);
}

#[test]
fn a_selector_counts_by_its_whole_part() {
    let pick = |v: f32| DitherAlgorithm::from_selector(v.to_bits());
    assert_eq!(pick(0.99), Some(DitherAlgorithm::Off));
    assert_eq!(pick(3.7), Some(DitherAlgorithm::Bayer));
    assert_eq!(pick(9.999), Some(DitherAlgorithm::LatticeBoltzmann));
    assert_eq!(pick(10.0), None);
    assert_eq!(pick(f32::INFINITY), None);
    // what is no number, or below zero, counts as 0
    assert_eq!(pick(f32::NAN), Some(DitherAlgorithm::Off));
    assert_eq!(pick(-4.0), Some(DitherAlgorithm::Off));
    assert_eq!(pick(-0.0), Some(DitherAlgorithm::Off));
    assert_eq!(pick(f32::NEG_INFINITY), Some(DitherAlgorithm::Off));
}

#[test]
fn a_selector_agrees_with_the_cast_of_its_number() {
    let names = ALL.len();
    for v in [0.0f32, 0.5, 1.0, 1.5, 2.0, 2.99, 4.0, 5.5, 6.0, 7.25, 8.0, 9.0, 9.5, 10.0, 11.0, 1e9] {
        let index = v as usize;
        let expected = if index < names { Some(ALL[index]) } else { None };
        assert_eq!(DitherAlgorithm::from_selector(v.to_bits()), expected);
    }
}

#[test]
fn a_flag_is_on_above_one_half() {
    let on = |v: f32| flag_is_on(v.to_bits());
    assert!(!on(0.0));
    assert!(!on(0.5));
    assert!(on(0.50001));
    assert!(on(1.0));
    assert!(on(f32::INFINITY));
    assert!(!on(-1.0));
    assert!(!on(f32::NAN));
    assert_eq!(f32::from_bits(flag_bits(true)), 1.0);
    assert_eq!(f32::from_bits(flag_bits(false)), 0.0);
}

#[test]
fn choosing_an_algorithm_sets_three_fields() {
    let mut s = ColorSettings::default();
    s.dither_color = 1.0f32.to_bits();
    s.select_dither(DitherAlgorithm::Bayer);
    assert_eq!(f32::from_bits(s.dither_type), 3.0);
    assert_eq!(f32::from_bits(s.dither_enabled), 1.0);
    assert_eq!(f32::from_bits(s.dither_color), 0.0);
    assert_eq!(s.dither_algorithm(), Some(DitherAlgorithm::Bayer));
    s.select_dither(DitherAlgorithm::Off);
    assert_eq!(f32::from_bits(s.dither_type), 0.0);
    assert_eq!(f32::from_bits(s.dither_enabled), 0.0);
    let mut rest = s;
    rest.dither_type = 0;
    rest.dither_enabled = 0;
    rest.dither_color = 0;
    assert_eq!(rest, ColorSettings::default());
}

#[test]
fn posterizing_starts_at_four_levels() {
    let mut s = ColorSettings::default();
    s.set_posterize(true);
    assert_eq!(f32::from_bits(s.posterize_levels), 4.0);
    s.set_posterize(false);
    assert_eq!(s, ColorSettings::default());
}

#[test]
fn the_gradient_flag_is_read_from_the_settings() {
    let mut s = ColorSettings::default();
    assert!(!s.gradient_enabled());
    s.grad_enabled = flag_bits(true);
    assert!(s.gradient_enabled());
}
