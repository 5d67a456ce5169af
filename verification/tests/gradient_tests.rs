use vibe_dither::gradient::{
    blend_channel, generate_gradient_data, gradient_entry, GradientStop, Rgb,
};

const BLACK: Rgb = Rgb { r: 0, g: 0, b: 0 };
const WHITE: Rgb = Rgb { r: 255, g: 255, b: 255 };

fn stop(id: u64, pos: u16, color: Rgb) -> GradientStop {
    GradientStop { id, pos, color }
}

#[test]
fn black_to_white_ramp_has_exact_ends() {
    let stops = [stop(0, 0, BLACK), stop(1, 65535, WHITE)];
    let mut data = [7u8; 1024];
    generate_gradient_data(&stops, &mut data);
    assert_eq!(&data[0..4], &[0, 0, 0, 255]);
    assert_eq!(&data[1020..1024], &[255, 255, 255, 255]);
}

#[test]
fn black_to_white_ramp_rises_in_every_channel() {
    let stops = [stop(0, 0, BLACK), stop(1, 65535, WHITE)];
    let mut data = [0u8; 1024];
    generate_gradient_data(&stops, &mut data);
    for i in 0..256 {
        assert_eq!(data[4 * i] as usize, i);
        assert_eq!(data[4 * i + 1] as usize, i);
        assert_eq!(data[4 * i + 2] as usize, i);
        assert_eq!(data[4 * i + 3], 255);
    }
}

#[test]
fn single_stop_gives_uniform_colour() {
    let c = Rgb { r: 10, g: 200, b: 30 };
    let mut data = [0u8; 1024];
    generate_gradient_data(&[stop(5, 40000, c)], &mut data);
    for i in 0..256 {
        assert_eq!(&data[4 * i..4 * i + 4], &[10, 200, 30, 255]);
    }
}

#[test]
fn stops_at_one_position_take_the_lower_colour() {
    // level 128 sits at 128 * 257 = 32896; both inner stops are there
    let red = Rgb { r: 255, g: 0, b: 0 };
    let blue = Rgb { r: 0, g: 0, b: 255 };
    let stops = [stop(0, 0, BLACK), stop(1, 32896, red), stop(2, 32896, blue), stop(3, 65535, WHITE)];
    // the scan keeps the last stop that is not right of the level
    assert_eq!(gradient_entry(&stops, 128), blue);
}

#[test]
fn stops_closer_than_a_ten_thousandth_are_not_divided() {
    // 6 / 65535 < 1e-4 <= 7 / 65535
    let a = Rgb { r: 9, g: 8, b: 7 };
    let b = Rgb { r: 200, g: 100, b: 50 };
    // level 1 sits at 257, between the two stops
    let near = [stop(0, 254, a), stop(1, 260, b)];
    assert_eq!(gradient_entry(&near, 1), a);
    let apart = [stop(0, 254, a), stop(1, 261, b)];
    // (9 * 4 + 200 * 3) / 7 = 90, (8 * 4 + 100 * 3) / 7 = 47, (7 * 4 + 50 * 3) / 7 = 25
    assert_eq!(gradient_entry(&apart, 1), Rgb { r: 90, g: 47, b: 25 });
}

#[test]
fn levels_outside_the_stops_hold_the_end_colours() {
    let a = Rgb { r: 1, g: 2, b: 3 };
    let b = Rgb { r: 4, g: 5, b: 6 };
    let stops = [stop(0, 20000, a), stop(1, 40000, b)];
    assert_eq!(gradient_entry(&stops, 0), a);
    assert_eq!(gradient_entry(&stops, 255), b);
}

#[test]
fn blend_channel_rounds_down() {
    // 10 * (100 - 33) + 20 * (33 - 0) = 1330, and 1330 / 100 = 13
    assert_eq!(blend_channel(10, 20, 0, 100, 33), 13);
    // a falling channel: 20 * 67 + 10 * 33 = 1670, and 1670 / 100 = 16
    assert_eq!(blend_channel(20, 10, 0, 100, 33), 16);
}

#[test]
fn blend_channel_saturates_outside_the_stops() {
    // read left of both stops: 0 * (200 - 50) + 255 * (50 - 100) < 0
    assert_eq!(blend_channel(0, 255, 100, 200, 50), 0);
    // read right of both stops: 255 * (250 - 100) / 100 > 255
    assert_eq!(blend_channel(0, 255, 100, 200, 250), 255);
}

#[test]
fn gradient_table_is_the_same_every_time() {
    let stops = [
        stop(0, 0, Rgb { r: 12, g: 99, b: 240 }),
        stop(2, 30000, Rgb { r: 250, g: 3, b: 77 }),
        stop(1, 65535, Rgb { r: 0, g: 128, b: 255 }),
    ];
    let mut first = [0u8; 1024];
    let mut second = [255u8; 1024];
    generate_gradient_data(&stops, &mut first);
    generate_gradient_data(&stops, &mut second);
    assert_eq!(first, second);
}

#[test]
fn a_ramp_rises_with_its_stops() {
    // red and blue do not fall from stop to stop, green does
    let stops = [
        stop(0, 0, Rgb { r: 0, g: 200, b: 5 }),
        stop(1, 20000, Rgb { r: 40, g: 100, b: 5 }),
        stop(2, 20000, Rgb { r: 90, g: 50, b: 7 }),
        stop(3, 50000, Rgb { r: 90, g: 10, b: 250 }),
        stop(4, 65535, Rgb { r: 255, g: 0, b: 255 }),
    ];
    let mut data = [0u8; 1024];
    generate_gradient_data(&stops, &mut data);
    for i in 1..256 {
        assert!(data[4 * (i - 1)] <= data[4 * i]);
        assert!(data[4 * (i - 1) + 2] <= data[4 * i + 2]);
        assert!(data[4 * (i - 1) + 1] >= data[4 * i + 1]);
    }
}

#[test]
fn a_ramp_stays_between_its_stops() {
    let stops = [
        stop(0, 1000, Rgb { r: 10, g: 250, b: 100 }),
        stop(1, 30000, Rgb { r: 200, g: 20, b: 100 }),
        stop(2, 60000, Rgb { r: 50, g: 90, b: 101 }),
    ];
    let mut data = [0u8; 1024];
    generate_gradient_data(&stops, &mut data);
    for i in 0..256 {
        assert!((10..=200).contains(&data[4 * i]));
        assert!((20..=250).contains(&data[4 * i + 1]));
        assert!((100..=101).contains(&data[4 * i + 2]));
    }
}
