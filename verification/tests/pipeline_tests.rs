use vibe_dither::image_io::{image_from_clipboard, resize_exact, rgba_image_of, RgbaImage};
use vibe_dither::pipeline::plan::{
    Lut, PixelFormat, Resource, Rgba, SamplerSpec, SlotKind, TextureSpec, TextureWrite, Topology,
    Vertex,
};
use vibe_dither::pipeline::{ColorSettings, Pipeline};

#[test]
fn default_settings_are_a_fresh_edit() {
    let s = ColorSettings::default();
    assert_eq!(f32::from_bits(s.exposure), 0.0);
    assert_eq!(f32::from_bits(s.contrast), 1.0);
    assert_eq!(f32::from_bits(s.highlights), 0.0);
    assert_eq!(f32::from_bits(s.shadows), 0.0);
    assert_eq!(f32::from_bits(s.whites), 0.0);
    assert_eq!(f32::from_bits(s.blacks), 0.0);
    assert_eq!(f32::from_bits(s.temperature), 0.0);
    assert_eq!(f32::from_bits(s.tint), 0.0);
    assert_eq!(f32::from_bits(s.saturation), 1.0);
    assert_eq!(f32::from_bits(s.vibrance), 0.0);
    assert_eq!(f32::from_bits(s.sharpness), 0.0);
    assert_eq!(f32::from_bits(s.brightness), 0.0);
    assert_eq!(f32::from_bits(s.dither_enabled), 0.0);
    assert_eq!(f32::from_bits(s.dither_type), 0.0);
    assert_eq!(f32::from_bits(s.dither_scale), 1.0);
    assert_eq!(f32::from_bits(s.dither_threshold), 0.5);
    assert_eq!(f32::from_bits(s.dither_color), 0.0);
    assert_eq!(f32::from_bits(s.posterize_levels), 0.0);
    assert_eq!(f32::from_bits(s.bayer_size), 8.0);
    assert_eq!(f32::from_bits(s.grad_enabled), 0.0);
}

#[test]
fn settings_bytes_are_twenty_little_endian_floats_in_order() {
    let mut s = ColorSettings::default();
    s.exposure = (-1.5f32).to_bits();
    s.grad_enabled = 1.0f32.to_bits();
    s.dither_type = 3.0f32.to_bits();
    let bytes = s.to_bytes();
    let fields = [
        s.exposure,
        s.contrast,
        s.highlights,
        s.shadows,
        s.whites,
        s.blacks,
        s.temperature,
        s.tint,
        s.saturation,
        s.vibrance,
        s.sharpness,
        s.brightness,
        s.dither_enabled,
        s.dither_type,
        s.dither_scale,
        s.dither_threshold,
        s.dither_color,
        s.posterize_levels,
        s.bayer_size,
        s.grad_enabled,
    ];
    for (i, bits) in fields.iter().enumerate() {
        assert_eq!(&bytes[4 * i..4 * i + 4], &f32::from_bits(*bits).to_le_bytes());
    }
    // 1.0 is 0x3F800000: contrast, the second field
    assert_eq!(&bytes[4..8], &[0x00, 0x00, 0x80, 0x3F]);
}

#[test]
fn settings_round_trip_through_bytes() {
    let words: [u32; 20] = [
        0x0000_0000, 0x3F80_0000, 0xBF80_0000, 0x7FC0_0001, 0xFFFF_FFFF, 0x0000_0001, 0x8000_0000,
        0x1234_5678, 0x9ABC_DEF0, 0x0F0F_0F0F, 0xF0F0_F0F0, 0x4049_0FDB, 0x3F00_0000, 0x4040_0000,
        0x4200_0000, 0x3E99_999A, 0x3F80_0000, 0x4080_0000, 0x4100_0000, 0x7F80_0000,
    ];
    let s = ColorSettings::from_words(&words);
    assert_eq!(s.to_words(), words);
    assert_eq!(ColorSettings::from_bytes(&s.to_bytes()), s);
    let bytes = s.to_bytes();
    assert_eq!(ColorSettings::from_bytes(&bytes).to_bytes(), bytes);
    assert_eq!(s.bayer_size, 0x4100_0000);
    assert_eq!(bytes[79], 0x7F);
}

#[test]
fn a_new_manager_has_no_resources() {
    let p = Pipeline::new();
    assert!(!p.initialized());
    assert_eq!(p.update_curves(&[0u8; 1024]), None);
    assert_eq!(p.update_gradient(&[0u8; 1024]), None);
}

#[test]
fn init_plans_every_long_lived_resource() {
    let mut p = Pipeline::new();
    let plan = p.init("bgra8unorm");
    assert!(p.initialized());
    assert_eq!(plan.target_format, "bgra8unorm");
    assert_eq!(
        plan.lut_texture,
        TextureSpec { width: 256, height: 1, format: PixelFormat::Rgba8Unorm }
    );
    assert_eq!(plan.settings_buffer_size, 80);
    assert_eq!(plan.sampler, SamplerSpec { nearest: true, clamp_to_edge: true });
    assert_eq!(
        plan.quad,
        [
            Vertex { x: -1, y: 1, u: 0, v: 0 },
            Vertex { x: -1, y: -1, u: 0, v: 1 },
            Vertex { x: 1, y: 1, u: 1, v: 0 },
            Vertex { x: 1, y: -1, u: 1, v: 1 },
        ]
    );
    assert_eq!(plan.topology, Topology::TriangleStrip);
    assert_eq!(
        plan.layout,
        [
            SlotKind::Texture,
            SlotKind::Sampler,
            SlotKind::UniformBuffer,
            SlotKind::Texture,
            SlotKind::Texture,
        ]
    );
    assert_eq!(
        plan.bindings,
        [
            Resource::LutTexture(Lut::Curve),
            Resource::Sampler,
            Resource::SettingsBuffer,
            Resource::LutTexture(Lut::Curve),
            Resource::LutTexture(Lut::Gradient),
        ]
    );
}

#[test]
fn lut_updates_overwrite_the_whole_table() {
    let mut p = Pipeline::new();
    p.init(());
    let mut data = [0u8; 1024];
    for (i, b) in data.iter_mut().enumerate() {
        *b = (i % 251) as u8;
    }
    let row = TextureWrite { bytes_per_row: 1024, rows_per_image: 1, width: 256, height: 1 };
    let c = p.update_curves(&data).unwrap();
    assert_eq!(c.target, Lut::Curve);
    assert_eq!(c.data, data);
    assert_eq!(c.layout, row);
    let g = p.update_gradient(&data).unwrap();
    assert_eq!(g.target, Lut::Gradient);
    assert_eq!(g.data, data);
    assert_eq!(g.layout, row);
}

#[test]
fn render_copies_the_settings_and_draws_the_quad_once() {
    let mut p = Pipeline::new();
    p.init(());
    let mut s = ColorSettings::default();
    s.saturation = 1.25f32.to_bits();
    let plan = p.render(&s);
    assert_eq!(plan.settings, s.to_bytes());
    assert_eq!(
        plan.bindings,
        [
            Resource::InputTexture,
            Resource::Sampler,
            Resource::SettingsBuffer,
            Resource::LutTexture(Lut::Curve),
            Resource::LutTexture(Lut::Gradient),
        ]
    );
    assert_eq!(plan.clear, Rgba { r: 0, g: 0, b: 0, a: 255 });
    assert_eq!(plan.vertex_count, 4);
    assert_eq!(plan.instance_count, 1);
    assert_eq!(p.render(&s), plan);
}

#[test]
fn image_texture_is_as_large_as_the_image() {
    let p = Pipeline::new();
    let bytes: Vec<u8> = (0..24).collect();
    let img = image::DynamicImage::ImageRgba8(
        image::RgbaImage::from_raw(3, 2, bytes.clone()).unwrap(),
    );
    let up = p.create_texture_from_image(&img).unwrap();
    assert_eq!(
        up.texture,
        TextureSpec { width: 3, height: 2, format: PixelFormat::Rgba8UnormSrgb }
    );
    assert_eq!(
        up.layout,
        TextureWrite { bytes_per_row: 12, rows_per_image: 2, width: 3, height: 2 }
    );
    assert_eq!(up.pixels.as_raw(), &bytes);
}

#[test]
fn rgba_image_needs_all_its_pixels() {
    assert!(RgbaImage::from_raw(3, 2, vec![0u8; 23]).is_none());
    let exact = RgbaImage::from_raw(3, 2, vec![1u8; 24]).unwrap();
    assert_eq!((exact.width(), exact.height(), exact.as_raw().len()), (3, 2, 24));
    // what lies behind the last pixel is dropped
    let mut long = vec![2u8; 24];
    long.extend_from_slice(&[3, 3, 3]);
    let cut = RgbaImage::from_raw(3, 2, long).unwrap();
    assert_eq!(cut.as_raw(), &vec![2u8; 24]);
    // an image without pixels is an image
    let empty = RgbaImage::from_raw(0, 5, Vec::new()).unwrap();
    assert_eq!((empty.width(), empty.height(), empty.as_raw().len()), (0, 5, 0));
}

#[test]
fn rgba_image_rows_fit_in_32_bits() {
    // 4 * 0x4000_0000 is 2^32: a row that long cannot be told to the GPU
    assert!(RgbaImage::from_raw(0x4000_0000, 0, Vec::new()).is_none());
    assert!(RgbaImage::from_raw(0x3fff_ffff, 0, Vec::new()).is_some());
}

#[test]
fn clipboard_image_keeps_size_and_bytes() {
    let bytes: Vec<u8> = (0..32).collect();
    let img = image_from_clipboard(4, 2, bytes.clone()).unwrap();
    assert_eq!((img.width(), img.height()), (4, 2));
    assert_eq!(img.as_raw(), &bytes);
    assert!(image_from_clipboard(4, 3, bytes).is_none());
}

#[test]
fn clipboard_sizes_beyond_32_bits_are_no_image() {
    // where the machine has such sizes: their low 32 bits would be a size of 0
    if let Some(big) = (u32::MAX as usize).checked_add(1) {
        assert!(image_from_clipboard(0, big, Vec::new()).is_none());
        assert!(image_from_clipboard(big, 0, Vec::new()).is_none());
        assert!(image_from_clipboard(big + 1, big + 1, vec![0u8; 4]).is_none());
    }
    // the largest height of 32 bits is a height
    let tall = image_from_clipboard(0, u32::MAX as usize, Vec::new()).unwrap();
    assert_eq!((tall.width(), tall.height()), (0, u32::MAX));
}

#[test]
fn decoded_images_become_rgba_pixels() {
    // grey becomes three equal channels and a full alpha
    let grey = image::DynamicImage::ImageLuma8(
        image::GrayImage::from_raw(2, 1, vec![10, 200]).unwrap(),
    );
    let out = rgba_image_of(&grey).unwrap();
    assert_eq!((out.width(), out.height()), (2, 1));
    assert_eq!(out.as_raw(), &vec![10, 10, 10, 255, 200, 200, 200, 255]);
    // colour without alpha gets a full alpha
    let rgb = image::DynamicImage::ImageRgb8(
        image::RgbImage::from_raw(1, 2, vec![1, 2, 3, 4, 5, 6]).unwrap(),
    );
    let out = rgba_image_of(&rgb).unwrap();
    assert_eq!((out.width(), out.height()), (1, 2));
    assert_eq!(out.into_raw(), vec![1, 2, 3, 255, 4, 5, 6, 255]);
    // an image without pixels is an image
    let empty = image::DynamicImage::ImageRgba8(image::RgbaImage::new(0, 3));
    let out = rgba_image_of(&empty).unwrap();
    assert_eq!((out.width(), out.height(), out.as_raw().len()), (0, 3, 0));
}

#[test]
fn resize_exact_takes_the_nearest_pixels() {
    let a = [1, 2, 3, 4];
    let b = [5, 6, 7, 8];
    let make = || RgbaImage::from_raw(2, 1, [a, b].concat()).unwrap();
    // the same size: the image itself
    assert_eq!(resize_exact(make(), 2, 1), Some(make()));
    // twice as wide and as high: every pixel four times
    let big = resize_exact(make(), 4, 2).unwrap();
    assert_eq!((big.width(), big.height()), (4, 2));
    assert_eq!(big.into_raw(), [a, a, b, b, a, a, b, b].concat());
    // half as wide: one of the two pixels
    let small = resize_exact(make(), 1, 1).unwrap();
    assert_eq!((small.width(), small.height()), (1, 1));
    assert_eq!(small.as_raw().len(), 4);
    // down to nothing
    let none = resize_exact(make(), 0, 5).unwrap();
    assert_eq!((none.width(), none.height(), none.as_raw().len()), (0, 5, 0));
}

#[test]
fn resize_exact_needs_pixels_and_room() {
    let empty = || RgbaImage::from_raw(0, 4, Vec::new()).unwrap();
    assert_eq!(resize_exact(empty(), 2, 2), None);
    assert_eq!(resize_exact(empty(), 0, 4), Some(empty()));
    let one = || RgbaImage::from_raw(1, 1, vec![9, 9, 9, 9]).unwrap();
    // a row of 2^30 pixels is 2^32 bytes long
    assert_eq!(resize_exact(one(), 1 << 30, 0), None);
    // 16 bytes for each of 2^29 by 2^31 pixels have no place in memory
    assert_eq!(resize_exact(one(), 1 << 29, 1 << 31), None);
}

#[test]
fn images_of_16_bit_samples_are_scaled_to_bytes() {
    let deep = image::DynamicImage::ImageLuma16(
        image::ImageBuffer::from_raw(3, 1, vec![0u16, 257, 65535]).unwrap(),
    );
    let out = rgba_image_of(&deep).unwrap();
    assert_eq!(out.into_raw(), vec![0, 0, 0, 255, 1, 1, 1, 255, 255, 255, 255, 255]);
}

#[test]
fn images_of_float_samples_are_not_taken() {
    // a sample that is not a number has no byte
    let mut buffer = image::Rgb32FImage::new(1, 1);
    buffer.put_pixel(0, 0, image::Rgb([f32::NAN, 0.5, 1.0]));
    let broken = image::DynamicImage::ImageRgb32F(buffer);
    assert!(rgba_image_of(&broken).is_none());
    assert!(Pipeline::new().create_texture_from_image(&broken).is_none());
    // and samples that are numbers are not looked at either
    let sound = image::DynamicImage::ImageRgba32F(image::Rgba32FImage::new(2, 2));
    assert!(rgba_image_of(&sound).is_none());
    assert!(Pipeline::new().create_texture_from_image(&sound).is_none());
}
