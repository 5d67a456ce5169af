use vibe_dither::dither::{flag_bits, DitherAlgorithm};
use vibe_dither::export::{
    algorithm_file_name, default_export_name, drop_alpha, png_compression, readback_layout,
    unpad_rows, ExportFormat, PngCompression, ReadbackLayout,
};
use vibe_dither::pipeline::ColorSettings;

#[test]
fn rows_are_padded_to_256_bytes() {
    assert_eq!(
        readback_layout(100, 50),
        Some(ReadbackLayout {
            unpadded_bytes_per_row: 400,
            padded_bytes_per_row: 512,
            buffer_size: 25600,
        })
    );
    // a row that is a multiple already gets no padding
    assert_eq!(
        readback_layout(64, 3),
        Some(ReadbackLayout {
            unpadded_bytes_per_row: 256,
            padded_bytes_per_row: 256,
            buffer_size: 768,
        })
    );
    assert_eq!(
        readback_layout(0, 7),
        Some(ReadbackLayout { unpadded_bytes_per_row: 0, padded_bytes_per_row: 0, buffer_size: 0 })
    );
}

#[test]
fn a_layout_beyond_32_bits_is_none() {
    // 4 * 2^30 does not fit
    assert_eq!(readback_layout(1 << 30, 1), None);
    // 65536 rows of 65536 bytes are 2^32 bytes
    assert_eq!(readback_layout(16384, 65536), None);
    assert!(readback_layout(16384, 65535).is_some());
}

#[test]
fn unpad_rows_takes_the_padding_out() {
    // two rows of 3 bytes, a row every 5 bytes
    let data = [1, 2, 3, 0, 0, 4, 5, 6, 0, 0];
    assert_eq!(unpad_rows(&data, 3, 5, 2), Some(vec![1, 2, 3, 4, 5, 6]));
    // the last row needs no padding behind it
    assert_eq!(unpad_rows(&data[..8], 3, 5, 2), Some(vec![1, 2, 3, 4, 5, 6]));
    assert_eq!(unpad_rows(&data[..7], 3, 5, 2), None);
    assert_eq!(unpad_rows(&data, 3, 5, 0), Some(Vec::new()));
    assert_eq!(unpad_rows(&data, 0, 5, 2), Some(Vec::new()));
}

#[test]
fn drop_alpha_keeps_red_green_blue() {
    assert_eq!(drop_alpha(&[1, 2, 3, 255, 4, 5, 6, 0]), vec![1, 2, 3, 4, 5, 6]);
    assert_eq!(drop_alpha(&[1, 2, 3, 255, 4, 5]), vec![1, 2, 3]);
    assert_eq!(drop_alpha(&[]), Vec::<u8>::new());
}

#[test]
fn formats_have_their_extensions() {
    assert_eq!(ExportFormat::Png.extension(), "png");
    assert_eq!(ExportFormat::Jpg.extension(), "jpg");
    assert_eq!(ExportFormat::Webp.extension(), "webp");
    assert_eq!(ExportFormat::Png.filter_name(), "Portable Network Graphics");
    assert_eq!(ExportFormat::Jpg.filter_name(), "JPEG");
    assert_eq!(ExportFormat::Webp.filter_name(), "WebP");
}

#[test]
fn a_jpeg_never_keeps_alpha() {
    assert!(ExportFormat::Png.keeps_alpha(true));
    assert!(!ExportFormat::Png.keeps_alpha(false));
    assert!(!ExportFormat::Jpg.keeps_alpha(true));
    assert!(ExportFormat::Webp.keeps_alpha(true));
}

#[test]
fn the_file_name_tells_algorithm_and_colour() {
    let mut s = ColorSettings::default();
    assert_eq!(default_export_name(&s, ExportFormat::Png), "VibeDither_None.png");
    s.select_dither(DitherAlgorithm::BlueNoise);
    s.grad_enabled = flag_bits(true);
    assert_eq!(default_export_name(&s, ExportFormat::Jpg), "VibeDither_BlueNoise_Colored.jpg");
    s.dither_type = 12.0f32.to_bits();
    s.grad_enabled = flag_bits(false);
    assert_eq!(default_export_name(&s, ExportFormat::Webp), "VibeDither_Custom.webp");
}

#[test]
fn algorithms_have_their_names() {
    assert_eq!(algorithm_file_name(Some(DitherAlgorithm::Off)), "None");
    assert_eq!(algorithm_file_name(Some(DitherAlgorithm::DiffusionApprox)), "DiffusionApprox");
    assert_eq!(algorithm_file_name(Some(DitherAlgorithm::LatticeBoltzmann)), "LatticeBoltzmann");
    assert_eq!(algorithm_file_name(None), "Custom");
}

#[test]
fn png_compression_follows_the_setting() {
    let level = |v: f32| png_compression(v.to_bits());
    assert_eq!(level(0.0), PngCompression::Fast);
    assert_eq!(level(0.3), PngCompression::Fast);
    assert_eq!(level(0.31), PngCompression::Default);
    assert_eq!(level(0.8), PngCompression::Default);
    assert_eq!(level(0.81), PngCompression::Best);
    assert_eq!(level(1.0), PngCompression::Best);
    assert_eq!(level(-1.0), PngCompression::Fast);
    assert_eq!(level(f32::NAN), PngCompression::Fast);
}
