//! What an export needs besides the render: the layout of the buffer that
//! the output is read back into, the pixels without their padding, and the
//! name under which the file is offered.

use vstd::prelude::*;
use crate::dither::{is_on, DitherAlgorithm};
use crate::pipeline::settings::ColorSettings;

verus! {

/// `String::push_str` of the standard library. Taken on trust from its
/// documentation: afterwards the string holds what it held, followed by the
/// characters of `string`.
pub assume_specification[ String::push_str ](s: &mut String, string: &str)
    ensures
        final(s)@ == old(s)@ + string@,
;

/// The container formats that an export can be written in.
#[derive(Clone, Copy, Debug, PartialEq, Eq, Structural)]
pub enum ExportFormat {
    Png,
    Jpg,
    Webp,
}

/// How hard the PNG encoder tries.
#[derive(Clone, Copy, Debug, PartialEq, Eq, Structural)]
pub enum PngCompression {
    Fast,
    Default,
    Best,
}

/// The layout of the buffer that a rendered image of some size is read back
/// into.
#[derive(Clone, Copy, Debug, PartialEq, Eq, Structural)]
pub struct ReadbackLayout {
    /// The bytes of the pixels of one row.
    pub unpadded_bytes_per_row: u32,
    /// The bytes from the start of one row to the start of the next.
    pub padded_bytes_per_row: u32,
    /// The size of the whole buffer in bytes.
    pub buffer_size: u64,
}

/// `n` rounded up to a multiple of 256.
pub open spec fn padded(n: int) -> int {
    n + (256 - n % 256) % 256
}

/// The layout for an image of the given size, where every length in it fits
/// in 32 bits.
pub open spec fn readback_layout_of(width: int, height: int) -> Option<ReadbackLayout> {
    if padded(4 * width) <= 0xffff_ffff && padded(4 * width) * height <= 0xffff_ffff {
        Some(
            ReadbackLayout {
                unpadded_bytes_per_row: (4 * width) as u32,
                padded_bytes_per_row: padded(4 * width) as u32,
                buffer_size: (padded(4 * width) * height) as u64,
            },
        )
    } else {
        None
    }
}

/// Rounding up gives the least multiple of 256 that is not smaller.
pub proof fn lemma_padded_is_least_multiple(n: int)
    requires
        n >= 0,
    ensures
        padded(n) % 256 == 0,
        n <= padded(n) < n + 256,
{
}

/// The layout of the buffer that an image of the given size is read back
/// into: rows padded to a multiple of 256 bytes, one after the other.
/// Nothing where a length in it would not fit in 32 bits.
pub fn readback_layout(width: u32, height: u32) -> (layout: Option<ReadbackLayout>)
    ensures
        layout == readback_layout_of(width as int, height as int),
{
    proof {
        lemma_padded_is_least_multiple(4 * width);
    }
    let unpadded: u64 = 4 * (width as u64);
    let padding: u64 = (256 - unpadded % 256) % 256;
    let row: u64 = unpadded + padding;
    if row > 0xffff_ffff {
        return None;
    }
    assert(row * height <= 0xffff_ffff * 0xffff_ffff) by (nonlinear_arith)
        requires
            0 <= row <= 0xffff_ffff,
            0 <= height <= 0xffff_ffff,
    ;
    let size: u64 = row * (height as u64);
    if size > 0xffff_ffff {
        return None;
    }
    Some(
        ReadbackLayout {
            unpadded_bytes_per_row: unpadded as u32,
            padded_bytes_per_row: row as u32,
            buffer_size: size,
        },
    )
}

/// The pixels of an image of `rows` rows of `row_len` bytes, out of a buffer
/// in which a row starts every `stride` bytes.
pub open spec fn unpadded(data: Seq<u8>, row_len: int, stride: int, rows: int) -> Seq<u8> {
    Seq::new(
        (row_len * rows) as nat,
        |k: int| data[(k / row_len) * stride + k % row_len],
    )
}

/// Takes the padding out of the rows of a buffer that an image was read back
/// into: `rows` rows of `row_len` bytes, a row starting every `stride` bytes.
/// Nothing where the buffer is too short for that.
pub fn unpad_rows(data: &[u8], row_len: u32, stride: u32, rows: u32) -> (pixels: Option<Vec<u8>>)
    ensures
        pixels is Some <==> (rows == 0 || row_len == 0 || (rows - 1) * stride + row_len
            <= data.len()),
        pixels matches Some(p) ==> p@ == unpadded(
            data@,
            row_len as int,
            stride as int,
            rows as int,
        ),
{
    let mut out: Vec<u8> = Vec::new();
    if rows == 0 || row_len == 0 {
        assert(row_len * rows == 0) by (nonlinear_arith)
            requires
                rows == 0 || row_len == 0,
        ;
        assert(out@ =~= unpadded(data@, row_len as int, stride as int, rows as int));
        return Some(out);
    }
    assert((rows - 1) * stride <= 0xffff_ffff * 0xffff_ffff) by (nonlinear_arith)
        requires
            0 <= rows - 1 <= 0xffff_ffff,
            0 <= stride <= 0xffff_ffff,
    ;
    let last: u64 = (rows as u64 - 1) * (stride as u64);
    if last + row_len as u64 > data.len() as u64 {
        return None;
    }
    let w: usize = row_len as usize;
    let mut r: u32 = 0;
    while r < rows
        invariant
            r <= rows,
            0 < row_len,
            w == row_len,
            (rows - 1) * stride + row_len <= data.len(),
            out.len() == r * row_len,
            forall|k: int|
                0 <= k < r * row_len ==> #[trigger] out[k] == data@[(k / row_len as int) * stride
                    + k % row_len as int],
        decreases rows - r,
    {
        assert(r * stride <= (rows - 1) * stride) by (nonlinear_arith)
            requires
                r <= rows - 1,
                stride >= 0,
        ;
        assert((r + 1) * row_len == r * row_len + row_len) by (nonlinear_arith);
        let start: usize = (r as usize) * (stride as usize);
        let mut c: usize = 0;
        while c < w
            invariant
                c <= w,
                w == row_len,
                0 < row_len,
                start == r * stride,
                start + w <= data.len(),
                out.len() == r * row_len + c,
                forall|k: int|
                    0 <= k < r * row_len ==> #[trigger] out[k] == data@[(k / row_len as int)
                        * stride + k % row_len as int],
                forall|k: int|
                    r * row_len <= k < out.len() ==> #[trigger] out[k] == data@[start + (k - r
                        * row_len)],
            decreases w - c,
        {
            out.push(data[start + c]);
            c = c + 1;
        }
        proof {
            assert forall|k: int| 0 <= k < (r + 1) * row_len implies #[trigger] out[k] == data@[(k
                / row_len as int) * stride + k % row_len as int] by {
                if k >= r * row_len {
                    let j = k - r * row_len;
                    assert(k / row_len as int == r && k % row_len as int == j)
                        by (nonlinear_arith)
                        requires
                            k == r * row_len + j,
                            0 <= j < row_len,
                    ;
                    assert(out[k] == data@[start + j]);
                }
            }
        }
        r = r + 1;
    }
    assert(rows * row_len == row_len * rows) by (nonlinear_arith);
    assert(out@ =~= unpadded(data@, row_len as int, stride as int, rows as int));
    Some(out)
}

/// RGBA pixels without their alpha.
pub open spec fn without_alpha(rgba: Seq<u8>) -> Seq<u8> {
    Seq::new(3 * (rgba.len() / 4), |k: int| rgba[4 * (k / 3) + k % 3])
}

/// Takes the alpha out of RGBA pixels, for a format or a user that wants
/// none. Bytes behind the last whole pixel are dropped.
pub fn drop_alpha(rgba: &[u8]) -> (rgb: Vec<u8>)
    ensures
        rgb@ == without_alpha(rgba@),
{
    let n = rgba.len() / 4;
    let mut rgb: Vec<u8> = Vec::new();
    let mut i: usize = 0;
    while i < n
        invariant
            i <= n,
            n == rgba.len() / 4,
            rgb.len() == 3 * i,
            forall|k: int| 0 <= k < 3 * i ==> rgb[k] == rgba[4 * (k / 3) + k % 3],
        decreases n - i,
    {
        rgb.push(rgba[4 * i]);
        rgb.push(rgba[4 * i + 1]);
        rgb.push(rgba[4 * i + 2]);
        i = i + 1;
    }
    assert(rgb@ =~= without_alpha(rgba@));
    rgb
}

impl ExportFormat {
    /// The extension of a file in this format.
    pub fn extension(self) -> (ext: &'static str)
        ensures
            ext@ == match self {
                ExportFormat::Png => "png"@,
                ExportFormat::Jpg => "jpg"@,
                ExportFormat::Webp => "webp"@,
            },
    {
        match self {
            ExportFormat::Png => "png",
            ExportFormat::Jpg => "jpg",
            ExportFormat::Webp => "webp",
        }
    }

    /// The name of the format as a file dialog shows it.
    pub fn filter_name(self) -> (name: &'static str)
        ensures
            name@ == match self {
                ExportFormat::Png => "Portable Network Graphics"@,
                ExportFormat::Jpg => "JPEG"@,
                ExportFormat::Webp => "WebP"@,
            },
    {
        match self {
            ExportFormat::Png => "Portable Network Graphics",
            ExportFormat::Jpg => "JPEG",
            ExportFormat::Webp => "WebP",
        }
    }

    /// Whether the exported pixels keep their alpha: never in a JPEG,
    /// otherwise as the user wishes.
    pub fn keeps_alpha(self, transparency: bool) -> (keeps: bool)
        ensures
            keeps == (transparency && self != ExportFormat::Jpg),
    {
        match self {
            ExportFormat::Jpg => false,
            _ => transparency,
        }
    }
}

/// The name of an algorithm in the name of a file; `Custom` for a selector
/// that selects none.
pub open spec fn algorithm_name(a: Option<DitherAlgorithm>) -> Seq<char> {
    match a {
        Some(DitherAlgorithm::Off) => "None"@,
        Some(DitherAlgorithm::Threshold) => "Threshold"@,
        Some(DitherAlgorithm::Random) => "Random"@,
        Some(DitherAlgorithm::Bayer) => "Bayer"@,
        Some(DitherAlgorithm::BlueNoise) => "BlueNoise"@,
        Some(DitherAlgorithm::DiffusionApprox) => "DiffusionApprox"@,
        Some(DitherAlgorithm::Stucki) => "Stucki"@,
        Some(DitherAlgorithm::Atkinson) => "Atkinson"@,
        Some(DitherAlgorithm::GradientBased) => "GradientBased"@,
        Some(DitherAlgorithm::LatticeBoltzmann) => "LatticeBoltzmann"@,
        None => "Custom"@,
    }
}

/// The name under which an export is offered: `VibeDither_`, the name of
/// the algorithm, `_Colored` where the gradient remap is on, a dot and the
/// extension of the format.
pub open spec fn export_name(settings: ColorSettings, format: ExportFormat) -> Seq<char> {
    "VibeDither_"@ + algorithm_name(DitherAlgorithm::from_selector_spec(settings.dither_type)) + (
    if is_on(settings.grad_enabled) {
        "_Colored"@
    } else {
        ""@
    }) + "."@ + match format {
        ExportFormat::Png => "png"@,
        ExportFormat::Jpg => "jpg"@,
        ExportFormat::Webp => "webp"@,
    }
}

/// The name of an algorithm in the name of a file.
pub fn algorithm_file_name(a: Option<DitherAlgorithm>) -> (name: &'static str)
    ensures
        name@ == algorithm_name(a),
{
    match a {
        Some(DitherAlgorithm::Off) => "None",
        Some(DitherAlgorithm::Threshold) => "Threshold",
        Some(DitherAlgorithm::Random) => "Random",
        Some(DitherAlgorithm::Bayer) => "Bayer",
        Some(DitherAlgorithm::BlueNoise) => "BlueNoise",
        Some(DitherAlgorithm::DiffusionApprox) => "DiffusionApprox",
        Some(DitherAlgorithm::Stucki) => "Stucki",
        Some(DitherAlgorithm::Atkinson) => "Atkinson",
        Some(DitherAlgorithm::GradientBased) => "GradientBased",
        Some(DitherAlgorithm::LatticeBoltzmann) => "LatticeBoltzmann",
        None => "Custom",
    }
}

/// The name under which an export of the present edit is offered.
pub fn default_export_name(settings: &ColorSettings, format: ExportFormat) -> (name: String)
    ensures
        name@ == export_name(*settings, format),
{
    let mut name: String = "VibeDither_".to_owned();
    name.push_str(algorithm_file_name(settings.dither_algorithm()));
    if settings.gradient_enabled() {
        name.push_str("_Colored");
    } else {
        name.push_str("");
    }
    name.push_str(".");
    name.push_str(format.extension());
    name
}

/// How hard the PNG encoder tries for a compression setting, a number
/// between 0 and 1 held as its bits: its best above 0.8, its default above
/// 0.3, and fast otherwise.
pub fn png_compression(compression: u32) -> (level: PngCompression)
    ensures
        level == if 0x3F4C_CCCD < compression <= 0x7F80_0000 {
            PngCompression::Best
        } else if 0x3E99_999A < compression <= 0x7F80_0000 {
            PngCompression::Default
        } else {
            PngCompression::Fast
        },
{
    if compression > 0x7F80_0000 {
        PngCompression::Fast
    } else if compression > 0x3F4C_CCCD {
        PngCompression::Best
    } else if compression > 0x3E99_999A {
        PngCompression::Default
    } else {
        PngCompression::Fast
    }
}

} // verus!
