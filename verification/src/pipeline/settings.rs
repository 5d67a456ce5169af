//! The settings record and its byte layout.
//!
//! The record is what the fragment stage reads as its uniform block: twenty
//! single-precision numbers in a fixed order, 80 bytes, each number in
//! little-endian byte order. The library never computes with the numbers.
//! It holds each one as the 32 bits of its IEEE 754 encoding, which is what
//! `f32::to_bits` gives and `f32::from_bits` takes.

use vstd::prelude::*;

verus! {

/// The bits of 0.0.
pub const BITS_ZERO: u32 = 0;

/// The bits of 0.5.
pub const BITS_HALF: u32 = 0x3F00_0000;

/// The bits of 1.0.
pub const BITS_ONE: u32 = 0x3F80_0000;

/// The bits of 8.0.
pub const BITS_EIGHT: u32 = 0x4100_0000;

/// The edit state that the fragment stage reads. Each field holds the bits of
/// a single-precision number; a flag is off at 0.0 and on at any value above
/// 0.5.
#[derive(Clone, Copy, Debug, PartialEq, Eq, Structural)]
pub struct ColorSettings {
    // light
    pub exposure: u32,
    pub contrast: u32,
    pub highlights: u32,
    pub shadows: u32,
    // white balance and more light
    pub whites: u32,
    pub blacks: u32,
    pub temperature: u32,
    pub tint: u32,
    // colour and detail
    pub saturation: u32,
    pub vibrance: u32,
    pub sharpness: u32,
    pub brightness: u32,
    // dither
    pub dither_enabled: u32,
    pub dither_type: u32,
    pub dither_scale: u32,
    pub dither_threshold: u32,
    // dither style
    pub dither_color: u32,
    pub posterize_levels: u32,
    pub bayer_size: u32,
    pub grad_enabled: u32,
}

/// Byte `k` of the word `w`, the lowest byte first.
pub open spec fn le_byte(w: u32, k: int) -> u8 {
    if k == 0 {
        (w & 0xff) as u8
    } else if k == 1 {
        ((w >> 8) & 0xff) as u8
    } else if k == 2 {
        ((w >> 16) & 0xff) as u8
    } else {
        ((w >> 24) & 0xff) as u8
    }
}

/// The word whose bytes are `b0` to `b3`, the lowest byte first.
pub open spec fn le_word(b0: u8, b1: u8, b2: u8, b3: u8) -> u32 {
    (b0 as u32) | ((b1 as u32) << 8) | ((b2 as u32) << 16) | ((b3 as u32) << 24)
}

/// The words as bytes, four for each word.
pub open spec fn words_to_bytes(words: Seq<u32>) -> Seq<u8> {
    Seq::new(4 * words.len(), |k: int| le_byte(words[k / 4], k % 4))
}

/// The bytes as words, one for every four bytes.
pub open spec fn bytes_to_words(bytes: Seq<u8>) -> Seq<u32> {
    Seq::new(
        bytes.len() / 4,
        |i: int| le_word(bytes[4 * i], bytes[4 * i + 1], bytes[4 * i + 2], bytes[4 * i + 3]),
    )
}

/// The four bytes of a word give the word back.
pub proof fn lemma_word_round_trip(w: u32)
    ensures
        le_word(le_byte(w, 0), le_byte(w, 1), le_byte(w, 2), le_byte(w, 3)) == w,
{
    assert(((w & 0xff) as u8 as u32) | ((((w >> 8) & 0xff) as u8 as u32) << 8) | ((((w >> 16)
        & 0xff) as u8 as u32) << 16) | ((((w >> 24) & 0xff) as u8 as u32) << 24) == w)
        by (bit_vector);
}

/// The word made of four bytes has these four bytes.
pub proof fn lemma_bytes_round_trip(b0: u8, b1: u8, b2: u8, b3: u8)
    ensures
        le_byte(le_word(b0, b1, b2, b3), 0) == b0,
        le_byte(le_word(b0, b1, b2, b3), 1) == b1,
        le_byte(le_word(b0, b1, b2, b3), 2) == b2,
        le_byte(le_word(b0, b1, b2, b3), 3) == b3,
{
    let w = le_word(b0, b1, b2, b3);
    assert({
        let w = (b0 as u32) | ((b1 as u32) << 8) | ((b2 as u32) << 16) | ((b3 as u32) << 24);
        &&& (w & 0xff) as u8 == b0
        &&& ((w >> 8) & 0xff) as u8 == b1
        &&& ((w >> 16) & 0xff) as u8 == b2
        &&& ((w >> 24) & 0xff) as u8 == b3
    }) by (bit_vector);
}

/// Words written as bytes and read again are the same words.
pub proof fn lemma_words_round_trip(words: Seq<u32>)
    ensures
        bytes_to_words(words_to_bytes(words)) == words,
{
    let bytes = words_to_bytes(words);
    let back = bytes_to_words(bytes);
    assert(back.len() == words.len());
    assert forall|i: int| 0 <= i < words.len() implies back[i] == words[i] by {
        lemma_word_round_trip(words[i]);
        assert(bytes[4 * i] == le_byte(words[i], 0));
        assert(bytes[4 * i + 1] == le_byte(words[i], 1));
        assert(bytes[4 * i + 2] == le_byte(words[i], 2));
        assert(bytes[4 * i + 3] == le_byte(words[i], 3));
    }
    assert(back =~= words);
}

impl ColorSettings {
    /// The settings in their fixed order.
    pub open spec fn words(self) -> Seq<u32> {
        seq![
            self.exposure,
            self.contrast,
            self.highlights,
            self.shadows,
            self.whites,
            self.blacks,
            self.temperature,
            self.tint,
            self.saturation,
            self.vibrance,
            self.sharpness,
            self.brightness,
            self.dither_enabled,
            self.dither_type,
            self.dither_scale,
            self.dither_threshold,
            self.dither_color,
            self.posterize_levels,
            self.bayer_size,
            self.grad_enabled,
        ]
    }

    /// The record that holds the twenty words `w` in their fixed order.
    pub open spec fn of_words(w: Seq<u32>) -> ColorSettings {
        ColorSettings {
            exposure: w[0],
            contrast: w[1],
            highlights: w[2],
            shadows: w[3],
            whites: w[4],
            blacks: w[5],
            temperature: w[6],
            tint: w[7],
            saturation: w[8],
            vibrance: w[9],
            sharpness: w[10],
            brightness: w[11],
            dither_enabled: w[12],
            dither_type: w[13],
            dither_scale: w[14],
            dither_threshold: w[15],
            dither_color: w[16],
            posterize_levels: w[17],
            bayer_size: w[18],
            grad_enabled: w[19],
        }
    }

    /// The byte layout of the record: 80 bytes.
    pub open spec fn encoding(self) -> Seq<u8> {
        words_to_bytes(self.words())
    }

    /// The record that 80 bytes lay out.
    pub open spec fn decoding(bytes: Seq<u8>) -> ColorSettings {
        ColorSettings::of_words(bytes_to_words(bytes))
    }

    /// The state of a fresh edit: contrast, saturation and the dither scale at
    /// 1.0, the dither threshold at 0.5, the Bayer matrix at 8.0, everything
    /// else at 0.0.
    pub open spec fn initial() -> ColorSettings {
        ColorSettings {
            exposure: 0,
            contrast: 0x3F80_0000,
            highlights: 0,
            shadows: 0,
            whites: 0,
            blacks: 0,
            temperature: 0,
            tint: 0,
            saturation: 0x3F80_0000,
            vibrance: 0,
            sharpness: 0,
            brightness: 0,
            dither_enabled: 0,
            dither_type: 0,
            dither_scale: 0x3F80_0000,
            dither_threshold: 0x3F00_0000,
            dither_color: 0,
            posterize_levels: 0,
            bayer_size: 0x4100_0000,
            grad_enabled: 0,
        }
    }

    /// The settings in their fixed order.
    pub fn to_words(&self) -> (w: [u32; 20])
        ensures
            w@ == self.words(),
    {
        let w: [u32; 20] = [
            self.exposure,
            self.contrast,
            self.highlights,
            self.shadows,
            self.whites,
            self.blacks,
            self.temperature,
            self.tint,
            self.saturation,
            self.vibrance,
            self.sharpness,
            self.brightness,
            self.dither_enabled,
            self.dither_type,
            self.dither_scale,
            self.dither_threshold,
            self.dither_color,
            self.posterize_levels,
            self.bayer_size,
            self.grad_enabled,
        ];
        assert(w@ =~= self.words());
        w
    }

    /// The record that holds the words `w` in their fixed order.
    pub fn from_words(w: &[u32; 20]) -> (s: ColorSettings)
        ensures
            s == ColorSettings::of_words(w@),
            s.words() == w@,
    {
        let s = ColorSettings {
            exposure: w[0],
            contrast: w[1],
            highlights: w[2],
            shadows: w[3],
            whites: w[4],
            blacks: w[5],
            temperature: w[6],
            tint: w[7],
            saturation: w[8],
            vibrance: w[9],
            sharpness: w[10],
            brightness: w[11],
            dither_enabled: w[12],
            dither_type: w[13],
            dither_scale: w[14],
            dither_threshold: w[15],
            dither_color: w[16],
            posterize_levels: w[17],
            bayer_size: w[18],
            grad_enabled: w[19],
        };
        assert(s.words() =~= w@);
        s
    }

    /// The byte image of the record, as it is copied into the settings buffer.
    pub fn to_bytes(&self) -> (out: [u8; 80])
        ensures
            out@ == self.encoding(),
    {
        let w = self.to_words();
        let mut out: [u8; 80] = [0u8; 80];
        let mut i: usize = 0;
        while i < 20
            invariant
                i <= 20,
                w@ == self.words(),
                forall|k: int| 0 <= k < 4 * i ==> out[k] == le_byte(w[k / 4], k % 4),
            decreases 20 - i,
        {
            let v: u32 = w[i];
            assert((v & 0xff) < 256 && ((v >> 8) & 0xff) < 256 && ((v >> 16) & 0xff) < 256 && ((v
                >> 24) & 0xff) < 256) by (bit_vector);
            out[4 * i] = (v & 0xff) as u8;
            out[4 * i + 1] = ((v >> 8) & 0xff) as u8;
            out[4 * i + 2] = ((v >> 16) & 0xff) as u8;
            out[4 * i + 3] = ((v >> 24) & 0xff) as u8;
            i = i + 1;
        }
        assert(out@ =~= self.encoding());
        out
    }

    /// The record that the 80 bytes lay out.
    pub fn from_bytes(bytes: &[u8; 80]) -> (s: ColorSettings)
        ensures
            s == ColorSettings::decoding(bytes@),
    {
        let mut w: [u32; 20] = [0u32; 20];
        let mut i: usize = 0;
        while i < 20
            invariant
                i <= 20,
                forall|k: int|
                    0 <= k < i ==> w[k] == le_word(
                        bytes[4 * k],
                        bytes[4 * k + 1],
                        bytes[4 * k + 2],
                        bytes[4 * k + 3],
                    ),
            decreases 20 - i,
        {
            let b0: u32 = bytes[4 * i] as u32;
            let b1: u32 = bytes[4 * i + 1] as u32;
            let b2: u32 = bytes[4 * i + 2] as u32;
            let b3: u32 = bytes[4 * i + 3] as u32;
            w[i] = b0 | (b1 << 8) | (b2 << 16) | (b3 << 24);
            i = i + 1;
        }
        assert(w@ =~= bytes_to_words(bytes@));
        ColorSettings::from_words(&w)
    }
}

impl Default for ColorSettings {
    fn default() -> (s: ColorSettings)
        ensures
            s == ColorSettings::initial(),
    {
        ColorSettings {
            exposure: BITS_ZERO,
            contrast: BITS_ONE,
            highlights: BITS_ZERO,
            shadows: BITS_ZERO,
            whites: BITS_ZERO,
            blacks: BITS_ZERO,
            temperature: BITS_ZERO,
            tint: BITS_ZERO,
            saturation: BITS_ONE,
            vibrance: BITS_ZERO,
            sharpness: BITS_ZERO,
            brightness: BITS_ZERO,
            dither_enabled: BITS_ZERO,
            dither_type: BITS_ZERO,
            dither_scale: BITS_ONE,
            dither_threshold: BITS_HALF,
            dither_color: BITS_ZERO,
            posterize_levels: BITS_ZERO,
            bayer_size: BITS_EIGHT,
            grad_enabled: BITS_ZERO,
        }
    }
}

/// The record made of the words of a record is that record.
pub proof fn lemma_of_words_inverts(s: ColorSettings)
    ensures
        s.words().len() == 20,
        ColorSettings::of_words(s.words()) == s,
{
    let w = s.words();
    assert(w[0] == s.exposure);
    assert(w[1] == s.contrast);
    assert(w[2] == s.highlights);
    assert(w[3] == s.shadows);
    assert(w[4] == s.whites);
    assert(w[5] == s.blacks);
    assert(w[6] == s.temperature);
    assert(w[7] == s.tint);
    assert(w[8] == s.saturation);
    assert(w[9] == s.vibrance);
    assert(w[10] == s.sharpness);
    assert(w[11] == s.brightness);
    assert(w[12] == s.dither_enabled);
    assert(w[13] == s.dither_type);
    assert(w[14] == s.dither_scale);
    assert(w[15] == s.dither_threshold);
    assert(w[16] == s.dither_color);
    assert(w[17] == s.posterize_levels);
    assert(w[18] == s.bayer_size);
    assert(w[19] == s.grad_enabled);
}

/// A record written as bytes and read again is the same record, field for
/// field.
pub proof fn lemma_settings_round_trip(s: ColorSettings)
    ensures
        s.encoding().len() == 80,
        ColorSettings::decoding(s.encoding()) == s,
{
    lemma_words_round_trip(s.words());
    lemma_of_words_inverts(s);
}

/// Eighty bytes read as a record and written again are the same bytes.
pub proof fn lemma_settings_bytes_round_trip(bytes: Seq<u8>)
    requires
        bytes.len() == 80,
    ensures
        ColorSettings::decoding(bytes).encoding() == bytes,
{
    let w = bytes_to_words(bytes);
    let s = ColorSettings::of_words(w);
    assert(s.words() =~= w);
    let back = words_to_bytes(w);
    assert forall|k: int| 0 <= k < 80 implies back[k] == bytes[k] by {
        let i = k / 4;
        lemma_bytes_round_trip(bytes[4 * i], bytes[4 * i + 1], bytes[4 * i + 2], bytes[4 * i + 3]);
    }
    assert(back =~= bytes);
}

} // verus!
