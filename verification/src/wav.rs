//! Choices of a WAV export, and the integer noise source behind its dither.

use vstd::prelude::*;

verus! {

#[derive(Debug, Clone, Copy, PartialEq, Eq, Structural)]
pub enum WavBitDepth {
    Pcm16,
    Pcm24,
    Float32,
}

#[derive(Debug, Clone, Copy, PartialEq, Eq, Structural)]
pub struct WavExportOptions {
    pub bit_depth: WavBitDepth,
    pub dither: bool,
}

impl Default for WavExportOptions {
    /// 24-bit PCM with dither.
    fn default() -> (options: Self)
        ensures
            options == (WavExportOptions { bit_depth: WavBitDepth::Pcm24, dither: true }),
    {
        WavExportOptions { bit_depth: WavBitDepth::Pcm24, dither: true }
    }
}

/// The stream layout of an export: always stereo at the mix rate.
#[derive(Debug, Clone, Copy, PartialEq, Eq, Structural)]
pub struct WavFormat {
    pub channels: u16,
    pub sample_rate: u32,
    pub bits_per_sample: u16,
    /// Samples are IEEE floats rather than integers.
    pub float: bool,
}

/// The layout written for `bit_depth`: 16- or 24-bit integers, or 32-bit
/// floats.
pub fn wav_format(bit_depth: WavBitDepth, sample_rate: u32) -> (format: WavFormat)
    ensures
        format.channels == 2,
        format.sample_rate == sample_rate,
        format.bits_per_sample == match bit_depth {
            WavBitDepth::Pcm16 => 16u16,
            WavBitDepth::Pcm24 => 24u16,
            WavBitDepth::Float32 => 32u16,
        },
        format.float == (bit_depth == WavBitDepth::Float32),
{
    match bit_depth {
        WavBitDepth::Pcm16 => WavFormat { channels: 2, sample_rate, bits_per_sample: 16, float: false },
        WavBitDepth::Pcm24 => WavFormat { channels: 2, sample_rate, bits_per_sample: 24, float: false },
        WavBitDepth::Float32 => WavFormat { channels: 2, sample_rate, bits_per_sample: 32, float: true },
    }
}

/// The seed every export starts its dither from, so that exports repeat.
pub const DITHER_SEED: u64 = 0x534f_4e45_4d41;

/// One xorshift64 step (shifts 13, 7, 17).
pub open spec fn xorshift(state: u64) -> u64 {
    let a = state ^ (state << 13u64);
    let b = a ^ (a >> 7u64);
    b ^ (b << 17u64)
}

/// The dither's noise source.
#[derive(Debug)]
pub struct Dither {
    state: u64,
}

impl View for Dither {
    type V = u64;

    closed spec fn view(&self) -> u64 {
        self.state
    }
}

impl Dither {
    pub fn new(seed: u64) -> (dither: Self)
        ensures
            dither@ == seed,
    {
        Dither { state: seed }
    }

    /// Advances the generator and gives the low 32 bits of the new state.
    pub fn next_bits(&mut self) -> (bits: u32)
        ensures
            final(self)@ == xorshift(old(self)@),
            bits == xorshift(old(self)@) as u32,
    {
        let mut value = self.state;
        value = value ^ (value << 13u64);
        value = value ^ (value >> 7u64);
        value = value ^ (value << 17u64);
        self.state = value;
        value as u32
    }
}

} // verus!
