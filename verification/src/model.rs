//! The project model: tracks of clips that refer to registered media.

use crate::bits::{f32_eq, f32_equal};
use vstd::prelude::*;

verus! {

/// The project format written by this version.
pub const PROJECT_FORMAT_VERSION: u32 = 1;

pub const DEFAULT_SAMPLE_RATE: u32 = 48_000;

/// `20.0_f64`, the slowest tempo, as `f64` bits.
pub const MIN_BPM: u64 = 0x4034_0000_0000_0000;

/// `400.0_f64`, the fastest tempo, as `f64` bits.
pub const MAX_BPM: u64 = 0x4079_0000_0000_0000;

/// `120.0_f64`, the tempo of a new project, as `f64` bits.
pub const DEFAULT_BPM: u64 = 0x405e_0000_0000_0000;

/// `0.0_f32` as bits.
pub const ZERO_DB: u32 = 0;

pub type TrackId = u128;

pub type ClipId = u128;

pub type MediaId = u128;

#[derive(Debug, Clone, Copy, PartialEq, Eq, Structural)]
pub struct TimeSignature {
    pub numerator: u8,
    pub denominator: u8,
}

impl Default for TimeSignature {
    fn default() -> (signature: Self)
        ensures
            signature.numerator == 4,
            signature.denominator == 4,
    {
        TimeSignature { numerator: 4, denominator: 4 }
    }
}

/// A half-open range of project frames.
#[derive(Debug, Clone, Copy, PartialEq, Eq, Structural)]
pub struct FrameRange {
    pub start: u64,
    pub end: u64,
}

impl FrameRange {
    /// The range `start..end`, or `None` when it would be empty.
    pub fn new(start: u64, end: u64) -> (range: Option<Self>)
        ensures
            start < end ==> range == Some(FrameRange { start, end }),
            start >= end ==> range is None,
    {
        if start < end {
            Some(FrameRange { start, end })
        } else {
            None
        }
    }

    pub fn len(self) -> (frames: u64)
        ensures
            frames == (if self.end >= self.start { (self.end - self.start) as u64 } else { 0 }),
    {
        self.end.saturating_sub(self.start)
    }

    pub fn is_empty(self) -> (empty: bool)
        ensures
            empty == (self.start >= self.end),
    {
        self.start >= self.end
    }
}

#[derive(Debug, Clone, Copy, PartialEq, Eq, Structural)]
pub struct TrackColor(pub u8, pub u8, pub u8);

/// The ten track colours, cycled through as tracks are added.
pub open spec fn palette_color(slot: int) -> TrackColor {
    if slot == 0 {
        TrackColor(66, 197, 156)
    } else if slot == 1 {
        TrackColor(84, 151, 232)
    } else if slot == 2 {
        TrackColor(156, 112, 222)
    } else if slot == 3 {
        TrackColor(229, 118, 144)
    } else if slot == 4 {
        TrackColor(231, 157, 77)
    } else if slot == 5 {
        TrackColor(197, 198, 85)
    } else if slot == 6 {
        TrackColor(69, 183, 204)
    } else if slot == 7 {
        TrackColor(119, 137, 232)
    } else if slot == 8 {
        TrackColor(211, 105, 196)
    } else {
        TrackColor(109, 190, 105)
    }
}

impl TrackColor {
    pub fn palette(index: usize) -> (color: Self)
        ensures
            color == palette_color(index as int % 10),
    {
        let slot = index % 10;
        if slot == 0 {
            TrackColor(66, 197, 156)
        } else if slot == 1 {
            TrackColor(84, 151, 232)
        } else if slot == 2 {
            TrackColor(156, 112, 222)
        } else if slot == 3 {
            TrackColor(229, 118, 144)
        } else if slot == 4 {
            TrackColor(231, 157, 77)
        } else if slot == 5 {
            TrackColor(197, 198, 85)
        } else if slot == 6 {
            TrackColor(69, 183, 204)
        } else if slot == 7 {
            TrackColor(119, 137, 232)
        } else if slot == 8 {
            TrackColor(211, 105, 196)
        } else {
            TrackColor(109, 190, 105)
        }
    }
}

#[derive(Debug, Clone, Copy, PartialEq, Eq, Structural)]
pub enum EqKind {
    LowShelf,
    Peak,
    HighShelf,
}

/// One EQ band; `frequency_hz`, `gain_db` and `q` are `f32` bits.
#[derive(Debug, Clone, Copy, PartialEq, Eq, Structural)]
pub struct EqBandSettings {
    pub enabled: bool,
    pub kind: EqKind,
    pub frequency_hz: u32,
    pub gain_db: u32,
    pub q: u32,
}

/// `0.707_f32` as bits: the Q of a Butterworth shelf.
pub const SHELF_Q: u32 = 0x3f34_fdf4;

/// `1.0_f32` as bits.
pub const PEAK_Q: u32 = 0x3f80_0000;

impl EqBandSettings {
    pub fn low_shelf(frequency_hz: u32) -> (band: Self)
        ensures
            band == (EqBandSettings { enabled: false, kind: EqKind::LowShelf, frequency_hz, gain_db: ZERO_DB, q: SHELF_Q }),
    {
        EqBandSettings { enabled: false, kind: EqKind::LowShelf, frequency_hz, gain_db: ZERO_DB, q: SHELF_Q }
    }

    pub fn peak(frequency_hz: u32) -> (band: Self)
        ensures
            band == (EqBandSettings { enabled: false, kind: EqKind::Peak, frequency_hz, gain_db: ZERO_DB, q: PEAK_Q }),
    {
        EqBandSettings { enabled: false, kind: EqKind::Peak, frequency_hz, gain_db: ZERO_DB, q: PEAK_Q }
    }

    pub fn high_shelf(frequency_hz: u32) -> (band: Self)
        ensures
            band == (EqBandSettings { enabled: false, kind: EqKind::HighShelf, frequency_hz, gain_db: ZERO_DB, q: SHELF_Q }),
    {
        EqBandSettings { enabled: false, kind: EqKind::HighShelf, frequency_hz, gain_db: ZERO_DB, q: SHELF_Q }
    }
}

/// The track high-pass filter; `frequency_hz` is `f32` bits.
#[derive(Debug, Clone, Copy, PartialEq, Eq, Structural)]
pub struct HighPassSettings {
    pub enabled: bool,
    pub frequency_hz: u32,
}

impl Default for HighPassSettings {
    fn default() -> (settings: Self)
        ensures
            settings == (HighPassSettings { enabled: false, frequency_hz: 0x42a0_0000 }),
    {
        HighPassSettings { enabled: false, frequency_hz: 0x42a0_0000 }
    }
}

/// Compressor parameters; every number is `f32` bits.
#[derive(Debug, Clone, Copy, PartialEq, Eq, Structural)]
pub struct CompressorSettings {
    pub enabled: bool,
    pub threshold_db: u32,
    pub ratio: u32,
    pub attack_ms: u32,
    pub release_ms: u32,
    pub makeup_db: u32,
}

impl Default for CompressorSettings {
    /// Disabled, -18 dB threshold, 3:1, 12 ms attack, 120 ms release, no makeup.
    fn default() -> (settings: Self)
        ensures
            settings == (CompressorSettings {
                enabled: false,
                threshold_db: 0xc190_0000,
                ratio: 0x4040_0000,
                attack_ms: 0x4140_0000,
                release_ms: 0x42f0_0000,
                makeup_db: ZERO_DB,
            }),
    {
        CompressorSettings {
            enabled: false,
            threshold_db: 0xc190_0000,
            ratio: 0x4040_0000,
            attack_ms: 0x4140_0000,
            release_ms: 0x42f0_0000,
            makeup_db: ZERO_DB,
        }
    }
}

#[derive(Debug, Clone, Copy, PartialEq, Eq, Structural)]
pub struct ChannelStrip {
    pub high_pass: HighPassSettings,
    pub low_eq: EqBandSettings,
    pub mid_eq: EqBandSettings,
    pub high_eq: EqBandSettings,
    pub compressor: CompressorSettings,
}

pub open spec fn default_channel_strip() -> ChannelStrip {
    ChannelStrip {
        high_pass: HighPassSettings { enabled: false, frequency_hz: 0x42a0_0000 },
        low_eq: EqBandSettings { enabled: false, kind: EqKind::LowShelf, frequency_hz: 0x42f0_0000, gain_db: ZERO_DB, q: SHELF_Q },
        mid_eq: EqBandSettings { enabled: false, kind: EqKind::Peak, frequency_hz: 0x44bb_8000, gain_db: ZERO_DB, q: PEAK_Q },
        high_eq: EqBandSettings { enabled: false, kind: EqKind::HighShelf, frequency_hz: 0x45fa_0000, gain_db: ZERO_DB, q: SHELF_Q },
        compressor: CompressorSettings {
            enabled: false,
            threshold_db: 0xc190_0000,
            ratio: 0x4040_0000,
            attack_ms: 0x4140_0000,
            release_ms: 0x42f0_0000,
            makeup_db: ZERO_DB,
        },
    }
}

impl Default for ChannelStrip {
    /// All processing off: an 80 Hz high-pass, shelves at 120 Hz and 8 kHz, a
    /// 1.5 kHz peak band and the default compressor.
    fn default() -> (strip: Self)
        ensures
            strip == default_channel_strip(),
    {
        ChannelStrip {
            high_pass: HighPassSettings::default(),
            low_eq: EqBandSettings::low_shelf(0x42f0_0000),
            mid_eq: EqBandSettings::peak(0x44bb_8000),
            high_eq: EqBandSettings::high_shelf(0x45fa_0000),
            compressor: CompressorSettings::default(),
        }
    }
}

/// Master bus settings; `gain_db` and `limiter_ceiling_db` are `f32` bits.
#[derive(Debug, Clone, Copy, PartialEq, Eq, Structural)]
pub struct MasterSettings {
    pub gain_db: u32,
    pub limiter_enabled: bool,
    pub limiter_ceiling_db: u32,
}

impl Default for MasterSettings {
    /// Unity gain with the limiter on at -0.3 dB.
    fn default() -> (settings: Self)
        ensures
            settings == (MasterSettings { gain_db: ZERO_DB, limiter_enabled: true, limiter_ceiling_db: 0xbe99_999a }),
    {
        MasterSettings { gain_db: ZERO_DB, limiter_enabled: true, limiter_ceiling_db: 0xbe99_999a }
    }
}

/// A non-destructive window onto registered media, placed on the timeline.
#[derive(Debug, Clone, PartialEq)]
pub struct Clip {
    pub id: ClipId,
    pub media_id: MediaId,
    pub name: String,
    /// Position on the project timeline in project-rate frames.
    pub start_frame: u64,
    /// Non-destructive in/out points in source-rate frames.
    pub source_in: u64,
    pub source_out: u64,
    /// `f32` bits.
    pub gain_db: u32,
    /// Fade lengths in project-rate frames.
    pub fade_in: u64,
    pub fade_out: u64,
}

pub struct ClipModel {
    pub id: ClipId,
    pub media_id: MediaId,
    pub name: Seq<char>,
    pub start_frame: u64,
    pub source_in: u64,
    pub source_out: u64,
    pub gain_db: u32,
    pub fade_in: u64,
    pub fade_out: u64,
}

impl View for Clip {
    type V = ClipModel;

    open spec fn view(&self) -> ClipModel {
        ClipModel {
            id: self.id,
            media_id: self.media_id,
            name: self.name@,
            start_frame: self.start_frame,
            source_in: self.source_in,
            source_out: self.source_out,
            gain_db: self.gain_db,
            fade_in: self.fade_in,
            fade_out: self.fade_out,
        }
    }
}

pub open spec fn clip_models(clips: Seq<Clip>) -> Seq<ClipModel> {
    clips.map_values(|clip: Clip| clip@)
}

#[derive(Debug, Clone, PartialEq)]
pub struct Track {
    pub id: TrackId,
    pub name: String,
    pub color: TrackColor,
    /// `f32` bits.
    pub gain_db: u32,
    /// `f32` bits, -1 (left) to 1 (right).
    pub pan: u32,
    pub mute: bool,
    pub solo: bool,
    pub armed: bool,
    pub monitor: bool,
    pub effects: ChannelStrip,
    pub clips: Vec<Clip>,
}

pub struct TrackModel {
    pub id: TrackId,
    pub name: Seq<char>,
    pub color: TrackColor,
    pub gain_db: u32,
    pub pan: u32,
    pub mute: bool,
    pub solo: bool,
    pub armed: bool,
    pub monitor: bool,
    pub effects: ChannelStrip,
    pub clips: Seq<ClipModel>,
}

impl View for Track {
    type V = TrackModel;

    open spec fn view(&self) -> TrackModel {
        TrackModel {
            id: self.id,
            name: self.name@,
            color: self.color,
            gain_db: self.gain_db,
            pan: self.pan,
            mute: self.mute,
            solo: self.solo,
            armed: self.armed,
            monitor: self.monitor,
            effects: self.effects,
            clips: clip_models(self.clips@),
        }
    }
}

impl TrackModel {
    pub open spec fn with_clips(self, clips: Seq<ClipModel>) -> TrackModel {
        TrackModel { clips, ..self }
    }
}

pub open spec fn track_models(tracks: Seq<Track>) -> Seq<TrackModel> {
    tracks.map_values(|track: Track| track@)
}

/// What the project knows of one piece of registered audio.
#[derive(Debug, Clone, PartialEq, Eq)]
pub struct MediaInfo {
    pub id: MediaId,
    pub name: String,
    pub sample_rate: u32,
    pub channels: u16,
    pub frames: u64,
    pub original_path: Option<String>,
}

pub struct MediaModel {
    pub id: MediaId,
    pub name: Seq<char>,
    pub sample_rate: u32,
    pub channels: u16,
    pub frames: u64,
    pub original_path: Option<Seq<char>>,
}

pub open spec fn optional_text(value: Option<String>) -> Option<Seq<char>> {
    match value {
        Some(text) => Some(text@),
        None => None,
    }
}

impl View for MediaInfo {
    type V = MediaModel;

    open spec fn view(&self) -> MediaModel {
        MediaModel {
            id: self.id,
            name: self.name@,
            sample_rate: self.sample_rate,
            channels: self.channels,
            frames: self.frames,
            original_path: optional_text(self.original_path),
        }
    }
}

/// A named, opaque piece of JSON kept for data this version does not know.
#[derive(Debug, Clone, PartialEq, Eq)]
pub struct Extension {
    pub name: String,
    pub json: String,
}

pub struct ExtensionModel {
    pub name: Seq<char>,
    pub json: Seq<char>,
}

impl View for Extension {
    type V = ExtensionModel;

    open spec fn view(&self) -> ExtensionModel {
        ExtensionModel { name: self.name@, json: self.json@ }
    }
}

/// Frames of a `from_rate` signal, rescaled to `to_rate` and rounded to the
/// nearest frame (halves up), saturating at `u64::MAX`; 0 when `from_rate` is 0.
pub open spec fn scaled_frames(frames: u64, from_rate: u32, to_rate: u32) -> u64 {
    if from_rate == 0 {
        0
    } else {
        let exact = (frames * to_rate + from_rate / 2) / (from_rate as int);
        if exact > u64::MAX { u64::MAX } else { exact as u64 }
    }
}

pub fn scale_frames(frames: u64, from_rate: u32, to_rate: u32) -> (scaled: u64)
    ensures
        scaled == scaled_frames(frames, from_rate, to_rate),
{
    if from_rate == 0 {
        return 0;
    }
    assert((frames as int) * (to_rate as int) <= 0xffff_ffff_ffff_ffffint * 0xffff_ffffint) by (nonlinear_arith)
        requires
            0 <= frames <= 0xffff_ffff_ffff_ffffint,
            0 <= to_rate <= 0xffff_ffffint,
    ;
    let product = frames as u128 * to_rate as u128;
    let exact = (product + (from_rate as u128 / 2)) / from_rate as u128;
    if exact > u64::MAX as u128 {
        u64::MAX
    } else {
        exact as u64
    }
}

/// `==` on EQ bands: the flags and kind alike, the numbers equal as `f32`.
pub open spec fn eq_band_equal(a: EqBandSettings, b: EqBandSettings) -> bool {
    &&& a.enabled == b.enabled
    &&& a.kind == b.kind
    &&& f32_equal(a.frequency_hz, b.frequency_hz)
    &&& f32_equal(a.gain_db, b.gain_db)
    &&& f32_equal(a.q, b.q)
}

/// `==` on high-pass settings.
pub open spec fn high_pass_equal(a: HighPassSettings, b: HighPassSettings) -> bool {
    a.enabled == b.enabled && f32_equal(a.frequency_hz, b.frequency_hz)
}

/// `==` on compressor settings.
pub open spec fn compressor_equal(a: CompressorSettings, b: CompressorSettings) -> bool {
    &&& a.enabled == b.enabled
    &&& f32_equal(a.threshold_db, b.threshold_db)
    &&& f32_equal(a.ratio, b.ratio)
    &&& f32_equal(a.attack_ms, b.attack_ms)
    &&& f32_equal(a.release_ms, b.release_ms)
    &&& f32_equal(a.makeup_db, b.makeup_db)
}

/// `==` on channel strips.
pub open spec fn channel_strip_equal(a: ChannelStrip, b: ChannelStrip) -> bool {
    &&& high_pass_equal(a.high_pass, b.high_pass)
    &&& eq_band_equal(a.low_eq, b.low_eq)
    &&& eq_band_equal(a.mid_eq, b.mid_eq)
    &&& eq_band_equal(a.high_eq, b.high_eq)
    &&& compressor_equal(a.compressor, b.compressor)
}

/// `==` on master settings.
pub open spec fn master_equal(a: MasterSettings, b: MasterSettings) -> bool {
    &&& f32_equal(a.gain_db, b.gain_db)
    &&& a.limiter_enabled == b.limiter_enabled
    &&& f32_equal(a.limiter_ceiling_db, b.limiter_ceiling_db)
}

/// `==` on clips: every field alike, the gain equal as `f32`.
pub open spec fn clip_equal(a: ClipModel, b: ClipModel) -> bool {
    &&& a.id == b.id
    &&& a.media_id == b.media_id
    &&& a.name == b.name
    &&& a.start_frame == b.start_frame
    &&& a.source_in == b.source_in
    &&& a.source_out == b.source_out
    &&& f32_equal(a.gain_db, b.gain_db)
    &&& a.fade_in == b.fade_in
    &&& a.fade_out == b.fade_out
}

/// `==` on lists of clips, element by element.
pub open spec fn clips_equal(a: Seq<ClipModel>, b: Seq<ClipModel>) -> bool {
    a.len() == b.len() && forall|i: int| 0 <= i < a.len() ==> #[trigger] clip_equal(a[i], b[i])
}

/// `==` on tracks, clips included.
pub open spec fn track_equal(a: TrackModel, b: TrackModel) -> bool {
    &&& a.id == b.id
    &&& a.name == b.name
    &&& a.color == b.color
    &&& f32_equal(a.gain_db, b.gain_db)
    &&& f32_equal(a.pan, b.pan)
    &&& a.mute == b.mute
    &&& a.solo == b.solo
    &&& a.armed == b.armed
    &&& a.monitor == b.monitor
    &&& channel_strip_equal(a.effects, b.effects)
    &&& clips_equal(a.clips, b.clips)
}

/// `==` on lists of tracks, element by element.
pub open spec fn tracks_equal(a: Seq<TrackModel>, b: Seq<TrackModel>) -> bool {
    a.len() == b.len() && forall|i: int| 0 <= i < a.len() ==> #[trigger] track_equal(a[i], b[i])
}

impl EqBandSettings {
    /// Compares two bands as `==` does.
    pub fn same_as(self, other: Self) -> (same: bool)
        ensures
            same == eq_band_equal(self, other),
    {
        self.enabled == other.enabled && self.kind == other.kind && f32_eq(
            self.frequency_hz,
            other.frequency_hz,
        ) && f32_eq(self.gain_db, other.gain_db) && f32_eq(self.q, other.q)
    }
}

impl ChannelStrip {
    /// Compares two channel strips as `==` does.
    pub fn same_as(self, other: Self) -> (same: bool)
        ensures
            same == channel_strip_equal(self, other),
    {
        let high_pass = self.high_pass.enabled == other.high_pass.enabled && f32_eq(
            self.high_pass.frequency_hz,
            other.high_pass.frequency_hz,
        );
        let a = self.compressor;
        let b = other.compressor;
        let compressor = a.enabled == b.enabled && f32_eq(a.threshold_db, b.threshold_db) && f32_eq(
            a.ratio,
            b.ratio,
        ) && f32_eq(a.attack_ms, b.attack_ms) && f32_eq(a.release_ms, b.release_ms) && f32_eq(
            a.makeup_db,
            b.makeup_db,
        );
        high_pass && self.low_eq.same_as(other.low_eq) && self.mid_eq.same_as(other.mid_eq)
            && self.high_eq.same_as(other.high_eq) && compressor
    }
}

impl MasterSettings {
    /// Compares two master settings as `==` does.
    pub fn same_as(self, other: Self) -> (same: bool)
        ensures
            same == master_equal(self, other),
    {
        f32_eq(self.gain_db, other.gain_db) && self.limiter_enabled == other.limiter_enabled
            && f32_eq(self.limiter_ceiling_db, other.limiter_ceiling_db)
    }
}

} // verus!
