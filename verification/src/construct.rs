//! New projects, tracks and clips.

use crate::clock::{new_id, unix_ms};
use crate::media::MediaTable;
use crate::model::{
    default_channel_strip, palette_color, ChannelStrip, Clip, ClipModel, MasterSettings,
    MediaId, TimeSignature, Track, TrackColor, TrackId, TrackModel, DEFAULT_BPM,
    PROJECT_FORMAT_VERSION, ZERO_DB,
};
use crate::project::{Project, ProjectModel};
use crate::text::{clean_name, cleaned_name};
use vstd::prelude::*;

verus! {

/// A new track: unity gain, centred, no flags, default effects, no clips.
pub open spec fn fresh_track(id: TrackId, name: Seq<char>, color: TrackColor) -> TrackModel {
    TrackModel {
        id,
        name: cleaned_name(name, "오디오"@),
        color,
        gain_db: ZERO_DB,
        pan: ZERO_DB,
        mute: false,
        solo: false,
        armed: false,
        monitor: false,
        effects: default_channel_strip(),
        clips: Seq::empty(),
    }
}

/// A new clip showing the first `source_frames` frames (at least one) of
/// its media, at unity gain without fades.
pub open spec fn fresh_clip(
    id: u128,
    media_id: MediaId,
    name: Seq<char>,
    start_frame: u64,
    source_frames: u64,
) -> ClipModel {
    ClipModel {
        id,
        media_id,
        name: cleaned_name(name, "오디오 클립"@),
        start_frame,
        source_in: 0,
        source_out: if source_frames < 1 { 1 } else { source_frames },
        gain_db: ZERO_DB,
        fade_in: 0,
        fade_out: 0,
    }
}

/// A project's sample rate is kept between 8 kHz and 384 kHz.
pub open spec fn clamped_rate(rate: u32) -> u32 {
    if rate < 8_000 { 8_000 } else if rate > 384_000 { 384_000 } else { rate }
}

impl Track {
    pub fn new(id: TrackId, name: &str, color: TrackColor) -> (track: Track)
        ensures
            track@ == fresh_track(id, name@, color),
    {
        let track = Track {
            id,
            name: clean_name(name, "오디오"),
            color,
            gain_db: ZERO_DB,
            pan: ZERO_DB,
            mute: false,
            solo: false,
            armed: false,
            monitor: false,
            effects: ChannelStrip::default(),
            clips: Vec::new(),
        };
        proof {
            assert(track@.clips =~= Seq::<ClipModel>::empty());
        }
        track
    }
}

impl Clip {
    pub fn new(media_id: MediaId, name: &str, start_frame: u64, source_frames: u64) -> (clip: Clip)
        ensures
            clip.id != 0,
            clip@ == fresh_clip(clip.id, media_id, name@, start_frame, source_frames),
    {
        Clip {
            id: new_id(),
            media_id,
            name: clean_name(name, "오디오 클립"),
            start_frame,
            source_in: 0,
            source_out: if source_frames < 1 {
                1
            } else {
                source_frames
            },
            gain_db: ZERO_DB,
            fade_in: 0,
            fade_out: 0,
        }
    }
}

impl Project {
    /// A project with one empty track, at `sample_rate` kept within 8 to 384 kHz.
    pub fn new(name: &str, sample_rate: u32) -> (project: Project)
        ensures
            project.id != 0,
            project@.format_version == PROJECT_FORMAT_VERSION,
            project@.name == cleaned_name(name@, "제목 없는 프로젝트"@),
            project@.sample_rate == clamped_rate(sample_rate),
            project@.bpm == DEFAULT_BPM,
            project@.time_signature == (TimeSignature { numerator: 4, denominator: 4 }),
            project@.tracks.len() == 1,
            project@.tracks[0].id != 0,
            project@.tracks[0] == fresh_track(project@.tracks[0].id, "오디오 1"@, palette_color(0)),
            project@.media.len() == 0,
            project@.master == (MasterSettings {
                gain_db: ZERO_DB,
                limiter_enabled: true,
                limiter_ceiling_db: 0xbe99_999a,
            }),
            project@.loop_region is None,
            project@.extensions.len() == 0,
    {
        let now = unix_ms();
        let rate = if sample_rate < 8_000 {
            8_000
        } else if sample_rate > 384_000 {
            384_000
        } else {
            sample_rate
        };
        let mut project = Project {
            format_version: PROJECT_FORMAT_VERSION,
            id: new_id(),
            name: clean_name(name, "제목 없는 프로젝트"),
            sample_rate: rate,
            bpm: DEFAULT_BPM,
            time_signature: TimeSignature::default(),
            tracks: Vec::new(),
            media: MediaTable::new(),
            master: MasterSettings::default(),
            loop_region: None,
            created_unix_ms: now,
            modified_unix_ms: now,
            extensions: Vec::new(),
        };
        project.add_track("오디오 1");
        project
    }

    /// Appends a new empty track named `name`, coloured by its position.
    pub fn add_track(&mut self, name: &str) -> (id: TrackId)
        ensures
            id != 0,
            final(self)@ == old(self)@.with_tracks(
                old(self)@.tracks.push(
                    fresh_track(id, name@, palette_color(old(self)@.tracks.len() as int % 10)),
                ),
            ).with_modified(final(self)@.modified_unix_ms),
    {
        let id = new_id();
        let color = TrackColor::palette(self.tracks.len());
        let ghost before = self@;
        self.tracks.push(Track::new(id, name, color));
        proof {
            assert(self@.tracks =~= before.tracks.push(fresh_track(id, name@, color)));
        }
        self.touch();
        id
    }
}

} // verus!
