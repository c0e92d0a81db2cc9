//! Non-destructive editing: registering media, placing, moving, splitting,
//! trimming, duplicating and removing clips and tracks.

use crate::construct::fresh_clip;
use crate::lookup::{
    clip_duration, clip_end, clip_index, clip_position, holder_index, sat_add, sat_sub,
    track_index,
};
use crate::media::{media_inserted, media_kept, media_lookup, MediaTable};
use crate::model::{
    clip_models, scale_frames, scaled_frames, track_models, Clip, ClipId, ClipModel, MediaId,
    MediaInfo, MediaModel, Track, TrackId, TrackModel,
};
use crate::order::{in_timeline_order, lemma_sorted_clips, lemma_sorted_clips_multiset, sort_clip_list, sorted_clips};
use crate::project::{Project, ProjectModel};
use crate::seqs::{lemma_first_index, lemma_first_index_is};
use vstd::prelude::*;
use vstd::string::*;

verus! {

/// Clips may not become shorter than this many project frames.
pub const MIN_CLIP_TIMELINE_FRAMES: u64 = 16;

/// Timeline snapping for edits.
#[derive(Debug, Clone, Copy, PartialEq, Eq, Structural)]
pub enum SnapMode {
    Off,
    BeatDivision(u8),
}

impl Default for SnapMode {
    /// Quarter-beat snapping.
    fn default() -> (mode: Self)
        ensures
            mode == SnapMode::BeatDivision(4),
    {
        SnapMode::BeatDivision(4)
    }
}

#[derive(Debug, Clone, Copy, PartialEq, Eq, Structural)]
pub enum EditError {
    TrackNotFound,
    ClipNotFound,
    MediaNotFound,
    SplitOutsideClip,
    ClipTooShort,
    InvalidMedia,
}

pub open spec fn edit_error_text(error: EditError) -> Seq<char> {
    match error {
        EditError::TrackNotFound => "트랙을 찾을 수 없습니다"@,
        EditError::ClipNotFound => "클립을 찾을 수 없습니다"@,
        EditError::MediaNotFound => "미디어를 찾을 수 없습니다"@,
        EditError::SplitOutsideClip => "클립 경계 안에서만 나눌 수 있습니다"@,
        EditError::ClipTooShort => "클립 길이가 너무 짧습니다"@,
        EditError::InvalidMedia => "미디어 정보가 올바르지 않습니다"@,
    }
}

impl EditError {
    /// The message shown to the user.
    pub fn message(&self) -> (text: String)
        ensures
            text@ == edit_error_text(*self),
    {
        match self {
            EditError::TrackNotFound => String::from_str("트랙을 찾을 수 없습니다"),
            EditError::ClipNotFound => String::from_str("클립을 찾을 수 없습니다"),
            EditError::MediaNotFound => String::from_str("미디어를 찾을 수 없습니다"),
            EditError::SplitOutsideClip => String::from_str("클립 경계 안에서만 나눌 수 있습니다"),
            EditError::ClipTooShort => String::from_str("클립 길이가 너무 짧습니다"),
            EditError::InvalidMedia => String::from_str("미디어 정보가 올바르지 않습니다"),
        }
    }
}

/// Media the project accepts: 8 to 768 kHz, 1 to 64 channels, not empty.
pub open spec fn media_acceptable(m: MediaModel) -> bool {
    &&& 8_000 <= m.sample_rate <= 768_000
    &&& 1 <= m.channels <= 64
    &&& m.frames > 0
}

/// `tracks` with the clips of track `t` replaced.
pub open spec fn replace_clips(tracks: Seq<TrackModel>, t: int, clips: Seq<ClipModel>) -> Seq<
    TrackModel,
> {
    tracks.update(t, tracks[t].with_clips(clips))
}

pub open spec fn min_u64(a: u64, b: u64) -> u64 {
    if a <= b { a } else { b }
}

/// Timeline length of media `m` in a project at `rate`, at least one frame.
pub open spec fn media_timeline_frames(m: MediaModel, rate: u32) -> u64 {
    let d = scaled_frames(m.frames, m.sample_rate, rate);
    if d < 1 { 1 } else { d }
}

/// The clip placed for media `m`: all of it, with fades of 64 frames or half
/// its length, whichever is shorter.
pub open spec fn placed_clip(p: ProjectModel, m: MediaModel, media_id: MediaId, id: ClipId, start: u64) -> ClipModel {
    let fade = min_u64(64, (media_timeline_frames(m, p.sample_rate) / 2) as u64);
    ClipModel { fade_in: fade, fade_out: fade, ..fresh_clip(id, media_id, m.name, start, m.frames) }
}

/// The media each clip refers to, in order.
pub open spec fn clip_media_ids(clips: Seq<ClipModel>) -> Seq<MediaId> {
    clips.map_values(|c: ClipModel| c.media_id)
}

/// The media each clip of each track refers to, track by track.
pub open spec fn track_media_ids(tracks: Seq<TrackModel>) -> Seq<MediaId>
    decreases tracks.len(),
{
    if tracks.len() == 0 {
        Seq::empty()
    } else {
        track_media_ids(tracks.drop_last()) + clip_media_ids(tracks.last().clips)
    }
}

/// The tracks after moving clip `c` of track `s` to track `target`, starting
/// at `start`; both tracks end up in timeline order.
pub open spec fn moved_tracks(tracks: Seq<TrackModel>, s: int, c: int, target: int, start: u64) -> Seq<
    TrackModel,
> {
    let clip = ClipModel { start_frame: start, ..tracks[s].clips[c] };
    let removed = replace_clips(tracks, s, tracks[s].clips.remove(c));
    let placed = replace_clips(removed, target, sorted_clips(removed[target].clips.push(clip)));
    if s != target {
        replace_clips(placed, s, sorted_clips(placed[s].clips))
    } else {
        placed
    }
}

/// The tracks after copying clip `c` of track `t`: the copy takes identifier
/// `id` and starts `d` frames after the clip (where it ends), and the track
/// stays in timeline order.
pub open spec fn duplicated_tracks(p: ProjectModel, t: int, c: int, id: ClipId, d: u64) -> Seq<TrackModel> {
    let original = p.tracks[t].clips[c];
    replace_clips(
        p.tracks,
        t,
        sorted_clips(p.tracks[t].clips.push(ClipModel { id, start_frame: sat_add(original.start_frame, d), ..original })),
    )
}

/// Which error, if any, splitting clip `id` at `at` meets.
pub open spec fn split_check(p: ProjectModel, id: ClipId, at: u64) -> Result<(), EditError> {
    match clip_position(p.tracks, id) {
        None => Err(EditError::ClipNotFound),
        Some((t, c)) => {
            let clip = p.tracks[t].clips[c];
            match clip_end(p, clip) {
                None => Err(EditError::MediaNotFound),
                Some(end) => if at <= sat_add(clip.start_frame, MIN_CLIP_TIMELINE_FRAMES) || sat_add(
                    at,
                    MIN_CLIP_TIMELINE_FRAMES,
                ) >= end {
                    Err(EditError::SplitOutsideClip)
                } else {
                    Ok(())
                },
            }
        },
    }
}

/// The source frame at which clip `clip` of a media at `media_rate` is cut
/// when split at timeline frame `at`; kept at least one frame inside.
pub open spec fn split_source_frame(p: ProjectModel, clip: ClipModel, media_rate: u32, at: u64) -> u64 {
    let delta = scaled_frames((at - clip.start_frame) as u64, p.sample_rate, media_rate);
    let raw = sat_add(clip.source_in, delta);
    let low = (clip.source_in + 1) as u64;
    let high = (clip.source_out - 1) as u64;
    if raw < low { low } else if raw > high { high } else { raw }
}

/// The tracks after splitting clip `id` at `at`, the right part taking `right_id`.
pub open spec fn split_tracks(p: ProjectModel, id: ClipId, at: u64, right_id: ClipId) -> Seq<TrackModel> {
    let (t, c) = clip_position(p.tracks, id)->0;
    let clip = p.tracks[t].clips[c];
    let m = media_lookup(p.media, clip.media_id)->0;
    let end = clip_end(p, clip)->0;
    let cut = split_source_frame(p, clip, m.sample_rate, at);
    let left = ClipModel {
        source_out: cut,
        fade_out: min_u64(clip.fade_out, (at - clip.start_frame) as u64),
        ..clip
    };
    let right = ClipModel {
        id: right_id,
        start_frame: at,
        source_in: cut,
        fade_in: min_u64(clip.fade_in, (end - at) as u64),
        ..clip
    };
    replace_clips(p.tracks, t, p.tracks[t].clips.update(c, left).insert(c + 1, right))
}

/// Where a trimmed clip may start: no earlier than its media allows.
pub open spec fn trim_start_target(p: ProjectModel, clip: ClipModel, media_rate: u32, new_start: u64) -> u64 {
    let earliest = sat_sub(clip.start_frame, scaled_frames(clip.source_in, media_rate, p.sample_rate));
    if new_start >= earliest { new_start } else { earliest }
}

/// Which error, if any, moving the start of clip `id` to `new_start` meets.
pub open spec fn trim_start_check(p: ProjectModel, id: ClipId, new_start: u64) -> Result<(), EditError> {
    match clip_position(p.tracks, id) {
        None => Err(EditError::ClipNotFound),
        Some((t, c)) => {
            let clip = p.tracks[t].clips[c];
            match media_lookup(p.media, clip.media_id) {
                None => Err(EditError::MediaNotFound),
                Some(m) => {
                    let target = trim_start_target(p, clip, m.sample_rate, new_start);
                    if sat_add(target, MIN_CLIP_TIMELINE_FRAMES) >= clip_end(p, clip)->0 {
                        Err(EditError::ClipTooShort)
                    } else {
                        Ok(())
                    }
                },
            }
        },
    }
}

/// `x * numerator / denominator` rounded to the nearest integer, halves away
/// from zero. This is the exact value; evaluating the same expression in
/// double precision and rounding gives it too whenever `|x * numerator|`
/// is below 2^52.
pub open spec fn rounded_ratio(x: int, numerator: int, denominator: int) -> int {
    let product = x * numerator;
    if product >= 0 {
        (2 * product + denominator) / (2 * denominator)
    } else {
        -((-2 * product + denominator) / (2 * denominator))
    }
}

/// The tracks after moving the start of clip `id` to `new_start`.
pub open spec fn trimmed_start_tracks(p: ProjectModel, id: ClipId, new_start: u64) -> Seq<TrackModel> {
    let (t, c) = clip_position(p.tracks, id)->0;
    let clip = p.tracks[t].clips[c];
    let m = media_lookup(p.media, clip.media_id)->0;
    let end = clip_end(p, clip)->0;
    let target = trim_start_target(p, clip, m.sample_rate, new_start);
    let shifted = clip.source_in + rounded_ratio(
        target - clip.start_frame,
        m.sample_rate as int,
        p.sample_rate as int,
    );
    let highest = sat_sub(clip.source_out, 1);
    let source_in = if shifted < 0 { 0 } else if shifted > highest { highest } else { shifted as u64 };
    let duration = (end - target) as u64;
    let trimmed = ClipModel {
        start_frame: target,
        source_in,
        fade_in: min_u64(clip.fade_in, duration),
        fade_out: min_u64(clip.fade_out, duration),
        ..clip
    };
    replace_clips(p.tracks, t, p.tracks[t].clips.update(c, trimmed))
}

/// Which error, if any, moving the end of clip `id` to `new_end` meets.
pub open spec fn trim_end_check(p: ProjectModel, id: ClipId, new_end: u64) -> Result<(), EditError> {
    match clip_position(p.tracks, id) {
        None => Err(EditError::ClipNotFound),
        Some((t, c)) => {
            let clip = p.tracks[t].clips[c];
            if new_end <= sat_add(clip.start_frame, MIN_CLIP_TIMELINE_FRAMES) {
                Err(EditError::ClipTooShort)
            } else {
                match media_lookup(p.media, clip.media_id) {
                    None => Err(EditError::MediaNotFound),
                    Some(_) => Ok(()),
                }
            }
        },
    }
}

/// The tracks after moving the end of clip `id` to `new_end`.
pub open spec fn trimmed_end_tracks(p: ProjectModel, id: ClipId, new_end: u64) -> Seq<TrackModel> {
    let (t, c) = clip_position(p.tracks, id)->0;
    let clip = p.tracks[t].clips[c];
    let m = media_lookup(p.media, clip.media_id)->0;
    let duration = (new_end - clip.start_frame) as u64;
    let raw = sat_add(clip.source_in, scaled_frames(duration, p.sample_rate, m.sample_rate));
    let low = (clip.source_in + 1) as u64;
    let source_out = if raw < low { low } else if raw > m.frames { m.frames } else { raw };
    let trimmed = ClipModel {
        source_out,
        fade_in: min_u64(clip.fade_in, duration),
        fade_out: min_u64(clip.fade_out, duration),
        ..clip
    };
    replace_clips(p.tracks, t, p.tracks[t].clips.update(c, trimmed))
}

impl Project {
    /// Takes the clips out of track `t`, leaving it empty.
    fn take_clips(&mut self, t: usize) -> (clips: Vec<Clip>)
        requires
            t < old(self).tracks.len(),
        ensures
            clip_models(clips@) == old(self)@.tracks[t as int].clips,
            final(self).tracks.len() == old(self).tracks.len(),
            final(self)@ == old(self)@.with_tracks(replace_clips(old(self)@.tracks, t as int, Seq::empty())),
    {
        let ghost before = self@;
        let ghost old_tracks = self.tracks@;
        let mut clips: Vec<Clip> = Vec::new();
        let track = &mut self.tracks[t];
        std::mem::swap(&mut clips, &mut track.clips);
        proof {
            assert(self.tracks@ == old_tracks.update(t as int, self.tracks@[t as int]));
            assert(clip_models(self.tracks@[t as int].clips@) =~= Seq::<ClipModel>::empty());
            assert(self@.tracks =~= replace_clips(before.tracks, t as int, Seq::empty()));
        }
        clips
    }

    /// Gives track `t` the clips `clips`.
    fn put_clips(&mut self, t: usize, clips: Vec<Clip>)
        requires
            t < old(self).tracks.len(),
        ensures
            final(self).tracks.len() == old(self).tracks.len(),
            final(self)@ == old(self)@.with_tracks(replace_clips(old(self)@.tracks, t as int, clip_models(clips@))),
    {
        let ghost before = self@;
        let ghost old_tracks = self.tracks@;
        let ghost new_clips = clip_models(clips@);
        let track = &mut self.tracks[t];
        track.clips = clips;
        proof {
            assert(self.tracks@ == old_tracks.update(t as int, self.tracks@[t as int]));
            assert(self@.tracks =~= replace_clips(before.tracks, t as int, new_clips));
        }
    }

    /// Registers media, replacing an earlier registration with the same
    /// identifier; refuses media outside 8-768 kHz, 1-64 channels or empty.
    pub fn register_media(&mut self, info: MediaInfo) -> (result: Result<MediaId, EditError>)
        ensures
            media_acceptable(info@) ==> result == Ok::<MediaId, EditError>(info.id) && final(self)@
                == old(self)@.with_media(media_inserted(old(self)@.media, info@)).with_modified(
                final(self)@.modified_unix_ms,
            ),
            !media_acceptable(info@) ==> result == Err::<MediaId, EditError>(EditError::InvalidMedia)
                && final(self)@ == old(self)@,
    {
        if info.sample_rate < 8_000 || info.sample_rate > 768_000 || info.channels == 0
            || info.channels > 64 || info.frames == 0 {
            return Err(EditError::InvalidMedia);
        }
        let id = info.id;
        self.media.insert(info);
        self.touch();
        Ok(id)
    }

    /// Places all of media `media_id` on track `track_id` at `start_frame`.
    pub fn insert_media_clip(&mut self, track_id: TrackId, media_id: MediaId, start_frame: u64) -> (result: Result<ClipId, EditError>)
        ensures
            match media_lookup(old(self)@.media, media_id) {
                None => result == Err::<ClipId, EditError>(EditError::MediaNotFound) && final(self)@ == old(self)@,
                Some(m) => {
                    let t = track_index(old(self)@.tracks, track_id);
                    if t < 0 {
                        result == Err::<ClipId, EditError>(EditError::TrackNotFound) && final(self)@ == old(self)@
                    } else {
                        result matches Ok(id) && id != 0 && final(self)@ == old(self)@.with_tracks(
                            replace_clips(
                                old(self)@.tracks,
                                t,
                                sorted_clips(
                                    old(self)@.tracks[t].clips.push(
                                        placed_clip(old(self)@, m, media_id, id, start_frame),
                                    ),
                                ),
                            ),
                        ).with_modified(final(self)@.modified_unix_ms)
                    }
                },
            },
    {
        let ghost p = self@;
        let media = match self.media.get(media_id) {
            Some(media) => media,
            None => return Err(EditError::MediaNotFound),
        };
        let scaled = scale_frames(media.frames, media.sample_rate, self.sample_rate);
        let duration = if scaled < 1 {
            1
        } else {
            scaled
        };
        let mut clip = Clip::new(media_id, media.name.as_str(), start_frame, media.frames);
        let default_fade = if 64 <= duration / 2 {
            64
        } else {
            duration / 2
        };
        clip.fade_in = default_fade;
        clip.fade_out = default_fade;
        let id = clip.id;
        let ghost m = media_lookup(p.media, media_id)->0;
        assert(clip@ == placed_clip(p, m, media_id, id, start_frame));
        let t = match self.track_position(track_id) {
            Some(t) => t,
            None => return Err(EditError::TrackNotFound),
        };
        proof {
            lemma_first_index(p.tracks, |tr: TrackModel| tr.id == track_id);
        }
        let mut clips = self.take_clips(t);
        clips.push(clip);
        let ghost pushed = clip_models(clips@);
        assert(pushed =~= p.tracks[t as int].clips.push(clip@));
        let sorted = sort_clip_list(clips);
        self.put_clips(t, sorted);
        proof {
            assert(self@.tracks =~= replace_clips(p.tracks, t as int, sorted_clips(pushed)));
        }
        self.touch();
        Ok(id)
    }

    /// Removes the first track with identifier `track_id`.
    pub fn remove_track(&mut self, track_id: TrackId) -> (result: Result<(), EditError>)
        ensures
            track_index(old(self)@.tracks, track_id) < 0 ==> result == Err::<(), EditError>(
                EditError::TrackNotFound,
            ) && final(self)@ == old(self)@,
            track_index(old(self)@.tracks, track_id) >= 0 ==> result == Ok::<(), EditError>(())
                && final(self)@ == old(self)@.with_tracks(
                old(self)@.tracks.remove(track_index(old(self)@.tracks, track_id)),
            ).with_modified(final(self)@.modified_unix_ms),
    {
        let ghost p = self@;
        let t = match self.track_position(track_id) {
            Some(t) => t,
            None => return Err(EditError::TrackNotFound),
        };
        proof {
            lemma_first_index(p.tracks, |tr: TrackModel| tr.id == track_id);
        }
        let _removed = self.tracks.remove(t);
        proof {
            assert(self@.tracks =~= p.tracks.remove(t as int));
        }
        self.touch();
        Ok(())
    }

    /// Removes the clip `clip_id` and hands it back.
    pub fn remove_clip(&mut self, clip_id: ClipId) -> (result: Result<Clip, EditError>)
        ensures
            match clip_position(old(self)@.tracks, clip_id) {
                None => result is Err && result->Err_0 == EditError::ClipNotFound && final(self)@
                    == old(self)@,
                Some((t, c)) => {
                    &&& result matches Ok(clip) && clip@ == old(self)@.tracks[t].clips[c]
                    &&& final(self)@.tracks[t].clips.to_multiset() == old(self)@.tracks[t].clips.to_multiset().remove(
                        old(self)@.tracks[t].clips[c],
                    )
                    &&& final(self)@ == old(self)@.with_tracks(
                        replace_clips(old(self)@.tracks, t, old(self)@.tracks[t].clips.remove(c)),
                    ).with_modified(final(self)@.modified_unix_ms)
                },
            },
    {
        let ghost p = self@;
        let (t, c) = match self.clip_location(clip_id) {
            Some(location) => location,
            None => return Err(EditError::ClipNotFound),
        };
        proof {
            lemma_first_index(p.tracks, |tr: TrackModel| clip_index(tr.clips, clip_id) >= 0);
            lemma_first_index(p.tracks[t as int].clips, |cl: ClipModel| cl.id == clip_id);
        }
        let mut clips = self.take_clips(t);
        assert(clips.len() == p.tracks[t as int].clips.len());
        let clip = clips.remove(c);
        proof {
            assert(clip_models(clips@) =~= p.tracks[t as int].clips.remove(c as int));
        }
        self.put_clips(t, clips);
        proof {
            assert(self@.tracks =~= replace_clips(
                p.tracks,
                t as int,
                p.tracks[t as int].clips.remove(c as int),
            ));
            vstd::seq_lib::to_multiset_remove(p.tracks[t as int].clips, c as int);
        }
        self.touch();
        Ok(clip)
    }

    /// Places a copy of clip `clip_id` right after it on the same track.
    pub fn duplicate_clip(&mut self, clip_id: ClipId) -> (result: Result<ClipId, EditError>)
        ensures
            match clip_position(old(self)@.tracks, clip_id) {
                None => result == Err::<ClipId, EditError>(EditError::ClipNotFound) && final(self)@
                    == old(self)@,
                Some((t, c)) => {
                    let original = old(self)@.tracks[t].clips[c];
                    match clip_duration(old(self)@, original) {
                        None => result == Err::<ClipId, EditError>(EditError::MediaNotFound)
                            && final(self)@ == old(self)@,
                        Some(d) => result matches Ok(id) && id != 0 && final(self)@ == old(
                            self,
                        )@.with_tracks(duplicated_tracks(old(self)@, t, c, id, d)).with_modified(
                            final(self)@.modified_unix_ms,
                        ),
                    }
                },
            },
    {
        let ghost p = self@;
        let (t, c) = match self.clip_location(clip_id) {
            Some(location) => location,
            None => return Err(EditError::ClipNotFound),
        };
        proof {
            lemma_first_index(p.tracks, |tr: TrackModel| clip_index(tr.clips, clip_id) >= 0);
            lemma_first_index(p.tracks[t as int].clips, |cl: ClipModel| cl.id == clip_id);
        }
        let mut copy = self.tracks[t].clips[c].copied();
        let duration = match self.clip_duration_frames(&copy) {
            Some(duration) => duration,
            None => return Err(EditError::MediaNotFound),
        };
        copy.id = crate::clock::new_id();
        copy.start_frame = copy.start_frame.saturating_add(duration);
        let id = copy.id;
        let mut clips = self.take_clips(t);
        clips.push(copy);
        let ghost pushed = clip_models(clips@);
        assert(pushed =~= p.tracks[t as int].clips.push(copy@));
        let sorted = sort_clip_list(clips);
        self.put_clips(t, sorted);
        proof {
            assert(self@.tracks =~= replace_clips(p.tracks, t as int, sorted_clips(pushed)));
        }
        self.touch();
        Ok(id)
    }

    /// Moves clip `clip_id` to track `target_track`, starting at
    /// `start_frame`; its source range is untouched.
    pub fn move_clip(&mut self, clip_id: ClipId, target_track: TrackId, start_frame: u64) -> (result: Result<(), EditError>)
        ensures
            match clip_position(old(self)@.tracks, clip_id) {
                None => result == Err::<(), EditError>(EditError::ClipNotFound) && final(self)@
                    == old(self)@,
                Some((s, c)) => {
                    let target = track_index(old(self)@.tracks, target_track);
                    if target < 0 {
                        result == Err::<(), EditError>(EditError::TrackNotFound) && final(self)@
                            == old(self)@
                    } else {
                        result == Ok::<(), EditError>(()) && final(self)@ == old(self)@.with_tracks(
                            moved_tracks(old(self)@.tracks, s, c, target, start_frame),
                        ).with_modified(final(self)@.modified_unix_ms)
                    }
                },
            },
    {
        let ghost p = self@;
        let (s, c) = match self.clip_location(clip_id) {
            Some(location) => location,
            None => return Err(EditError::ClipNotFound),
        };
        let target = match self.track_position(target_track) {
            Some(target) => target,
            None => return Err(EditError::TrackNotFound),
        };
        proof {
            lemma_first_index(p.tracks, |tr: TrackModel| clip_index(tr.clips, clip_id) >= 0);
            lemma_first_index(p.tracks[s as int].clips, |cl: ClipModel| cl.id == clip_id);
            lemma_first_index(p.tracks, |tr: TrackModel| tr.id == target_track);
        }
        let ghost moved = ClipModel { start_frame, ..p.tracks[s as int].clips[c as int] };
        let ghost removed = replace_clips(p.tracks, s as int, p.tracks[s as int].clips.remove(c as int));
        let mut source_clips = self.take_clips(s);
        assert(source_clips.len() == p.tracks[s as int].clips.len());
        let mut clip = source_clips.remove(c);
        clip.start_frame = start_frame;
        proof {
            assert(clip@ == moved);
            assert(clip_models(source_clips@) =~= p.tracks[s as int].clips.remove(c as int));
        }
        self.put_clips(s, source_clips);
        proof {
            assert(self@.tracks =~= removed);
        }
        let mut target_clips = self.take_clips(target);
        target_clips.push(clip);
        let ghost pushed = clip_models(target_clips@);
        assert(pushed =~= removed[target as int].clips.push(moved));
        let sorted = sort_clip_list(target_clips);
        self.put_clips(target, sorted);
        let ghost placed = replace_clips(removed, target as int, sorted_clips(pushed));
        proof {
            assert(self@.tracks =~= placed);
        }
        if s != target {
            let back = self.take_clips(s);
            let ghost remaining = clip_models(back@);
            let sorted_back = sort_clip_list(back);
            self.put_clips(s, sorted_back);
            proof {
                assert(self@.tracks =~= replace_clips(placed, s as int, sorted_clips(remaining)));
            }
        }
        self.touch();
        Ok(())
    }

    /// Whether [`Project::split_clip`] can run to completion: its checks
    /// fail, and it returns their error, or the clip spans at least two
    /// source frames, so that the cut has a frame on either side.
    pub fn split_is_feasible(&self, clip_id: ClipId, at_frame: u64) -> (feasible: bool)
        ensures
            feasible == (split_check(self@, clip_id, at_frame) is Ok ==> {
                let (t, c) = clip_position(self@.tracks, clip_id)->0;
                let clip = self@.tracks[t].clips[c];
                clip.source_out >= clip.source_in + 2
            }),
    {
        let ghost p = self@;
        let (t, c) = match self.clip_location(clip_id) {
            Some(location) => location,
            None => return true,
        };
        proof {
            lemma_first_index(p.tracks, |tr: TrackModel| clip_index(tr.clips, clip_id) >= 0);
            lemma_first_index(p.tracks[t as int].clips, |cl: ClipModel| cl.id == clip_id);
        }
        let clip = &self.tracks[t].clips[c];
        let end = match self.clip_end_frame(clip) {
            Some(end) => end,
            None => return true,
        };
        if at_frame <= clip.start_frame.saturating_add(MIN_CLIP_TIMELINE_FRAMES)
            || at_frame.saturating_add(MIN_CLIP_TIMELINE_FRAMES) >= end {
            return true;
        }
        clip.source_in < clip.source_out && clip.source_out - clip.source_in >= 2
    }

    /// Whether [`Project::trim_clip_end`] can run to completion: its checks
    /// fail, and it returns their error, or the clip starts before the end
    /// of its media.
    pub fn trim_end_is_feasible(&self, clip_id: ClipId, new_end: u64) -> (feasible: bool)
        ensures
            feasible == (trim_end_check(self@, clip_id, new_end) is Ok ==> {
                let (t, c) = clip_position(self@.tracks, clip_id)->0;
                let clip = self@.tracks[t].clips[c];
                clip.source_in < (media_lookup(self@.media, clip.media_id)->0).frames
            }),
    {
        let ghost p = self@;
        let (t, c) = match self.clip_location(clip_id) {
            Some(location) => location,
            None => return true,
        };
        proof {
            lemma_first_index(p.tracks, |tr: TrackModel| clip_index(tr.clips, clip_id) >= 0);
            lemma_first_index(p.tracks[t as int].clips, |cl: ClipModel| cl.id == clip_id);
        }
        let clip = &self.tracks[t].clips[c];
        if new_end <= clip.start_frame.saturating_add(MIN_CLIP_TIMELINE_FRAMES) {
            return true;
        }
        match self.media.get(clip.media_id) {
            Some(media) => clip.source_in < media.frames,
            None => true,
        }
    }

    /// Cuts clip `clip_id` at timeline frame `at_frame` into two clips that
    /// share the source frame at the cut; returns the right part's identifier.
    pub fn split_clip(&mut self, clip_id: ClipId, at_frame: u64) -> (result: Result<ClipId, EditError>)
        requires
            split_check(old(self)@, clip_id, at_frame) is Ok ==> {
                let (t, c) = clip_position(old(self)@.tracks, clip_id)->0;
                let clip = old(self)@.tracks[t].clips[c];
                clip.source_out >= clip.source_in + 2
            },
        ensures
            match split_check(old(self)@, clip_id, at_frame) {
                Err(e) => result == Err::<ClipId, EditError>(e) && final(self)@ == old(self)@,
                Ok(_) => result matches Ok(id) && id != 0 && final(self)@ == old(self)@.with_tracks(
                    split_tracks(old(self)@, clip_id, at_frame, id),
                ).with_modified(final(self)@.modified_unix_ms),
            },
    {
        let ghost p = self@;
        let (t, c) = match self.clip_location(clip_id) {
            Some(location) => location,
            None => return Err(EditError::ClipNotFound),
        };
        proof {
            lemma_first_index(p.tracks, |tr: TrackModel| clip_index(tr.clips, clip_id) >= 0);
            lemma_first_index(p.tracks[t as int].clips, |cl: ClipModel| cl.id == clip_id);
        }
        let original = self.tracks[t].clips[c].copied();
        let media_rate = match self.media.get(original.media_id) {
            Some(media) => media.sample_rate,
            None => return Err(EditError::MediaNotFound),
        };
        let end = match self.clip_end_frame(&original) {
            Some(end) => end,
            None => return Err(EditError::MediaNotFound),
        };
        if at_frame <= original.start_frame.saturating_add(MIN_CLIP_TIMELINE_FRAMES)
            || at_frame.saturating_add(MIN_CLIP_TIMELINE_FRAMES) >= end {
            return Err(EditError::SplitOutsideClip);
        }
        let timeline_delta = at_frame - original.start_frame;
        let source_delta = scale_frames(timeline_delta, self.sample_rate, media_rate);
        let raw = original.source_in.saturating_add(source_delta);
        let low = original.source_in + 1;
        let high = original.source_out - 1;
        let source_split = if raw < low {
            low
        } else if raw > high {
            high
        } else {
            raw
        };
        let mut left = original.copied();
        left.source_out = source_split;
        let left_span = at_frame - left.start_frame;
        if left.fade_out > left_span {
            left.fade_out = left_span;
        }
        let mut right = original;
        right.id = crate::clock::new_id();
        right.start_frame = at_frame;
        right.source_in = source_split;
        let right_span = end - at_frame;
        if right.fade_in > right_span {
            right.fade_in = right_span;
        }
        let right_id = right.id;
        let mut clips = self.take_clips(t);
        assert(clips.len() == p.tracks[t as int].clips.len());
        clips.set(c, left);
        clips.insert(c + 1, right);
        proof {
            let cl = p.tracks[t as int].clips[c as int];
            assert(clip_models(clips@) =~= p.tracks[t as int].clips.update(c as int, left@).insert(
                c + 1,
                right@,
            ));
        }
        let ghost new_clips = clip_models(clips@);
        self.put_clips(t, clips);
        proof {
            assert(self@.tracks =~= replace_clips(p.tracks, t as int, new_clips));
        }
        self.touch();
        Ok(right_id)
    }

    /// Moves the start of clip `clip_id` to `new_start` (no earlier than its
    /// media allows), keeping its end where it was.
    pub fn trim_clip_start(&mut self, clip_id: ClipId, new_start: u64) -> (result: Result<(), EditError>)
        ensures
            match trim_start_check(old(self)@, clip_id, new_start) {
                Err(e) => result == Err::<(), EditError>(e) && final(self)@ == old(self)@,
                Ok(_) => result == Ok::<(), EditError>(()) && final(self)@ == old(self)@.with_tracks(
                    trimmed_start_tracks(old(self)@, clip_id, new_start),
                ).with_modified(final(self)@.modified_unix_ms),
            },
    {
        let ghost p = self@;
        let (t, c) = match self.clip_location(clip_id) {
            Some(location) => location,
            None => return Err(EditError::ClipNotFound),
        };
        proof {
            lemma_first_index(p.tracks, |tr: TrackModel| clip_index(tr.clips, clip_id) >= 0);
            lemma_first_index(p.tracks[t as int].clips, |cl: ClipModel| cl.id == clip_id);
        }
        let mut clip = self.tracks[t].clips[c].copied();
        let media_rate = match self.media.get(clip.media_id) {
            Some(media) => media.sample_rate,
            None => return Err(EditError::MediaNotFound),
        };
        let end = match self.clip_end_frame(&clip) {
            Some(end) => end,
            None => return Err(EditError::MediaNotFound),
        };
        let available_before = scale_frames(clip.source_in, media_rate, self.sample_rate);
        let earliest = clip.start_frame.saturating_sub(available_before);
        let target = if new_start >= earliest {
            new_start
        } else {
            earliest
        };
        if target.saturating_add(MIN_CLIP_TIMELINE_FRAMES) >= end {
            return Err(EditError::ClipTooShort);
        }
        proof {
            if self.sample_rate == 0 {
                lemma_nothing_scales_to_rate_zero(clip.source_in, media_rate);
                lemma_nothing_scales_to_rate_zero(sat_sub(clip.source_out, clip.source_in), media_rate);
            }
        }
        let source_delta = rounded_shift(target, clip.start_frame, media_rate, self.sample_rate);
        let shifted: i128 = clip.source_in as i128 + source_delta;
        let highest = clip.source_out.saturating_sub(1);
        let source_in = if shifted < 0 {
            0
        } else if shifted > highest as i128 {
            highest
        } else {
            shifted as u64
        };
        clip.start_frame = target;
        clip.source_in = source_in;
        let duration = end - target;
        if clip.fade_in > duration {
            clip.fade_in = duration;
        }
        if clip.fade_out > duration {
            clip.fade_out = duration;
        }
        let mut clips = self.take_clips(t);
        assert(clips.len() == p.tracks[t as int].clips.len());
        clips.set(c, clip);
        let ghost new_clips = clip_models(clips@);
        proof {
            assert(new_clips =~= p.tracks[t as int].clips.update(c as int, clip@));
        }
        self.put_clips(t, clips);
        proof {
            assert(self@.tracks =~= replace_clips(p.tracks, t as int, new_clips));
        }
        self.touch();
        Ok(())
    }

    /// Moves the end of clip `clip_id` to `new_end`, within its media.
    pub fn trim_clip_end(&mut self, clip_id: ClipId, new_end: u64) -> (result: Result<(), EditError>)
        requires
            trim_end_check(old(self)@, clip_id, new_end) is Ok ==> {
                let (t, c) = clip_position(old(self)@.tracks, clip_id)->0;
                let clip = old(self)@.tracks[t].clips[c];
                clip.source_in < (media_lookup(old(self)@.media, clip.media_id)->0).frames
            },
        ensures
            match trim_end_check(old(self)@, clip_id, new_end) {
                Err(e) => result == Err::<(), EditError>(e) && final(self)@ == old(self)@,
                Ok(_) => result == Ok::<(), EditError>(()) && final(self)@ == old(self)@.with_tracks(
                    trimmed_end_tracks(old(self)@, clip_id, new_end),
                ).with_modified(final(self)@.modified_unix_ms),
            },
    {
        let ghost p = self@;
        let (t, c) = match self.clip_location(clip_id) {
            Some(location) => location,
            None => return Err(EditError::ClipNotFound),
        };
        proof {
            lemma_first_index(p.tracks, |tr: TrackModel| clip_index(tr.clips, clip_id) >= 0);
            lemma_first_index(p.tracks[t as int].clips, |cl: ClipModel| cl.id == clip_id);
        }
        let mut clip = self.tracks[t].clips[c].copied();
        if new_end <= clip.start_frame.saturating_add(MIN_CLIP_TIMELINE_FRAMES) {
            return Err(EditError::ClipTooShort);
        }
        let (media_rate, media_frames) = match self.media.get(clip.media_id) {
            Some(media) => (media.sample_rate, media.frames),
            None => return Err(EditError::MediaNotFound),
        };
        let timeline_duration = new_end - clip.start_frame;
        let source_duration = scale_frames(timeline_duration, self.sample_rate, media_rate);
        let raw = clip.source_in.saturating_add(source_duration);
        let low = clip.source_in + 1;
        let source_out = if raw < low {
            low
        } else if raw > media_frames {
            media_frames
        } else {
            raw
        };
        clip.source_out = source_out;
        if clip.fade_in > timeline_duration {
            clip.fade_in = timeline_duration;
        }
        if clip.fade_out > timeline_duration {
            clip.fade_out = timeline_duration;
        }
        let mut clips = self.take_clips(t);
        assert(clips.len() == p.tracks[t as int].clips.len());
        clips.set(c, clip);
        let ghost new_clips = clip_models(clips@);
        proof {
            assert(new_clips =~= p.tracks[t as int].clips.update(c as int, clip@));
        }
        self.put_clips(t, clips);
        proof {
            assert(self@.tracks =~= replace_clips(p.tracks, t as int, new_clips));
        }
        self.touch();
        Ok(())
    }

    /// Forgets media that no clip refers to; returns how many were dropped.
    pub fn remove_unreferenced_media(&mut self) -> (removed: usize)
        ensures
            final(self)@ == old(self)@.with_media(
                media_kept(old(self)@.media, track_media_ids(old(self)@.tracks)),
            ),
            removed == old(self)@.media.len() - final(self)@.media.len(),
    {
        let ghost p = self@;
        let mut referenced: Vec<MediaId> = Vec::new();
        let mut t: usize = 0;
        proof {
            assert(p.tracks.take(0) =~= Seq::<TrackModel>::empty());
        }
        while t < self.tracks.len()
            invariant
                p == self@,
                t <= self.tracks.len(),
                referenced@ == track_media_ids(p.tracks.take(t as int)),
            decreases self.tracks.len() - t,
        {
            let clips = &self.tracks[t].clips;
            let ghost cs = p.tracks[t as int].clips;
            let ghost start = referenced@;
            let mut c: usize = 0;
            proof {
                assert(clip_media_ids(cs.take(0)) =~= Seq::<MediaId>::empty());
                assert(start + clip_media_ids(cs.take(0)) =~= start);
            }
            while c < clips.len()
                invariant
                    p == self@,
                    cs == clip_models(clips@),
                    c <= clips.len(),
                    referenced@ == start + clip_media_ids(cs.take(c as int)),
                decreases clips.len() - c,
            {
                referenced.push(clips[c].media_id);
                proof {
                    assert(clip_media_ids(cs.take(c + 1)) =~= clip_media_ids(cs.take(c as int)).push(
                        cs[c as int].media_id,
                    ));
                    assert(referenced@ =~= start + clip_media_ids(cs.take(c + 1)));
                }
                c = c + 1;
            }
            proof {
                assert(cs.take(c as int) =~= cs);
                assert(p.tracks.take(t + 1).drop_last() =~= p.tracks.take(t as int));
            }
            t = t + 1;
        }
        proof {
            assert(p.tracks.take(t as int) =~= p.tracks);
        }
        let removed = self.media.retain_ids(&referenced);
        proof {
            assert(self@ =~= p.with_media(media_kept(p.media, track_media_ids(p.tracks))));
        }
        removed
    }
}

/// How far source offset `e` (frames at rate `to`) is from `x` frames at rate
/// `from`, measured as `|e * from - x * to|` (that is, scaled by `from`).
pub open spec fn rate_error(e: int, x: int, from: int, to: int) -> int {
    if e * from >= x * to { e * from - x * to } else { x * to - e * from }
}

/// `e` is, among the offsets `lo..=hi`, one whose time is closest to `x`
/// frames at rate `from`, re-expressed at rate `to`.
pub open spec fn closest_offset(e: int, x: int, from: int, to: int, lo: int, hi: int) -> bool {
    &&& lo <= e <= hi
    &&& forall|f: int| lo <= f <= hi ==> rate_error(e, x, from, to) <= #[trigger] rate_error(f, x, from, to)
}

/// An offset that rounds to nearest, clamped to `lo..=hi`, is the closest
/// offset in that range.
proof fn lemma_clamped_nearest_is_closest(q: int, x: int, from: int, to: int, lo: int, hi: int)
    requires
        from > 0,
        lo <= hi,
        2 * rate_error(q, x, from, to) <= from,
    ensures
        closest_offset(if q < lo { lo } else if q > hi { hi } else { q }, x, from, to, lo, hi),
{
    let e = if q < lo { lo } else if q > hi { hi } else { q };
    let d = q * from - x * to;
    assert(2 * d <= from && -from <= 2 * d);
    assert forall|f: int| lo <= f <= hi implies rate_error(e, x, from, to) <= #[trigger] rate_error(f, x, from, to) by {
        assert(f * from - x * to == d + (f - q) * from) by (nonlinear_arith)
            requires
                d == q * from - x * to,
        ;
        assert(e * from - x * to == d + (e - q) * from) by (nonlinear_arith)
            requires
                d == q * from - x * to,
        ;
        if f != q {
            if f > q {
                assert((f - q) * from >= from) by (nonlinear_arith)
                    requires
                        f - q >= 1,
                        from > 0,
                ;
            } else {
                assert((f - q) * from <= -from) by (nonlinear_arith)
                    requires
                        f - q <= -1,
                        from > 0,
                ;
            }
        }
        if q < lo {
            assert((e - q) * from >= from) by (nonlinear_arith)
                requires
                    e - q >= 1,
                    from > 0,
            ;
            assert((f - e) * from >= 0) by (nonlinear_arith)
                requires
                    f - e >= 0,
                    from > 0,
            ;
            assert(f * from - x * to == (e * from - x * to) + (f - e) * from) by (nonlinear_arith);
        } else if q > hi {
            assert((e - q) * from <= -from) by (nonlinear_arith)
                requires
                    e - q <= -1,
                    from > 0,
            ;
            assert((f - e) * from <= 0) by (nonlinear_arith)
                requires
                    f - e <= 0,
                    from > 0,
            ;
            assert(f * from - x * to == (e * from - x * to) + (f - e) * from) by (nonlinear_arith);
        }
    }
}

/// With a rate of zero every offset is equally close.
proof fn lemma_rate_zero_all_closest(e: int, x: int, to: int, lo: int, hi: int)
    requires
        lo <= e <= hi,
    ensures
        closest_offset(e, x, 0, to, lo, hi),
{
    assert forall|f: int| lo <= f <= hi implies rate_error(e, x, 0, to) <= #[trigger] rate_error(f, x, 0, to) by {
        assert(e * 0 == 0 && f * 0 == 0) by (nonlinear_arith);
    }
}

/// `scaled_frames` rounds to nearest: short of saturation, its result is
/// within half a frame of the exact rescaled length.
proof fn lemma_scaled_frames_nearest(x: u64, from: u32, to: u32)
    requires
        from > 0,
    ensures
        ({
            let exact = (x * to + from / 2) / (from as int);
            &&& exact >= 0
            &&& 2 * rate_error(exact, x as int, from as int, to as int) <= from
            &&& scaled_frames(x, from, to) == (if exact > u64::MAX { u64::MAX as int } else { exact })
        }),
{
    let n: int = x * to + from / 2;
    let f: int = from as int;
    let exact = n / f;
    assert(n >= 0) by (nonlinear_arith)
        requires
            n == x * to + from / 2,
            x >= 0,
            to >= 0,
            from > 0,
    ;
    let r = n % f;
    assert(n == f * exact + r && 0 <= r < f) by (nonlinear_arith)
        requires
            f > 0,
            exact == n / f,
            r == n % f,
    ;
    assert(exact >= 0) by (nonlinear_arith)
        requires
            f > 0,
            n >= 0,
            exact == n / f,
    ;
    assert(exact * f == f * exact) by (nonlinear_arith);
    assert(2 * (from / 2) <= from && from <= 2 * (from / 2) + 1);
}

/// `rounded_ratio` rounds to nearest (halves away from zero).
proof fn lemma_rounded_ratio_nearest(x: int, numerator: int, denominator: int)
    requires
        denominator > 0,
    ensures
        2 * rate_error(rounded_ratio(x, numerator, denominator), x, denominator, numerator) <= denominator,
{
    let product = x * numerator;
    let d2 = 2 * denominator;
    assert(x * numerator == numerator * x) by (nonlinear_arith);
    if product >= 0 {
        let n = 2 * product + denominator;
        let q = n / d2;
        let r = n % d2;
        assert(n == d2 * q + r && 0 <= r < d2) by (nonlinear_arith)
            requires
                d2 > 0,
                q == n / d2,
                r == n % d2,
        ;
        assert(q * denominator * 2 == d2 * q) by (nonlinear_arith)
            requires
                d2 == 2 * denominator,
        ;
    } else {
        let n = -2 * product + denominator;
        let q = n / d2;
        let r = n % d2;
        assert(n == d2 * q + r && 0 <= r < d2) by (nonlinear_arith)
            requires
                d2 > 0,
                q == n / d2,
                r == n % d2,
        ;
        assert((-q) * denominator * 2 == -(d2 * q)) by (nonlinear_arith)
            requires
                d2 == 2 * denominator,
        ;
    }
}

/// A clip lasts on the timeline the number of project frames, from one up,
/// closest to its source span (that many media frames, re-expressed at the
/// project's rate), and ends that many frames after its start.
pub proof fn lemma_clip_duration_is_closest(p: ProjectModel, c: ClipModel)
    requires
        media_lookup(p.media, c.media_id) is Some,
    ensures
        ({
            let m = media_lookup(p.media, c.media_id)->0;
            let d = clip_duration(p, c)->0;
            &&& closest_offset(
                d as int,
                sat_sub(c.source_out, c.source_in) as int,
                m.sample_rate as int,
                p.sample_rate as int,
                1,
                u64::MAX as int,
            )
            &&& clip_end(p, c) == Some(sat_add(c.start_frame, d))
        }),
{
    let m = media_lookup(p.media, c.media_id)->0;
    let span = sat_sub(c.source_out, c.source_in);
    let d = clip_duration(p, c)->0;
    if m.sample_rate == 0 {
        lemma_rate_zero_all_closest(d as int, span as int, p.sample_rate as int, 1, u64::MAX as int);
    } else {
        lemma_scaled_frames_nearest(span, m.sample_rate, p.sample_rate);
        let exact = (span * p.sample_rate + m.sample_rate / 2) / (m.sample_rate as int);
        lemma_clamped_nearest_is_closest(exact, span as int, m.sample_rate as int, p.sample_rate as int, 1, u64::MAX as int);
    }
}

/// A clip placed for a whole medium shows all of it from its first frame,
/// starts where it was placed, lasts the timeline length closest to the
/// medium's length, and fades in and out over the same span: 64 frames, or
/// half the clip when that is shorter.
pub proof fn lemma_placed_clip_shows_the_whole_medium(
    p: ProjectModel,
    m: MediaModel,
    media_id: MediaId,
    id: ClipId,
    start: u64,
)
    requires
        m.frames >= 1,
    ensures
        ({
            let c = placed_clip(p, m, media_id, id, start);
            let d = media_timeline_frames(m, p.sample_rate);
            &&& c.id == id && c.media_id == media_id && c.start_frame == start
            &&& c.source_in == 0 && c.source_out == m.frames
            &&& closest_offset(d as int, m.frames as int, m.sample_rate as int, p.sample_rate as int, 1, u64::MAX as int)
            &&& c.fade_in == c.fade_out && c.fade_in <= 64 && 2 * c.fade_in <= d
            &&& (c.fade_in == 64 || c.fade_in == d / 2)
        }),
{
    let d = media_timeline_frames(m, p.sample_rate);
    if m.sample_rate == 0 {
        lemma_rate_zero_all_closest(d as int, m.frames as int, p.sample_rate as int, 1, u64::MAX as int);
    } else {
        lemma_scaled_frames_nearest(m.frames, m.sample_rate, p.sample_rate);
        let exact = (m.frames * p.sample_rate + m.sample_rate / 2) / (m.sample_rate as int);
        lemma_clamped_nearest_is_closest(exact, m.frames as int, m.sample_rate as int, p.sample_rate as int, 1, u64::MAX as int);
    }
}

/// Duplicating a clip adds exactly one clip to its track, a copy under the
/// new identifier that starts where the original ends; the track keeps
/// every clip it had, stays in timeline order, and no other track changes.
pub proof fn lemma_duplicate_lands_where_the_clip_ends(p: ProjectModel, clip_id: ClipId, id: ClipId)
    requires
        clip_position(p.tracks, clip_id) is Some,
        ({
            let (t, c) = clip_position(p.tracks, clip_id)->0;
            clip_duration(p, p.tracks[t].clips[c]) is Some
        }),
    ensures
        ({
            let (t, c) = clip_position(p.tracks, clip_id)->0;
            let original = p.tracks[t].clips[c];
            let after = duplicated_tracks(p, t, c, id, clip_duration(p, original)->0);
            let copy = ClipModel { id, start_frame: clip_end(p, original)->0, ..original };
            &&& after.len() == p.tracks.len()
            &&& forall|k: int| 0 <= k < p.tracks.len() && k != t ==> #[trigger] after[k] == p.tracks[k]
            &&& after[t].clips.to_multiset() == p.tracks[t].clips.to_multiset().insert(copy)
            &&& in_timeline_order(after[t].clips)
        }),
{
    broadcast use vstd::seq_lib::group_to_multiset_ensures;

    lemma_first_index(p.tracks, |tr: TrackModel| clip_index(tr.clips, clip_id) >= 0);
    let t = holder_index(p.tracks, clip_id);
    lemma_first_index(p.tracks[t].clips, |cl: ClipModel| cl.id == clip_id);
    let c = clip_index(p.tracks[t].clips, clip_id);
    let original = p.tracks[t].clips[c];
    let copy = ClipModel { id, start_frame: clip_end(p, original)->0, ..original };
    let pushed = p.tracks[t].clips.push(copy);
    lemma_sorted_clips(pushed);
    lemma_sorted_clips_multiset(pushed);
}

/// Splitting cuts the source where the split frame falls: the left part's
/// source span is, among the spans that leave each part at least one source
/// frame, the one closest to the time from the clip's start to the split
/// frame (that many project frames, re-expressed at the media's rate).
pub proof fn lemma_split_cuts_at_the_split_time(p: ProjectModel, clip_id: ClipId, at: u64, right_id: ClipId)
    requires
        split_check(p, clip_id, at) is Ok,
        ({
            let (t, c) = clip_position(p.tracks, clip_id)->0;
            p.tracks[t].clips[c].source_out >= p.tracks[t].clips[c].source_in + 2
        }),
    ensures
        ({
            let (t, c) = clip_position(p.tracks, clip_id)->0;
            let original = p.tracks[t].clips[c];
            let m = media_lookup(p.media, original.media_id)->0;
            let left = split_tracks(p, clip_id, at, right_id)[t].clips[c];
            let right = split_tracks(p, clip_id, at, right_id)[t].clips[c + 1];
            let end = clip_end(p, original)->0;
            &&& closest_offset(
                left.source_out - original.source_in,
                at - original.start_frame,
                p.sample_rate as int,
                m.sample_rate as int,
                1,
                original.source_out - original.source_in - 1,
            )
            &&& left.fade_in == original.fade_in && right.fade_out == original.fade_out
            &&& left.fade_out <= original.fade_out && left.fade_out <= at - original.start_frame
            &&& (left.fade_out == original.fade_out || left.fade_out == at - original.start_frame)
            &&& right.fade_in <= original.fade_in && right.fade_in <= end - at
            &&& (right.fade_in == original.fade_in || right.fade_in == end - at)
        }),
{
    lemma_split_is_non_destructive(p, clip_id, at, right_id);
    let t = holder_index(p.tracks, clip_id);
    lemma_first_index(p.tracks, |tr: TrackModel| clip_index(tr.clips, clip_id) >= 0);
    lemma_first_index(p.tracks[t].clips, |cl: ClipModel| cl.id == clip_id);
    let c = clip_index(p.tracks[t].clips, clip_id);
    let original = p.tracks[t].clips[c];
    let m = media_lookup(p.media, original.media_id)->0;
    let after = split_tracks(p, clip_id, at, right_id);
    let cut = split_source_frame(p, original, m.sample_rate, at);
    let updated = p.tracks[t].clips.update(c, ClipModel { source_out: cut, fade_out: min_u64(original.fade_out, (at - original.start_frame) as u64), ..original });
    assert(after[t].clips[c] == updated.insert(c + 1, after[t].clips[c + 1])[c]);
    assert(after[t].clips[c + 1] == updated.insert(c + 1, after[t].clips[c + 1])[c + 1]);
    assert(after[t].clips[c].source_out == cut);
    let x = (at - original.start_frame) as u64;
    let span = original.source_out - original.source_in;
    let e = cut - original.source_in;
    if p.sample_rate == 0 {
        lemma_rate_zero_all_closest(e, x as int, m.sample_rate as int, 1, span - 1);
    } else {
        lemma_scaled_frames_nearest(x, p.sample_rate, m.sample_rate);
        let exact = (x * m.sample_rate + p.sample_rate / 2) / (p.sample_rate as int);
        assert(e == (if exact < 1 { 1 } else if exact > span - 1 { span - 1 } else { exact }));
        lemma_clamped_nearest_is_closest(exact, x as int, p.sample_rate as int, m.sample_rate as int, 1, span - 1);
    }
}

/// Trimming a clip's end gives it the source span, among those from one
/// frame to the rest of its media, closest to the time from its start to the
/// new end (that many project frames, re-expressed at the media's rate); so
/// with media to spare the clip ends where its end was moved, to within the
/// rounding of one media frame.
pub proof fn lemma_trim_end_ends_at_the_new_end(p: ProjectModel, clip_id: ClipId, new_end: u64)
    requires
        trim_end_check(p, clip_id, new_end) is Ok,
        ({
            let (t, c) = clip_position(p.tracks, clip_id)->0;
            let clip = p.tracks[t].clips[c];
            clip.source_in < (media_lookup(p.media, clip.media_id)->0).frames
        }),
    ensures
        ({
            let (t, c) = clip_position(p.tracks, clip_id)->0;
            let original = p.tracks[t].clips[c];
            let m = media_lookup(p.media, original.media_id)->0;
            let trimmed = trimmed_end_tracks(p, clip_id, new_end)[t].clips[c];
            &&& trimmed.source_in == original.source_in
            &&& trimmed.start_frame == original.start_frame
            &&& trimmed.fade_in <= new_end - original.start_frame && trimmed.fade_in <= original.fade_in
            &&& (trimmed.fade_in == original.fade_in || trimmed.fade_in == new_end - original.start_frame)
            &&& trimmed.fade_out <= new_end - original.start_frame && trimmed.fade_out <= original.fade_out
            &&& (trimmed.fade_out == original.fade_out || trimmed.fade_out == new_end - original.start_frame)
            &&& closest_offset(
                trimmed.source_out - original.source_in,
                new_end - original.start_frame,
                p.sample_rate as int,
                m.sample_rate as int,
                1,
                m.frames - original.source_in,
            )
        }),
{
    let t = holder_index(p.tracks, clip_id);
    lemma_first_index(p.tracks, |tr: TrackModel| clip_index(tr.clips, clip_id) >= 0);
    lemma_first_index(p.tracks[t].clips, |cl: ClipModel| cl.id == clip_id);
    let c = clip_index(p.tracks[t].clips, clip_id);
    let original = p.tracks[t].clips[c];
    let m = media_lookup(p.media, original.media_id)->0;
    let trimmed = trimmed_end_tracks(p, clip_id, new_end)[t].clips[c];
    let x = (new_end - original.start_frame) as u64;
    let e = trimmed.source_out - original.source_in;
    let hi = m.frames - original.source_in;
    if p.sample_rate == 0 {
        lemma_rate_zero_all_closest(e, x as int, m.sample_rate as int, 1, hi);
    } else {
        lemma_scaled_frames_nearest(x, p.sample_rate, m.sample_rate);
        let exact = (x * m.sample_rate + p.sample_rate / 2) / (p.sample_rate as int);
        assert(e == (if exact < 1 { 1 } else if exact > hi { hi } else { exact }));
        lemma_clamped_nearest_is_closest(exact, x as int, p.sample_rate as int, m.sample_rate as int, 1, hi);
    }
}

/// Trimming a clip's start moves its source in-point by the source offset,
/// among those that keep the in-point inside the media and before the
/// clip's last source frame, closest to the timeline shift of its start
/// (that many project frames, re-expressed at the media's rate); so the
/// clip keeps its end, to within the rounding of one media frame.
pub proof fn lemma_trim_start_keeps_the_end(p: ProjectModel, clip_id: ClipId, new_start: u64)
    requires
        trim_start_check(p, clip_id, new_start) is Ok,
    ensures
        ({
            let (t, c) = clip_position(p.tracks, clip_id)->0;
            let original = p.tracks[t].clips[c];
            let m = media_lookup(p.media, original.media_id)->0;
            let trimmed = trimmed_start_tracks(p, clip_id, new_start)[t].clips[c];
            &&& trimmed.source_out == original.source_out
            &&& trimmed.start_frame >= new_start
            &&& trimmed.start_frame + MIN_CLIP_TIMELINE_FRAMES < clip_end(p, original)->0
            &&& trimmed.fade_in <= clip_end(p, original)->0 - trimmed.start_frame
            &&& trimmed.fade_in <= original.fade_in
            &&& trimmed.fade_out <= clip_end(p, original)->0 - trimmed.start_frame
            &&& trimmed.fade_out <= original.fade_out
            &&& closest_offset(
                trimmed.source_in - original.source_in,
                trimmed.start_frame - original.start_frame,
                p.sample_rate as int,
                m.sample_rate as int,
                -(original.source_in as int),
                sat_sub(original.source_out, 1) - original.source_in,
            )
        }),
{
    let t = holder_index(p.tracks, clip_id);
    lemma_first_index(p.tracks, |tr: TrackModel| clip_index(tr.clips, clip_id) >= 0);
    lemma_first_index(p.tracks[t].clips, |cl: ClipModel| cl.id == clip_id);
    let c = clip_index(p.tracks[t].clips, clip_id);
    let original = p.tracks[t].clips[c];
    let m = media_lookup(p.media, original.media_id)->0;
    let trimmed = trimmed_start_tracks(p, clip_id, new_start)[t].clips[c];
    let target = trim_start_target(p, original, m.sample_rate, new_start);
    assert(trimmed.start_frame == target);
    let x = target - original.start_frame;
    let e = trimmed.source_in - original.source_in;
    let lo = -(original.source_in as int);
    let hi = sat_sub(original.source_out, 1) - original.source_in;
    if p.sample_rate == 0 {
        lemma_rate_zero_all_closest(e, x, m.sample_rate as int, lo, hi);
    } else {
        let q = rounded_ratio(x, m.sample_rate as int, p.sample_rate as int);
        lemma_rounded_ratio_nearest(x, m.sample_rate as int, p.sample_rate as int);
        assert(e == (if q < lo { lo } else if q > hi { hi } else { q }));
        lemma_clamped_nearest_is_closest(q, x, p.sample_rate as int, m.sample_rate as int, lo, hi);
    }
}

/// Splitting is non-destructive and sample accurate: the left part keeps the
/// clip's start and source start, the right part starts at the cut on the
/// timeline and ends where the clip ended in the source, the two parts meet
/// at one source frame strictly inside the clip, and nothing else changes.
pub proof fn lemma_split_is_non_destructive(p: ProjectModel, clip_id: ClipId, at: u64, right_id: ClipId)
    requires
        split_check(p, clip_id, at) is Ok,
        ({
            let (t, c) = clip_position(p.tracks, clip_id)->0;
            p.tracks[t].clips[c].source_out >= p.tracks[t].clips[c].source_in + 2
        }),
    ensures
        ({
            let (t, c) = clip_position(p.tracks, clip_id)->0;
            let original = p.tracks[t].clips[c];
            let after = split_tracks(p, clip_id, at, right_id);
            let left = after[t].clips[c];
            let right = after[t].clips[c + 1];
            &&& after.len() == p.tracks.len()
            &&& forall|k: int| 0 <= k < p.tracks.len() && k != t ==> #[trigger] after[k] == p.tracks[k]
            &&& after[t].clips.len() == p.tracks[t].clips.len() + 1
            &&& forall|k: int| 0 <= k < c ==> #[trigger] after[t].clips[k] == p.tracks[t].clips[k]
            &&& forall|k: int| c + 1 < k < after[t].clips.len() ==> #[trigger] after[t].clips[k]
                == p.tracks[t].clips[k - 1]
            &&& left.id == original.id && right.id == right_id
            &&& left.media_id == original.media_id && right.media_id == original.media_id
            &&& left.start_frame == original.start_frame && right.start_frame == at
            &&& left.source_in == original.source_in
            &&& left.source_out == right.source_in
            &&& right.source_out == original.source_out
            &&& original.source_in < left.source_out < original.source_out
        }),
{
    let t = holder_index(p.tracks, clip_id);
    lemma_first_index(p.tracks, |tr: TrackModel| clip_index(tr.clips, clip_id) >= 0);
    lemma_first_index(p.tracks[t].clips, |cl: ClipModel| cl.id == clip_id);
}

/// After a split, as `split_clip` leaves the project, both parts can be
/// found: the clip keeps its place, the new part (under an identifier that
/// no clip had) comes right after it in the same track, each part covers a
/// non-empty source range, the two ranges meet and together are the
/// original one, and the media are untouched.
pub proof fn lemma_split_parts_found(
    p: ProjectModel,
    after: ProjectModel,
    clip_id: ClipId,
    at: u64,
    right_id: ClipId,
    modified: u64,
)
    requires
        split_check(p, clip_id, at) is Ok,
        ({
            let (t, c) = clip_position(p.tracks, clip_id)->0;
            p.tracks[t].clips[c].source_out >= p.tracks[t].clips[c].source_in + 2
        }),
        clip_position(p.tracks, right_id) is None,
        after == p.with_tracks(split_tracks(p, clip_id, at, right_id)).with_modified(modified),
    ensures
        ({
            let (t, c) = clip_position(p.tracks, clip_id)->0;
            let original = p.tracks[t].clips[c];
            let left = after.tracks[t].clips[c];
            let right = after.tracks[t].clips[c + 1];
            &&& right_id != clip_id
            &&& clip_position(after.tracks, clip_id) == Some((t, c))
            &&& clip_position(after.tracks, right_id) == Some((t, c + 1))
            &&& after.media == p.media
            &&& left.start_frame == original.start_frame
            &&& right.start_frame == at
            &&& left.source_in == original.source_in
            &&& left.source_out == right.source_in
            &&& right.source_out == original.source_out
            &&& left.source_in < left.source_out
            &&& right.source_in < right.source_out
            &&& forall|k: int| 0 <= k < p.tracks.len() && k != t ==> #[trigger] after.tracks[k] == p.tracks[k]
        }),
{
    lemma_split_is_non_destructive(p, clip_id, at, right_id);
    let holds_left = |tr: TrackModel| clip_index(tr.clips, clip_id) >= 0;
    let holds_right = |tr: TrackModel| clip_index(tr.clips, right_id) >= 0;
    let is_left = |cl: ClipModel| cl.id == clip_id;
    let is_right = |cl: ClipModel| cl.id == right_id;
    lemma_first_index(p.tracks, holds_left);
    lemma_first_index(p.tracks, holds_right);
    let t = holder_index(p.tracks, clip_id);
    let cs = p.tracks[t].clips;
    lemma_first_index(cs, is_left);
    let c = clip_index(cs, clip_id);
    let tracks = after.tracks;
    let ds = tracks[t].clips;
    assert(right_id != clip_id) by {
        assert(!holds_right(p.tracks[t]));
        lemma_first_index(cs, is_right);
        assert(!is_right(cs[c]));
    }
    assert forall|j: int| 0 <= j < c implies !is_left(#[trigger] ds[j]) by {
        assert(ds[j] == cs[j]);
    }
    lemma_first_index_is(ds, is_left, c);
    assert forall|j: int| 0 <= j < c + 1 implies !is_right(#[trigger] ds[j]) by {
        lemma_first_index(cs, is_right);
        if j < c {
            assert(ds[j] == cs[j]);
            assert(!holds_right(p.tracks[t]));
        }
    }
    lemma_first_index_is(ds, is_right, c + 1);
    assert forall|k: int| 0 <= k < t implies !holds_left(#[trigger] tracks[k]) && !holds_right(tracks[k]) by {
        assert(tracks[k] == p.tracks[k]);
        assert(!holds_right(p.tracks[k]));
    }
    assert(holds_left(tracks[t]));
    assert(holds_right(tracks[t]));
    lemma_first_index_is(tracks, holds_left, t);
    lemma_first_index_is(tracks, holds_right, t);
}

/// Keeping, in a sequence where every entry is kept, keeps everything.
proof fn lemma_filter_keeps_all(s: Seq<MediaModel>, keep: spec_fn(MediaModel) -> bool)
    requires
        forall|i: int| 0 <= i < s.len() ==> keep(#[trigger] s[i]),
    ensures
        s.filter(keep) == s,
    decreases s.len(),
{
    reveal_with_fuel(Seq::<MediaModel>::filter, 1);
    if s.len() > 0 {
        lemma_filter_keeps_all(s.drop_last(), keep);
        assert(keep(s[s.len() - 1]));
        assert(s.drop_last().push(s.last()) =~= s);
    }
}

/// Removing unreferenced media is idempotent: once done, doing it again
/// keeps every medium, so it removes none and changes nothing.
pub proof fn lemma_removing_unreferenced_media_is_idempotent(p: ProjectModel)
    ensures
        ({
            let once = p.with_media(media_kept(p.media, track_media_ids(p.tracks)));
            let twice = once.with_media(media_kept(once.media, track_media_ids(once.tracks)));
            &&& twice == once
            &&& twice.media.len() == once.media.len()
        }),
{
    let ids = track_media_ids(p.tracks);
    let keep = |m: MediaModel| ids.contains(m.id);
    let kept = p.media.filter(keep);
    assert forall|i: int| 0 <= i < kept.len() implies keep(#[trigger] kept[i]) by {
        p.media.lemma_filter_pred(keep, i);
    }
    lemma_filter_keeps_all(kept, keep);
    let once = p.with_media(media_kept(p.media, ids));
    assert(once.with_media(media_kept(once.media, track_media_ids(once.tracks))) =~= once);
}

/// Moving a clip keeps its source range: the target track then holds the
/// clip with only its start changed, both affected tracks are in timeline
/// order, and the target track gains exactly one clip (when it differs from
/// the source track, which loses one).
pub proof fn lemma_move_keeps_source_range(p: ProjectModel, clip_id: ClipId, target_track: TrackId, start: u64)
    requires
        clip_position(p.tracks, clip_id) is Some,
        track_index(p.tracks, target_track) >= 0,
    ensures
        ({
            let (s, c) = clip_position(p.tracks, clip_id)->0;
            let target = track_index(p.tracks, target_track);
            let after = moved_tracks(p.tracks, s, c, target, start);
            let original = p.tracks[s].clips[c];
            &&& after.len() == p.tracks.len()
            &&& after[target].clips.contains(ClipModel { start_frame: start, ..original })
            &&& in_timeline_order(after[target].clips)
            &&& forall|k: int| 0 <= k < p.tracks.len() && k != s && k != target ==> #[trigger] after[k] == p.tracks[k]
            &&& s != target ==> {
                &&& after[target].clips.len() == p.tracks[target].clips.len() + 1
                &&& after[s].clips.len() == p.tracks[s].clips.len() - 1
                &&& in_timeline_order(after[s].clips)
            }
            &&& s == target ==> after[target].clips.len() == p.tracks[target].clips.len()
        }),
{
    lemma_first_index(p.tracks, |tr: TrackModel| clip_index(tr.clips, clip_id) >= 0);
    let s = holder_index(p.tracks, clip_id);
    lemma_first_index(p.tracks[s].clips, |cl: ClipModel| cl.id == clip_id);
    lemma_first_index(p.tracks, |tr: TrackModel| tr.id == target_track);
    let c = clip_index(p.tracks[s].clips, clip_id);
    let target = track_index(p.tracks, target_track);
    let clip = ClipModel { start_frame: start, ..p.tracks[s].clips[c] };
    let removed = replace_clips(p.tracks, s, p.tracks[s].clips.remove(c));
    let pushed = removed[target].clips.push(clip);
    lemma_sorted_clips(pushed);
    assert(pushed.contains(clip)) by {
        assert(pushed[pushed.len() - 1] == clip);
    }
    let placed = replace_clips(removed, target, sorted_clips(pushed));
    if s != target {
        lemma_sorted_clips(placed[s].clips);
    }
}

/// Moving a clip takes exactly that clip out of its track and puts it, with
/// its new start, into the target track: counted as multisets, the source
/// track loses the clip and nothing else, and the target track gains it and
/// nothing else. When the source track's clip identifiers are distinct and
/// the tracks differ, no clip with the moved identifier is left behind.
pub proof fn lemma_move_takes_out_exactly_the_clip(p: ProjectModel, clip_id: ClipId, target_track: TrackId, start: u64)
    requires
        clip_position(p.tracks, clip_id) is Some,
        track_index(p.tracks, target_track) >= 0,
    ensures
        ({
            let (s, c) = clip_position(p.tracks, clip_id)->0;
            let target = track_index(p.tracks, target_track);
            let after = moved_tracks(p.tracks, s, c, target, start);
            let original = p.tracks[s].clips[c];
            let moved = ClipModel { start_frame: start, ..original };
            &&& s != target ==> after[s].clips.to_multiset() == p.tracks[s].clips.to_multiset().remove(original)
            &&& s != target ==> after[target].clips.to_multiset() == p.tracks[target].clips.to_multiset().insert(moved)
            &&& s == target ==> after[s].clips.to_multiset() == p.tracks[s].clips.to_multiset().remove(original).insert(moved)
            &&& (s != target && forall|i: int, j: int|
                0 <= i < j < p.tracks[s].clips.len() ==> #[trigger] p.tracks[s].clips[i].id != #[trigger] p.tracks[s].clips[j].id)
                ==> forall|k: int| 0 <= k < after[s].clips.len() ==> (#[trigger] after[s].clips[k]).id != clip_id
        }),
{
    broadcast use vstd::seq_lib::group_to_multiset_ensures;

    lemma_first_index(p.tracks, |tr: TrackModel| clip_index(tr.clips, clip_id) >= 0);
    let s = holder_index(p.tracks, clip_id);
    lemma_first_index(p.tracks[s].clips, |cl: ClipModel| cl.id == clip_id);
    lemma_first_index(p.tracks, |tr: TrackModel| tr.id == target_track);
    let c = clip_index(p.tracks[s].clips, clip_id);
    let target = track_index(p.tracks, target_track);
    let held = p.tracks[s].clips;
    let original = held[c];
    let clip = ClipModel { start_frame: start, ..original };
    let removed = replace_clips(p.tracks, s, held.remove(c));
    let pushed = removed[target].clips.push(clip);
    lemma_sorted_clips_multiset(pushed);
    let placed = replace_clips(removed, target, sorted_clips(pushed));
    let after = moved_tracks(p.tracks, s, c, target, start);
    if s != target {
        lemma_sorted_clips_multiset(placed[s].clips);
        assert(after[s].clips.to_multiset() =~= held.remove(c).to_multiset());
        assert(after[target].clips.to_multiset() =~= pushed.to_multiset());
        if forall|i: int, j: int| 0 <= i < j < held.len() ==> #[trigger] held[i].id != #[trigger] held[j].id {
            assert(held.no_duplicates()) by {
                assert forall|i: int, j: int| 0 <= i < held.len() && 0 <= j < held.len() && i != j implies held[i] != held[j] by {
                    if i < j {
                        assert(held[i].id != held[j].id);
                    } else {
                        assert(held[j].id != held[i].id);
                    }
                }
            }
            held.lemma_multiset_has_no_duplicates();
            assert forall|k: int| 0 <= k < after[s].clips.len() implies (#[trigger] after[s].clips[k]).id != clip_id by {
                let y = after[s].clips[k];
                if y.id == clip_id {
                    assert(after[s].clips.to_multiset().count(y) > 0);
                    assert(held.to_multiset().contains(y));
                    let j = choose|j: int| 0 <= j < held.len() && held[j] == y;
                    if j < c {
                        assert(!(held[j].id == clip_id));
                    } else if j > c {
                        assert(held[c].id != held[j].id);
                    }
                    assert(held.to_multiset().count(original) == 1);
                }
            }
        }
    } else {
        assert(after[s].clips.to_multiset() =~= pushed.to_multiset());
    }
}

/// At a rate of zero every span is zero frames long.
proof fn lemma_nothing_scales_to_rate_zero(frames: u64, from_rate: u32)
    ensures
        scaled_frames(frames, from_rate, 0) == 0,
{
    if from_rate > 0 {
        assert(frames * 0 == 0);
        assert(((from_rate / 2) as int) / (from_rate as int) == 0) by (nonlinear_arith)
            requires
                from_rate > 0,
        ;
    }
}

/// `(target - start) * numerator / denominator`, rounded half away from zero.
fn rounded_shift(target: u64, start: u64, numerator: u32, denominator: u32) -> (shift: i128)
    requires
        denominator > 0,
    ensures
        shift == rounded_ratio(target - start, numerator as int, denominator as int),
        -0x4_0000_0000_0000_0000_0000_0000int <= shift <= 0x4_0000_0000_0000_0000_0000_0000int,
{
    let magnitude: u64 = if target >= start {
        target - start
    } else {
        start - target
    };
    proof {
        assert((magnitude as int) * (numerator as int) <= 0xffff_ffff_ffff_ffffint * 0xffff_ffffint)
            by (nonlinear_arith)
            requires
                0 <= magnitude <= 0xffff_ffff_ffff_ffffint,
                0 <= numerator <= 0xffff_ffffint,
        ;
    }
    let product = magnitude as u128 * numerator as u128;
    let quotient = (2 * product + denominator as u128) / (2 * denominator as u128);
    proof {
        assert(quotient <= 2 * product + denominator as u128) by (nonlinear_arith)
            requires
                quotient == (2 * product + denominator as u128) / (2 * denominator as u128),
                denominator > 0,
        ;
        let x = target - start;
        if target >= start {
            assert(x * (numerator as int) == product);
            assert(rounded_ratio(x, numerator as int, denominator as int) == quotient);
        } else {
            assert(x * (numerator as int) == -(product as int)) by (nonlinear_arith)
                requires
                    x == -(magnitude as int),
                    product == (magnitude as int) * (numerator as int),
            ;
            assert(-2 * (x * (numerator as int)) == 2 * product);
            if product == 0 {
                assert((denominator as int) / (2 * denominator as int) == 0) by (nonlinear_arith)
                    requires
                        denominator > 0,
                ;
            }
            assert(rounded_ratio(x, numerator as int, denominator as int) == -(quotient as int));
        }
    }
    if target >= start {
        quotient as i128
    } else {
        -(quotient as i128)
    }
}

} // verus!
