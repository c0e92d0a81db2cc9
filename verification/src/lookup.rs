//! Finding tracks, clips and media, and measuring clips on the timeline.

use crate::media::{media_lookup, MediaTable};
use crate::model::{
    clip_models, scale_frames, scaled_frames, track_models, Clip, ClipId, ClipModel, MediaId,
    MediaInfo, Track, TrackId, TrackModel,
};
use crate::project::{Project, ProjectModel};
use crate::seqs::{any, first_index, lemma_first_index, lemma_first_index_is, lemma_first_index_none};
use vstd::prelude::*;

verus! {

pub open spec fn sat_add(a: u64, b: u64) -> u64 {
    if a + b > u64::MAX { u64::MAX } else { (a + b) as u64 }
}

pub open spec fn sat_sub(a: u64, b: u64) -> u64 {
    if a >= b { (a - b) as u64 } else { 0 }
}

/// Index of the first track with identifier `id`, or -1.
pub open spec fn track_index(tracks: Seq<TrackModel>, id: TrackId) -> int {
    first_index(tracks, |t: TrackModel| t.id == id)
}

/// Index of the first clip with identifier `id`, or -1.
pub open spec fn clip_index(clips: Seq<ClipModel>, id: ClipId) -> int {
    first_index(clips, |c: ClipModel| c.id == id)
}

/// Index of the first track that holds a clip with identifier `id`, or -1.
pub open spec fn holder_index(tracks: Seq<TrackModel>, id: ClipId) -> int {
    first_index(tracks, |t: TrackModel| clip_index(t.clips, id) >= 0)
}

/// Where the clip `id` is: the first track holding it and its first place there.
pub open spec fn clip_position(tracks: Seq<TrackModel>, id: ClipId) -> Option<(int, int)> {
    let t = holder_index(tracks, id);
    if t < 0 { None } else { Some((t, clip_index(tracks[t].clips, id))) }
}

/// Timeline length of a clip in project frames (at least 1), when its media
/// is registered.
pub open spec fn clip_duration(p: ProjectModel, c: ClipModel) -> Option<u64> {
    match media_lookup(p.media, c.media_id) {
        Some(m) => {
            let d = scaled_frames(sat_sub(c.source_out, c.source_in), m.sample_rate, p.sample_rate);
            Some(if d < 1 { 1 } else { d })
        },
        None => None,
    }
}

/// The project frame at which a clip ends, when its media is registered.
pub open spec fn clip_end(p: ProjectModel, c: ClipModel) -> Option<u64> {
    match clip_duration(p, c) {
        Some(d) => Some(sat_add(c.start_frame, d)),
        None => None,
    }
}

/// The larger of two optional frames.
pub open spec fn later(a: Option<u64>, b: Option<u64>) -> Option<u64> {
    match (a, b) {
        (Some(x), Some(y)) => Some(if x >= y { x } else { y }),
        (Some(x), None) => Some(x),
        (None, _) => b,
    }
}

/// The latest end among `clips` whose media is registered.
pub open spec fn latest_clip_end(p: ProjectModel, clips: Seq<ClipModel>) -> Option<u64>
    decreases clips.len(),
{
    if clips.len() == 0 {
        None
    } else {
        later(latest_clip_end(p, clips.drop_last()), clip_end(p, clips.last()))
    }
}

/// The latest end among the clips of `tracks` whose media is registered.
pub open spec fn latest_track_end(p: ProjectModel, tracks: Seq<TrackModel>) -> Option<u64>
    decreases tracks.len(),
{
    if tracks.len() == 0 {
        None
    } else {
        later(latest_track_end(p, tracks.drop_last()), latest_clip_end(p, tracks.last().clips))
    }
}

/// The project's length: the latest clip end, or 30 seconds when no clip
/// can be measured.
pub open spec fn project_duration(p: ProjectModel) -> u64 {
    match latest_track_end(p, p.tracks) {
        Some(end) => end,
        None => (p.sample_rate * 30) as u64,
    }
}

proof fn lemma_later_assoc(a: Option<u64>, b: Option<u64>, c: Option<u64>)
    ensures
        later(later(a, b), c) == later(a, later(b, c)),
{
}

/// Every field but the tracks is equal.
pub open spec fn same_except_tracks(a: Project, b: Project) -> bool {
    &&& a.format_version == b.format_version
    &&& a.id == b.id
    &&& a.name == b.name
    &&& a.sample_rate == b.sample_rate
    &&& a.bpm == b.bpm
    &&& a.time_signature == b.time_signature
    &&& a.media == b.media
    &&& a.master == b.master
    &&& a.loop_region == b.loop_region
    &&& a.created_unix_ms == b.created_unix_ms
    &&& a.modified_unix_ms == b.modified_unix_ms
    &&& a.extensions == b.extensions
}

/// Every field but the clips is equal.
pub open spec fn same_track_except_clips(a: Track, b: Track) -> bool {
    &&& a.id == b.id
    &&& a.name == b.name
    &&& a.color == b.color
    &&& a.gain_db == b.gain_db
    &&& a.pan == b.pan
    &&& a.mute == b.mute
    &&& a.solo == b.solo
    &&& a.armed == b.armed
    &&& a.monitor == b.monitor
    &&& a.effects == b.effects
}

impl Project {
    /// Updates the modification time.
    pub fn touch(&mut self)
        ensures
            final(self)@ == old(self)@.with_modified(final(self)@.modified_unix_ms),
    {
        self.modified_unix_ms = crate::clock::unix_ms();
    }

    /// The first track with identifier `id`.
    pub fn track(&self, id: TrackId) -> (found: Option<&Track>)
        ensures
            match found {
                Some(track) => {
                    let i = track_index(self@.tracks, id);
                    i >= 0 && track@ == self@.tracks[i]
                },
                None => track_index(self@.tracks, id) < 0,
            },
    {
        let ghost s = self@.tracks;
        let ghost pred = |t: TrackModel| t.id == id;
        let mut i: usize = 0;
        while i < self.tracks.len()
            invariant
                s == track_models(self.tracks@),
                pred == (|t: TrackModel| t.id == id),
                i <= self.tracks.len(),
                forall|j: int| 0 <= j < i ==> !pred(#[trigger] s[j]),
            decreases self.tracks.len() - i,
        {
            if self.tracks[i].id == id {
                proof {
                    lemma_first_index_is(s, pred, i as int);
                }
                return Some(&self.tracks[i]);
            }
            i = i + 1;
        }
        proof {
            lemma_first_index_none(s, pred);
        }
        None
    }

    /// Position of the first track with identifier `id`.
    pub fn track_position(&self, id: TrackId) -> (found: Option<usize>)
        ensures
            match found {
                Some(i) => track_index(self@.tracks, id) == i,
                None => track_index(self@.tracks, id) < 0,
            },
    {
        let ghost s = self@.tracks;
        let ghost pred = |t: TrackModel| t.id == id;
        let mut i: usize = 0;
        while i < self.tracks.len()
            invariant
                s == track_models(self.tracks@),
                pred == (|t: TrackModel| t.id == id),
                i <= self.tracks.len(),
                forall|j: int| 0 <= j < i ==> !pred(#[trigger] s[j]),
            decreases self.tracks.len() - i,
        {
            if self.tracks[i].id == id {
                proof {
                    lemma_first_index_is(s, pred, i as int);
                }
                return Some(i);
            }
            i = i + 1;
        }
        proof {
            lemma_first_index_none(s, pred);
        }
        None
    }

    /// The first track with identifier `id`, for editing in place.
    pub fn track_mut(&mut self, id: TrackId) -> (found: Option<&mut Track>)
        ensures
            match found {
                Some(track) => {
                    let i = track_index(old(self)@.tracks, id);
                    &&& 0 <= i < old(self).tracks.len()
                    &&& *track == old(self).tracks@[i]
                    &&& final(self).tracks@ == old(self).tracks@.update(i, *final(track))
                    &&& same_except_tracks(*final(self), *old(self))
                },
                None => {
                    &&& track_index(old(self)@.tracks, id) < 0
                    &&& *final(self) == *old(self)
                },
            },
    {
        match self.track_position(id) {
            Some(i) => {
                proof {
                    lemma_first_index(self@.tracks, |t: TrackModel| t.id == id);
                }
                let track = &mut self.tracks[i];
                Some(track)
            },
            None => None,
        }
    }

    /// The registered media `id`.
    pub fn media_info(&self, id: MediaId) -> (found: Option<&MediaInfo>)
        ensures
            match found {
                Some(info) => media_lookup(self@.media, id) == Some(info@),
                None => media_lookup(self@.media, id) is None,
            },
    {
        self.media.get(id)
    }

    /// Where the clip `id` is: (track index, clip index).
    pub fn clip_location(&self, id: ClipId) -> (found: Option<(usize, usize)>)
        ensures
            match found {
                Some((t, c)) => clip_position(self@.tracks, id) == Some((t as int, c as int)),
                None => clip_position(self@.tracks, id) is None,
            },
    {
        let ghost s = self@.tracks;
        let ghost holds = |t: TrackModel| clip_index(t.clips, id) >= 0;
        let mut t: usize = 0;
        while t < self.tracks.len()
            invariant
                s == track_models(self.tracks@),
                holds == (|t: TrackModel| clip_index(t.clips, id) >= 0),
                t <= self.tracks.len(),
                forall|j: int| 0 <= j < t ==> !holds(#[trigger] s[j]),
            decreases self.tracks.len() - t,
        {
            let clips = &self.tracks[t].clips;
            let ghost cs = s[t as int].clips;
            let ghost is_it = |c: ClipModel| c.id == id;
            assert(cs == clip_models(clips@));
            let mut c: usize = 0;
            while c < clips.len()
                invariant
                    s == track_models(self.tracks@),
                    holds == (|t: TrackModel| clip_index(t.clips, id) >= 0),
                    t < self.tracks.len(),
                    forall|j: int| 0 <= j < t ==> !holds(#[trigger] s[j]),
                    cs == s[t as int].clips,
                    cs == clip_models(clips@),
                    is_it == (|c: ClipModel| c.id == id),
                    c <= clips.len(),
                    forall|j: int| 0 <= j < c ==> !is_it(#[trigger] cs[j]),
                decreases clips.len() - c,
            {
                if clips[c].id == id {
                    proof {
                        lemma_first_index_is(cs, is_it, c as int);
                        lemma_first_index_is(s, holds, t as int);
                    }
                    return Some((t, c));
                }
                c = c + 1;
            }
            proof {
                lemma_first_index_none(cs, is_it);
            }
            t = t + 1;
        }
        proof {
            lemma_first_index_none(s, holds);
        }
        None
    }

    /// The clip `id` and the track that holds it.
    pub fn clip(&self, id: ClipId) -> (found: Option<(&Track, &Clip)>)
        ensures
            match found {
                Some((track, clip)) => match clip_position(self@.tracks, id) {
                    Some((t, c)) => track@ == self@.tracks[t] && clip@ == self@.tracks[t].clips[c],
                    None => false,
                },
                None => clip_position(self@.tracks, id) is None,
            },
    {
        match self.clip_location(id) {
            Some((t, c)) => {
                proof {
                    lemma_first_index(self@.tracks, |tr: TrackModel| clip_index(tr.clips, id) >= 0);
                    lemma_first_index(self@.tracks[t as int].clips, |cl: ClipModel| cl.id == id);
                }
                let track = &self.tracks[t];
                Some((track, &track.clips[c]))
            },
            None => None,
        }
    }

    /// The clip `id`, for editing in place.
    pub fn clip_mut(&mut self, id: ClipId) -> (found: Option<&mut Clip>)
        ensures
            match found {
                Some(clip) => match clip_position(old(self)@.tracks, id) {
                    Some((t, c)) => {
                        &&& 0 <= t < old(self).tracks.len()
                        &&& 0 <= c < old(self).tracks@[t].clips.len()
                        &&& *clip == old(self).tracks@[t].clips@[c]
                        &&& final(self).tracks@.len() == old(self).tracks@.len()
                        &&& forall|k: int| 0 <= k < old(self).tracks@.len() && k != t
                            ==> #[trigger] final(self).tracks@[k] == old(self).tracks@[k]
                        &&& final(self).tracks@[t].clips@ == old(self).tracks@[t].clips@.update(
                            c,
                            *final(clip),
                        )
                        &&& same_track_except_clips(final(self).tracks@[t], old(self).tracks@[t])
                        &&& same_except_tracks(*final(self), *old(self))
                    },
                    None => false,
                },
                None => {
                    &&& clip_position(old(self)@.tracks, id) is None
                    &&& *final(self) == *old(self)
                },
            },
    {
        match self.clip_location(id) {
            Some((t, c)) => {
                proof {
                    lemma_first_index(self@.tracks, |tr: TrackModel| clip_index(tr.clips, id) >= 0);
                    lemma_first_index(self@.tracks[t as int].clips, |cl: ClipModel| cl.id == id);
                }
                let track = &mut self.tracks[t];
                let clip = &mut track.clips[c];
                Some(clip)
            },
            None => None,
        }
    }

    /// Timeline length of `clip` in project frames (at least 1), when its
    /// media is registered.
    pub fn clip_duration_frames(&self, clip: &Clip) -> (frames: Option<u64>)
        ensures
            frames == clip_duration(self@, clip@),
    {
        match self.media.get(clip.media_id) {
            Some(media) => {
                let source_frames = clip.source_out.saturating_sub(clip.source_in);
                let scaled = scale_frames(source_frames, media.sample_rate, self.sample_rate);
                Some(if scaled < 1 { 1 } else { scaled })
            },
            None => None,
        }
    }

    /// The project frame at which `clip` ends, when its media is registered.
    pub fn clip_end_frame(&self, clip: &Clip) -> (frame: Option<u64>)
        ensures
            frame == clip_end(self@, clip@),
    {
        match self.clip_duration_frames(clip) {
            Some(duration) => Some(clip.start_frame.saturating_add(duration)),
            None => None,
        }
    }

    /// The latest end of any clip, or 30 seconds of frames.
    pub fn duration_frames(&self) -> (frames: u64)
        ensures
            frames == project_duration(self@),
    {
        let ghost p = self@;
        let ghost s = p.tracks;
        let mut best: Option<u64> = None;
        let mut t: usize = 0;
        while t < self.tracks.len()
            invariant
                p == self@,
                s == track_models(self.tracks@),
                t <= self.tracks.len(),
                best == latest_track_end(p, s.take(t as int)),
            decreases self.tracks.len() - t,
        {
            let clips = &self.tracks[t].clips;
            let ghost cs = s[t as int].clips;
            let ghost before = best;
            let mut c: usize = 0;
            proof {
                assert(cs.take(0) =~= Seq::<ClipModel>::empty());
            }
            while c < clips.len()
                invariant
                    p == self@,
                    cs == clip_models(clips@),
                    c <= clips.len(),
                    best == later(before, latest_clip_end(p, cs.take(c as int))),
                decreases clips.len() - c,
            {
                let end = self.clip_end_frame(&clips[c]);
                proof {
                    assert(cs.take(c + 1).drop_last() =~= cs.take(c as int));
                    lemma_later_assoc(before, latest_clip_end(p, cs.take(c as int)), end);
                }
                best = match (best, end) {
                    (Some(x), Some(y)) => Some(if x >= y { x } else { y }),
                    (Some(x), None) => Some(x),
                    (None, _) => end,
                };
                c = c + 1;
            }
            proof {
                assert(cs.take(c as int) =~= cs);
                assert(s.take(t + 1).drop_last() =~= s.take(t as int));
            }
            t = t + 1;
        }
        proof {
            assert(s.take(t as int) =~= s);
        }
        match best {
            Some(end) => end,
            None => self.sample_rate as u64 * 30,
        }
    }

    /// Whether any track is soloed.
    pub fn any_soloed(&self) -> (soloed: bool)
        ensures
            soloed == any(self@.tracks, |t: TrackModel| t.solo),
    {
        let ghost s = self@.tracks;
        let mut i: usize = 0;
        while i < self.tracks.len()
            invariant
                s == track_models(self.tracks@),
                i <= self.tracks.len(),
                forall|j: int| 0 <= j < i ==> !(#[trigger] s[j]).solo,
            decreases self.tracks.len() - i,
        {
            if self.tracks[i].solo {
                proof {
                    assert((|t: TrackModel| t.solo)(s[i as int]));
                }
                return true;
            }
            i = i + 1;
        }
        false
    }
}

} // verus!
