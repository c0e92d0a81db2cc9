//! What a playback or export session is built from: which tracks sound,
//! which decoded audio each clip plays, and how long the mix runs.

use crate::model::{ClipModel, MediaId, TrackId, TrackModel};
use crate::project::{Project, ProjectModel};
use crate::lookup::project_duration;
use crate::seqs::{any, first_index};
use crate::validate::{validation_issue, with_suffix};
use vstd::prelude::*;

verus! {

/// A track of a session: whether it sounds, and for each clip the index of
/// its audio among the available media.
#[derive(Debug, Clone, PartialEq, Eq)]
pub struct TrackPlan {
    pub id: TrackId,
    pub audible: bool,
    pub clip_sources: Vec<usize>,
}

pub struct TrackPlanModel {
    pub id: TrackId,
    pub audible: bool,
    pub clip_sources: Seq<usize>,
}

impl View for TrackPlan {
    type V = TrackPlanModel;

    open spec fn view(&self) -> TrackPlanModel {
        TrackPlanModel { id: self.id, audible: self.audible, clip_sources: self.clip_sources@ }
    }
}

/// Everything of a session that is not sample arithmetic.
#[derive(Debug, Clone, PartialEq, Eq)]
pub struct SessionPlan {
    pub duration_frames: u64,
    pub tracks: Vec<TrackPlan>,
}

pub open spec fn track_plan_models(tracks: Seq<TrackPlan>) -> Seq<TrackPlanModel> {
    tracks.map_values(|t: TrackPlan| t@)
}

/// A track sounds unless it is muted, or another track is soloed and it is
/// not.
pub open spec fn track_audible(t: TrackModel, any_solo: bool) -> bool {
    !t.mute && (!any_solo || t.solo)
}

pub open spec fn is_media(id: MediaId) -> spec_fn(MediaId) -> bool {
    |x: MediaId| x == id
}

/// Where `id` first occurs in `available`; -1 when it does not.
pub open spec fn available_index(available: Seq<MediaId>, id: MediaId) -> int {
    first_index(available, is_media(id))
}

pub open spec fn missing_pcm_text(name: Seq<char>) -> Seq<char> {
    name + " 미디어 PCM이 없습니다"@
}

/// The name of the first of the first `n` clips whose audio is not
/// available.
pub open spec fn missing_in_clips(clips: Seq<ClipModel>, available: Seq<MediaId>, n: int) -> Option<
    Seq<char>,
>
    decreases n,
{
    if n <= 0 {
        None
    } else {
        match missing_in_clips(clips, available, n - 1) {
            Some(name) => Some(name),
            None => if available_index(available, clips[n - 1].media_id) < 0 {
                Some(clips[n - 1].name)
            } else {
                None
            },
        }
    }
}

/// The name of the first clip, track by track, whose audio is not
/// available.
pub open spec fn missing_in_tracks(tracks: Seq<TrackModel>, available: Seq<MediaId>, n: int) -> Option<
    Seq<char>,
>
    decreases n,
{
    if n <= 0 {
        None
    } else {
        match missing_in_tracks(tracks, available, n - 1) {
            Some(name) => Some(name),
            None => missing_in_clips(
                tracks[n - 1].clips,
                available,
                tracks[n - 1].clips.len() as int,
            ),
        }
    }
}

pub open spec fn planned_track(t: TrackModel, any_solo: bool, available: Seq<MediaId>) -> TrackPlanModel {
    TrackPlanModel {
        id: t.id,
        audible: track_audible(t, any_solo),
        clip_sources: Seq::new(
            t.clips.len(),
            |k: int| available_index(available, t.clips[k].media_id) as usize,
        ),
    }
}

/// The session for project `p` when the media in `available` are decoded:
/// refused with the project's first rule broken, or with the name of the
/// first clip whose audio is missing.
pub open spec fn session_result(p: ProjectModel, available: Seq<MediaId>) -> Result<
    (u64, Seq<TrackPlanModel>),
    Seq<char>,
> {
    match validation_issue(p) {
        Some(message) => Err(message),
        None => match missing_in_tracks(p.tracks, available, p.tracks.len() as int) {
            Some(name) => Err(missing_pcm_text(name)),
            None => Ok(
                (
                    project_duration(p),
                    Seq::new(
                        p.tracks.len(),
                        |t: int|
                            planned_track(
                                p.tracks[t],
                                any(p.tracks, |x: TrackModel| x.solo),
                                available,
                            ),
                    ),
                ),
            ),
        },
    }
}

proof fn lemma_missing_in_clips_stays(clips: Seq<ClipModel>, available: Seq<MediaId>, k: int, n: int)
    requires
        k <= n,
        missing_in_clips(clips, available, k) is Some,
    ensures
        missing_in_clips(clips, available, n) == missing_in_clips(clips, available, k),
    decreases n - k,
{
    if k < n {
        lemma_missing_in_clips_stays(clips, available, k, n - 1);
    }
}

proof fn lemma_missing_in_tracks_stays(tracks: Seq<TrackModel>, available: Seq<MediaId>, k: int, n: int)
    requires
        k <= n,
        missing_in_tracks(tracks, available, k) is Some,
    ensures
        missing_in_tracks(tracks, available, n) == missing_in_tracks(tracks, available, k),
    decreases n - k,
{
    if k < n {
        lemma_missing_in_tracks_stays(tracks, available, k, n - 1);
    }
}

/// The index of `id` in `available`.
fn find_available(available: &Vec<MediaId>, id: MediaId) -> (found: Option<usize>)
    ensures
        match found {
            Some(i) => i as int == available_index(available@, id),
            None => available_index(available@, id) < 0,
        },
{
    let mut i: usize = 0;
    while i < available.len()
        invariant
            i <= available@.len(),
            forall|j: int| 0 <= j < i ==> available@[j] != id,
        decreases available.len() - i,
    {
        if available[i] == id {
            proof {
                crate::seqs::lemma_first_index_is(available@, is_media(id), i as int);
            }
            return Some(i);
        }
        i = i + 1;
    }
    proof {
        crate::seqs::lemma_first_index_none(available@, is_media(id));
    }
    None
}

/// The plan of one track's clips, or the name of the first clip whose audio
/// is missing.
fn plan_track_clips(clips: &Vec<crate::model::Clip>, available: &Vec<MediaId>) -> (result: Result<
    Vec<usize>,
    String,
>)
    ensures
        match missing_in_clips(
            crate::model::clip_models(clips@),
            available@,
            clips@.len() as int,
        ) {
            Some(name) => result matches Err(n) && n@ == name,
            None => result matches Ok(v) && v@ == Seq::new(
                clips@.len(),
                |k: int|
                    available_index(available@, crate::model::clip_models(clips@)[k].media_id) as usize,
            ),
        },
{
    let ghost models = crate::model::clip_models(clips@);
    let ghost wanted = Seq::new(
        clips@.len(),
        |k: int| available_index(available@, models[k].media_id) as usize,
    );
    let mut sources: Vec<usize> = Vec::new();
    let mut k: usize = 0;
    while k < clips.len()
        invariant
            k <= clips@.len(),
            models == crate::model::clip_models(clips@),
            wanted == Seq::new(
                clips@.len(),
                |j: int| available_index(available@, models[j].media_id) as usize,
            ),
            missing_in_clips(models, available@, k as int) is None,
            sources@ == wanted.take(k as int),
        decreases clips.len() - k,
    {
        let clip = &clips[k];
        assert(models[k as int] == clip@);
        match find_available(available, clip.media_id) {
            Some(i) => {
                sources.push(i);
                assert(sources@ =~= wanted.take(k + 1));
            },
            None => {
                proof {
                    lemma_missing_in_clips_stays(models, available@, k + 1, clips@.len() as int);
                }
                return Err(clip.name.clone());
            },
        }
        k = k + 1;
    }
    assert(wanted.take(k as int) =~= wanted);
    Ok(sources)
}

/// Plans a session for `project` with the media in `available` decoded.
pub fn plan_session(project: &Project, available: &Vec<MediaId>) -> (result: Result<SessionPlan, String>)
    ensures
        match session_result(project@, available@) {
            Ok((duration, tracks)) => result matches Ok(plan) && plan.duration_frames == duration
                && track_plan_models(plan.tracks@) == tracks,
            Err(message) => result matches Err(m) && m@ == message,
        },
{
    match project.validate() {
        Ok(()) => {},
        Err(message) => return Err(message),
    }
    let ghost p = project@;
    let any_solo = project.any_soloed();
    let ghost wanted = Seq::new(
        p.tracks.len(),
        |t: int| planned_track(p.tracks[t], any(p.tracks, |x: TrackModel| x.solo), available@),
    );
    let mut tracks: Vec<TrackPlan> = Vec::new();
    let mut t: usize = 0;
    while t < project.tracks.len()
        invariant
            t <= project.tracks@.len(),
            p == project@,
            validation_issue(p) is None,
            any_solo == any(p.tracks, |x: TrackModel| x.solo),
            wanted == Seq::new(
                p.tracks.len(),
                |j: int| planned_track(p.tracks[j], any(p.tracks, |x: TrackModel| x.solo), available@),
            ),
            missing_in_tracks(p.tracks, available@, t as int) is None,
            track_plan_models(tracks@) == wanted.take(t as int),
        decreases project.tracks.len() - t,
    {
        let track = &project.tracks[t];
        assert(p.tracks[t as int] == track@);
        let clip_sources = match plan_track_clips(&track.clips, available) {
            Ok(sources) => sources,
            Err(name) => {
                proof {
                    lemma_missing_in_tracks_stays(p.tracks, available@, t + 1, p.tracks.len() as int);
                }
                return Err(with_suffix(&name, " 미디어 PCM이 없습니다"));
            },
        };
        let plan = TrackPlan { id: track.id, audible: !track.mute && (!any_solo || track.solo), clip_sources };
        let ghost before = tracks@;
        tracks.push(plan);
        proof {
            assert(plan@.clip_sources =~= wanted[t as int].clip_sources);
            assert(track_plan_models(tracks@) =~= track_plan_models(before).push(wanted[t as int]));
            assert(wanted.take(t + 1) =~= wanted.take(t as int).push(wanted[t as int]));
        }
        t = t + 1;
    }
    assert(wanted.take(t as int) =~= wanted);
    let duration_frames = project.duration_frames();
    Ok(SessionPlan { duration_frames, tracks })
}

/// Output frames of an offline mix of `duration` project frames rendered at
/// `output_rate`: the duration converted to the output rate, rounded up,
/// and capped at `usize::MAX`.
pub fn offline_output_frames(duration: u64, output_rate: u32, project_rate: u32) -> (frames: usize)
    requires
        project_rate > 0,
    ensures
        frames as int == if (duration * output_rate + project_rate - 1) / (project_rate as int)
            > usize::MAX {
            usize::MAX as int
        } else {
            (duration * output_rate + project_rate - 1) / (project_rate as int)
        },
{
    assert(duration * output_rate <= 0xffff_ffff_ffff_ffff * 0xffff_ffffint) by (nonlinear_arith)
        requires
            duration <= 0xffff_ffff_ffff_ffffu64,
            output_rate <= 0xffff_ffffu32,
    ;
    let product: u128 = duration as u128 * output_rate as u128;
    let rounded: u128 = (product + project_rate as u128 - 1) / project_rate as u128;
    if rounded > usize::MAX as u128 {
        usize::MAX
    } else {
        rounded as usize
    }
}

} // verus!
