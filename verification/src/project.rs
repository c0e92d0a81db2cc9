//! The project: its fields, its abstract model, copies and comparison.

use crate::media::{media_models, MediaTable};
use crate::bits::{f32_eq, f64_eq, f64_equal};
use crate::model::{
    clip_equal, clip_models, clips_equal, master_equal, optional_text, track_equal, track_models,
    tracks_equal, Clip, ClipModel, Extension, ExtensionModel, FrameRange, MasterSettings, MediaModel,
    TimeSignature, Track, TrackModel,
};
use vstd::prelude::*;

verus! {


/// A song: tracks of clips over registered media, plus tempo and mix settings.
pub struct Project {
    pub format_version: u32,
    pub id: u128,
    pub name: String,
    pub sample_rate: u32,
    /// `f64` bits.
    pub bpm: u64,
    pub time_signature: TimeSignature,
    pub tracks: Vec<Track>,
    pub media: MediaTable,
    pub master: MasterSettings,
    pub loop_region: Option<FrameRange>,
    pub created_unix_ms: u64,
    pub modified_unix_ms: u64,
    /// Named JSON kept for data this version does not know, in name order.
    pub extensions: Vec<Extension>,
}

#[verifier::ext_equal]
pub struct ProjectModel {
    pub format_version: u32,
    pub id: u128,
    pub name: Seq<char>,
    pub sample_rate: u32,
    pub bpm: u64,
    pub time_signature: TimeSignature,
    pub tracks: Seq<TrackModel>,
    pub media: Seq<MediaModel>,
    pub master: MasterSettings,
    pub loop_region: Option<FrameRange>,
    pub created_unix_ms: u64,
    pub modified_unix_ms: u64,
    pub extensions: Seq<ExtensionModel>,
}

pub open spec fn extension_models(extensions: Seq<Extension>) -> Seq<ExtensionModel> {
    extensions.map_values(|extension: Extension| extension@)
}

impl View for Project {
    type V = ProjectModel;

    open spec fn view(&self) -> ProjectModel {
        ProjectModel {
            format_version: self.format_version,
            id: self.id,
            name: self.name@,
            sample_rate: self.sample_rate,
            bpm: self.bpm,
            time_signature: self.time_signature,
            tracks: track_models(self.tracks@),
            media: self.media@,
            master: self.master,
            loop_region: self.loop_region,
            created_unix_ms: self.created_unix_ms,
            modified_unix_ms: self.modified_unix_ms,
            extensions: extension_models(self.extensions@),
        }
    }
}

impl ProjectModel {
    pub open spec fn with_tracks(self, tracks: Seq<TrackModel>) -> ProjectModel {
        ProjectModel { tracks, ..self }
    }

    pub open spec fn with_media(self, media: Seq<MediaModel>) -> ProjectModel {
        ProjectModel { media, ..self }
    }

    pub open spec fn with_modified(self, modified_unix_ms: u64) -> ProjectModel {
        ProjectModel { modified_unix_ms, ..self }
    }
}

impl Clip {
    /// A copy of the clip.
    pub fn copied(&self) -> (copy: Clip)
        ensures
            copy@ == self@,
    {
        Clip {
            id: self.id,
            media_id: self.media_id,
            name: self.name.clone(),
            start_frame: self.start_frame,
            source_in: self.source_in,
            source_out: self.source_out,
            gain_db: self.gain_db,
            fade_in: self.fade_in,
            fade_out: self.fade_out,
        }
    }

    /// Compares two clips as `==` does: field by field, the gain as `f32`.
    pub fn same_as(&self, other: &Clip) -> (same: bool)
        ensures
            same == clip_equal(self@, other@),
    {
        self.id == other.id && self.media_id == other.media_id && self.name == other.name
            && self.start_frame == other.start_frame && self.source_in == other.source_in
            && self.source_out == other.source_out && f32_eq(self.gain_db, other.gain_db)
            && self.fade_in == other.fade_in && self.fade_out == other.fade_out
    }
}

/// A copy of a list of clips.
pub fn copy_clips(clips: &Vec<Clip>) -> (copy: Vec<Clip>)
    ensures
        clip_models(copy@) == clip_models(clips@),
{
    let mut copy: Vec<Clip> = Vec::new();
    let mut i: usize = 0;
    while i < clips.len()
        invariant
            i <= clips.len(),
            copy.len() == i,
            clip_models(copy@) == clip_models(clips@).take(i as int),
        decreases clips.len() - i,
    {
        copy.push(clips[i].copied());
        proof {
            assert(clip_models(copy@) =~= clip_models(clips@).take(i + 1));
        }
        i = i + 1;
    }
    proof {
        assert(clip_models(clips@).take(i as int) =~= clip_models(clips@));
    }
    copy
}

/// Compares two lists of clips as `==` does, element by element.
pub fn same_clips(a: &Vec<Clip>, b: &Vec<Clip>) -> (same: bool)
    ensures
        same == clips_equal(clip_models(a@), clip_models(b@)),
{
    if a.len() != b.len() {
        return false;
    }
    let mut i: usize = 0;
    while i < a.len()
        invariant
            a.len() == b.len(),
            i <= a.len(),
            forall|j: int| 0 <= j < i ==> #[trigger] clip_equal(clip_models(a@)[j], clip_models(b@)[j]),
        decreases a.len() - i,
    {
        if !a[i].same_as(&b[i]) {
            proof {
                assert(!clip_equal(clip_models(a@)[i as int], clip_models(b@)[i as int]));
            }
            return false;
        }
        i = i + 1;
    }
    true
}

impl Track {
    /// A copy of the track and its clips.
    pub fn copied(&self) -> (copy: Track)
        ensures
            copy@ == self@,
    {
        Track {
            id: self.id,
            name: self.name.clone(),
            color: self.color,
            gain_db: self.gain_db,
            pan: self.pan,
            mute: self.mute,
            solo: self.solo,
            armed: self.armed,
            monitor: self.monitor,
            effects: self.effects,
            clips: copy_clips(&self.clips),
        }
    }

    /// Compares two tracks as `==` does, clips included.
    pub fn same_as(&self, other: &Track) -> (same: bool)
        ensures
            same == track_equal(self@, other@),
    {
        let head = self.id == other.id && self.name == other.name && self.color == other.color
            && f32_eq(self.gain_db, other.gain_db) && f32_eq(self.pan, other.pan) && self.mute
            == other.mute && self.solo == other.solo && self.armed == other.armed && self.monitor
            == other.monitor && self.effects.same_as(other.effects);
        if !head {
            return false;
        }
        same_clips(&self.clips, &other.clips)
    }
}

/// A copy of a list of tracks.
pub fn copy_tracks(tracks: &Vec<Track>) -> (copy: Vec<Track>)
    ensures
        track_models(copy@) == track_models(tracks@),
{
    let mut copy: Vec<Track> = Vec::new();
    let mut i: usize = 0;
    while i < tracks.len()
        invariant
            i <= tracks.len(),
            copy.len() == i,
            track_models(copy@) == track_models(tracks@).take(i as int),
        decreases tracks.len() - i,
    {
        copy.push(tracks[i].copied());
        proof {
            assert(track_models(copy@) =~= track_models(tracks@).take(i + 1));
        }
        i = i + 1;
    }
    proof {
        assert(track_models(tracks@).take(i as int) =~= track_models(tracks@));
    }
    copy
}

/// Compares two lists of tracks as `==` does, element by element.
pub fn same_tracks(a: &Vec<Track>, b: &Vec<Track>) -> (same: bool)
    ensures
        same == tracks_equal(track_models(a@), track_models(b@)),
{
    if a.len() != b.len() {
        return false;
    }
    let mut i: usize = 0;
    while i < a.len()
        invariant
            a.len() == b.len(),
            i <= a.len(),
            forall|j: int|
                0 <= j < i ==> #[trigger] track_equal(track_models(a@)[j], track_models(b@)[j]),
        decreases a.len() - i,
    {
        if !a[i].same_as(&b[i]) {
            proof {
                assert(!track_equal(track_models(a@)[i as int], track_models(b@)[i as int]));
            }
            return false;
        }
        i = i + 1;
    }
    true
}

/// A copy of a list of extensions.
pub fn copy_extensions(extensions: &Vec<Extension>) -> (copy: Vec<Extension>)
    ensures
        extension_models(copy@) == extension_models(extensions@),
{
    let mut copy: Vec<Extension> = Vec::new();
    let mut i: usize = 0;
    while i < extensions.len()
        invariant
            i <= extensions.len(),
            copy.len() == i,
            extension_models(copy@) == extension_models(extensions@).take(i as int),
        decreases extensions.len() - i,
    {
        copy.push(Extension { name: extensions[i].name.clone(), json: extensions[i].json.clone() });
        proof {
            assert(extension_models(copy@) =~= extension_models(extensions@).take(i + 1));
        }
        i = i + 1;
    }
    proof {
        assert(extension_models(extensions@).take(i as int) =~= extension_models(extensions@));
    }
    copy
}

/// What `serde_json` answers when the two texts are read as
/// `serde_json::Value`s and compared: `Some` of `==` when both read as JSON,
/// `None` when either does not.
pub uninterp spec fn json_comparison(a: Seq<char>, b: Seq<char>) -> Option<bool>;

/// Whether two JSON texts hold equal values: identical texts do (`Value`
/// equality is reflexive), and otherwise `serde_json`'s comparison decides;
/// texts that are not both JSON match only when identical.
pub open spec fn json_matches(same_text: bool, compared: Option<bool>) -> bool {
    same_text || compared == Some(true)
}

/// `==` on the JSON values the two texts hold.
pub open spec fn json_equal(a: Seq<char>, b: Seq<char>) -> bool {
    json_matches(a == b, json_comparison(a, b))
}

/// `==` on the extension lists: names alike, values equal as JSON.
pub open spec fn extensions_equal(a: Seq<ExtensionModel>, b: Seq<ExtensionModel>) -> bool {
    &&& a.len() == b.len()
    &&& forall|i: int|
        #![trigger a[i]]
        0 <= i < a.len() ==> a[i].name == b[i].name && json_equal(a[i].json, b[i].json)
}

/// Reads both texts with `serde_json::from_str` as `serde_json::Value`s and
/// compares them with `serde_json`'s `==`; `None` when either text is not
/// JSON. The contract claims only that the answer depends on the two texts
/// alone; what it is, is left to `serde_json`.
#[verifier::external_body]
fn compare_json(a: &str, b: &str) -> (compared: Option<bool>)
    ensures
        compared == json_comparison(a@, b@),
{
    match (serde_json::from_str::<serde_json::Value>(a), serde_json::from_str::<serde_json::Value>(b)) {
        (Ok(x), Ok(y)) => Some(x == y),
        _ => None,
    }
}

/// Decides whether two JSON texts hold equal values, from whether the texts
/// are identical and from `serde_json`'s comparison of them.
pub fn json_match(same_text: bool, compared: Option<bool>) -> (matched: bool)
    ensures
        matched == json_matches(same_text, compared),
{
    same_text || match compared {
        Some(equal) => equal,
        None => false,
    }
}

/// Whether two JSON texts hold equal values.
pub fn same_json(a: &String, b: &String) -> (same: bool)
    ensures
        same == json_equal(a@, b@),
{
    if *a == *b {
        return json_match(true, None);
    }
    json_match(false, compare_json(a.as_str(), b.as_str()))
}

/// Compares two lists of extensions as `==` does: names alike, values equal
/// as JSON.
pub fn same_extensions(a: &Vec<Extension>, b: &Vec<Extension>) -> (same: bool)
    ensures
        same == extensions_equal(extension_models(a@), extension_models(b@)),
{
    if a.len() != b.len() {
        return false;
    }
    let mut i: usize = 0;
    while i < a.len()
        invariant
            a.len() == b.len(),
            i <= a.len(),
            forall|j: int|
                #![trigger extension_models(a@)[j]]
                0 <= j < i ==> extension_models(a@)[j].name == extension_models(b@)[j].name
                    && json_equal(extension_models(a@)[j].json, extension_models(b@)[j].json),
        decreases a.len() - i,
    {
        if !(a[i].name == b[i].name && same_json(&a[i].json, &b[i].json)) {
            proof {
                let ea = extension_models(a@);
                let eb = extension_models(b@);
                assert(ea[i as int] == a@[i as int]@ && eb[i as int] == b@[i as int]@);
                assert(!(ea[i as int].name == eb[i as int].name && json_equal(ea[i as int].json, eb[i as int].json)));
            }
            return false;
        }
        i = i + 1;
    }
    true
}

impl Project {
    /// A copy of the whole project.
    pub fn snapshot(&self) -> (copy: Project)
        ensures
            copy@ == self@,
    {
        let copy = Project {
            format_version: self.format_version,
            id: self.id,
            name: self.name.clone(),
            sample_rate: self.sample_rate,
            bpm: self.bpm,
            time_signature: self.time_signature,
            tracks: copy_tracks(&self.tracks),
            media: self.media.duplicate(),
            master: self.master,
            loop_region: self.loop_region,
            created_unix_ms: self.created_unix_ms,
            modified_unix_ms: self.modified_unix_ms,
            extensions: copy_extensions(&self.extensions),
        };
        proof {
            assert(copy@ =~= self@);
        }
        copy
    }

    /// Compares two projects as `==` does: field by field, each float as a
    /// float (so `-0.0` matches `0.0` and a NaN matches nothing), extensions
    /// by their JSON text.
    pub fn same_as(&self, other: &Project) -> (same: bool)
        ensures
            same == project_equal(self@, other@),
    {
        let head = self.format_version == other.format_version && self.id == other.id
            && self.name == other.name && self.sample_rate == other.sample_rate && f64_eq(
            self.bpm,
            other.bpm,
        ) && self.time_signature == other.time_signature && self.master.same_as(other.master)
            && self.loop_region == other.loop_region && self.created_unix_ms
            == other.created_unix_ms && self.modified_unix_ms == other.modified_unix_ms;
        if !head {
            return false;
        }
        if !same_tracks(&self.tracks, &other.tracks) {
            return false;
        }
        if !same_media(&self.media, &other.media) {
            return false;
        }
        if !same_extensions(&self.extensions, &other.extensions) {
            return false;
        }
        true
    }
}

/// `==` on projects: every field alike, each float compared as a float.
pub open spec fn project_equal(a: ProjectModel, b: ProjectModel) -> bool {
    &&& a.format_version == b.format_version
    &&& a.id == b.id
    &&& a.name == b.name
    &&& a.sample_rate == b.sample_rate
    &&& f64_equal(a.bpm, b.bpm)
    &&& a.time_signature == b.time_signature
    &&& tracks_equal(a.tracks, b.tracks)
    &&& a.media == b.media
    &&& master_equal(a.master, b.master)
    &&& a.loop_region == b.loop_region
    &&& a.created_unix_ms == b.created_unix_ms
    &&& a.modified_unix_ms == b.modified_unix_ms
    &&& extensions_equal(a.extensions, b.extensions)
}

/// Whether two registries hold the same entries.
pub fn same_media(a: &MediaTable, b: &MediaTable) -> (same: bool)
    ensures
        same == (a@ == b@),
{
    let x = a.entries();
    let y = b.entries();
    if x.len() != y.len() {
        proof {
            assert(media_models(x@).len() != media_models(y@).len());
        }
        return false;
    }
    let mut i: usize = 0;
    while i < x.len()
        invariant
            x.len() == y.len(),
            media_models(x@) == a@,
            media_models(y@) == b@,
            i <= x.len(),
            forall|j: int| 0 <= j < i ==> media_models(x@)[j] == media_models(y@)[j],
        decreases x.len() - i,
    {
        let p = &x[i];
        let q = &y[i];
        let paths_equal = match &p.original_path {
            Some(l) => match &q.original_path {
                Some(r) => *l == *r,
                None => false,
            },
            None => q.original_path.is_none(),
        };
        assert(paths_equal == (optional_text(p.original_path) == optional_text(q.original_path)));
        if !(p.id == q.id && p.name == q.name && p.sample_rate == q.sample_rate && p.channels
            == q.channels && p.frames == q.frames && paths_equal) {
            proof {
                assert(media_models(x@)[i as int] != media_models(y@)[i as int]);
            }
            return false;
        }
        i = i + 1;
    }
    proof {
        assert(media_models(x@) =~= media_models(y@));
    }
    true
}

} // verus!
