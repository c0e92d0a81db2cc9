//! The rules a project must satisfy before it is played, saved or loaded.

use crate::bits::{f32_finite_in, f32_is_finite, f32_key, f64_in, f64_within, finite_in};
use crate::edit::media_acceptable;
use crate::lookup::{clip_duration, project_duration};
use crate::media::{media_lookup, media_models};
use crate::model::{
    clip_equal, clip_models, track_equal, track_models, ChannelStrip, ClipModel, EqBandSettings, MediaId, MediaInfo, MediaModel, TrackModel,
    MAX_BPM, MIN_BPM, PROJECT_FORMAT_VERSION, DEFAULT_BPM, ZERO_DB, TimeSignature, MasterSettings, TrackColor,
    default_channel_strip,
};
use crate::construct::fresh_track;
use crate::project::{project_equal, Project, ProjectModel};
use vstd::hash_set::HashSetWithView;
use vstd::prelude::*;
use vstd::string::*;

verus! {

broadcast use vstd::std_specs::hash::group_hash_axioms;

/// The decimal digit `d` (0 to 9).
pub open spec fn digit_char(d: nat) -> char {
    if d == 0 {
        '0'
    } else if d == 1 {
        '1'
    } else if d == 2 {
        '2'
    } else if d == 3 {
        '3'
    } else if d == 4 {
        '4'
    } else if d == 5 {
        '5'
    } else if d == 6 {
        '6'
    } else if d == 7 {
        '7'
    } else if d == 8 {
        '8'
    } else {
        '9'
    }
}

/// `n` written in decimal, as `format!("{}", n)` writes it.
pub open spec fn decimal(n: nat) -> Seq<char>
    decreases n,
{
    if n < 10 {
        seq![digit_char(n)]
    } else {
        decimal(n / 10).push(digit_char(n % 10))
    }
}

fn digit_text(d: u32) -> (text: &'static str)
    requires
        d < 10,
    ensures
        text@ == seq![digit_char(d as nat)],
{
    proof {
        reveal_strlit("0");
        reveal_strlit("1");
        reveal_strlit("2");
        reveal_strlit("3");
        reveal_strlit("4");
        reveal_strlit("5");
        reveal_strlit("6");
        reveal_strlit("7");
        reveal_strlit("8");
        reveal_strlit("9");
    }
    if d == 0 {
        "0"
    } else if d == 1 {
        "1"
    } else if d == 2 {
        "2"
    } else if d == 3 {
        "3"
    } else if d == 4 {
        "4"
    } else if d == 5 {
        "5"
    } else if d == 6 {
        "6"
    } else if d == 7 {
        "7"
    } else if d == 8 {
        "8"
    } else {
        "9"
    }
}

/// `n` in decimal.
pub fn decimal_text(n: u32) -> (text: String)
    ensures
        text@ == decimal(n as nat),
    decreases n,
{
    if n < 10 {
        String::from_str(digit_text(n))
    } else {
        let mut text = decimal_text(n / 10);
        text.append(digit_text(n % 10));
        text
    }
}

/// `n` in decimal.
pub fn decimal_text_u64(n: u64) -> (text: String)
    ensures
        text@ == decimal(n as nat),
    decreases n,
{
    if n < 10 {
        String::from_str(digit_text(n as u32))
    } else {
        let mut text = decimal_text_u64(n / 10);
        text.append(digit_text((n % 10) as u32));
        text
    }
}

/// `text` followed by `suffix`.
pub(crate) fn with_suffix(text: &String, suffix: &str) -> (joined: String)
    ensures
        joined@ == text@ + suffix@,
{
    let mut joined = text.clone();
    joined.append(suffix);
    joined
}

pub open spec fn eq_band_valid(band: EqBandSettings) -> bool {
    &&& f32_finite_in(band.frequency_hz, 0x4120_0000, 0x483b_8000)
    &&& f32_finite_in(band.gain_db, 0xc1c0_0000, 0x41c0_0000)
    &&& f32_finite_in(band.q, 0x3dcc_cccd, 0x4190_0000)
}

/// High-pass 10 Hz to 2 kHz; EQ bands 10 Hz to 192 kHz, ±24 dB, Q 0.1 to 18;
/// compressor threshold -72 to 0 dB, ratio 1 to 30, attack 0.05 to 500 ms,
/// release 2 to 5000 ms, makeup -12 to 24 dB.
pub open spec fn channel_strip_valid(strip: ChannelStrip) -> bool {
    &&& f32_finite_in(strip.high_pass.frequency_hz, 0x4120_0000, 0x44fa_0000)
    &&& eq_band_valid(strip.low_eq)
    &&& eq_band_valid(strip.mid_eq)
    &&& eq_band_valid(strip.high_eq)
    &&& f32_finite_in(strip.compressor.threshold_db, 0xc290_0000, 0)
    &&& f32_finite_in(strip.compressor.ratio, 0x3f80_0000, 0x41f0_0000)
    &&& f32_finite_in(strip.compressor.attack_ms, 0x3d4c_cccd, 0x43fa_0000)
    &&& f32_finite_in(strip.compressor.release_ms, 0x4000_0000, 0x459c_4000)
    &&& f32_finite_in(strip.compressor.makeup_db, 0xc140_0000, 0x41c0_0000)
}

/// Track gain -90 to 12 dB, pan -1 to 1, valid effects.
pub open spec fn track_settings_valid(track: TrackModel) -> bool {
    &&& f32_finite_in(track.gain_db, 0xc2b4_0000, 0x4140_0000)
    &&& f32_finite_in(track.pan, 0xbf80_0000, 0x3f80_0000)
    &&& channel_strip_valid(track.effects)
}

/// What is wrong with registered media entry `m`, if anything.
pub open spec fn media_entry_issue(m: MediaModel) -> Option<Seq<char>> {
    if m.id == 0 || !media_acceptable(m) {
        Some(m.name + " 미디어 정보가 올바르지 않습니다"@)
    } else {
        None
    }
}

/// The first issue among the first `n` registered media.
pub open spec fn media_issue(media: Seq<MediaModel>, n: int) -> Option<Seq<char>>
    decreases n,
{
    if n <= 0 {
        None
    } else {
        match media_issue(media, n - 1) {
            Some(issue) => Some(issue),
            None => media_entry_issue(media[n - 1]),
        }
    }
}

/// Whether a clip before clip `k` of track `t` (in track order) has identifier `id`.
pub open spec fn clip_id_seen(tracks: Seq<TrackModel>, t: int, k: int, id: u128) -> bool {
    ||| exists|j: int, l: int|
        0 <= j < t && 0 <= l < tracks[j].clips.len() && #[trigger] tracks[j].clips[l].id == id
    ||| exists|l: int| 0 <= l < k && #[trigger] tracks[t].clips[l].id == id
}

/// What is wrong with clip `k` of track `t`, if anything.
pub open spec fn clip_issue(p: ProjectModel, t: int, k: int) -> Option<Seq<char>> {
    let clip = p.tracks[t].clips[k];
    if clip.id == 0 || clip_id_seen(p.tracks, t, k, clip.id) {
        Some("클립 식별자가 중복되었거나 올바르지 않습니다"@)
    } else {
        match media_lookup(p.media, clip.media_id) {
            None => Some(clip.name + " 클립의 미디어가 없습니다"@),
            Some(m) => if clip.source_in >= clip.source_out || clip.source_out > m.frames {
                Some(clip.name + " 클립의 소스 범위가 올바르지 않습니다"@)
            } else {
                match clip_duration(p, clip) {
                    None => Some(clip.name + " 클립 길이를 계산할 수 없습니다"@),
                    Some(d) => if !f32_finite_in(clip.gain_db, 0xc2b4_0000, 0x41c0_0000)
                        || clip.fade_in > d || clip.fade_out > d {
                        Some(clip.name + " 클립 설정이 올바르지 않습니다"@)
                    } else {
                        None
                    },
                }
            },
        }
    }
}

/// The first issue among the first `n` clips of track `t`.
pub open spec fn clips_issue(p: ProjectModel, t: int, n: int) -> Option<Seq<char>>
    decreases n,
{
    if n <= 0 {
        None
    } else {
        match clips_issue(p, t, n - 1) {
            Some(issue) => Some(issue),
            None => clip_issue(p, t, n - 1),
        }
    }
}

/// What is wrong with track `t` or one of its clips, if anything.
pub open spec fn track_issue(p: ProjectModel, t: int) -> Option<Seq<char>> {
    let track = p.tracks[t];
    if track.id == 0 || exists|j: int| 0 <= j < t && #[trigger] p.tracks[j].id == track.id {
        Some("트랙 식별자가 중복되었거나 올바르지 않습니다"@)
    } else if !track_settings_valid(track) {
        Some(track.name + " 트랙 설정이 올바르지 않습니다"@)
    } else if track.clips.len() > 100_000 {
        Some(track.name + " 트랙에 클립이 너무 많습니다"@)
    } else {
        clips_issue(p, t, track.clips.len() as int)
    }
}

/// The first issue among the first `n` tracks.
pub open spec fn tracks_issue(p: ProjectModel, n: int) -> Option<Seq<char>>
    decreases n,
{
    if n <= 0 {
        None
    } else {
        match tracks_issue(p, n - 1) {
            Some(issue) => Some(issue),
            None => track_issue(p, n - 1),
        }
    }
}

/// A time signature of 1 to 32 beats of a power-of-two note up to 1/32.
pub open spec fn time_signature_valid(numerator: u8, denominator: u8) -> bool {
    &&& 1 <= numerator <= 32
    &&& (denominator == 1 || denominator == 2 || denominator == 4 || denominator == 8
        || denominator == 16 || denominator == 32)
}

/// The first rule on the project's own settings that it breaks (format,
/// rate, tempo, sizes, metre, master bus), as the message that reports it.
/// These are checked before any medium or track.
pub open spec fn settings_issue(p: ProjectModel) -> Option<Seq<char>> {
    if p.format_version == 0 || p.format_version > PROJECT_FORMAT_VERSION {
        Some("지원하지 않는 프로젝트 형식 "@ + decimal(p.format_version as nat))
    } else if !(8_000 <= p.sample_rate <= 384_000) {
        Some("프로젝트 샘플레이트가 올바르지 않습니다"@)
    } else if !f64_in(p.bpm, MIN_BPM, MAX_BPM) {
        Some("BPM이 지원 범위를 벗어났습니다"@)
    } else if p.tracks.len() == 0 || p.tracks.len() > 1_024 || p.media.len() > 65_536 {
        Some("프로젝트 항목 수가 안전 한도를 넘었습니다"@)
    } else if !time_signature_valid(p.time_signature.numerator, p.time_signature.denominator) {
        Some("박자표가 올바르지 않습니다"@)
    } else if !f32_finite_in(p.master.gain_db, 0xc2b4_0000, 0x4140_0000) || !f32_finite_in(
        p.master.limiter_ceiling_db,
        0xc140_0000,
        0,
    ) {
        Some("마스터 설정이 올바르지 않습니다"@)
    } else {
        None
    }
}

/// The first rule that the project breaks, as the message that reports it;
/// `None` when the project is valid.
pub open spec fn validation_issue(p: ProjectModel) -> Option<Seq<char>> {
    if settings_issue(p) is Some {
        settings_issue(p)
    } else if media_issue(p.media, p.media.len() as int) is Some {
        media_issue(p.media, p.media.len() as int)
    } else if tracks_issue(p, p.tracks.len() as int) is Some {
        tracks_issue(p, p.tracks.len() as int)
    } else if p.loop_region matches Some(range) && (range.start >= range.end || range.end
        > project_duration(p)) {
        Some("루프 구간이 올바르지 않습니다"@)
    } else {
        None
    }
}

/// What is wrong with the entry `m` of a media map, filed under `key`: a
/// medium filed under another identifier, or one that fails its own checks.
pub open spec fn keyed_entry_issue(key: MediaId, m: MediaModel) -> Option<Seq<char>> {
    if key != m.id {
        Some(m.name + " 미디어 정보가 올바르지 않습니다"@)
    } else {
        media_entry_issue(m)
    }
}

/// The entries of a media map as (key, medium) pairs.
pub open spec fn keyed_models(entries: Seq<(MediaId, MediaInfo)>) -> Seq<(MediaId, MediaModel)> {
    entries.map_values(|e: (MediaId, MediaInfo)| (e.0, e.1@))
}

/// The first issue among the first `n` entries of a media map.
pub open spec fn keyed_media_issue(entries: Seq<(MediaId, MediaModel)>, n: int) -> Option<Seq<char>>
    decreases n,
{
    if n <= 0 {
        None
    } else {
        match keyed_media_issue(entries, n - 1) {
            Some(issue) => Some(issue),
            None => keyed_entry_issue(entries[n - 1].0, entries[n - 1].1),
        }
    }
}

proof fn lemma_keyed_media_issue_stays(s: Seq<(MediaId, MediaModel)>, n: int, m: int)
    requires
        0 <= n <= m,
        keyed_media_issue(s, n) is Some,
    ensures
        keyed_media_issue(s, m) == keyed_media_issue(s, n),
    decreases m - n,
{
    if m > n {
        lemma_keyed_media_issue_stays(s, n, m - 1);
    }
}

/// For a project read from a file whose media come as a map, `entries` in
/// key order: the first problem in the order [`Project::validate`] checks,
/// up to and including the media, where an entry filed under a key other
/// than its identifier fails like an invalid medium.
pub fn media_entries_issue(project: &Project, entries: &Vec<(MediaId, MediaInfo)>) -> (issue: Option<String>)
    ensures
        match settings_issue(project@) {
            Some(expected) => issue matches Some(message) && message@ == expected,
            None => match keyed_media_issue(keyed_models(entries@), entries@.len() as int) {
                Some(expected) => issue matches Some(message) && message@ == expected,
                None => issue is None,
            },
        },
{
    match project.validate_settings() {
        Err(message) => return Some(message),
        Ok(()) => {},
    }
    let ghost s = keyed_models(entries@);
    let mut i: usize = 0;
    while i < entries.len()
        invariant
            settings_issue(project@) is None,
            s == keyed_models(entries@),
            i <= entries.len(),
            keyed_media_issue(s, i as int) is None,
        decreases entries.len() - i,
    {
        let (key, info) = &entries[i];
        let problem = if *key != info.id {
            Some(with_suffix(&info.name, " 미디어 정보가 올바르지 않습니다"))
        } else {
            info.problem()
        };
        match problem {
            Some(message) => {
                proof {
                    assert(s[i as int] == (*key, info@));
                    assert(keyed_media_issue(s, i as int + 1) == Some(message@));
                    lemma_keyed_media_issue_stays(s, i as int + 1, s.len() as int);
                }
                return Some(message);
            },
            None => {
                proof {
                    assert(s[i as int] == (*key, info@));
                }
            },
        }
        i = i + 1;
    }
    None
}

impl MediaInfo {
    /// What is wrong with this registered medium, if anything, as the
    /// message that [`Project::validate`] reports for it.
    pub fn problem(&self) -> (issue: Option<String>)
        ensures
            match media_entry_issue(self@) {
                None => issue is None,
                Some(expected) => issue matches Some(message) && message@ == expected,
            },
    {
        if self.id == 0 || self.sample_rate < 8_000 || self.sample_rate > 768_000 || self.channels
            == 0 || self.channels > 64 || self.frames == 0 {
            Some(with_suffix(&self.name, " 미디어 정보가 올바르지 않습니다"))
        } else {
            None
        }
    }
}

fn eq_band_ok(band: &EqBandSettings) -> (ok: bool)
    ensures
        ok == eq_band_valid(*band),
{
    finite_in(band.frequency_hz, 0x4120_0000, 0x483b_8000) && finite_in(
        band.gain_db,
        0xc1c0_0000,
        0x41c0_0000,
    ) && finite_in(band.q, 0x3dcc_cccd, 0x4190_0000)
}

fn channel_strip_ok(strip: &ChannelStrip) -> (ok: bool)
    ensures
        ok == channel_strip_valid(*strip),
{
    finite_in(strip.high_pass.frequency_hz, 0x4120_0000, 0x44fa_0000) && eq_band_ok(&strip.low_eq)
        && eq_band_ok(&strip.mid_eq) && eq_band_ok(&strip.high_eq) && finite_in(
        strip.compressor.threshold_db,
        0xc290_0000,
        0,
    ) && finite_in(strip.compressor.ratio, 0x3f80_0000, 0x41f0_0000) && finite_in(
        strip.compressor.attack_ms,
        0x3d4c_cccd,
        0x43fa_0000,
    ) && finite_in(strip.compressor.release_ms, 0x4000_0000, 0x459c_4000) && finite_in(
        strip.compressor.makeup_db,
        0xc140_0000,
        0x41c0_0000,
    )
}

impl Project {
    /// Checks every rule a project must satisfy; the error names the first
    /// rule broken.
    pub fn validate(&self) -> (result: Result<(), String>)
        ensures
            match validation_issue(self@) {
                None => result is Ok,
                Some(issue) => result matches Err(message) && message@ == issue,
            },
    {
        match self.validate_settings() {
            Err(message) => return Err(message),
            Ok(()) => {},
        }
        match self.check_media() {
            Some(message) => return Err(message),
            None => {},
        }
        match self.check_tracks() {
            Some(message) => return Err(message),
            None => {},
        }
        match self.loop_region {
            Some(range) => {
                if range.start >= range.end || range.end > self.duration_frames() {
                    return Err(String::from_str("루프 구간이 올바르지 않습니다"));
                }
            },
            None => {},
        }
        Ok(())
    }

    /// Checks the rules on the project's own settings, which come before
    /// those on its media and tracks; the error names the first rule broken.
    pub fn validate_settings(&self) -> (result: Result<(), String>)
        ensures
            match settings_issue(self@) {
                None => result is Ok,
                Some(issue) => result matches Err(message) && message@ == issue,
            },
    {
        if self.format_version == 0 || self.format_version > PROJECT_FORMAT_VERSION {
            let mut message = String::from_str("지원하지 않는 프로젝트 형식 ");
            let number = decimal_text(self.format_version);
            message.append(number.as_str());
            return Err(message);
        }
        if !(8_000 <= self.sample_rate && self.sample_rate <= 384_000) {
            return Err(String::from_str("프로젝트 샘플레이트가 올바르지 않습니다"));
        }
        if !f64_within(self.bpm, MIN_BPM, MAX_BPM) {
            return Err(String::from_str("BPM이 지원 범위를 벗어났습니다"));
        }
        if self.tracks.len() == 0 || self.tracks.len() > 1_024 || self.media.len() > 65_536 {
            return Err(String::from_str("프로젝트 항목 수가 안전 한도를 넘었습니다"));
        }
        let numerator = self.time_signature.numerator;
        let denominator = self.time_signature.denominator;
        if !(1 <= numerator && numerator <= 32) || !(denominator == 1 || denominator == 2
            || denominator == 4 || denominator == 8 || denominator == 16 || denominator == 32) {
            return Err(String::from_str("박자표가 올바르지 않습니다"));
        }
        if !finite_in(self.master.gain_db, 0xc2b4_0000, 0x4140_0000) || !finite_in(
            self.master.limiter_ceiling_db,
            0xc140_0000,
            0,
        ) {
            return Err(String::from_str("마스터 설정이 올바르지 않습니다"));
        }
        Ok(())
    }

    fn check_media(&self) -> (issue: Option<String>)
        ensures
            match media_issue(self@.media, self@.media.len() as int) {
                None => issue is None,
                Some(expected) => issue matches Some(message) && message@ == expected,
            },
    {
        let entries = self.media.entries();
        let ghost s = self@.media;
        let mut i: usize = 0;
        while i < entries.len()
            invariant
                s == media_models(entries@),
                s == self@.media,
                i <= entries.len(),
                media_issue(s, i as int) is None,
            decreases entries.len() - i,
        {
            let m = &entries[i];
            match m.problem() {
                Some(message) => {
                    proof {
                        assert(s[i as int] == m@);
                        assert(media_issue(s, i as int + 1) == Some(message@));
                        lemma_media_issue_stays(s, i as int + 1, s.len() as int);
                    }
                    return Some(message);
                },
                None => {},
            }
            proof {
                assert(s[i as int] == m@);
            }
            i = i + 1;
        }
        None
    }

    fn check_tracks(&self) -> (issue: Option<String>)
        ensures
            match tracks_issue(self@, self@.tracks.len() as int) {
                None => issue is None,
                Some(expected) => issue matches Some(message) && message@ == expected,
            },
    {
        let ghost p = self@;
        let ghost tracks = p.tracks;
        let mut track_ids: HashSetWithView<u128> = HashSetWithView::new();
        let mut clip_ids: HashSetWithView<u128> = HashSetWithView::new();
        let mut t: usize = 0;
        while t < self.tracks.len()
            invariant
                p == self@,
                tracks == p.tracks,
                t <= self.tracks.len(),
                tracks_issue(p, t as int) is None,
                forall|id: u128| track_ids@.contains(id) <==> exists|j: int|
                    0 <= j < t && #[trigger] tracks[j].id == id,
                forall|id: u128| clip_ids@.contains(id) <==> clip_id_seen(tracks, t as int, 0, id),
            decreases self.tracks.len() - t,
        {
            let track = &self.tracks[t];
            assert(track@ == tracks[t as int]);
            if track.id == 0 || track_ids.contains(&track.id) {
                proof {
                    lemma_tracks_issue_stays(p, t as int + 1, tracks.len() as int);
                }
                return Some(String::from_str("트랙 식별자가 중복되었거나 올바르지 않습니다"));
            }
            track_ids.insert(track.id);
            if !finite_in(track.gain_db, 0xc2b4_0000, 0x4140_0000) || !finite_in(
                track.pan,
                0xbf80_0000,
                0x3f80_0000,
            ) || !channel_strip_ok(&track.effects) {
                let message = with_suffix(&track.name, " 트랙 설정이 올바르지 않습니다");
                proof {
                    lemma_tracks_issue_stays(p, t as int + 1, tracks.len() as int);
                }
                return Some(message);
            }
            if track.clips.len() > 100_000 {
                let message = with_suffix(&track.name, " 트랙에 클립이 너무 많습니다");
                proof {
                    lemma_tracks_issue_stays(p, t as int + 1, tracks.len() as int);
                }
                return Some(message);
            }
            let clips = &track.clips;
            let ghost cs = tracks[t as int].clips;
            let mut k: usize = 0;
            while k < clips.len()
                invariant
                    p == self@,
                    tracks == p.tracks,
                    t < self.tracks.len(),
                    cs == tracks[t as int].clips,
                    cs == clip_models(clips@),
                    k <= clips.len(),
                    tracks_issue(p, t as int) is None,
                    !(tracks[t as int].id == 0 || exists|j: int|
                        0 <= j < t && #[trigger] tracks[j].id == tracks[t as int].id),
                    track_settings_valid(tracks[t as int]),
                    tracks[t as int].clips.len() <= 100_000,
                    clips_issue(p, t as int, k as int) is None,
                    forall|id: u128| track_ids@.contains(id) <==> exists|j: int|
                        0 <= j < t + 1 && #[trigger] tracks[j].id == id,
                    forall|id: u128| clip_ids@.contains(id) <==> clip_id_seen(tracks, t as int, k as int, id),
                decreases clips.len() - k,
            {
                let clip = &clips[k];
                assert(clip@ == cs[k as int]);
                match self.clip_problem(t, k, &clip_ids) {
                    Some(message) => {
                        proof {
                            lemma_clips_issue_stays(p, t as int, k as int + 1, cs.len() as int);
                            lemma_tracks_issue_stays(p, t as int + 1, tracks.len() as int);
                        }
                        return Some(message);
                    },
                    None => {},
                }
                let ghost before = clip_ids@;
                clip_ids.insert(clip.id);
                proof {
                    assert forall|id: u128| clip_ids@.contains(id) <==> clip_id_seen(
                        tracks,
                        t as int,
                        k + 1,
                        id,
                    ) by {
                        if id == cs[k as int].id {
                            assert(tracks[t as int].clips[k as int].id == id);
                        }
                        if clip_id_seen(tracks, t as int, k + 1, id) && !clip_id_seen(
                            tracks,
                            t as int,
                            k as int,
                            id,
                        ) {
                            let l = choose|l: int| 0 <= l < k + 1 && #[trigger] tracks[t as int].clips[l].id == id;
                            assert(l == k);
                        }
                    }
                }
                k = k + 1;
            }
            proof {
                assert(track_issue(p, t as int) is None);
                assert forall|id: u128| clip_ids@.contains(id) <==> clip_id_seen(
                    tracks,
                    t + 1,
                    0,
                    id,
                ) by {
                    if clip_id_seen(tracks, t as int, k as int, id) {
                        if exists|j: int, l: int|
                            0 <= j < t && 0 <= l < tracks[j].clips.len() && #[trigger] tracks[j].clips[l].id == id {
                            let (j, l) = choose|j: int, l: int|
                                0 <= j < t && 0 <= l < tracks[j].clips.len() && #[trigger] tracks[j].clips[l].id == id;
                            assert(0 <= j < t + 1 && 0 <= l < tracks[j].clips.len() && tracks[j].clips[l].id == id);
                        } else {
                            let l = choose|l: int| 0 <= l < k && #[trigger] tracks[t as int].clips[l].id == id;
                            assert(0 <= t < t + 1 && 0 <= l < tracks[t as int].clips.len() && tracks[t as int].clips[l].id == id);
                        }
                    }
                    if clip_id_seen(tracks, t + 1, 0, id) {
                        let (j, l) = choose|j: int, l: int|
                            0 <= j < t + 1 && 0 <= l < tracks[j].clips.len() && #[trigger] tracks[j].clips[l].id == id;
                        if j == t {
                            assert(0 <= l < k && tracks[t as int].clips[l].id == id);
                        } else {
                            assert(0 <= j < t && 0 <= l < tracks[j].clips.len() && tracks[j].clips[l].id == id);
                        }
                    }
                }
            }
            t = t + 1;
        }
        None
    }

    /// What is wrong with clip `k` of track `t`, given the identifiers of the
    /// clips before it.
    fn clip_problem(&self, t: usize, k: usize, seen: &HashSetWithView<u128>) -> (issue: Option<String>)
        requires
            t < self.tracks.len(),
            k < self.tracks@[t as int].clips.len(),
            forall|id: u128| seen@.contains(id) <==> clip_id_seen(self@.tracks, t as int, k as int, id),
        ensures
            match clip_issue(self@, t as int, k as int) {
                None => issue is None,
                Some(expected) => issue matches Some(message) && message@ == expected,
            },
    {
        let clip = &self.tracks[t].clips[k];
        assert(clip@ == self@.tracks[t as int].clips[k as int]);
        if clip.id == 0 || seen.contains(&clip.id) {
            return Some(String::from_str("클립 식별자가 중복되었거나 올바르지 않습니다"));
        }
        let media_frames = match self.media.get(clip.media_id) {
            Some(media) => media.frames,
            None => return Some(with_suffix(&clip.name, " 클립의 미디어가 없습니다")),
        };
        if clip.source_in >= clip.source_out || clip.source_out > media_frames {
            return Some(with_suffix(&clip.name, " 클립의 소스 범위가 올바르지 않습니다"));
        }
        let duration = match self.clip_duration_frames(clip) {
            Some(duration) => duration,
            None => return Some(with_suffix(&clip.name, " 클립 길이를 계산할 수 없습니다")),
        };
        if !finite_in(clip.gain_db, 0xc2b4_0000, 0x41c0_0000) || clip.fade_in > duration
            || clip.fade_out > duration {
            return Some(with_suffix(&clip.name, " 클립 설정이 올바르지 않습니다"));
        }
        None
    }
}

/// Once an issue is found among the first `n` media, it stays the first issue.
proof fn lemma_media_issue_stays(s: Seq<MediaModel>, n: int, m: int)
    requires
        0 <= n <= m,
        media_issue(s, n) is Some,
    ensures
        media_issue(s, m) == media_issue(s, n),
    decreases m - n,
{
    if m > n {
        lemma_media_issue_stays(s, n, m - 1);
    }
}

proof fn lemma_tracks_issue_stays(p: ProjectModel, n: int, m: int)
    requires
        0 <= n <= m,
        tracks_issue(p, n) is Some,
    ensures
        tracks_issue(p, m) == tracks_issue(p, n),
    decreases m - n,
{
    if m > n {
        lemma_tracks_issue_stays(p, n, m - 1);
    }
}

proof fn lemma_clips_issue_stays(p: ProjectModel, t: int, n: int, m: int)
    requires
        0 <= n <= m,
        clips_issue(p, t, n) is Some,
    ensures
        clips_issue(p, t, m) == clips_issue(p, t, n),
    decreases m - n,
{
    if m > n {
        lemma_clips_issue_stays(p, t, n, m - 1);
    }
}

/// A valid project compares equal to itself: each of its float settings is
/// finite, so none is NaN.
pub proof fn lemma_valid_project_equals_itself(p: ProjectModel)
    requires
        validation_issue(p) is None,
    ensures
        project_equal(p, p),
{
    let n = p.tracks.len() as int;
    assert forall|t: int| 0 <= t < n implies #[trigger] track_equal(p.tracks[t], p.tracks[t]) by {
        if tracks_issue(p, t) is Some {
            lemma_tracks_issue_stays(p, t, n);
        }
        if tracks_issue(p, t + 1) is Some {
            lemma_tracks_issue_stays(p, t + 1, n);
        }
        assert(track_issue(p, t) is None);
        let c = p.tracks[t].clips.len() as int;
        assert forall|k: int| 0 <= k < c implies #[trigger] clip_equal(p.tracks[t].clips[k], p.tracks[t].clips[k]) by {
            if clips_issue(p, t, k) is Some {
                lemma_clips_issue_stays(p, t, k, c);
            }
            if clips_issue(p, t, k + 1) is Some {
                lemma_clips_issue_stays(p, t, k + 1, c);
            }
            assert(clip_issue(p, t, k) is None);
        }
    }
}

/// In a valid project, track `t` and its clip `k` pass their checks.
proof fn lemma_valid_clip_passes(p: ProjectModel, t: int, k: int)
    requires
        validation_issue(p) is None,
        0 <= t < p.tracks.len(),
        0 <= k < p.tracks[t].clips.len(),
    ensures
        track_issue(p, t) is None,
        clip_issue(p, t, k) is None,
{
    let n = p.tracks.len() as int;
    if tracks_issue(p, t) is Some {
        lemma_tracks_issue_stays(p, t, n);
    }
    if tracks_issue(p, t + 1) is Some {
        lemma_tracks_issue_stays(p, t + 1, n);
    }
    let c = p.tracks[t].clips.len() as int;
    if clips_issue(p, t, k) is Some {
        lemma_clips_issue_stays(p, t, k, c);
    }
    if clips_issue(p, t, k + 1) is Some {
        lemma_clips_issue_stays(p, t, k + 1, c);
    }
}

/// What a project that passes validation guarantees of its structure: 1 to
/// 1,024 tracks with distinct non-zero identifiers; clip identifiers non-zero
/// and distinct across all tracks; every clip's medium registered, its
/// source range non-empty and inside the medium, its fades no longer than
/// the clip; and any loop region non-empty and inside the project.
pub proof fn lemma_valid_project_structure(p: ProjectModel)
    requires
        validation_issue(p) is None,
    ensures
        1 <= p.tracks.len() <= 1_024,
        forall|t: int| 0 <= t < p.tracks.len() ==> (#[trigger] p.tracks[t]).id != 0,
        forall|s: int, t: int| 0 <= s < t < p.tracks.len() ==> (#[trigger] p.tracks[s]).id != (
        #[trigger] p.tracks[t]).id,
        forall|t: int, k: int|
            0 <= t < p.tracks.len() && 0 <= k < p.tracks[t].clips.len() ==> {
                let c = #[trigger] p.tracks[t].clips[k];
                &&& c.id != 0
                &&& media_lookup(p.media, c.media_id) is Some
                &&& c.source_in < c.source_out
                &&& c.source_out <= (media_lookup(p.media, c.media_id)->0).frames
                &&& clip_duration(p, c) is Some
                &&& c.fade_in <= clip_duration(p, c)->0
                &&& c.fade_out <= clip_duration(p, c)->0
            },
        forall|t1: int, k1: int, t2: int, k2: int|
            0 <= t1 < p.tracks.len() && 0 <= k1 < p.tracks[t1].clips.len() && 0 <= t2
                < p.tracks.len() && 0 <= k2 < p.tracks[t2].clips.len() && (t1 < t2 || (t1 == t2
                && k1 < k2)) ==> (#[trigger] p.tracks[t1].clips[k1]).id != (
            #[trigger] p.tracks[t2].clips[k2]).id,
        p.loop_region matches Some(range) ==> range.start < range.end && range.end <= project_duration(p),
{
    let n = p.tracks.len() as int;
    assert forall|t: int| 0 <= t < n implies track_issue(p, t) is None by {
        if tracks_issue(p, t) is Some {
            lemma_tracks_issue_stays(p, t, n);
        }
        if tracks_issue(p, t + 1) is Some {
            lemma_tracks_issue_stays(p, t + 1, n);
        }
    }
    assert forall|t: int| 0 <= t < n implies (#[trigger] p.tracks[t]).id != 0 by {
        assert(track_issue(p, t) is None);
    }
    assert forall|s: int, t: int| 0 <= s < t < n implies (#[trigger] p.tracks[s]).id != (
    #[trigger] p.tracks[t]).id by {
        assert(track_issue(p, t) is None);
    }
    assert forall|t: int, k: int| 0 <= t < n && 0 <= k < p.tracks[t].clips.len() implies {
        let c = #[trigger] p.tracks[t].clips[k];
        &&& c.id != 0
        &&& media_lookup(p.media, c.media_id) is Some
        &&& c.source_in < c.source_out
        &&& c.source_out <= (media_lookup(p.media, c.media_id)->0).frames
        &&& clip_duration(p, c) is Some
        &&& c.fade_in <= clip_duration(p, c)->0
        &&& c.fade_out <= clip_duration(p, c)->0
    } by {
        lemma_valid_clip_passes(p, t, k);
    }
    assert forall|t1: int, k1: int, t2: int, k2: int|
        0 <= t1 < n && 0 <= k1 < p.tracks[t1].clips.len() && 0 <= t2 < n && 0 <= k2
            < p.tracks[t2].clips.len() && (t1 < t2 || (t1 == t2 && k1 < k2)) implies (
    #[trigger] p.tracks[t1].clips[k1]).id != (#[trigger] p.tracks[t2].clips[k2]).id by {
        lemma_valid_clip_passes(p, t2, k2);
        if p.tracks[t1].clips[k1].id == p.tracks[t2].clips[k2].id {
            assert(clip_id_seen(p.tracks, t2, k2, p.tracks[t2].clips[k2].id));
        }
    }
}

/// Flipping the sign bit of an `f32` keeps it finite or not, and negates
/// its position on the number line.
proof fn lemma_sign_flip(bits: u32)
    ensures
        f32_is_finite(bits ^ 0x8000_0000u32) == f32_is_finite(bits),
        f32_key(bits ^ 0x8000_0000u32) == -f32_key(bits),
{
    let flipped = bits ^ 0x8000_0000u32;
    assert((flipped >> 23u32) & 0xffu32 == (bits >> 23u32) & 0xffu32) by (bit_vector)
        requires
            flipped == bits ^ 0x8000_0000u32,
    ;
    assert(flipped & 0x7fff_ffffu32 == bits & 0x7fff_ffffu32) by (bit_vector)
        requires
            flipped == bits ^ 0x8000_0000u32,
    ;
    assert((flipped & 0x8000_0000u32 != 0) == (bits & 0x8000_0000u32 == 0)) by (bit_vector)
        requires
            flipped == bits ^ 0x8000_0000u32,
    ;
}

/// The order keys of -1.0, 0.0 and 1.0.
proof fn lemma_pan_bound_keys()
    ensures
        f32_key(0xbf80_0000u32) == -0x3f80_0000int,
        f32_key(0x3f80_0000u32) == 0x3f80_0000int,
        f32_key(0) == 0,
        f32_is_finite(0),
{
    assert(0xbf80_0000u32 & 0x7fff_ffffu32 == 0x3f80_0000u32) by (bit_vector);
    assert(0xbf80_0000u32 & 0x8000_0000u32 != 0) by (bit_vector);
    assert(0x3f80_0000u32 & 0x7fff_ffffu32 == 0x3f80_0000u32) by (bit_vector);
    assert(0x3f80_0000u32 & 0x8000_0000u32 == 0) by (bit_vector);
    assert(0u32 & 0x7fff_ffffu32 == 0 && 0u32 & 0x8000_0000u32 == 0) by (bit_vector);
    assert((0u32 >> 23u32) & 0xffu32 != 0xffu32) by (bit_vector);
}

/// Left and right are treated alike: mirroring a track's pan (flipping its
/// sign) does not change whether the track's settings pass.
pub proof fn lemma_mirrored_pan_passes_alike(track: TrackModel)
    ensures
        track_settings_valid(track) == track_settings_valid(TrackModel { pan: track.pan ^ 0x8000_0000u32, ..track }),
{
    lemma_sign_flip(track.pan);
    lemma_pan_bound_keys();
}

/// Every finite pan from hard left (-1.0) to hard right (1.0) passes: a
/// track whose settings pass with the pan centred passes with any of them.
pub proof fn lemma_every_pan_in_range_passes(track: TrackModel)
    requires
        track_settings_valid(TrackModel { pan: 0, ..track }),
        f32_is_finite(track.pan),
        -f32_key(0x3f80_0000u32) <= f32_key(track.pan) <= f32_key(0x3f80_0000u32),
    ensures
        track_settings_valid(track),
{
    lemma_pan_bound_keys();
}

/// The bit patterns of the default settings and their limits: sign,
/// magnitude, and a finite exponent.
proof fn lemma_default_setting_bits()
    ensures
        0x00000000u32 & 0x7fff_ffffu32 == 0x0u32 && 0x00000000u32 & 0x8000_0000u32 == 0 && (0x00000000u32 >> 23u32) & 0xffu32 != 0xffu32,
        0xc2b40000u32 & 0x7fff_ffffu32 == 0x42b40000u32 && 0xc2b40000u32 & 0x8000_0000u32 != 0 && (0xc2b40000u32 >> 23u32) & 0xffu32 != 0xffu32,
        0x41400000u32 & 0x7fff_ffffu32 == 0x41400000u32 && 0x41400000u32 & 0x8000_0000u32 == 0 && (0x41400000u32 >> 23u32) & 0xffu32 != 0xffu32,
        0xbe99999au32 & 0x7fff_ffffu32 == 0x3e99999au32 && 0xbe99999au32 & 0x8000_0000u32 != 0 && (0xbe99999au32 >> 23u32) & 0xffu32 != 0xffu32,
        0xc1400000u32 & 0x7fff_ffffu32 == 0x41400000u32 && 0xc1400000u32 & 0x8000_0000u32 != 0 && (0xc1400000u32 >> 23u32) & 0xffu32 != 0xffu32,
        0xbf800000u32 & 0x7fff_ffffu32 == 0x3f800000u32 && 0xbf800000u32 & 0x8000_0000u32 != 0 && (0xbf800000u32 >> 23u32) & 0xffu32 != 0xffu32,
        0x3f800000u32 & 0x7fff_ffffu32 == 0x3f800000u32 && 0x3f800000u32 & 0x8000_0000u32 == 0 && (0x3f800000u32 >> 23u32) & 0xffu32 != 0xffu32,
        0x42a00000u32 & 0x7fff_ffffu32 == 0x42a00000u32 && 0x42a00000u32 & 0x8000_0000u32 == 0 && (0x42a00000u32 >> 23u32) & 0xffu32 != 0xffu32,
        0x41200000u32 & 0x7fff_ffffu32 == 0x41200000u32 && 0x41200000u32 & 0x8000_0000u32 == 0 && (0x41200000u32 >> 23u32) & 0xffu32 != 0xffu32,
        0x44fa0000u32 & 0x7fff_ffffu32 == 0x44fa0000u32 && 0x44fa0000u32 & 0x8000_0000u32 == 0 && (0x44fa0000u32 >> 23u32) & 0xffu32 != 0xffu32,
        0x42f00000u32 & 0x7fff_ffffu32 == 0x42f00000u32 && 0x42f00000u32 & 0x8000_0000u32 == 0 && (0x42f00000u32 >> 23u32) & 0xffu32 != 0xffu32,
        0x44bb8000u32 & 0x7fff_ffffu32 == 0x44bb8000u32 && 0x44bb8000u32 & 0x8000_0000u32 == 0 && (0x44bb8000u32 >> 23u32) & 0xffu32 != 0xffu32,
        0x45fa0000u32 & 0x7fff_ffffu32 == 0x45fa0000u32 && 0x45fa0000u32 & 0x8000_0000u32 == 0 && (0x45fa0000u32 >> 23u32) & 0xffu32 != 0xffu32,
        0x483b8000u32 & 0x7fff_ffffu32 == 0x483b8000u32 && 0x483b8000u32 & 0x8000_0000u32 == 0 && (0x483b8000u32 >> 23u32) & 0xffu32 != 0xffu32,
        0xc1c00000u32 & 0x7fff_ffffu32 == 0x41c00000u32 && 0xc1c00000u32 & 0x8000_0000u32 != 0 && (0xc1c00000u32 >> 23u32) & 0xffu32 != 0xffu32,
        0x41c00000u32 & 0x7fff_ffffu32 == 0x41c00000u32 && 0x41c00000u32 & 0x8000_0000u32 == 0 && (0x41c00000u32 >> 23u32) & 0xffu32 != 0xffu32,
        0x3f34fdf4u32 & 0x7fff_ffffu32 == 0x3f34fdf4u32 && 0x3f34fdf4u32 & 0x8000_0000u32 == 0 && (0x3f34fdf4u32 >> 23u32) & 0xffu32 != 0xffu32,
        0x3dcccccdu32 & 0x7fff_ffffu32 == 0x3dcccccdu32 && 0x3dcccccdu32 & 0x8000_0000u32 == 0 && (0x3dcccccdu32 >> 23u32) & 0xffu32 != 0xffu32,
        0x41900000u32 & 0x7fff_ffffu32 == 0x41900000u32 && 0x41900000u32 & 0x8000_0000u32 == 0 && (0x41900000u32 >> 23u32) & 0xffu32 != 0xffu32,
        0xc1900000u32 & 0x7fff_ffffu32 == 0x41900000u32 && 0xc1900000u32 & 0x8000_0000u32 != 0 && (0xc1900000u32 >> 23u32) & 0xffu32 != 0xffu32,
        0xc2900000u32 & 0x7fff_ffffu32 == 0x42900000u32 && 0xc2900000u32 & 0x8000_0000u32 != 0 && (0xc2900000u32 >> 23u32) & 0xffu32 != 0xffu32,
        0x40400000u32 & 0x7fff_ffffu32 == 0x40400000u32 && 0x40400000u32 & 0x8000_0000u32 == 0 && (0x40400000u32 >> 23u32) & 0xffu32 != 0xffu32,
        0x41f00000u32 & 0x7fff_ffffu32 == 0x41f00000u32 && 0x41f00000u32 & 0x8000_0000u32 == 0 && (0x41f00000u32 >> 23u32) & 0xffu32 != 0xffu32,
        0x3d4ccccdu32 & 0x7fff_ffffu32 == 0x3d4ccccdu32 && 0x3d4ccccdu32 & 0x8000_0000u32 == 0 && (0x3d4ccccdu32 >> 23u32) & 0xffu32 != 0xffu32,
        0x43fa0000u32 & 0x7fff_ffffu32 == 0x43fa0000u32 && 0x43fa0000u32 & 0x8000_0000u32 == 0 && (0x43fa0000u32 >> 23u32) & 0xffu32 != 0xffu32,
        0x40000000u32 & 0x7fff_ffffu32 == 0x40000000u32 && 0x40000000u32 & 0x8000_0000u32 == 0 && (0x40000000u32 >> 23u32) & 0xffu32 != 0xffu32,
        0x459c4000u32 & 0x7fff_ffffu32 == 0x459c4000u32 && 0x459c4000u32 & 0x8000_0000u32 == 0 && (0x459c4000u32 >> 23u32) & 0xffu32 != 0xffu32,
        0x405e000000000000u64 & 0x7fff_ffff_ffff_ffffu64 == 0x405e000000000000u64 && 0x405e000000000000u64 & 0x8000_0000_0000_0000u64 == 0 && (0x405e000000000000u64 >> 52u64) & 0x7ffu64 != 0x7ffu64,
        0x4034000000000000u64 & 0x7fff_ffff_ffff_ffffu64 == 0x4034000000000000u64 && 0x4034000000000000u64 & 0x8000_0000_0000_0000u64 == 0 && (0x4034000000000000u64 >> 52u64) & 0x7ffu64 != 0x7ffu64,
        0x4079000000000000u64 & 0x7fff_ffff_ffff_ffffu64 == 0x4079000000000000u64 && 0x4079000000000000u64 & 0x8000_0000_0000_0000u64 == 0 && (0x4079000000000000u64 >> 52u64) & 0x7ffu64 != 0x7ffu64,
{
    assert({
        &&& 0x00000000u32 & 0x7fff_ffffu32 == 0x0u32 && 0x00000000u32 & 0x8000_0000u32 == 0 && (0x00000000u32 >> 23u32) & 0xffu32 != 0xffu32
        &&& 0xc2b40000u32 & 0x7fff_ffffu32 == 0x42b40000u32 && 0xc2b40000u32 & 0x8000_0000u32 != 0 && (0xc2b40000u32 >> 23u32) & 0xffu32 != 0xffu32
        &&& 0x41400000u32 & 0x7fff_ffffu32 == 0x41400000u32 && 0x41400000u32 & 0x8000_0000u32 == 0 && (0x41400000u32 >> 23u32) & 0xffu32 != 0xffu32
        &&& 0xbe99999au32 & 0x7fff_ffffu32 == 0x3e99999au32 && 0xbe99999au32 & 0x8000_0000u32 != 0 && (0xbe99999au32 >> 23u32) & 0xffu32 != 0xffu32
        &&& 0xc1400000u32 & 0x7fff_ffffu32 == 0x41400000u32 && 0xc1400000u32 & 0x8000_0000u32 != 0 && (0xc1400000u32 >> 23u32) & 0xffu32 != 0xffu32
        &&& 0xbf800000u32 & 0x7fff_ffffu32 == 0x3f800000u32 && 0xbf800000u32 & 0x8000_0000u32 != 0 && (0xbf800000u32 >> 23u32) & 0xffu32 != 0xffu32
        &&& 0x3f800000u32 & 0x7fff_ffffu32 == 0x3f800000u32 && 0x3f800000u32 & 0x8000_0000u32 == 0 && (0x3f800000u32 >> 23u32) & 0xffu32 != 0xffu32
        &&& 0x42a00000u32 & 0x7fff_ffffu32 == 0x42a00000u32 && 0x42a00000u32 & 0x8000_0000u32 == 0 && (0x42a00000u32 >> 23u32) & 0xffu32 != 0xffu32
        &&& 0x41200000u32 & 0x7fff_ffffu32 == 0x41200000u32 && 0x41200000u32 & 0x8000_0000u32 == 0 && (0x41200000u32 >> 23u32) & 0xffu32 != 0xffu32
        &&& 0x44fa0000u32 & 0x7fff_ffffu32 == 0x44fa0000u32 && 0x44fa0000u32 & 0x8000_0000u32 == 0 && (0x44fa0000u32 >> 23u32) & 0xffu32 != 0xffu32
        &&& 0x42f00000u32 & 0x7fff_ffffu32 == 0x42f00000u32 && 0x42f00000u32 & 0x8000_0000u32 == 0 && (0x42f00000u32 >> 23u32) & 0xffu32 != 0xffu32
        &&& 0x44bb8000u32 & 0x7fff_ffffu32 == 0x44bb8000u32 && 0x44bb8000u32 & 0x8000_0000u32 == 0 && (0x44bb8000u32 >> 23u32) & 0xffu32 != 0xffu32
        &&& 0x45fa0000u32 & 0x7fff_ffffu32 == 0x45fa0000u32 && 0x45fa0000u32 & 0x8000_0000u32 == 0 && (0x45fa0000u32 >> 23u32) & 0xffu32 != 0xffu32
        &&& 0x483b8000u32 & 0x7fff_ffffu32 == 0x483b8000u32 && 0x483b8000u32 & 0x8000_0000u32 == 0 && (0x483b8000u32 >> 23u32) & 0xffu32 != 0xffu32
        &&& 0xc1c00000u32 & 0x7fff_ffffu32 == 0x41c00000u32 && 0xc1c00000u32 & 0x8000_0000u32 != 0 && (0xc1c00000u32 >> 23u32) & 0xffu32 != 0xffu32
        &&& 0x41c00000u32 & 0x7fff_ffffu32 == 0x41c00000u32 && 0x41c00000u32 & 0x8000_0000u32 == 0 && (0x41c00000u32 >> 23u32) & 0xffu32 != 0xffu32
        &&& 0x3f34fdf4u32 & 0x7fff_ffffu32 == 0x3f34fdf4u32 && 0x3f34fdf4u32 & 0x8000_0000u32 == 0 && (0x3f34fdf4u32 >> 23u32) & 0xffu32 != 0xffu32
        &&& 0x3dcccccdu32 & 0x7fff_ffffu32 == 0x3dcccccdu32 && 0x3dcccccdu32 & 0x8000_0000u32 == 0 && (0x3dcccccdu32 >> 23u32) & 0xffu32 != 0xffu32
        &&& 0x41900000u32 & 0x7fff_ffffu32 == 0x41900000u32 && 0x41900000u32 & 0x8000_0000u32 == 0 && (0x41900000u32 >> 23u32) & 0xffu32 != 0xffu32
        &&& 0xc1900000u32 & 0x7fff_ffffu32 == 0x41900000u32 && 0xc1900000u32 & 0x8000_0000u32 != 0 && (0xc1900000u32 >> 23u32) & 0xffu32 != 0xffu32
        &&& 0xc2900000u32 & 0x7fff_ffffu32 == 0x42900000u32 && 0xc2900000u32 & 0x8000_0000u32 != 0 && (0xc2900000u32 >> 23u32) & 0xffu32 != 0xffu32
        &&& 0x40400000u32 & 0x7fff_ffffu32 == 0x40400000u32 && 0x40400000u32 & 0x8000_0000u32 == 0 && (0x40400000u32 >> 23u32) & 0xffu32 != 0xffu32
        &&& 0x41f00000u32 & 0x7fff_ffffu32 == 0x41f00000u32 && 0x41f00000u32 & 0x8000_0000u32 == 0 && (0x41f00000u32 >> 23u32) & 0xffu32 != 0xffu32
        &&& 0x3d4ccccdu32 & 0x7fff_ffffu32 == 0x3d4ccccdu32 && 0x3d4ccccdu32 & 0x8000_0000u32 == 0 && (0x3d4ccccdu32 >> 23u32) & 0xffu32 != 0xffu32
        &&& 0x43fa0000u32 & 0x7fff_ffffu32 == 0x43fa0000u32 && 0x43fa0000u32 & 0x8000_0000u32 == 0 && (0x43fa0000u32 >> 23u32) & 0xffu32 != 0xffu32
        &&& 0x40000000u32 & 0x7fff_ffffu32 == 0x40000000u32 && 0x40000000u32 & 0x8000_0000u32 == 0 && (0x40000000u32 >> 23u32) & 0xffu32 != 0xffu32
        &&& 0x459c4000u32 & 0x7fff_ffffu32 == 0x459c4000u32 && 0x459c4000u32 & 0x8000_0000u32 == 0 && (0x459c4000u32 >> 23u32) & 0xffu32 != 0xffu32
        &&& 0x405e000000000000u64 & 0x7fff_ffff_ffff_ffffu64 == 0x405e000000000000u64 && 0x405e000000000000u64 & 0x8000_0000_0000_0000u64 == 0 && (0x405e000000000000u64 >> 52u64) & 0x7ffu64 != 0x7ffu64
        &&& 0x4034000000000000u64 & 0x7fff_ffff_ffff_ffffu64 == 0x4034000000000000u64 && 0x4034000000000000u64 & 0x8000_0000_0000_0000u64 == 0 && (0x4034000000000000u64 >> 52u64) & 0x7ffu64 != 0x7ffu64
        &&& 0x4079000000000000u64 & 0x7fff_ffff_ffff_ffffu64 == 0x4079000000000000u64 && 0x4079000000000000u64 & 0x8000_0000_0000_0000u64 == 0 && (0x4079000000000000u64 >> 52u64) & 0x7ffu64 != 0x7ffu64
    }) by (bit_vector);
}

/// The settings a new project starts with pass every rule: a project as
/// [`Project::new`] makes it (one new track, no media, default tempo, metre
/// and master bus, at a supported rate) is valid.
pub proof fn lemma_new_project_is_valid(q: ProjectModel, track_id: u128, track_name: Seq<char>, color: TrackColor)
    requires
        q.format_version == PROJECT_FORMAT_VERSION,
        8_000 <= q.sample_rate <= 384_000,
        q.bpm == DEFAULT_BPM,
        q.time_signature == (TimeSignature { numerator: 4, denominator: 4 }),
        track_id != 0,
        q.tracks == seq![fresh_track(track_id, track_name, color)],
        q.media.len() == 0,
        q.master == (MasterSettings { gain_db: ZERO_DB, limiter_enabled: true, limiter_ceiling_db: 0xbe99_999a }),
        q.loop_region is None,
    ensures
        validation_issue(q) is None,
{
    lemma_default_setting_bits();
    let track = q.tracks[0];
    assert(track_settings_valid(track));
    assert(clips_issue(q, 0, 0) is None);
    assert(track_issue(q, 0) is None);
    assert(tracks_issue(q, 0) is None);
    assert(tracks_issue(q, 1) is None);
    assert(media_issue(q.media, 0) is None);
}

} // verus!
