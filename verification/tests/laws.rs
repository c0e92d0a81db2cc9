use sonema::bits::{f32_eq, f64_eq};
use sonema::container::{decode_container, encode_container, plan_sources, FormatError, HEADER_SIZE};
use sonema::history::History;
use sonema::model::{Extension, MediaInfo};
use sonema::project::{json_match, same_json, Project};
use sonema::source::PcmSource;
use sonema::validate::media_entries_issue;
use sonema::workflow::ChangeTracker;

const MEDIA: u128 = 0x0a0b_0c0d_0e0f_4a1b_8c2d_3e4f_5a6b_7c8d;

fn media(sample_rate: u32, frames: u64) -> MediaInfo {
    MediaInfo {
        id: MEDIA,
        name: "voice.wav".into(),
        sample_rate,
        channels: 1,
        frames,
        original_path: None,
    }
}

fn project_with_clip(project_rate: u32, media_rate: u32, frames: u64) -> (Project, u128) {
    let mut project = Project::new("법칙", project_rate);
    let track = project.tracks[0].id;
    project.register_media(media(media_rate, frames)).unwrap();
    let clip = project.insert_media_clip(track, MEDIA, 0).unwrap();
    (project, clip)
}

#[test]
fn floats_compare_as_floats() {
    assert!(f32_eq((-0.0f32).to_bits(), 0.0f32.to_bits()));
    assert!(f32_eq(1.0f32.to_bits(), 1.0f32.to_bits()));
    assert!(!f32_eq(1.0f32.to_bits(), 2.0f32.to_bits()));
    assert!(f32_eq(f32::INFINITY.to_bits(), f32::INFINITY.to_bits()));
    assert!(!f32_eq(f32::NAN.to_bits(), f32::NAN.to_bits()));
    assert!(f64_eq((-0.0f64).to_bits(), 0.0f64.to_bits()));
    assert!(!f64_eq(f64::NAN.to_bits(), f64::NAN.to_bits()));
    assert!(!f64_eq(120.0f64.to_bits(), 121.0f64.to_bits()));
}

#[test]
fn negative_zero_gain_is_no_change() {
    let mut project = Project::new("영", 48_000);
    let before = project.snapshot();
    project.tracks[0].gain_db = (-0.0f32).to_bits();
    assert!(project.same_as(&before));
    let mut history = History::new(10);
    assert!(!history.checkpoint("게인", before, &project));
    assert!(!history.can_undo());
}

#[test]
fn a_nan_setting_never_compares_equal() {
    let mut project = Project::new("NaN", 48_000);
    project.master.gain_db = f32::NAN.to_bits();
    assert!(!project.same_as(&project.snapshot()));
    let mut history = History::new(10);
    assert!(history.checkpoint("게인", project.snapshot(), &project));
    assert!(history.can_undo());
}

#[test]
fn a_zero_limit_keeps_one_step() {
    let mut project = Project::new("하나", 48_000);
    let mut history = History::new(0);
    let first = project.snapshot();
    project.add_track("a");
    assert!(history.checkpoint("a", first, &project));
    let second = project.snapshot();
    project.add_track("b");
    assert!(history.checkpoint("b", second, &project));
    assert_eq!(history.undo(&mut project), Some("b".to_string()));
    assert_eq!(project.tracks.len(), 2);
    assert_eq!(history.undo(&mut project), None);
    assert_eq!(project.tracks.len(), 2);
}

#[test]
fn a_second_begin_keeps_the_first_snapshot() {
    let mut project = Project::new("거래", 48_000);
    let mut history = History::new(5);
    let first = project.snapshot();
    history.begin("처음", &project);
    project.add_track("a");
    history.begin("나중", &project);
    project.add_track("b");
    assert!(history.commit(&project));
    assert_eq!(history.undo(&mut project), Some("처음".to_string()));
    assert!(project.same_as(&first));
}

#[test]
fn every_audio_byte_is_checked() {
    let (project, _) = project_with_clip(48_000, 48_000, 3);
    let samples: Vec<u32> = [0.5f32, -0.5, 0.25].iter().map(|value| value.to_bits()).collect();
    let pool = vec![PcmSource::new(MEDIA, "voice.wav".into(), 48_000, vec![samples]).unwrap()];
    let (descriptors, _) = plan_sources(&project, &pool).unwrap();
    let manifest = b"{}";
    let file = encode_container(&project, &pool, manifest).unwrap();
    assert!(decode_container(&file, &project, &descriptors).is_ok());
    for at in HEADER_SIZE as usize + manifest.len()..file.len() {
        let mut changed = file.clone();
        changed[at] = changed[at].wrapping_add(1);
        assert_eq!(
            decode_container(&changed, &project, &descriptors).err(),
            Some(FormatError::ChecksumMismatch)
        );
    }
}

#[test]
fn a_split_needs_two_source_frames() {
    let (mut project, clip) = project_with_clip(384_000, 8_000, 10);
    assert!(project.split_is_feasible(clip, 100));
    assert!(project.split_is_feasible(clip + 1, 100));
    project.tracks[0].clips[0].source_out = project.tracks[0].clips[0].source_in + 1;
    assert!(project.split_is_feasible(clip, 5));
    assert!(!project.split_is_feasible(clip, 20));
}

#[test]
fn a_trim_needs_media_after_the_start() {
    let (mut project, clip) = project_with_clip(48_000, 48_000, 96_000);
    assert!(project.trim_end_is_feasible(clip, 1_000));
    project.tracks[0].clips[0].source_in = 96_000;
    project.tracks[0].clips[0].source_out = 96_010;
    assert!(project.trim_end_is_feasible(clip, 10));
    assert!(!project.trim_end_is_feasible(clip, 1_000));
}

#[test]
fn settings_are_checked_before_media() {
    let mut project = Project::new("순서", 48_000);
    assert_eq!(project.validate_settings(), Ok(()));
    project.bpm = 1_000.0f64.to_bits();
    assert_eq!(project.validate_settings(), Err("BPM이 지원 범위를 벗어났습니다".to_string()));
    assert_eq!(media(48_000, 10).problem(), None);
    assert_eq!(media(48_000, 0).problem(), Some("voice.wav 미디어 정보가 올바르지 않습니다".to_string()));
    assert_eq!(media(4_000, 10).problem(), Some("voice.wav 미디어 정보가 올바르지 않습니다".to_string()));
}

#[test]
fn a_save_only_cleans_the_state_it_wrote() {
    let mut changes = ChangeTracker::new();
    changes.edited();
    let saving = changes.generation;
    changes.edited();
    changes.saved(saving);
    assert!(changes.dirty);
    let saving = changes.generation;
    changes.saved(saving);
    assert!(!changes.dirty);
    changes.replaced(true);
    assert!(changes.dirty);
    assert_eq!(changes.generation, 3);
    changes.discarded();
    assert!(!changes.dirty);
    assert_eq!(changes.generation, 3);
}

#[test]
fn recovery_copies_wait_for_changes_and_time() {
    let mut changes = ChangeTracker::new();
    assert!(!changes.autosave_due(false, 40_000, 30_000));
    changes.edited();
    assert!(changes.autosave_due(false, 30_000, 30_000));
    assert!(!changes.autosave_due(true, 30_000, 30_000));
    assert!(!changes.autosave_due(false, 29_999, 30_000));
}

#[test]
fn state_numbers_wrap_around() {
    let mut changes = ChangeTracker { dirty: false, generation: u64::MAX };
    changes.edited();
    assert_eq!(changes.generation, 0);
    assert!(changes.dirty);
}

fn json(text: &str) -> String {
    text.to_string()
}

#[test]
fn json_zeros_compare_equal() {
    assert!(same_json(&json("{\"gain\":-0.0}"), &json("{\"gain\":0.0}")));
    assert!(same_json(&json("[-0.0,1]"), &json("[0.0,1]")));
    assert!(same_json(&json("-0.0"), &json("0.0")));
    assert!(!same_json(&json("-0.05"), &json("0.05")));
    assert!(!same_json(&json("\"-0.0\""), &json("\"0.0\"")));
    assert!(!same_json(&json("\"\\\"-0.0\""), &json("\"\\\"0.0\"")));
    assert!(!same_json(&json("{\"a\":1}"), &json("{\"a\":2}")));
    assert!(same_json(&json("{\"이름\":\"값\"}"), &json("{\"이름\":\"값\"}")));
    assert!(same_json(&json("{\"a\":1,\"b\":2}"), &json("{ \"b\" : 2, \"a\" : 1 }")));
    assert!(!same_json(&json("1"), &json("1.0")));
    assert!(same_json(&json("not json"), &json("not json")));
    assert!(!same_json(&json("not json"), &json("not jsox")));
}

#[test]
fn json_verdicts_follow_the_comparison() {
    assert!(json_match(true, None));
    assert!(json_match(false, Some(true)));
    assert!(!json_match(false, Some(false)));
    assert!(!json_match(false, None));
}

#[test]
fn an_extension_zero_sign_is_no_change() {
    let mut project = Project::new("확장", 48_000);
    project.extensions.push(Extension { name: "mix".into(), json: json("{\"v\":0.0}") });
    let before = project.snapshot();
    project.extensions[0].json = json("{\"v\":-0.0}");
    assert!(project.same_as(&before));
    project.extensions[0].json = json("{\"v\":-0.5}");
    assert!(!project.same_as(&before));
}

#[test]
fn removing_unreferenced_media_twice_removes_nothing_more() {
    let (mut project, clip) = project_with_clip(48_000, 48_000, 100);
    let mut unused = media(48_000, 10);
    unused.id = 7;
    project.register_media(unused).unwrap();
    assert_eq!(project.remove_unreferenced_media(), 1);
    let once = project.snapshot();
    assert_eq!(project.remove_unreferenced_media(), 0);
    assert!(project.same_as(&once));
    assert!(project.clip(clip).is_some());
}

#[test]
fn media_map_entries_are_checked_in_key_order() {
    let mut project = Project::new("지도", 48_000);
    let good = media(48_000, 10);
    assert_eq!(media_entries_issue(&project, &vec![(MEDIA, good.clone())]), None);
    let mut misfiled = media(48_000, 10);
    misfiled.name = "other.wav".into();
    assert_eq!(
        media_entries_issue(&project, &vec![(MEDIA, good.clone()), (MEDIA + 1, misfiled.clone())]),
        Some("other.wav 미디어 정보가 올바르지 않습니다".to_string())
    );
    let mut empty = media(48_000, 0);
    empty.id = 1;
    empty.name = "empty.wav".into();
    assert_eq!(
        media_entries_issue(&project, &vec![(1, empty), (MEDIA + 1, misfiled.clone())]),
        Some("empty.wav 미디어 정보가 올바르지 않습니다".to_string())
    );
    project.bpm = 1_000.0f64.to_bits();
    assert_eq!(
        media_entries_issue(&project, &vec![(MEDIA + 1, misfiled)]),
        Some("BPM이 지원 범위를 벗어났습니다".to_string())
    );
}
