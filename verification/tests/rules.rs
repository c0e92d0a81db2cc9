use sonema::edit::EditError;
use sonema::history::History;
use sonema::model::{Clip, MediaInfo};
use sonema::order::sort_clip_list;
use sonema::project::Project;
use sonema::recording::clock_text;
use sonema::text::{add_signed, extension_is, safe_filename};
use sonema::timeline::{DragKind, DragPreview, TimelineAction};
use sonema::workflow::UnsavedGuard;

const MEDIA: u128 = 0x0a0b_0c0d_0e0f_4a1b_8c2d_3e4f_5a6b_7c8d;

fn voice(id: u128, frames: u64) -> MediaInfo {
    MediaInfo {
        id,
        name: "voice.wav".into(),
        sample_rate: 48_000,
        channels: 1,
        frames,
        original_path: None,
    }
}

fn project_with_clip() -> (Project, u128, u128) {
    let mut project = Project::new("테스트", 48_000);
    let track = project.tracks[0].id;
    project.register_media(voice(MEDIA, 96_000)).unwrap();
    let clip = project.insert_media_clip(track, MEDIA, 48_000).unwrap();
    (project, track, clip)
}

#[test]
fn inserted_clip_gets_short_default_fades() {
    let (project, _, clip_id) = project_with_clip();
    let (_, clip) = project.clip(clip_id).unwrap();
    assert_eq!((clip.fade_in, clip.fade_out), (64, 64));
    assert_eq!((clip.source_in, clip.source_out), (0, 96_000));
    assert_eq!(project.clip_end_frame(clip), Some(144_000));
}

#[test]
fn trimming_the_start_moves_the_source_in_point() {
    let (mut project, _, clip_id) = project_with_clip();
    project.trim_clip_start(clip_id, 60_000).unwrap();
    let (_, clip) = project.clip(clip_id).unwrap();
    assert_eq!((clip.start_frame, clip.source_in, clip.source_out), (60_000, 12_000, 96_000));
    project.trim_clip_start(clip_id, 0).unwrap();
    let (_, clip) = project.clip(clip_id).unwrap();
    assert_eq!((clip.start_frame, clip.source_in), (48_000, 0));
}

#[test]
fn trimming_the_end_moves_the_source_out_point() {
    let (mut project, _, clip_id) = project_with_clip();
    project.trim_clip_end(clip_id, 100_000).unwrap();
    let (_, clip) = project.clip(clip_id).unwrap();
    assert_eq!((clip.source_in, clip.source_out), (0, 52_000));
    project.trim_clip_end(clip_id, 500_000).unwrap();
    let (_, clip) = project.clip(clip_id).unwrap();
    assert_eq!(clip.source_out, 96_000);
}

#[test]
fn clips_cannot_become_too_short() {
    let (mut project, _, clip_id) = project_with_clip();
    assert_eq!(project.trim_clip_start(clip_id, 143_990), Err(EditError::ClipTooShort));
    assert_eq!(project.trim_clip_end(clip_id, 48_016), Err(EditError::ClipTooShort));
    assert_eq!(project.split_clip(clip_id, 48_016), Err(EditError::SplitOutsideClip));
    assert_eq!(project.split_clip(clip_id, 143_984), Err(EditError::SplitOutsideClip));
}

#[test]
fn unknown_items_are_reported() {
    let (mut project, track, _) = project_with_clip();
    assert_eq!(project.remove_clip(1), Err(EditError::ClipNotFound));
    assert_eq!(project.remove_track(1), Err(EditError::TrackNotFound));
    assert_eq!(project.insert_media_clip(track, 1, 0), Err(EditError::MediaNotFound));
    assert_eq!(project.insert_media_clip(1, MEDIA, 0), Err(EditError::TrackNotFound));
    let mut bad = voice(2, 10);
    bad.channels = 0;
    assert_eq!(project.register_media(bad), Err(EditError::InvalidMedia));
    assert_eq!(EditError::ClipTooShort.message(), "클립 길이가 너무 짧습니다");
}

#[test]
fn duplicate_lands_right_after_the_original() {
    let (mut project, track, clip_id) = project_with_clip();
    let copy = project.duplicate_clip(clip_id).unwrap();
    assert_ne!(copy, clip_id);
    let (owner, clip) = project.clip(copy).unwrap();
    assert_eq!(owner.id, track);
    assert_eq!(clip.start_frame, 144_000);
    assert_eq!(project.tracks[0].clips.len(), 2);
    assert_eq!(project.tracks[0].clips[0].id, clip_id);
}

#[test]
fn unreferenced_media_is_dropped() {
    let (mut project, _, _) = project_with_clip();
    project.register_media(voice(5, 100)).unwrap();
    assert_eq!(project.media.len(), 2);
    assert_eq!(project.remove_unreferenced_media(), 1);
    assert_eq!(project.media.len(), 1);
    assert!(project.media_info(MEDIA).is_some());
}

#[test]
fn clips_sort_by_start_then_identifier() {
    let a = Clip::new(MEDIA, "a", 30, 10);
    let b = Clip::new(MEDIA, "b", 10, 10);
    let mut c = Clip::new(MEDIA, "c", 10, 10);
    let mut d = Clip::new(MEDIA, "d", 10, 10);
    c.id = 2;
    d.id = 1;
    let b_id = b.id;
    let sorted = sort_clip_list(vec![a, b, c, d]);
    let starts: Vec<u64> = sorted.iter().map(|clip| clip.start_frame).collect();
    assert_eq!(starts, vec![10, 10, 10, 30]);
    let ids: Vec<u128> = sorted.iter().filter(|clip| clip.id != b_id).map(|clip| clip.id).take(2).collect();
    assert_eq!(ids, vec![1, 2]);
}

#[test]
fn undo_then_redo_restores_the_edit() {
    let (mut project, _, clip_id) = project_with_clip();
    let mut history = History::new(10);
    let before = project.snapshot();
    project.move_clip(clip_id, project.tracks[0].id, 1_000).unwrap();
    assert!(history.checkpoint("이동", before, &project));
    let edited = project.snapshot();
    assert_eq!(history.undo(&mut project), Some("이동".to_string()));
    assert_eq!(project.clip(clip_id).unwrap().1.start_frame, 48_000);
    assert_eq!(history.redo(&mut project), Some("이동".to_string()));
    assert!(project.same_as(&edited));
    assert_eq!(history.redo(&mut project), None);
}

#[test]
fn unchanged_transactions_record_nothing() {
    let (project, _, _) = project_with_clip();
    let mut history = History::default();
    history.begin("아무것도", &project);
    assert!(history.in_transaction());
    assert!(!history.commit(&project));
    assert!(!history.can_undo());
    assert!(!history.checkpoint("같음", project.snapshot(), &project));
    assert!(!history.can_undo());
}

#[test]
fn history_keeps_only_its_limit() {
    let mut project = Project::new("한도", 48_000);
    let mut history = History::new(2);
    for name in ["하나", "둘", "셋"] {
        let before = project.snapshot();
        project.add_track(name);
        assert!(history.checkpoint(name, before, &project));
    }
    assert_eq!(history.undo(&mut project), Some("셋".to_string()));
    assert_eq!(history.undo(&mut project), Some("둘".to_string()));
    assert_eq!(history.undo(&mut project), None);
    assert_eq!(project.tracks.len(), 2);
}

#[test]
fn file_names_are_made_safe() {
    assert_eq!(safe_filename("a/b:c?."), "a_b_c_");
    assert_eq!(safe_filename("  데모 곡.. "), "데모 곡");
    assert_eq!(safe_filename(" ... "), "Sonema Project");
}

#[test]
fn extensions_compare_without_ascii_case() {
    assert!(extension_is("song.SONEMA", "sonema"));
    assert!(!extension_is("song.wav", "sonema"));
    assert!(!extension_is("sonema", "sonema"));
}

#[test]
fn signed_offsets_saturate() {
    assert_eq!(add_signed(10, -3), 7);
    assert_eq!(add_signed(10, -30), 0);
    assert_eq!(add_signed(u64::MAX - 1, 5), u64::MAX);
}

#[test]
fn clock_text_pads_every_field() {
    assert_eq!(clock_text(0), "00:00:00.000");
    assert_eq!(clock_text(3_723_004), "01:02:03.004");
    assert_eq!(clock_text(59_999), "00:00:59.999");
    assert_eq!(clock_text(360_000_000), "100:00:00.000");
}

#[test]
fn only_one_track_is_armed() {
    let (mut project, first, _) = project_with_clip();
    let second = project.add_track("둘");
    assert_eq!(project.recording_target(None), Some(first));
    assert_eq!(project.recording_target(Some(second)), Some(second));
    project.arm_only(second, true);
    assert!(!project.tracks[0].armed && project.tracks[1].armed);
    assert_eq!(project.recording_target(Some(first)), Some(second));
    project.arm_only(first, true);
    assert!(project.tracks[0].armed && !project.tracks[1].armed);
    project.arm_only(first, false);
    assert!(!project.tracks[0].armed && !project.tracks[1].armed);
}

#[test]
fn dragging_keeps_clips_long_enough() {
    let mut moving = DragPreview::begin(9, 1, DragKind::Move, 100, 400);
    moving.update(1_000, Some(2));
    assert_eq!((moving.preview_start, moving.preview_end, moving.preview_track), (1_000, 1_300, 2));
    moving.update(50, None);
    assert_eq!(moving.finish(), TimelineAction::MoveClip { clip: 9, track: 2, start: 50 });
    let mut start = DragPreview::begin(9, 1, DragKind::TrimStart, 100, 400);
    start.update(399, None);
    assert_eq!(start.finish(), TimelineAction::TrimStart { clip: 9, start: 384 });
    let mut end = DragPreview::begin(9, 1, DragKind::TrimEnd, 100, 400);
    end.update(0, None);
    assert_eq!(end.finish(), TimelineAction::TrimEnd { clip: 9, end: 116 });
}

#[test]
fn slider_drags_become_one_undo_step() {
    let (mut project, _, _) = project_with_clip();
    let mut history = History::new(10);
    let before = project.snapshot();
    history.record_continuous("음량", project.snapshot(), &project, false, true, false);
    assert!(history.in_transaction());
    project.tracks[0].gain_db = 3.0f32.to_bits();
    history.record_continuous("음량", project.snapshot(), &project, true, false, false);
    assert!(!history.can_undo());
    project.tracks[0].gain_db = 6.0f32.to_bits();
    history.record_continuous("음량", project.snapshot(), &project, true, false, true);
    assert!(history.can_undo());
    assert_eq!(history.undo(&mut project), Some("음량".to_string()));
    assert!(project.same_as(&before));
    let unchanged = project.snapshot();
    project.tracks[0].mute = true;
    history.record_continuous("뮤트", unchanged, &project, true, false, false);
    assert_eq!(history.undo(&mut project), Some("뮤트".to_string()));
    assert!(!project.tracks[0].mute);
}

#[test]
fn unsaved_changes_hold_actions_back() {
    let mut guard: UnsavedGuard<&str> = UnsavedGuard::new();
    assert_eq!(guard.request("new", false), Some("new"));
    assert!(!guard.is_asking());
    assert_eq!(guard.request("open", true), None);
    assert!(guard.is_asking());
    guard.save_chosen(false);
    assert!(guard.is_asking());
    guard.save_chosen(true);
    assert!(!guard.is_asking());
    guard.close_requested("exit");
    assert!(!guard.is_asking());
    assert_eq!(guard.save_finished(true), Some("open"));
    guard.close_requested("exit");
    assert_eq!(guard.discard_chosen(), Some("exit"));
    assert_eq!(guard.request("new", true), None);
    guard.save_chosen(true);
    assert_eq!(guard.save_finished(false), None);
    assert_eq!(guard.request("new", true), None);
    guard.cancel_chosen();
    assert!(!guard.is_asking());
}
