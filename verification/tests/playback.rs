use sonema::clock::epoch_millis;
use sonema::devices::{monitoring_enabled, order_input_devices, AudioEngineError, RecorderError};
use sonema::model::MediaInfo;
use sonema::project::Project;
use sonema::session::{offline_output_frames, plan_session};
use sonema::source::{deinterleave_into, PcmSource, SourceError};
use sonema::wav::{wav_format, Dither, WavBitDepth, WavExportOptions, DITHER_SEED};

const MEDIA: u128 = 0x0a0b_0c0d_0e0f_4a1b_8c2d_3e4f_5a6b_7c8d;

fn project_with_two_tracks() -> (Project, u128, u128) {
    let mut project = Project::new("세션", 48_000);
    project
        .register_media(MediaInfo {
            id: MEDIA,
            name: "take".into(),
            sample_rate: 48_000,
            channels: 1,
            frames: 48_000,
            original_path: None,
        })
        .unwrap();
    let first = project.tracks[0].id;
    let second = project.add_track("둘");
    project.insert_media_clip(first, MEDIA, 0).unwrap();
    project.insert_media_clip(second, MEDIA, 24_000).unwrap();
    (project, first, second)
}

#[test]
fn session_plays_every_unmuted_track() {
    let (project, first, second) = project_with_two_tracks();
    let plan = plan_session(&project, &vec![7, MEDIA]).unwrap();
    assert_eq!(plan.duration_frames, 72_000);
    assert_eq!(plan.tracks.len(), 2);
    assert_eq!((plan.tracks[0].id, plan.tracks[0].audible), (first, true));
    assert_eq!((plan.tracks[1].id, plan.tracks[1].audible), (second, true));
    assert_eq!(plan.tracks[0].clip_sources, vec![1]);
}

#[test]
fn solo_silences_the_other_tracks() {
    let (mut project, _, _) = project_with_two_tracks();
    project.tracks[1].solo = true;
    project.tracks[1].mute = true;
    let plan = plan_session(&project, &vec![MEDIA]).unwrap();
    assert!(!plan.tracks[0].audible);
    assert!(!plan.tracks[1].audible);
    project.tracks[1].mute = false;
    let plan = plan_session(&project, &vec![MEDIA]).unwrap();
    assert!(!plan.tracks[0].audible);
    assert!(plan.tracks[1].audible);
}

#[test]
fn session_needs_audio_for_every_clip() {
    let (project, _, _) = project_with_two_tracks();
    assert_eq!(plan_session(&project, &vec![]), Err("take 미디어 PCM이 없습니다".to_string()));
}

#[test]
fn empty_project_lasts_thirty_seconds() {
    let project = Project::new("빈", 44_100);
    let plan = plan_session(&project, &vec![]).unwrap();
    assert_eq!(plan.duration_frames, 1_323_000);
}

#[test]
fn offline_length_rounds_up() {
    assert_eq!(offline_output_frames(48_000, 44_100, 48_000), 44_100);
    assert_eq!(offline_output_frames(1, 44_100, 48_000), 1);
    assert_eq!(offline_output_frames(0, 44_100, 48_000), 0);
    assert_eq!(offline_output_frames(3, 96_000, 48_000), 6);
}

#[test]
fn export_defaults_to_dithered_24_bit() {
    let options = WavExportOptions::default();
    assert_eq!(options.bit_depth, WavBitDepth::Pcm24);
    assert!(options.dither);
    let format = wav_format(WavBitDepth::Float32, 44_100);
    assert_eq!((format.channels, format.sample_rate, format.bits_per_sample, format.float), (2, 44_100, 32, true));
    let format = wav_format(WavBitDepth::Pcm16, 48_000);
    assert_eq!((format.bits_per_sample, format.float), (16, false));
}

#[test]
fn dither_follows_xorshift() {
    let mut dither = Dither::new(DITHER_SEED);
    let mut state = DITHER_SEED;
    for _ in 0..3 {
        state ^= state << 13;
        state ^= state >> 7;
        state ^= state << 17;
        assert_eq!(dither.next_bits(), state as u32);
    }
}

#[test]
fn default_input_device_is_listed_first() {
    let devices = order_input_devices(
        vec!["USB Mic".to_string(), "Built-in".to_string(), "Audio Box".to_string()],
        Some("USB Mic".to_string()),
    );
    let names: Vec<&str> = devices.iter().map(|device| device.name.as_str()).collect();
    assert_eq!(names, vec!["USB Mic", "Audio Box", "Built-in"]);
    assert!(devices[0].is_default);
    assert!(!devices[1].is_default && !devices[2].is_default);
    let devices = order_input_devices(vec!["b".to_string(), "a".to_string(), "ab".to_string()], None);
    let names: Vec<&str> = devices.iter().map(|device| device.name.as_str()).collect();
    assert_eq!(names, vec!["a", "ab", "b"]);
}

#[test]
fn device_errors_have_messages() {
    assert_eq!(AudioEngineError::Disconnected.message(), "오디오 엔진 연결이 끊겼습니다");
    assert_eq!(
        AudioEngineError::BuildStream("x".into()).message(),
        "오디오 출력 스트림을 만들지 못했습니다: x"
    );
    assert_eq!(RecorderError::NoInputDevice.message(), "선택한 오디오 입력 장치를 찾을 수 없습니다");
}

#[test]
fn sources_check_their_shape() {
    assert_eq!(PcmSource::new(1, "a".into(), 100, vec![vec![0]]).err(), Some(SourceError::InvalidSampleRate));
    assert_eq!(PcmSource::new(1, "a".into(), 48_000, vec![]).err(), Some(SourceError::NoChannels));
    assert_eq!(PcmSource::new(1, "a".into(), 48_000, vec![vec![]]).err(), Some(SourceError::Empty));
    assert_eq!(
        PcmSource::new(1, "a".into(), 48_000, vec![vec![0, 0], vec![0]]).err(),
        Some(SourceError::UnequalChannelLengths)
    );
    let source = PcmSource::from_recording("녹음".into(), 48_000, vec![vec![0, 0, 0], vec![1, 1, 1]]).unwrap();
    assert_ne!(source.id(), 0);
    let info = source.info(None);
    assert_eq!((info.channels, info.frames, info.sample_rate), (2, 3, 48_000));
    assert_eq!(info.name, "녹음");
}

#[test]
fn monitoring_needs_matching_rates() {
    assert!(monitoring_enabled(true, 48_000, 48_000));
    assert!(!monitoring_enabled(true, 44_100, 48_000));
    assert!(!monitoring_enabled(false, 48_000, 48_000));
}

#[test]
fn interleaved_blocks_split_into_channels() {
    let mut channels = vec![vec![7u32], vec![]];
    let block: Vec<u32> = [0.5f32, -0.5, f32::NAN, 1.0, 0.25].iter().map(|s| s.to_bits()).collect();
    deinterleave_into(&mut channels, &block);
    assert_eq!(channels[0], vec![7, 0.5f32.to_bits(), 0]);
    assert_eq!(channels[1], vec![(-0.5f32).to_bits(), 1.0f32.to_bits()]);
}

#[test]
fn fresh_identifiers_are_version_four_uuids() {
    let id = sonema::clock::new_id();
    assert_ne!(id, 0);
    assert_eq!((id >> 76) & 0xf, 4);
    assert_eq!((id >> 62) & 0x3, 2);
    assert_ne!(sonema::clock::new_id(), id);
}

#[test]
fn devices_with_the_same_name_are_all_kept() {
    let devices = order_input_devices(vec!["b".to_string(), "a".to_string(), "b".to_string()], None);
    let names: Vec<&str> = devices.iter().map(|device| device.name.as_str()).collect();
    assert_eq!(names, vec!["a", "b", "b"]);
}

#[test]
fn clock_readings_saturate() {
    assert_eq!(epoch_millis(None), 0);
    assert_eq!(epoch_millis(Some(1_700_000_000_000)), 1_700_000_000_000);
    assert_eq!(epoch_millis(Some(u128::MAX)), u64::MAX);
}
