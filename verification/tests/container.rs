use sonema::bytes::Fnv64;
use sonema::container::{
    decode_container, encode_container, open_container, plan_sources, read_header,
    ContainerHeader, FormatError, SourceDescriptor, HEADER_SIZE,
};
use sonema::model::MediaInfo;
use sonema::project::Project;
use sonema::source::{PcmSource, SourceError};

const MANIFEST: &[u8] = b"{\"manifest\":true}";

fn bits(values: &[f32]) -> Vec<u32> {
    values.iter().map(|value| value.to_bits()).collect()
}

fn voice_project(id: u128) -> Project {
    let mut project = Project::new("Roundtrip", 48_000);
    project
        .register_media(MediaInfo {
            id,
            name: "voice".into(),
            sample_rate: 48_000,
            channels: 1,
            frames: 4,
            original_path: None,
        })
        .unwrap();
    let track = project.tracks[0].id;
    project.insert_media_clip(track, id, 12).unwrap();
    project
}

fn voice_pool(id: u128, samples: &[f32]) -> Vec<PcmSource> {
    vec![PcmSource::new(id, "voice".into(), 48_000, vec![bits(samples)]).unwrap()]
}

fn written(project: &Project, pool: &Vec<PcmSource>) -> (Vec<u8>, Vec<SourceDescriptor>) {
    let (descriptors, _) = plan_sources(project, pool).unwrap();
    (encode_container(project, pool, MANIFEST).unwrap(), descriptors)
}

#[test]
fn project_round_trip_preserves_pcm() {
    let id = 0x1234_5678_9abc_4def_8123_4567_89ab_cdefu128;
    let project = voice_project(id);
    let pool = voice_pool(id, &[0.0, 0.25, -0.25, 1.0]);
    let (file, descriptors) = written(&project, &pool);
    let header = open_container(&file).unwrap();
    let start = HEADER_SIZE as usize;
    let manifest_end = start + header.manifest_len as usize;
    assert_eq!(&file[start..manifest_end], MANIFEST);
    let media = decode_container(&file, &project, &descriptors).unwrap();
    assert_eq!(media.len(), 1);
    assert_eq!(media[0].id(), id);
    assert_eq!(media[0].channels()[0], bits(&[0.0, 0.25, -0.25, 1.0]));
}

#[test]
fn plan_lists_media_back_to_back() {
    let first = 0x10u128;
    let second = 0x20u128;
    let mut project = voice_project(second);
    project
        .register_media(MediaInfo {
            id: first,
            name: "drums".into(),
            sample_rate: 48_000,
            channels: 2,
            frames: 3,
            original_path: None,
        })
        .unwrap();
    let mut pool = voice_pool(second, &[0.5, 0.5, 0.5, 0.5]);
    pool.push(PcmSource::new(first, "drums".into(), 48_000, vec![bits(&[0.1; 3]), bits(&[0.2; 3])]).unwrap());
    let (descriptors, total) = plan_sources(&project, &pool).unwrap();
    assert_eq!(descriptors.len(), 2);
    assert_eq!(descriptors[0].id, first);
    assert_eq!((descriptors[0].byte_offset, descriptors[0].byte_len), (0, 24));
    assert_eq!(descriptors[1].id, second);
    assert_eq!((descriptors[1].byte_offset, descriptors[1].byte_len), (24, 16));
    assert_eq!(total, 40);
    let file = encode_container(&project, &pool, MANIFEST).unwrap();
    assert_eq!(file.len(), 40 + MANIFEST.len() + 40);
    let decoded = decode_container(&file, &project, &descriptors).unwrap();
    assert_eq!(decoded[0].channels()[1], bits(&[0.2; 3]));
    assert_eq!(decoded[1].channels()[0], bits(&[0.5; 4]));
}

#[test]
fn header_layout_is_fixed() {
    let id = 7u128;
    let project = voice_project(id);
    let pool = voice_pool(id, &[0.0, 0.25, -0.25, 1.0]);
    let (file, _) = written(&project, &pool);
    assert_eq!(&file[0..8], b"SONEMA01");
    assert_eq!(&file[8..12], &1u32.to_le_bytes());
    assert_eq!(&file[12..16], &0u32.to_le_bytes());
    assert_eq!(&file[16..24], &(MANIFEST.len() as u64).to_le_bytes());
    assert_eq!(&file[24..32], &16u64.to_le_bytes());
    let mut checksum = Fnv64::new();
    checksum.update(&file[40..]);
    assert_eq!(&file[32..40], &checksum.finish().to_le_bytes());
    assert_eq!(
        read_header(&file).unwrap(),
        ContainerHeader { manifest_len: MANIFEST.len() as u64, audio_len: 16, checksum: checksum.finish() }
    );
    assert_eq!(&file[40 + MANIFEST.len()..40 + MANIFEST.len() + 4], &0.0f32.to_le_bytes());
    assert_eq!(&file[file.len() - 4..], &1.0f32.to_le_bytes());
}

#[test]
fn fnv1a_matches_reference_values() {
    let mut empty = Fnv64::new();
    empty.update(b"");
    assert_eq!(empty.finish(), 0xcbf2_9ce4_8422_2325);
    let mut one = Fnv64::new();
    one.update(b"a");
    assert_eq!(one.finish(), 0xaf63_dc4c_8601_ec8c);
    let mut split = Fnv64::new();
    split.update(b"foo");
    split.update(b"bar");
    let mut whole = Fnv64::new();
    whole.update(b"foobar");
    assert_eq!(split.finish(), whole.finish());
    assert_eq!(whole.finish(), 0x85944171f73967e8);
}

#[test]
fn short_file_is_an_io_error() {
    assert_eq!(open_container(b"SONEMA"), Err(FormatError::Io("failed to fill whole buffer".into())));
    let mut file = b"SONEMA01".to_vec();
    file.extend_from_slice(&1u32.to_le_bytes());
    assert_eq!(open_container(&file), Err(FormatError::Io("failed to fill whole buffer".into())));
}

#[test]
fn wrong_magic_is_refused() {
    let mut file = vec![0u8; 64];
    file[..8].copy_from_slice(b"SONEMA02");
    assert_eq!(open_container(&file), Err(FormatError::InvalidMagic));
}

#[test]
fn other_versions_are_refused() {
    let id = 3u128;
    let project = voice_project(id);
    let pool = voice_pool(id, &[0.0, 0.25, -0.25, 1.0]);
    let (mut file, _) = written(&project, &pool);
    file[8] = 2;
    assert_eq!(open_container(&file), Err(FormatError::UnsupportedVersion(2)));
}

#[test]
fn truncated_file_has_invalid_length() {
    let id = 3u128;
    let project = voice_project(id);
    let pool = voice_pool(id, &[0.0, 0.25, -0.25, 1.0]);
    let (mut file, descriptors) = written(&project, &pool);
    file.pop();
    assert_eq!(open_container(&file), Err(FormatError::InvalidLength));
    assert_eq!(decode_container(&file, &project, &descriptors).err(), Some(FormatError::InvalidLength));
}

#[test]
fn corrupted_audio_fails_the_checksum() {
    let id = 3u128;
    let project = voice_project(id);
    let pool = voice_pool(id, &[0.0, 0.25, -0.25, 1.0]);
    let (mut file, descriptors) = written(&project, &pool);
    let last = file.len() - 2;
    file[last] ^= 0x01;
    assert_eq!(decode_container(&file, &project, &descriptors).err(), Some(FormatError::ChecksumMismatch));
}

#[test]
fn non_finite_samples_load_as_silence() {
    let id = 3u128;
    let project = voice_project(id);
    let pool = voice_pool(id, &[f32::NAN, 0.5, f32::INFINITY, -1.0]);
    let (file, descriptors) = written(&project, &pool);
    let media = decode_container(&file, &project, &descriptors).unwrap();
    assert_eq!(media[0].channels()[0], bits(&[0.0, 0.5, 0.0, -1.0]));
}

#[test]
fn saving_needs_every_medium_in_the_pool() {
    let project = voice_project(3);
    let pool = voice_pool(4, &[0.0, 0.25, -0.25, 1.0]);
    assert_eq!(plan_sources(&project, &pool).err(), Some(FormatError::MissingMedia("voice".into())));
    assert_eq!(encode_container(&project, &pool, MANIFEST).err(), Some(FormatError::MissingMedia("voice".into())));
}

#[test]
fn saving_refuses_pcm_of_another_shape() {
    let id = 3u128;
    let project = voice_project(id);
    let pool = voice_pool(id, &[0.0, 0.25, -0.25]);
    assert_eq!(
        plan_sources(&project, &pool).err(),
        Some(FormatError::InvalidProject("voice 미디어 정보와 PCM 데이터가 일치하지 않습니다".into()))
    );
}

#[test]
fn saving_refuses_an_invalid_project() {
    let id = 3u128;
    let mut project = voice_project(id);
    project.sample_rate = 1_000;
    let pool = voice_pool(id, &[0.0, 0.25, -0.25, 1.0]);
    assert!(matches!(plan_sources(&project, &pool), Err(FormatError::InvalidProject(_))));
}

#[test]
fn oversized_manifest_is_refused() {
    let id = 3u128;
    let project = voice_project(id);
    let pool = voice_pool(id, &[0.0, 0.25, -0.25, 1.0]);
    let manifest = vec![b' '; 64 * 1024 * 1024 + 1];
    assert_eq!(encode_container(&project, &pool, &manifest).err(), Some(FormatError::InvalidLength));
}

#[test]
fn loading_needs_audio_for_every_medium() {
    let id = 3u128;
    let project = voice_project(id);
    let pool = voice_pool(id, &[0.0, 0.25, -0.25, 1.0]);
    let (file, mut descriptors) = written(&project, &pool);
    descriptors[0].id = 9;
    assert_eq!(
        decode_container(&file, &project, &descriptors).err(),
        Some(FormatError::MissingMedia("voice".into()))
    );
}

#[test]
fn loading_refuses_audio_of_another_shape() {
    let id = 3u128;
    let project = voice_project(id);
    let pool = voice_pool(id, &[0.0, 0.25, -0.25, 1.0]);
    let (file, mut descriptors) = written(&project, &pool);
    descriptors[0].frames = 2;
    descriptors[0].byte_len = 8;
    assert_eq!(
        decode_container(&file, &project, &descriptors).err(),
        Some(FormatError::ChecksumMismatch)
    );
    let (file, mut descriptors) = written(&project, &pool);
    descriptors[0].sample_rate = 44_100;
    assert_eq!(
        decode_container(&file, &project, &descriptors).err(),
        Some(FormatError::InvalidProject("voice 미디어가 일치하지 않습니다".into()))
    );
}

#[test]
fn descriptors_outside_the_audio_are_refused() {
    let id = 3u128;
    let project = voice_project(id);
    let pool = voice_pool(id, &[0.0, 0.25, -0.25, 1.0]);
    let (file, mut descriptors) = written(&project, &pool);
    descriptors[0].byte_offset = 4;
    assert_eq!(decode_container(&file, &project, &descriptors).err(), Some(FormatError::InvalidLength));
    let (file, mut descriptors) = written(&project, &pool);
    descriptors[0].channels = 0;
    descriptors[0].byte_len = 0;
    assert_eq!(decode_container(&file, &project, &descriptors).err(), Some(FormatError::InvalidLength));
}

#[test]
fn undecodable_audio_reports_the_source_error() {
    let id = 3u128;
    let project = voice_project(id);
    let pool = voice_pool(id, &[0.0, 0.25, -0.25, 1.0]);
    let (file, mut descriptors) = written(&project, &pool);
    descriptors[0].sample_rate = 100;
    assert_eq!(
        decode_container(&file, &project, &descriptors).err(),
        Some(FormatError::Source(SourceError::InvalidSampleRate))
    );
}

#[test]
fn format_errors_have_messages() {
    assert_eq!(FormatError::InvalidMagic.message(), "Sonema 프로젝트 파일이 아닙니다");
    assert_eq!(
        FormatError::UnsupportedVersion(12).message(),
        "지원하지 않는 Sonema 컨테이너 버전입니다: 12"
    );
    assert_eq!(
        FormatError::Source(SourceError::Empty).message(),
        "프로젝트 오디오가 올바르지 않습니다: 오디오 파일이 비어 있습니다"
    );
    assert_eq!(FormatError::MissingMedia("a".into()).message(), "프로젝트 미디어가 없습니다: a");
}
