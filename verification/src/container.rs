//! The `.sonema` container: a fixed header, the JSON manifest, then planar
//! little-endian `f32` PCM of every registered medium, guarded by a 64-bit
//! FNV-1a checksum over manifest and audio.
//!
//! Header layout (40 bytes): magic `SONEMA01`, container version (`u32`),
//! a reserved `u32`, manifest length (`u64`), audio length (`u64`), checksum
//! (`u64`), all little-endian. Turning the manifest into values and back is
//! left to the caller; this module frames, checks and decodes bytes.

use crate::bits::f32_is_finite;
use crate::bytes::{fnv1a, le32, le64, read32, read64};
use crate::media::media_models;
use crate::model::{MediaId, MediaModel};
use crate::project::{Project, ProjectModel};
use crate::source::{pcm_frames, source_error_text, PcmModel, PcmSource, SourceError};
use crate::validate::{decimal, decimal_text, validation_issue, with_suffix};
use vstd::prelude::*;

verus! {

pub const CONTAINER_VERSION: u32 = 1;

pub const HEADER_SIZE: u64 = 40;

/// The largest manifest a container may hold: 64 MiB.
pub const MAX_MANIFEST_BYTES: u64 = 64 * 1024 * 1024;

/// The eight magic bytes `SONEMA01`.
pub open spec fn magic() -> Seq<u8> {
    seq![0x53u8, 0x4fu8, 0x4eu8, 0x45u8, 0x4du8, 0x41u8, 0x30u8, 0x31u8]
}

/// Why a project file could not be written or read.
#[derive(Debug, PartialEq, Eq)]
pub enum FormatError {
    Io(String),
    Json(String),
    InvalidMagic,
    UnsupportedVersion(u32),
    InvalidLength,
    ChecksumMismatch,
    InvalidProject(String),
    MissingMedia(String),
    Source(SourceError),
    Persist(String),
}

/// [`FormatError`] with its texts as character sequences.
pub enum FormatFault {
    Io(Seq<char>),
    Json(Seq<char>),
    InvalidMagic,
    UnsupportedVersion(u32),
    InvalidLength,
    ChecksumMismatch,
    InvalidProject(Seq<char>),
    MissingMedia(Seq<char>),
    Source(SourceError),
    Persist(Seq<char>),
}

impl View for FormatError {
    type V = FormatFault;

    open spec fn view(&self) -> FormatFault {
        match self {
            FormatError::Io(text) => FormatFault::Io(text@),
            FormatError::Json(text) => FormatFault::Json(text@),
            FormatError::InvalidMagic => FormatFault::InvalidMagic,
            FormatError::UnsupportedVersion(version) => FormatFault::UnsupportedVersion(*version),
            FormatError::InvalidLength => FormatFault::InvalidLength,
            FormatError::ChecksumMismatch => FormatFault::ChecksumMismatch,
            FormatError::InvalidProject(text) => FormatFault::InvalidProject(text@),
            FormatError::MissingMedia(text) => FormatFault::MissingMedia(text@),
            FormatError::Source(error) => FormatFault::Source(*error),
            FormatError::Persist(text) => FormatFault::Persist(text@),
        }
    }
}

pub open spec fn format_error_text(fault: FormatFault) -> Seq<char> {
    match fault {
        FormatFault::Io(d) => "프로젝트 파일을 읽거나 쓸 수 없습니다: "@ + d,
        FormatFault::Json(d) => "프로젝트 정보가 손상되었습니다: "@ + d,
        FormatFault::InvalidMagic => "Sonema 프로젝트 파일이 아닙니다"@,
        FormatFault::UnsupportedVersion(v) => "지원하지 않는 Sonema 컨테이너 버전입니다: "@ + decimal(
            v as nat,
        ),
        FormatFault::InvalidLength => "프로젝트 파일 크기 정보가 올바르지 않습니다"@,
        FormatFault::ChecksumMismatch => "프로젝트 파일 무결성 검사에 실패했습니다"@,
        FormatFault::InvalidProject(d) => "프로젝트가 올바르지 않습니다: "@ + d,
        FormatFault::MissingMedia(d) => "프로젝트 미디어가 없습니다: "@ + d,
        FormatFault::Source(e) => "프로젝트 오디오가 올바르지 않습니다: "@ + source_error_text(e),
        FormatFault::Persist(d) => "임시 프로젝트 파일을 저장하지 못했습니다: "@ + d,
    }
}

fn prefixed(text: &str, detail: &String) -> (message: String)
    ensures
        message@ == text@ + detail@,
{
    let mut message = String::from_str(text);
    message.append(detail.as_str());
    message
}

impl FormatError {
    /// The message shown to the user.
    pub fn message(&self) -> (text: String)
        ensures
            text@ == format_error_text(self@),
    {
        match self {
            FormatError::Io(d) => prefixed("프로젝트 파일을 읽거나 쓸 수 없습니다: ", d),
            FormatError::Json(d) => prefixed("프로젝트 정보가 손상되었습니다: ", d),
            FormatError::InvalidMagic => String::from_str("Sonema 프로젝트 파일이 아닙니다"),
            FormatError::UnsupportedVersion(v) => prefixed(
                "지원하지 않는 Sonema 컨테이너 버전입니다: ",
                &decimal_text(*v),
            ),
            FormatError::InvalidLength => String::from_str("프로젝트 파일 크기 정보가 올바르지 않습니다"),
            FormatError::ChecksumMismatch => String::from_str("프로젝트 파일 무결성 검사에 실패했습니다"),
            FormatError::InvalidProject(d) => prefixed("프로젝트가 올바르지 않습니다: ", d),
            FormatError::MissingMedia(d) => prefixed("프로젝트 미디어가 없습니다: ", d),
            FormatError::Source(e) => prefixed("프로젝트 오디오가 올바르지 않습니다: ", &e.message()),
            FormatError::Persist(d) => prefixed("임시 프로젝트 파일을 저장하지 못했습니다: ", d),
        }
    }
}

/// What a read gives when the file ends before the bytes it needs.
pub open spec fn short_read_text() -> Seq<char> {
    "failed to fill whole buffer"@
}

/// The three numbers a header carries besides its fixed fields.
#[derive(Debug, Clone, Copy, PartialEq, Eq, Structural)]
pub struct ContainerHeader {
    pub manifest_len: u64,
    pub audio_len: u64,
    pub checksum: u64,
}

/// The 40 header bytes.
pub open spec fn header_bytes(h: ContainerHeader) -> Seq<u8> {
    magic() + le32(CONTAINER_VERSION) + le32(0) + le64(h.manifest_len) + le64(h.audio_len) + le64(
        h.checksum,
    )
}

/// Reading the header from the front of `file`: the magic, then the
/// version, then the remaining fields, each failing when the file ends
/// before it.
pub open spec fn header_result(file: Seq<u8>) -> Result<ContainerHeader, FormatFault> {
    if file.len() < 8 {
        Err(FormatFault::Io(short_read_text()))
    } else if file.subrange(0, 8) != magic() {
        Err(FormatFault::InvalidMagic)
    } else if file.len() < 12 {
        Err(FormatFault::Io(short_read_text()))
    } else if read32(file, 8) != CONTAINER_VERSION {
        Err(FormatFault::UnsupportedVersion(read32(file, 8)))
    } else if file.len() < 40 {
        Err(FormatFault::Io(short_read_text()))
    } else {
        Ok(
            ContainerHeader {
                manifest_len: read64(file, 16),
                audio_len: read64(file, 24),
                checksum: read64(file, 32),
            },
        )
    }
}

/// The header, once the lengths it announces are checked against the file:
/// the manifest may hold at most [`MAX_MANIFEST_BYTES`], and header,
/// manifest and audio must make up the whole file.
pub open spec fn open_result(file: Seq<u8>) -> Result<ContainerHeader, FormatFault> {
    match header_result(file) {
        Err(fault) => Err(fault),
        Ok(h) => if h.manifest_len > MAX_MANIFEST_BYTES || HEADER_SIZE + h.manifest_len
            + h.audio_len != file.len() {
            Err(FormatFault::InvalidLength)
        } else {
            Ok(h)
        },
    }
}

fn short_read() -> (error: FormatError)
    ensures
        error@ == FormatFault::Io(short_read_text()),
{
    FormatError::Io(String::from_str("failed to fill whole buffer"))
}

/// Reads the header at the front of `file`.
pub fn read_header(file: &[u8]) -> (result: Result<ContainerHeader, FormatError>)
    ensures
        match header_result(file@) {
            Ok(h) => result == Ok::<ContainerHeader, FormatError>(h),
            Err(fault) => result matches Err(e) && e@ == fault,
        },
{
    if file.len() < 8 {
        return Err(short_read());
    }
    let magic_ok = file[0] == 0x53u8 && file[1] == 0x4fu8 && file[2] == 0x4eu8 && file[3] == 0x45u8
        && file[4] == 0x4du8 && file[5] == 0x41u8 && file[6] == 0x30u8 && file[7] == 0x31u8;
    if !magic_ok {
        proof {
            if file@.subrange(0, 8) == magic() {
                assert(file@[0] == file@.subrange(0, 8)[0]);
                assert(file@[1] == file@.subrange(0, 8)[1]);
                assert(file@[2] == file@.subrange(0, 8)[2]);
                assert(file@[3] == file@.subrange(0, 8)[3]);
                assert(file@[4] == file@.subrange(0, 8)[4]);
                assert(file@[5] == file@.subrange(0, 8)[5]);
                assert(file@[6] == file@.subrange(0, 8)[6]);
                assert(file@[7] == file@.subrange(0, 8)[7]);
            }
        }
        return Err(FormatError::InvalidMagic);
    }
    assert(file@.subrange(0, 8) =~= magic());
    if file.len() < 12 {
        return Err(short_read());
    }
    let version = crate::bytes::read_u32(file, 8);
    if version != CONTAINER_VERSION {
        return Err(FormatError::UnsupportedVersion(version));
    }
    if file.len() < 40 {
        return Err(short_read());
    }
    Ok(
        ContainerHeader {
            manifest_len: crate::bytes::read_u64(file, 16),
            audio_len: crate::bytes::read_u64(file, 24),
            checksum: crate::bytes::read_u64(file, 32),
        },
    )
}

/// Reads the header and checks the lengths it announces against the file.
pub fn open_container(file: &[u8]) -> (result: Result<ContainerHeader, FormatError>)
    ensures
        match open_result(file@) {
            Ok(h) => result == Ok::<ContainerHeader, FormatError>(h),
            Err(fault) => result matches Err(e) && e@ == fault,
        },
{
    let header = match read_header(file) {
        Ok(h) => h,
        Err(e) => return Err(e),
    };
    if header.manifest_len > MAX_MANIFEST_BYTES {
        return Err(FormatError::InvalidLength);
    }
    let total: u128 = HEADER_SIZE as u128 + header.manifest_len as u128 + header.audio_len as u128;
    if total != file.len() as u128 {
        return Err(FormatError::InvalidLength);
    }
    Ok(header)
}

/// Where one medium's PCM lies in the audio section, as the manifest lists it.
#[derive(Debug, Clone, PartialEq, Eq)]
pub struct SourceDescriptor {
    pub id: MediaId,
    pub name: String,
    pub sample_rate: u32,
    pub channels: u16,
    pub frames: u64,
    pub byte_offset: u64,
    pub byte_len: u64,
}

pub struct DescriptorModel {
    pub id: MediaId,
    pub name: Seq<char>,
    pub sample_rate: u32,
    pub channels: u16,
    pub frames: u64,
    pub byte_offset: u64,
    pub byte_len: u64,
}

impl View for SourceDescriptor {
    type V = DescriptorModel;

    open spec fn view(&self) -> DescriptorModel {
        DescriptorModel {
            id: self.id,
            name: self.name@,
            sample_rate: self.sample_rate,
            channels: self.channels,
            frames: self.frames,
            byte_offset: self.byte_offset,
            byte_len: self.byte_len,
        }
    }
}

pub open spec fn descriptor_models(ds: Seq<SourceDescriptor>) -> Seq<DescriptorModel> {
    ds.map_values(|d: SourceDescriptor| d@)
}

pub open spec fn pool_models(pool: Seq<PcmSource>) -> Seq<PcmModel> {
    pool.map_values(|source: PcmSource| source@)
}

/// The source a pool holds for `id`: the last one with that identifier, as
/// when the sources are entered one after another into a map by identifier;
/// -1 when there is none.
pub open spec fn pool_index(pool: Seq<PcmModel>, id: MediaId) -> int
    decreases pool.len(),
{
    if pool.len() == 0 {
        -1
    } else if pool.last().id == id {
        pool.len() - 1
    } else {
        pool_index(pool.drop_last(), id)
    }
}

pub proof fn lemma_pool_index(pool: Seq<PcmModel>, id: MediaId)
    ensures
        -1 <= pool_index(pool, id) < pool.len(),
        pool_index(pool, id) >= 0 ==> pool[pool_index(pool, id)].id == id,
        forall|j: int|
            pool_index(pool, id) < j < pool.len() ==> (#[trigger] pool[j]).id != id,
    decreases pool.len(),
{
    if pool.len() > 0 && pool.last().id != id {
        lemma_pool_index(pool.drop_last(), id);
        assert forall|j: int| pool_index(pool, id) < j < pool.len() implies (#[trigger] pool[j]).id
            != id by {
            if j < pool.len() - 1 {
                assert(pool[j] == pool.drop_last()[j]);
            }
        }
    }
}

/// The index of the source for `id` in `pool`, searching from the end.
pub fn find_source(pool: &Vec<PcmSource>, id: MediaId) -> (found: Option<usize>)
    ensures
        match found {
            Some(i) => i == pool_index(pool_models(pool@), id) && i < pool@.len(),
            None => pool_index(pool_models(pool@), id) < 0,
        },
{
    let ghost models = pool_models(pool@);
    proof {
        lemma_pool_index(models, id);
    }
    let mut n: usize = pool.len();
    assert(models.take(n as int) =~= models);
    while n > 0
        invariant
            n <= pool@.len(),
            models == pool_models(pool@),
            pool_index(models, id) == pool_index(models.take(n as int), id),
        decreases n,
    {
        let ghost prefix = models.take(n as int);
        assert(prefix.last() == pool@[n - 1]@);
        if pool[n - 1].id() == id {
            return Some(n - 1);
        }
        assert(prefix.drop_last() =~= models.take(n - 1));
        n = n - 1;
    }
    None
}

/// Bytes of PCM for `frames` frames of `channels` channels of `f32`.
pub open spec fn pcm_len(frames: u64, channels: u16) -> int {
    frames * channels * 4
}

pub open spec fn mismatch_text(name: Seq<char>) -> Seq<char> {
    name + " 미디어 정보와 PCM 데이터가 일치하지 않습니다"@
}

/// What stops medium `m` from being written at `offset` with the PCM in
/// `pool`: no source, a source of another shape, or sizes beyond `u64`.
pub open spec fn media_plan_issue(m: MediaModel, pool: Seq<PcmModel>, offset: int) -> Option<
    FormatFault,
> {
    let i = pool_index(pool, m.id);
    if i < 0 {
        Some(FormatFault::MissingMedia(m.name))
    } else if pool[i].sample_rate != m.sample_rate || pool[i].channels.len() != m.channels
        || pcm_frames(pool[i]) != m.frames {
        Some(FormatFault::InvalidProject(mismatch_text(m.name)))
    } else if pcm_len(m.frames, m.channels) > u64::MAX || offset + pcm_len(m.frames, m.channels)
        > u64::MAX {
        Some(FormatFault::InvalidLength)
    } else {
        None
    }
}

pub open spec fn planned_descriptor(m: MediaModel, offset: int) -> DescriptorModel {
    DescriptorModel {
        id: m.id,
        name: m.name,
        sample_rate: m.sample_rate,
        channels: m.channels,
        frames: m.frames,
        byte_offset: offset as u64,
        byte_len: pcm_len(m.frames, m.channels) as u64,
    }
}

/// The descriptors of the first `n` media, one after another from offset
/// 0, with the offset after them; or the first problem.
pub open spec fn planned(media: Seq<MediaModel>, pool: Seq<PcmModel>, n: int) -> Result<
    (Seq<DescriptorModel>, int),
    FormatFault,
>
    decreases n,
{
    if n <= 0 {
        Ok((Seq::empty(), 0))
    } else {
        match planned(media, pool, n - 1) {
            Err(fault) => Err(fault),
            Ok((ds, offset)) => match media_plan_issue(media[n - 1], pool, offset) {
                Some(fault) => Err(fault),
                None => Ok(
                    (
                        ds.push(planned_descriptor(media[n - 1], offset)),
                        offset + pcm_len(media[n - 1].frames, media[n - 1].channels),
                    ),
                ),
            },
        }
    }
}

/// Once planning fails, planning more media fails the same way.
pub proof fn lemma_planned_fault_stays(media: Seq<MediaModel>, pool: Seq<PcmModel>, k: int, n: int)
    requires
        k <= n,
        planned(media, pool, k) is Err,
    ensures
        planned(media, pool, n) == planned(media, pool, k),
    decreases n - k,
{
    if k < n {
        lemma_planned_fault_stays(media, pool, k, n - 1);
    }
}

/// The descriptors of a project's media with the total audio length, or
/// why the project cannot be written.
pub open spec fn plan_result(p: ProjectModel, pool: Seq<PcmModel>) -> Result<
    (Seq<DescriptorModel>, int),
    FormatFault,
> {
    match validation_issue(p) {
        Some(message) => Err(FormatFault::InvalidProject(message)),
        None => planned(p.media, pool, p.media.len() as int),
    }
}

/// Lays out the PCM of every registered medium, in identifier order, after
/// checking the project and that `pool` holds matching audio for each.
pub fn plan_sources(project: &Project, pool: &Vec<PcmSource>) -> (result: Result<
    (Vec<SourceDescriptor>, u64),
    FormatError,
>)
    ensures
        match plan_result(project@, pool_models(pool@)) {
            Ok((ds, total)) => result matches Ok((v, t)) && descriptor_models(v@) == ds && t
                == total,
            Err(fault) => result matches Err(e) && e@ == fault,
        },
{
    match project.validate() {
        Ok(()) => {},
        Err(message) => return Err(FormatError::InvalidProject(message)),
    }
    let ghost models = pool_models(pool@);
    let entries = project.media.entries();
    let ghost media = media_models(entries@);
    let mut descriptors: Vec<SourceDescriptor> = Vec::new();
    let mut offset: u64 = 0;
    let mut i: usize = 0;
    assert(descriptor_models(descriptors@) =~= Seq::<DescriptorModel>::empty());
    while i < entries.len()
        invariant
            i <= entries@.len(),
            media == media_models(entries@),
            media == project@.media,
            validation_issue(project@) is None,
            models == pool_models(pool@),
            planned(media, models, i as int) == Ok::<(Seq<DescriptorModel>, int), FormatFault>(
                (descriptor_models(descriptors@), offset as int),
            ),
        decreases entries.len() - i,
    {
        let info = &entries[i];
        assert(media[i as int] == info@);
        let found = find_source(pool, info.id);
        let k = match found {
            Some(k) => k,
            None => {
                proof {
                    lemma_planned_fault_stays(media, models, i + 1, media.len() as int);
                }
                return Err(FormatError::MissingMedia(info.name.clone()));
            },
        };
        let source = &pool[k];
        assert(models[k as int] == source@);
        let frames = source.shape();
        if source.sample_rate() != info.sample_rate || source.channels().len() != info.channels as usize
            || frames as u64 != info.frames {
            proof {
                lemma_planned_fault_stays(media, models, i + 1, media.len() as int);
            }
            return Err(
                FormatError::InvalidProject(
                    with_suffix(&info.name, " 미디어 정보와 PCM 데이터가 일치하지 않습니다"),
                ),
            );
        }
        let byte_len = match info.frames.checked_mul(info.channels as u64) {
            Some(samples) => match samples.checked_mul(4) {
                Some(b) => b,
                None => {
                    proof {
                        lemma_planned_fault_stays(media, models, i + 1, media.len() as int);
                    }
                    return Err(FormatError::InvalidLength);
                },
            },
            None => {
                proof {
                    assert(info.frames * info.channels * 4 >= info.frames * info.channels) by (nonlinear_arith);
                    lemma_planned_fault_stays(media, models, i + 1, media.len() as int);
                }
                return Err(FormatError::InvalidLength);
            },
        };
        let next = match offset.checked_add(byte_len) {
            Some(v) => v,
            None => {
                proof {
                    lemma_planned_fault_stays(media, models, i + 1, media.len() as int);
                }
                return Err(FormatError::InvalidLength);
            },
        };
        let descriptor = SourceDescriptor {
            id: info.id,
            name: info.name.clone(),
            sample_rate: info.sample_rate,
            channels: info.channels,
            frames: info.frames,
            byte_offset: offset,
            byte_len,
        };
        let ghost before = descriptors@;
        descriptors.push(descriptor);
        proof {
            assert(descriptor_models(descriptors@) =~= descriptor_models(before).push(
                planned_descriptor(media[i as int], offset as int),
            ));
        }
        offset = next;
        i = i + 1;
    }
    proof {
        assert(media.len() == entries@.len());
    }
    Ok((descriptors, offset))
}

/// The little-endian bytes of the samples of one channel, in order.
pub open spec fn channel_bytes(channel: Seq<u32>) -> Seq<u8>
    decreases channel.len(),
{
    if channel.len() == 0 {
        Seq::empty()
    } else {
        channel_bytes(channel.drop_last()) + le32(channel.last())
    }
}

/// Planar PCM: each channel's bytes, one channel after another.
pub open spec fn channels_bytes(channels: Seq<Seq<u32>>) -> Seq<u8>
    decreases channels.len(),
{
    if channels.len() == 0 {
        Seq::empty()
    } else {
        channels_bytes(channels.drop_last()) + channel_bytes(channels.last())
    }
}

/// The audio section for `ds`: the PCM of the source each descriptor names,
/// one after another.
pub open spec fn pcm_stream(pool: Seq<PcmModel>, ds: Seq<DescriptorModel>) -> Seq<u8>
    decreases ds.len(),
{
    if ds.len() == 0 {
        Seq::empty()
    } else {
        pcm_stream(pool, ds.drop_last()) + channels_bytes(
            pool[pool_index(pool, ds.last().id)].channels,
        )
    }
}

/// The bytes of the file that holds project `p` with the audio in `pool`,
/// given the manifest written for it; or why it cannot be written.
pub open spec fn encode_result(p: ProjectModel, pool: Seq<PcmModel>, manifest: Seq<u8>) -> Result<
    Seq<u8>,
    FormatFault,
> {
    match plan_result(p, pool) {
        Err(fault) => Err(fault),
        Ok((ds, total)) => if manifest.len() > MAX_MANIFEST_BYTES {
            Err(FormatFault::InvalidLength)
        } else {
            let audio = pcm_stream(pool, ds);
            Ok(
                header_bytes(
                    ContainerHeader {
                        manifest_len: manifest.len() as u64,
                        audio_len: total as u64,
                        checksum: fnv1a(manifest + audio),
                    },
                ) + manifest + audio,
            )
        },
    }
}

/// Once planning succeeds, every descriptor names a medium of the project,
/// in order, with a source in the pool.
pub proof fn lemma_planned_sources(media: Seq<MediaModel>, pool: Seq<PcmModel>, n: int)
    requires
        0 <= n <= media.len(),
        planned(media, pool, n) is Ok,
    ensures
        planned(media, pool, n)->Ok_0.0.len() == n,
        forall|k: int|
            0 <= k < n ==> (#[trigger] planned(media, pool, n)->Ok_0.0[k]).id == media[k].id
                && pool_index(pool, media[k].id) >= 0,
    decreases n,
{
    if n > 0 {
        lemma_planned_sources(media, pool, n - 1);
    }
}

/// Appends the planar PCM of `channels`.
fn push_channels(out: &mut Vec<u8>, channels: &Vec<Vec<u32>>)
    ensures
        final(out)@ == old(out)@ + channels_bytes(crate::source::channel_views(channels@)),
{
    let ghost views = crate::source::channel_views(channels@);
    let ghost start = out@;
    let mut c: usize = 0;
    assert(views.take(0) =~= Seq::<Seq<u32>>::empty());
    assert(start + Seq::<u8>::empty() =~= start);
    while c < channels.len()
        invariant
            c <= channels@.len(),
            views == crate::source::channel_views(channels@),
            out@ == start + channels_bytes(views.take(c as int)),
        decreases channels.len() - c,
    {
        let channel = &channels[c];
        assert(views[c as int] == channel@);
        let ghost middle = out@;
        let mut i: usize = 0;
        assert(channel@.take(0) =~= Seq::<u32>::empty());
        assert(middle + Seq::<u8>::empty() =~= middle);
        while i < channel.len()
            invariant
                i <= channel@.len(),
                out@ == middle + channel_bytes(channel@.take(i as int)),
            decreases channel.len() - i,
        {
            crate::bytes::push_u32(out, channel[i]);
            proof {
                assert(channel@.take(i + 1).drop_last() =~= channel@.take(i as int));
                assert(channel@.take(i + 1).last() == channel@[i as int]);
            }
            i = i + 1;
        }
        proof {
            assert(channel@.take(i as int) =~= channel@);
            assert(views.take(c + 1).drop_last() =~= views.take(c as int));
            assert(views.take(c + 1).last() == channel@);
            assert(out@ =~= start + channels_bytes(views.take(c + 1)));
        }
        c = c + 1;
    }
    proof {
        assert(views.take(c as int) =~= views);
    }
}

/// The audio section for `descriptors`.
fn write_pcm(descriptors: &Vec<SourceDescriptor>, pool: &Vec<PcmSource>) -> (audio: Vec<u8>)
    requires
        forall|k: int|
            0 <= k < descriptors@.len() ==> pool_index(pool_models(pool@), #[trigger] descriptors@[k].id)
                >= 0,
    ensures
        audio@ == pcm_stream(pool_models(pool@), descriptor_models(descriptors@)),
{
    let ghost models = pool_models(pool@);
    let ghost ds = descriptor_models(descriptors@);
    let mut audio: Vec<u8> = Vec::new();
    let mut k: usize = 0;
    assert(ds.take(0) =~= Seq::<DescriptorModel>::empty());
    while k < descriptors.len()
        invariant
            k <= descriptors@.len(),
            models == pool_models(pool@),
            ds == descriptor_models(descriptors@),
            forall|j: int|
                0 <= j < descriptors@.len() ==> pool_index(models, #[trigger] descriptors@[j].id) >= 0,
            audio@ == pcm_stream(models, ds.take(k as int)),
        decreases descriptors.len() - k,
    {
        let id = descriptors[k].id;
        assert(pool_index(models, descriptors@[k as int].id) >= 0);
        let i = match find_source(pool, id) {
            Some(i) => i,
            None => {
                assert(false);
                0
            },
        };
        assert(models[i as int] == pool@[i as int]@);
        push_channels(&mut audio, pool[i].channels());
        proof {
            assert(ds.take(k + 1).drop_last() =~= ds.take(k as int));
            assert(ds.take(k + 1).last() == ds[k as int]);
        }
        k = k + 1;
    }
    proof {
        assert(ds.take(k as int) =~= ds);
    }
    audio
}

/// Appends the 40 header bytes.
fn push_header(out: &mut Vec<u8>, h: ContainerHeader)
    ensures
        final(out)@ == old(out)@ + header_bytes(h),
{
    let ghost start = out@;
    out.push(0x53u8);
    out.push(0x4fu8);
    out.push(0x4eu8);
    out.push(0x45u8);
    out.push(0x4du8);
    out.push(0x41u8);
    out.push(0x30u8);
    out.push(0x31u8);
    assert(out@ =~= start + magic());
    crate::bytes::push_u32(out, CONTAINER_VERSION);
    crate::bytes::push_u32(out, 0);
    crate::bytes::push_u64(out, h.manifest_len);
    crate::bytes::push_u64(out, h.audio_len);
    crate::bytes::push_u64(out, h.checksum);
    assert(out@ =~= start + header_bytes(h));
}

/// Header, manifest and audio, with the checksum over manifest and audio.
fn frame_container(manifest: &[u8], audio: Vec<u8>, audio_len: u64) -> (file: Vec<u8>)
    requires
        manifest@.len() <= MAX_MANIFEST_BYTES,
    ensures
        file@ == header_bytes(
            ContainerHeader {
                manifest_len: manifest@.len() as u64,
                audio_len,
                checksum: fnv1a(manifest@ + audio@),
            },
        ) + manifest@ + audio@,
{
    let mut audio = audio;
    let ghost pcm = audio@;
    let mut hasher = crate::bytes::Fnv64::new();
    hasher.update(manifest);
    hasher.update(audio.as_slice());
    let checksum = hasher.finish();
    proof {
        crate::bytes::lemma_fnv_fold_append(crate::bytes::FNV_OFFSET, manifest@, audio@);
    }
    let mut out: Vec<u8> = Vec::new();
    push_header(
        &mut out,
        ContainerHeader { manifest_len: manifest.len() as u64, audio_len, checksum },
    );
    let ghost head = out@;
    let mut i: usize = 0;
    while i < manifest.len()
        invariant
            i <= manifest@.len(),
            out@ == head + manifest@.take(i as int),
        decreases manifest.len() - i,
    {
        out.push(manifest[i]);
        proof {
            assert(manifest@.take(i + 1) =~= manifest@.take(i as int).push(manifest@[i as int]));
        }
        i = i + 1;
    }
    assert(manifest@.take(i as int) =~= manifest@);
    out.append(&mut audio);
    out
}

/// The bytes of the project file for `project` with the audio in `pool`
/// and `manifest`, the serialized project and descriptors that
/// [`plan_sources`] gives for them.
pub fn encode_container(project: &Project, pool: &Vec<PcmSource>, manifest: &[u8]) -> (result:
    Result<Vec<u8>, FormatError>)
    ensures
        match encode_result(project@, pool_models(pool@), manifest@) {
            Ok(bytes) => result matches Ok(v) && v@ == bytes,
            Err(fault) => result matches Err(e) && e@ == fault,
        },
{
    let ghost plan = plan_result(project@, pool_models(pool@));
    let (descriptors, total) = match plan_sources(project, pool) {
        Ok(plan) => plan,
        Err(e) => return Err(e),
    };
    assert(plan == Ok::<(Seq<DescriptorModel>, int), FormatFault>(
        (descriptor_models(descriptors@), total as int),
    ));
    if manifest.len() as u64 > MAX_MANIFEST_BYTES {
        return Err(FormatError::InvalidLength);
    }
    proof {
        assert(validation_issue(project@) is None);
        let media = project@.media;
        let models = pool_models(pool@);
        lemma_planned_sources(media, models, media.len() as int);
        let ds = descriptor_models(descriptors@);
        assert(planned(media, models, media.len() as int)->Ok_0.0 == ds);
        assert forall|k: int| 0 <= k < descriptors@.len() implies pool_index(
            models,
            #[trigger] descriptors@[k].id,
        ) >= 0 by {
            assert(ds[k] == descriptors@[k]@);
            assert(ds[k].id == media[k].id);
        }
    }
    let audio = write_pcm(&descriptors, pool);
    Ok(frame_container(manifest, audio, total))
}

/// A sample as it is read back: a non-finite value becomes `0.0`.
pub open spec fn sanitized(bits: u32) -> u32 {
    if f32_is_finite(bits) {
        bits
    } else {
        0
    }
}

/// `frames` samples read from consecutive 4-byte words of `file` at `base`.
pub open spec fn decoded_channel(file: Seq<u8>, base: int, frames: nat) -> Seq<u32> {
    Seq::new(frames, |i: int| sanitized(read32(file, base + 4 * i)))
}

/// `count` planar channels of `frames` samples each, read from `base` on.
pub open spec fn decoded_channels(file: Seq<u8>, base: int, frames: nat, count: nat) -> Seq<
    Seq<u32>,
> {
    Seq::new(count, |c: int| decoded_channel(file, base + 4 * frames * c, frames))
}

/// A descriptor's byte range matches its shape, lies inside the audio
/// section, and it has 1 to 64 channels.
pub open spec fn descriptor_fits(d: DescriptorModel, audio_len: u64) -> bool {
    &&& pcm_len(d.frames, d.channels) <= u64::MAX
    &&& d.byte_len == pcm_len(d.frames, d.channels)
    &&& d.byte_offset + d.byte_len <= audio_len
    &&& 1 <= d.channels <= 64
}

/// The source a descriptor reads as, with the audio section at `start`.
pub open spec fn loaded_source(file: Seq<u8>, start: int, d: DescriptorModel) -> PcmModel {
    PcmModel {
        id: d.id,
        name: d.name,
        sample_rate: d.sample_rate,
        channels: decoded_channels(file, start + d.byte_offset, d.frames as nat, d.channels as nat),
    }
}

pub open spec fn descriptor_issue(file: Seq<u8>, start: int, audio_len: u64, d: DescriptorModel) -> Option<
    FormatFault,
> {
    if !descriptor_fits(d, audio_len) {
        Some(FormatFault::InvalidLength)
    } else {
        match crate::source::source_issue(d.sample_rate, loaded_source(file, start, d).channels) {
            Some(e) => Some(FormatFault::Source(e)),
            None => None,
        }
    }
}

/// The first problem among the first `n` descriptors.
pub open spec fn descriptors_issue(
    file: Seq<u8>,
    start: int,
    audio_len: u64,
    ds: Seq<DescriptorModel>,
    n: int,
) -> Option<FormatFault>
    decreases n,
{
    if n <= 0 {
        None
    } else {
        match descriptors_issue(file, start, audio_len, ds, n - 1) {
            Some(fault) => Some(fault),
            None => descriptor_issue(file, start, audio_len, ds[n - 1]),
        }
    }
}

pub proof fn lemma_descriptors_issue_stays(
    file: Seq<u8>,
    start: int,
    audio_len: u64,
    ds: Seq<DescriptorModel>,
    k: int,
    n: int,
)
    requires
        k <= n,
        descriptors_issue(file, start, audio_len, ds, k) is Some,
    ensures
        descriptors_issue(file, start, audio_len, ds, n) == descriptors_issue(
            file,
            start,
            audio_len,
            ds,
            k,
        ),
    decreases n - k,
{
    if k < n {
        lemma_descriptors_issue_stays(file, start, audio_len, ds, k, n - 1);
    }
}

/// The bytes the first `n` descriptors cover, in descriptor order.
pub open spec fn audio_stream(file: Seq<u8>, start: int, ds: Seq<DescriptorModel>, n: int) -> Seq<
    u8,
>
    decreases n,
{
    if n <= 0 {
        Seq::empty()
    } else {
        audio_stream(file, start, ds, n - 1) + file.subrange(
            start + ds[n - 1].byte_offset,
            start + ds[n - 1].byte_offset + ds[n - 1].byte_len,
        )
    }
}

pub open spec fn loaded_models(file: Seq<u8>, start: int, ds: Seq<DescriptorModel>) -> Seq<PcmModel> {
    Seq::new(ds.len(), |k: int| loaded_source(file, start, ds[k]))
}

pub open spec fn unmatched_text(name: Seq<char>) -> Seq<char> {
    name + " 미디어가 일치하지 않습니다"@
}

/// What is wrong with the loaded audio for medium `m`: none, or audio of
/// another shape.
pub open spec fn media_match_fault(m: MediaModel, loaded: Seq<PcmModel>) -> Option<FormatFault> {
    let i = pool_index(loaded, m.id);
    if i < 0 {
        Some(FormatFault::MissingMedia(m.name))
    } else if pcm_frames(loaded[i]) != m.frames || loaded[i].sample_rate != m.sample_rate
        || loaded[i].channels.len() != m.channels {
        Some(FormatFault::InvalidProject(unmatched_text(m.name)))
    } else {
        None
    }
}

/// The first medium among the first `n` without matching audio.
pub open spec fn media_match_issue(media: Seq<MediaModel>, loaded: Seq<PcmModel>, n: int) -> Option<
    FormatFault,
>
    decreases n,
{
    if n <= 0 {
        None
    } else {
        match media_match_issue(media, loaded, n - 1) {
            Some(fault) => Some(fault),
            None => media_match_fault(media[n - 1], loaded),
        }
    }
}

pub proof fn lemma_media_match_issue_stays(
    media: Seq<MediaModel>,
    loaded: Seq<PcmModel>,
    k: int,
    n: int,
)
    requires
        k <= n,
        media_match_issue(media, loaded, k) is Some,
    ensures
        media_match_issue(media, loaded, n) == media_match_issue(media, loaded, k),
    decreases n - k,
{
    if k < n {
        lemma_media_match_issue_stays(media, loaded, k, n - 1);
    }
}

/// Reading `file` as project `p` with descriptors `ds`, the values its
/// manifest holds: the header and lengths are checked, then the project,
/// then each descriptor in order as its audio is decoded, then the
/// checksum over manifest and the audio the descriptors cover, and last
/// that every medium of the project has audio of its shape.
pub open spec fn load_result(file: Seq<u8>, p: ProjectModel, ds: Seq<DescriptorModel>) -> Result<
    Seq<PcmModel>,
    FormatFault,
> {
    match open_result(file) {
        Err(fault) => Err(fault),
        Ok(h) => {
            let start = HEADER_SIZE + h.manifest_len;
            match validation_issue(p) {
                Some(message) => Err(FormatFault::InvalidProject(message)),
                None => match descriptors_issue(file, start, h.audio_len, ds, ds.len() as int) {
                    Some(fault) => Err(fault),
                    None => if fnv1a(
                        file.subrange(HEADER_SIZE as int, start) + audio_stream(
                            file,
                            start,
                            ds,
                            ds.len() as int,
                        ),
                    ) != h.checksum {
                        Err(FormatFault::ChecksumMismatch)
                    } else {
                        let loaded = loaded_models(file, start, ds);
                        match media_match_issue(p.media, loaded, p.media.len() as int) {
                            Some(fault) => Err(fault),
                            None => Ok(loaded),
                        }
                    },
                },
            }
        },
    }
}

proof fn lemma_next_channel(frames: int, count: int, c: int)
    requires
        0 <= frames,
        0 <= c < count,
    ensures
        4 * frames * c + 4 * frames <= frames * count * 4,
        4 * frames * (c + 1) == 4 * frames * c + 4 * frames,
{
    assert(4 * frames * c + 4 * frames <= frames * count * 4) by (nonlinear_arith)
        requires
            0 <= frames,
            0 <= c < count,
    ;
    assert(4 * frames * (c + 1) == 4 * frames * c + 4 * frames) by (nonlinear_arith);
}

/// Decodes the planar PCM a fitting descriptor covers.
fn decode_channels(file: &[u8], base: usize, frames: u64, count: u16) -> (channels: Vec<Vec<u32>>)
    requires
        base + pcm_len(frames, count) <= file@.len(),
    ensures
        crate::source::channel_views(channels@) == decoded_channels(
            file@,
            base as int,
            frames as nat,
            count as nat,
        ),
{
    let ghost target = decoded_channels(file@, base as int, frames as nat, count as nat);
    let file_len = file.len();
    proof {
        if count > 0 {
            lemma_next_channel(frames as int, count as int, 0);
        }
        assert(4 * frames * 0 == 0);
    }
    let mut channels: Vec<Vec<u32>> = Vec::new();
    let mut c: u16 = 0;
    let mut channel_base: usize = base;
    assert(crate::source::channel_views(channels@) =~= target.take(0));
    while c < count
        invariant
            c <= count,
            base + pcm_len(frames, count) <= file@.len(),
            file@.len() == file_len,
            channel_base == base + 4 * frames * c,
            target == decoded_channels(file@, base as int, frames as nat, count as nat),
            crate::source::channel_views(channels@) == target.take(c as int),
        decreases count - c,
    {
        proof {
            lemma_next_channel(frames as int, count as int, c as int);
        }
        let ghost wanted = decoded_channel(file@, channel_base as int, frames as nat);
        assert(target[c as int] == wanted);
        let mut channel: Vec<u32> = Vec::new();
        let mut i: u64 = 0;
        let mut at: usize = channel_base;
        assert(channel@ =~= wanted.take(0));
        while i < frames
            invariant
                i <= frames,
                channel_base + 4 * frames <= file@.len(),
                file@.len() == file_len,
                at == channel_base + 4 * i,
                wanted == decoded_channel(file@, channel_base as int, frames as nat),
                channel@ == wanted.take(i as int),
            decreases frames - i,
        {
            let bits = crate::bytes::read_u32(file, at);
            let sample = if (bits >> 23u32) & 0xffu32 != 0xffu32 {
                bits
            } else {
                0
            };
            channel.push(sample);
            proof {
                assert(wanted[i as int] == sanitized(read32(file@, channel_base + 4 * i)));
                assert(channel@ =~= wanted.take(i + 1));
            }
            i = i + 1;
            at = at + 4;
        }
        assert(channel@ =~= wanted);
        let ghost before = channels@;
        channels.push(channel);
        proof {
            assert(crate::source::channel_views(channels@) =~= crate::source::channel_views(before).push(
                wanted,
            ));
            assert(target.take(c + 1) =~= target.take(c as int).push(wanted));
        }
        c = c + 1;
        channel_base = channel_base + 4 * (frames as usize);
    }
    assert(target.take(c as int) =~= target);
    channels
}

/// Whether descriptor `d` fits an audio section of `audio_len` bytes.
fn check_descriptor(d: &SourceDescriptor, audio_len: u64) -> (fits: bool)
    ensures
        fits == descriptor_fits(d@, audio_len),
{
    let expected = match d.frames.checked_mul(d.channels as u64) {
        Some(samples) => samples.checked_mul(4),
        None => {
            proof {
                assert(d.frames * d.channels * 4 >= d.frames * d.channels) by (nonlinear_arith);
            }
            None
        },
    };
    match expected {
        None => false,
        Some(len) => {
            if d.byte_len != len || d.channels == 0 || d.channels > 64 {
                false
            } else {
                match d.byte_offset.checked_add(d.byte_len) {
                    None => false,
                    Some(end) => end <= audio_len,
                }
            }
        },
    }
}

/// Decodes the audio of a project file whose manifest held `project` and
/// `descriptors`: one source per descriptor, in descriptor order, after
/// every check that [`load_result`] lists.
pub fn decode_container(file: &[u8], project: &Project, descriptors: &Vec<SourceDescriptor>) -> (result:
    Result<Vec<PcmSource>, FormatError>)
    ensures
        match load_result(file@, project@, descriptor_models(descriptors@)) {
            Ok(loaded) => result matches Ok(v) && pool_models(v@) == loaded,
            Err(fault) => result matches Err(e) && e@ == fault,
        },
{
    let header = match open_container(file) {
        Ok(h) => h,
        Err(e) => return Err(e),
    };
    match project.validate() {
        Ok(()) => {},
        Err(message) => return Err(FormatError::InvalidProject(message)),
    }
    let file_len = file.len();
    let start: usize = (HEADER_SIZE + header.manifest_len) as usize;
    assert(start + header.audio_len == file_len);
    let ghost ds = descriptor_models(descriptors@);
    let ghost all = loaded_models(file@, start as int, ds);
    let mut hasher = crate::bytes::Fnv64::new();
    hasher.update(vstd::slice::slice_subrange(file, HEADER_SIZE as usize, start));
    let mut sources: Vec<PcmSource> = Vec::new();
    let mut k: usize = 0;
    assert(pool_models(sources@) =~= all.take(0));
    assert(file@.subrange(HEADER_SIZE as int, start as int) + audio_stream(file@, start as int, ds, 0)
        =~= file@.subrange(HEADER_SIZE as int, start as int));
    while k < descriptors.len()
        invariant
            k <= descriptors@.len(),
            open_result(file@) == Ok::<ContainerHeader, FormatFault>(header),
            validation_issue(project@) is None,
            start == HEADER_SIZE + header.manifest_len,
            file@.len() == file_len,
            start + header.audio_len == file_len,
            ds == descriptor_models(descriptors@),
            all == loaded_models(file@, start as int, ds),
            descriptors_issue(file@, start as int, header.audio_len, ds, k as int) is None,
            hasher@ == crate::bytes::fnv_fold(
                crate::bytes::FNV_OFFSET,
                file@.subrange(HEADER_SIZE as int, start as int) + audio_stream(
                    file@,
                    start as int,
                    ds,
                    k as int,
                ),
            ),
            pool_models(sources@) == all.take(k as int),
        decreases descriptors.len() - k,
    {
        let d = &descriptors[k];
        assert(ds[k as int] == d@);
        if !check_descriptor(d, header.audio_len) {
            proof {
                lemma_descriptors_issue_stays(
                    file@,
                    start as int,
                    header.audio_len,
                    ds,
                    k + 1,
                    ds.len() as int,
                );
            }
            return Err(FormatError::InvalidLength);
        }
        assert(d.byte_offset + d.byte_len <= header.audio_len);
        let base: usize = start + d.byte_offset as usize;
        assert(base == start + ds[k as int].byte_offset);
        let channels = decode_channels(file, base, d.frames, d.channels);
        let ghost loaded = all[k as int];
        assert(loaded == loaded_source(file@, start as int, d@));
        let source = match PcmSource::new(d.id, d.name.clone(), d.sample_rate, channels) {
            Ok(source) => source,
            Err(e) => {
                proof {
                    lemma_descriptors_issue_stays(
                        file@,
                        start as int,
                        header.audio_len,
                        ds,
                        k + 1,
                        ds.len() as int,
                    );
                }
                return Err(FormatError::Source(e));
            },
        };
        let ghost before = hasher@;
        let covered = vstd::slice::slice_subrange(file, base, base + d.byte_len as usize);
        hasher.update(covered);
        proof {
            crate::bytes::lemma_fnv_fold_append(
                crate::bytes::FNV_OFFSET,
                file@.subrange(HEADER_SIZE as int, start as int) + audio_stream(
                    file@,
                    start as int,
                    ds,
                    k as int,
                ),
                covered@,
            );
            assert(file@.subrange(HEADER_SIZE as int, start as int) + audio_stream(
                file@,
                start as int,
                ds,
                k + 1,
            ) =~= file@.subrange(HEADER_SIZE as int, start as int) + audio_stream(
                file@,
                start as int,
                ds,
                k as int,
            ) + covered@);
        }
        let ghost previous = sources@;
        sources.push(source);
        proof {
            assert(pool_models(sources@) =~= pool_models(previous).push(loaded));
            assert(all.take(k + 1) =~= all.take(k as int).push(loaded));
        }
        k = k + 1;
    }
    assert(all.take(k as int) =~= all);
    if hasher.finish() != header.checksum {
        return Err(FormatError::ChecksumMismatch);
    }
    let entries = project.media.entries();
    let ghost media = media_models(entries@);
    let mut i: usize = 0;
    while i < entries.len()
        invariant
            i <= entries@.len(),
            media == media_models(entries@),
            media == project@.media,
            open_result(file@) == Ok::<ContainerHeader, FormatFault>(header),
            validation_issue(project@) is None,
            start == HEADER_SIZE + header.manifest_len,
            ds == descriptor_models(descriptors@),
            descriptors_issue(file@, start as int, header.audio_len, ds, ds.len() as int) is None,
            fnv1a(file@.subrange(HEADER_SIZE as int, start as int) + audio_stream(
                file@,
                start as int,
                ds,
                ds.len() as int,
            )) == header.checksum,
            all == loaded_models(file@, start as int, ds),
            all == pool_models(sources@),
            media_match_issue(media, all, i as int) is None,
        decreases entries.len() - i,
    {
        let info = &entries[i];
        assert(media[i as int] == info@);
        let j = match find_source(&sources, info.id) {
            Some(j) => j,
            None => {
                proof {
                    lemma_media_match_issue_stays(media, all, i + 1, media.len() as int);
                }
                return Err(FormatError::MissingMedia(info.name.clone()));
            },
        };
        let source = &sources[j];
        assert(all[j as int] == source@);
        let frames = source.shape();
        if frames as u64 != info.frames || source.sample_rate() != info.sample_rate
            || source.channels().len() != info.channels as usize {
            proof {
                lemma_media_match_issue_stays(media, all, i + 1, media.len() as int);
            }
            return Err(
                FormatError::InvalidProject(with_suffix(&info.name, " 미디어가 일치하지 않습니다")),
            );
        }
        i = i + 1;
    }
    assert(media.len() == entries@.len());
    Ok(sources)
}

} // verus!
