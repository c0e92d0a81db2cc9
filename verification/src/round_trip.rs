//! What reading gives back of what writing wrote.

use crate::bytes::{
    fnv1a, le32, le64, lemma_fnv1a_detects_one_changed_byte, lemma_read32_le32, lemma_read64_le64,
    read32, read64,
};
use crate::container::{
    audio_stream, channel_bytes, channels_bytes, decoded_channel, decoded_channels, descriptor_fits,
    descriptor_issue, descriptors_issue, loaded_models, loaded_source, pcm_len, pcm_stream, planned,
    pool_index, sanitized, DescriptorModel, encode_result, header_bytes, header_result, load_result,
    magic, media_match_fault, media_match_issue, open_result, plan_result, ContainerHeader,
    CONTAINER_VERSION, FormatFault, HEADER_SIZE, MAX_MANIFEST_BYTES,
};
use crate::media::ids_ascending;
use crate::project::ProjectModel;
use crate::validate::validation_issue;
use crate::model::MediaModel;
use crate::source::{pcm_frames, source_issue, PcmModel};
use vstd::prelude::*;

verus! {

/// Each sample of a channel takes four bytes.
pub proof fn lemma_channel_bytes_len(channel: Seq<u32>)
    ensures
        channel_bytes(channel).len() == 4 * channel.len(),
    decreases channel.len(),
{
    if channel.len() > 0 {
        lemma_channel_bytes_len(channel.drop_last());
    }
}

/// Byte `b` of sample `i` is byte `b` of the sample's little-endian form.
pub proof fn lemma_channel_bytes_at(channel: Seq<u32>, i: int, b: int)
    requires
        0 <= i < channel.len(),
        0 <= b < 4,
    ensures
        channel_bytes(channel)[4 * i + b] == le32(channel[i])[b],
    decreases channel.len(),
{
    let rest = channel.drop_last();
    lemma_channel_bytes_len(rest);
    if i < channel.len() - 1 {
        lemma_channel_bytes_at(rest, i, b);
        assert(rest[i] == channel[i]);
    }
}

/// Planar PCM of `count` channels of `frames` samples takes
/// `frames * count * 4` bytes.
pub proof fn lemma_channels_bytes_len(channels: Seq<Seq<u32>>, frames: nat)
    requires
        forall|c: int| 0 <= c < channels.len() ==> (#[trigger] channels[c]).len() == frames,
    ensures
        channels_bytes(channels).len() == frames * channels.len() * 4,
    decreases channels.len(),
{
    if channels.len() > 0 {
        let rest = channels.drop_last();
        assert forall|c: int| 0 <= c < rest.len() implies (#[trigger] rest[c]).len() == frames by {
            assert(rest[c] == channels[c]);
        }
        lemma_channels_bytes_len(rest, frames);
        lemma_channel_bytes_len(channels.last());
        let n = channels.len() as int;
        assert(frames * (n - 1) * 4 + 4 * frames == frames * n * 4) by (nonlinear_arith);
    }
}

/// Byte `b` of sample `i` of channel `c` lies at `4 * frames * c + 4 * i + b`.
pub proof fn lemma_channels_bytes_at(channels: Seq<Seq<u32>>, frames: nat, c: int, i: int, b: int)
    requires
        forall|k: int| 0 <= k < channels.len() ==> (#[trigger] channels[k]).len() == frames,
        0 <= c < channels.len(),
        0 <= i < frames,
        0 <= b < 4,
    ensures
        channels_bytes(channels)[4 * frames * c + 4 * i + b] == le32(channels[c][i])[b],
    decreases channels.len(),
{
    let n = channels.len() as int;
    let rest = channels.drop_last();
    assert forall|k: int| 0 <= k < rest.len() implies (#[trigger] rest[k]).len() == frames by {
        assert(rest[k] == channels[k]);
    }
    lemma_channels_bytes_len(rest, frames);
    if c < n - 1 {
        assert(4 * frames * c + 4 * i + b < frames * (n - 1) * 4) by (nonlinear_arith)
            requires
                0 <= c < n - 1,
                0 <= i < frames,
                0 <= b < 4,
        ;
        lemma_channels_bytes_at(rest, frames, c, i, b);
        assert(rest[c] == channels[c]);
        let whole = channels_bytes(channels);
        assert(whole == channels_bytes(rest) + channel_bytes(channels.last()));
    } else {
        assert(4 * frames * c == frames * (n - 1) * 4) by (nonlinear_arith)
            requires
                c == n - 1,
        ;
        lemma_channel_bytes_at(channels.last(), i, b);
        lemma_channel_bytes_len(channels.last());
        assert(channels.last() == channels[c]);
        let whole = channels_bytes(channels);
        assert(whole == channels_bytes(rest) + channel_bytes(channels.last()));
        assert(whole[frames * (n - 1) * 4 + (4 * i + b)] == channel_bytes(channels.last())[4 * i + b]);
    }
}

/// Four bytes that are the little-endian form of `x` read back as `x`.
pub proof fn lemma_read32_from(s: Seq<u8>, at: int, x: u32)
    requires
        0 <= at,
        at + 4 <= s.len(),
        forall|b: int| 0 <= b < 4 ==> s[at + b] == #[trigger] le32(x)[b],
    ensures
        read32(s, at) == x,
{
    assert(s[at + 0] == le32(x)[0]);
    assert(s[at + 1] == le32(x)[1]);
    assert(s[at + 2] == le32(x)[2]);
    assert(s[at + 3] == le32(x)[3]);
    assert(s.subrange(at, at + 4) =~= le32(x));
    lemma_read32_le32(x, s, at);
}

/// Every source in the pool is well formed, as every [`crate::source::PcmSource`] is.
pub open spec fn pool_well_formed(pool: Seq<PcmModel>) -> bool {
    forall|k: int| 0 <= k < pool.len() ==> source_issue(#[trigger] pool[k].sample_rate, pool[k].channels) is None
}

/// A well-formed source has 1 to 64 channels, all `pcm_frames` long.
pub proof fn lemma_source_shape(source: PcmModel)
    requires
        source_issue(source.sample_rate, source.channels) is None,
    ensures
        1 <= source.channels.len() <= 64,
        forall|c: int| 0 <= c < source.channels.len() ==> (#[trigger] source.channels[c]).len() == pcm_frames(source),
{
    assert forall|c: int| 0 <= c < source.channels.len() implies (#[trigger] source.channels[c]).len() == pcm_frames(source) by {
        if source.channels[c].len() != source.channels[0].len() {
            assert(exists|j: int| 0 <= j < source.channels.len() && #[trigger] source.channels[j].len() != source.channels[0].len());
        }
    }
}

spec fn planned_ds(media: Seq<MediaModel>, pool: Seq<PcmModel>, n: int) -> Seq<DescriptorModel> {
    planned(media, pool, n)->Ok_0.0
}

spec fn planned_end(media: Seq<MediaModel>, pool: Seq<PcmModel>, n: int) -> int {
    planned(media, pool, n)->Ok_0.1
}

spec fn source_of(pool: Seq<PcmModel>, m: MediaModel) -> PcmModel {
    pool[pool_index(pool, m.id)]
}

/// A descriptor planned for medium `m` names it, has a source of its shape
/// in the pool, and spans exactly that source's PCM.
spec fn describes(d: DescriptorModel, m: MediaModel, pool: Seq<PcmModel>) -> bool {
    &&& d.id == m.id
    &&& d.name == m.name
    &&& d.sample_rate == m.sample_rate
    &&& d.channels == m.channels
    &&& d.frames == m.frames
    &&& pcm_len(m.frames, m.channels) <= u64::MAX
    &&& d.byte_len == pcm_len(m.frames, m.channels)
    &&& pool_index(pool, m.id) >= 0
    &&& source_of(pool, m).sample_rate == m.sample_rate
    &&& source_of(pool, m).channels.len() == m.channels
    &&& pcm_frames(source_of(pool, m)) == m.frames
}

/// The layout planning gives: descriptors in media order, back to back from
/// offset 0, each spanning its source's PCM in the audio section.
proof fn lemma_planned_layout(media: Seq<MediaModel>, pool: Seq<PcmModel>, n: int)
    requires
        0 <= n <= media.len(),
        pool_well_formed(pool),
        planned(media, pool, n) is Ok,
    ensures
        planned_ds(media, pool, n).len() == n,
        planned_end(media, pool, n) <= u64::MAX,
        pcm_stream(pool, planned_ds(media, pool, n)).len() == planned_end(media, pool, n),
        forall|k: int|
            0 <= k < n ==> describes(#[trigger] planned_ds(media, pool, n)[k], media[k], pool),
        forall|k: int|
            0 <= k < n ==> (#[trigger] planned_ds(media, pool, n)[k]).byte_offset
                + planned_ds(media, pool, n)[k].byte_len <= planned_end(media, pool, n),
        forall|k: int|
            0 <= k < n ==> pcm_stream(pool, planned_ds(media, pool, n)).subrange(
                (#[trigger] planned_ds(media, pool, n)[k]).byte_offset as int,
                planned_ds(media, pool, n)[k].byte_offset + planned_ds(media, pool, n)[k].byte_len,
            ) == channels_bytes(source_of(pool, media[k]).channels),
    decreases n,
{
    if n > 0 {
        lemma_planned_layout(media, pool, n - 1);
        let ds = planned_ds(media, pool, n - 1);
        let offset = planned_end(media, pool, n - 1);
        let m = media[n - 1];
        let i = pool_index(pool, m.id);
        crate::container::lemma_pool_index(pool, m.id);
        let source = pool[i];
        lemma_source_shape(source);
        lemma_channels_bytes_len(source.channels, pcm_frames(source));
        let d = crate::container::planned_descriptor(m, offset);
        let all = planned_ds(media, pool, n);
        assert(all == ds.push(d));
        assert(all.drop_last() =~= ds);
        let before = pcm_stream(pool, ds);
        let added = channels_bytes(source.channels);
        assert(pcm_stream(pool, all) == before + added);
        assert(added.len() == pcm_len(m.frames, m.channels));
        assert forall|k: int| 0 <= k < n implies describes(#[trigger] all[k], media[k], pool) by {
            if k < n - 1 {
                assert(all[k] == ds[k]);
            }
        }
        assert forall|k: int| 0 <= k < n implies pcm_stream(pool, all).subrange(
            (#[trigger] all[k]).byte_offset as int,
            all[k].byte_offset + all[k].byte_len,
        ) == channels_bytes(source_of(pool, media[k]).channels) by {
            if k < n - 1 {
                assert(all[k] == ds[k]);
                assert((before + added).subrange(all[k].byte_offset as int, all[k].byte_offset + all[k].byte_len)
                    =~= before.subrange(all[k].byte_offset as int, all[k].byte_offset + all[k].byte_len));
            } else {
                assert((before + added).subrange(offset, offset + added.len()) =~= added);
            }
        }
        assert forall|k: int| 0 <= k < n implies (#[trigger] all[k]).byte_offset + all[k].byte_len
            <= planned_end(media, pool, n) by {
            if k < n - 1 {
                assert(all[k] == ds[k]);
            }
        }
    }
}

/// Every sample of every channel as it is read back.
pub open spec fn sanitized_channels(channels: Seq<Seq<u32>>) -> Seq<Seq<u32>> {
    Seq::new(
        channels.len(),
        |c: int| Seq::new(channels[c].len(), |i: int| sanitized(channels[c][i])),
    )
}

/// Planar PCM decodes to its samples, each read as [`sanitized`].
proof fn lemma_decode_channels(file: Seq<u8>, base: int, channels: Seq<Seq<u32>>, frames: nat)
    requires
        0 <= base,
        base + frames * channels.len() * 4 <= file.len(),
        forall|c: int| 0 <= c < channels.len() ==> (#[trigger] channels[c]).len() == frames,
        file.subrange(base, base + frames * channels.len() * 4) == channels_bytes(channels),
    ensures
        decoded_channels(file, base, frames, channels.len()) == sanitized_channels(channels),
{
    let count = channels.len();
    let bytes = channels_bytes(channels);
    let decoded = decoded_channels(file, base, frames, count);
    let wanted = sanitized_channels(channels);
    assert forall|c: int| 0 <= c < count implies #[trigger] decoded[c] == wanted[c] by {
        let row = decoded_channel(file, base + 4 * frames * c, frames);
        assert forall|i: int| 0 <= i < frames implies #[trigger] row[i] == wanted[c][i] by {
            assert forall|b: int| 0 <= b < 4 implies file[base + 4 * frames * c + 4 * i + b]
                == #[trigger] le32(channels[c][i])[b] by {
                assert(4 * frames * c + 4 * i + b < frames * count * 4) by (nonlinear_arith)
                    requires
                        0 <= c < count,
                        0 <= i < frames,
                        0 <= b < 4,
                ;
                assert(0 <= 4 * frames * c) by (nonlinear_arith)
                    requires
                        0 <= c,
                ;
                lemma_channels_bytes_at(channels, frames, c, i, b);
                assert(file[base + (4 * frames * c + 4 * i + b)] == bytes[4 * frames * c + 4 * i + b]);
            }
            assert(4 * frames * c + 4 * i + 4 <= frames * count * 4) by (nonlinear_arith)
                requires
                    0 <= c < count,
                    0 <= i < frames,
            ;
            assert(0 <= 4 * frames * c) by (nonlinear_arith)
                requires
                    0 <= c,
            ;
            lemma_read32_from(file, base + 4 * frames * c + 4 * i, channels[c][i]);
        }
        assert(row =~= wanted[c]);
    }
    assert(decoded =~= wanted);
}

/// The audio a medium reads back as: its own identifier, name and rate, with
/// the samples of its source in the pool.
pub open spec fn restored_source(m: MediaModel, pool: Seq<PcmModel>) -> PcmModel {
    PcmModel {
        id: m.id,
        name: m.name,
        sample_rate: m.sample_rate,
        channels: sanitized_channels(pool[pool_index(pool, m.id)].channels),
    }
}

/// Reading samples back keeps the shape of the channels.
proof fn lemma_sanitized_shape(source: PcmModel)
    requires
        source_issue(source.sample_rate, source.channels) is None,
    ensures
        source_issue(source.sample_rate, sanitized_channels(source.channels)) is None,
{
    let clean = sanitized_channels(source.channels);
    lemma_source_shape(source);
    assert forall|c: int| 0 <= c < clean.len() implies #[trigger] clean[c].len() == clean[0].len() by {
        assert(source.channels[c].len() == pcm_frames(source));
        assert(source.channels[0].len() == pcm_frames(source));
    }
}

/// Walking the descriptors of a written file: each fits, decodes to its
/// source's samples, and the bytes they cover are the audio section.
proof fn lemma_loaded_walk(
    file: Seq<u8>,
    start: int,
    media: Seq<MediaModel>,
    pool: Seq<PcmModel>,
    n: int,
)
    requires
        pool_well_formed(pool),
        planned(media, pool, media.len() as int) is Ok,
        0 <= start,
        start + planned_end(media, pool, media.len() as int) == file.len(),
        file.subrange(start, file.len() as int) == pcm_stream(
            pool,
            planned_ds(media, pool, media.len() as int),
        ),
        0 <= n <= media.len(),
    ensures
        audio_stream(file, start, planned_ds(media, pool, media.len() as int), n) == pcm_stream(
            pool,
            planned_ds(media, pool, media.len() as int).take(n),
        ),
        descriptors_issue(
            file,
            start,
            planned_end(media, pool, media.len() as int) as u64,
            planned_ds(media, pool, media.len() as int),
            n,
        ) is None,
        forall|k: int|
            0 <= k < n ==> loaded_source(
                file,
                start,
                #[trigger] planned_ds(media, pool, media.len() as int)[k],
            ) == restored_source(media[k], pool),
    decreases n,
{
    let total = media.len() as int;
    let ds = planned_ds(media, pool, total);
    let end = planned_end(media, pool, total);
    lemma_planned_layout(media, pool, total);
    if n > 0 {
        lemma_loaded_walk(file, start, media, pool, n - 1);
        let k = n - 1;
        let d = ds[k];
        let m = media[k];
        assert(describes(d, m, pool));
        let source = source_of(pool, m);
        crate::container::lemma_pool_index(pool, m.id);
        lemma_source_shape(source);
        let audio = pcm_stream(pool, ds);
        let off = d.byte_offset as int;
        let len = d.byte_len as int;
        assert(off + len <= end);
        assert(file.subrange(start + off, start + off + len) =~= audio.subrange(off, off + len));
        assert(audio.subrange(off, off + len) == channels_bytes(source.channels));
        lemma_decode_channels(file, start + off, source.channels, m.frames as nat);
        assert(loaded_source(file, start, d) == restored_source(m, pool));
        lemma_sanitized_shape(source);
        assert(descriptor_fits(d, end as u64));
        assert(descriptor_issue(file, start, end as u64, d) is None);
        assert(ds.take(n).drop_last() =~= ds.take(k));
        assert(ds.take(n).last() == d);
    } else {
        assert(ds.take(0) =~= Seq::<DescriptorModel>::empty());
    }
}

/// A header is read back as the numbers written into it, whatever follows.
proof fn lemma_header_read(h: ContainerHeader, rest: Seq<u8>)
    ensures
        header_result(header_bytes(h) + rest) == Ok::<ContainerHeader, crate::container::FormatFault>(h),
{
    let file = header_bytes(h) + rest;
    let head = header_bytes(h);
    assert(head.len() == 40);
    assert(file.subrange(0, 8) =~= magic());
    assert(file.subrange(8, 12) =~= le32(CONTAINER_VERSION));
    lemma_read32_le32(CONTAINER_VERSION, file, 8);
    assert(file.subrange(16, 24) =~= le64(h.manifest_len));
    lemma_read64_le64(h.manifest_len, file, 16);
    assert(file.subrange(24, 32) =~= le64(h.audio_len));
    lemma_read64_le64(h.audio_len, file, 24);
    assert(file.subrange(32, 40) =~= le64(h.checksum));
    lemma_read64_le64(h.checksum, file, 32);
}

/// In a pool whose identifiers ascend, the source for an identifier is the
/// one that carries it.
proof fn lemma_pool_index_unique(loaded: Seq<PcmModel>, k: int)
    requires
        0 <= k < loaded.len(),
        forall|i: int, j: int| 0 <= i < j < loaded.len() ==> loaded[i].id < loaded[j].id,
    ensures
        pool_index(loaded, loaded[k].id) == k,
{
    let id = loaded[k].id;
    crate::container::lemma_pool_index(loaded, id);
    let r = pool_index(loaded, id);
    if r > k {
        assert(loaded[k].id < loaded[r].id);
    } else if r < k {
        assert(loaded[k].id != id);
    }
}

/// Writing a project with the audio of its media and reading the file
/// back, with the project and descriptors its manifest holds, gives every
/// medium's audio back in identifier order: its identifier, name and rate,
/// and the samples of its source, each non-finite one read as zero. The
/// manifest is found again in the file where the header says.
pub proof fn lemma_round_trip(p: ProjectModel, pool: Seq<PcmModel>, manifest: Seq<u8>)
    requires
        pool_well_formed(pool),
        ids_ascending(p.media),
        encode_result(p, pool, manifest) is Ok,
    ensures
        plan_result(p, pool) is Ok,
        open_result(encode_result(p, pool, manifest)->Ok_0) == Ok::<
            ContainerHeader,
            crate::container::FormatFault,
        >(
            ContainerHeader {
                manifest_len: manifest.len() as u64,
                audio_len: plan_result(p, pool)->Ok_0.1 as u64,
                checksum: fnv1a(manifest + pcm_stream(pool, plan_result(p, pool)->Ok_0.0)),
            },
        ),
        encode_result(p, pool, manifest)->Ok_0.subrange(
            HEADER_SIZE as int,
            HEADER_SIZE + manifest.len(),
        ) == manifest,
        load_result(encode_result(p, pool, manifest)->Ok_0, p, plan_result(p, pool)->Ok_0.0) == Ok::<
            Seq<PcmModel>,
            crate::container::FormatFault,
        >(Seq::new(p.media.len(), |k: int| restored_source(p.media[k], pool))),
{
    let media = p.media;
    let n = media.len() as int;
    assert(validation_issue(p) is None);
    lemma_planned_layout(media, pool, n);
    let ds = planned_ds(media, pool, n);
    let total = planned_end(media, pool, n);
    let audio = pcm_stream(pool, ds);
    let h = ContainerHeader {
        manifest_len: manifest.len() as u64,
        audio_len: total as u64,
        checksum: fnv1a(manifest + audio),
    };
    let file = encode_result(p, pool, manifest)->Ok_0;
    assert(file == header_bytes(h) + manifest + audio);
    assert(header_bytes(h) + manifest + audio =~= header_bytes(h) + (manifest + audio));
    lemma_header_read(h, manifest + audio);
    assert(open_result(file) == Ok::<ContainerHeader, crate::container::FormatFault>(h));
    let start = HEADER_SIZE + manifest.len();
    assert(file.subrange(HEADER_SIZE as int, start) =~= manifest);
    assert(file.subrange(start, file.len() as int) =~= audio);
    lemma_loaded_walk(file, start, media, pool, n);
    assert(ds.take(n) =~= ds);
    let loaded = loaded_models(file, start, ds);
    let restored = Seq::new(media.len(), |k: int| restored_source(media[k], pool));
    assert(loaded =~= restored);
    assert forall|i: int, j: int| 0 <= i < j < loaded.len() implies loaded[i].id < loaded[j].id by {
        assert(describes(ds[i], media[i], pool));
        assert(describes(ds[j], media[j], pool));
    }
    assert forall|k: int| 0 <= k < n implies #[trigger] media_match_fault(media[k], loaded) is None by {
        assert(describes(ds[k], media[k], pool));
        lemma_pool_index_unique(loaded, k);
        let source = source_of(pool, media[k]);
        crate::container::lemma_pool_index(pool, media[k].id);
        lemma_source_shape(source);
    }
    lemma_media_match_walk(media, loaded, n);
}

/// Where the bytes of the first `n` descriptors end.
spec fn stream_end(ds: Seq<DescriptorModel>, n: int) -> int {
    if n <= 0 {
        0
    } else {
        ds[n - 1].byte_offset + ds[n - 1].byte_len
    }
}

/// The first `n` descriptors lie back to back from offset 0.
spec fn back_to_back(ds: Seq<DescriptorModel>, n: int) -> bool {
    forall|k: int| 0 <= k < n ==> (#[trigger] ds[k]).byte_offset == stream_end(ds, k)
}

/// Planning lays the descriptors back to back and ends where the last ends.
proof fn lemma_planned_back_to_back(media: Seq<MediaModel>, pool: Seq<PcmModel>, n: int)
    requires
        0 <= n <= media.len(),
        planned(media, pool, n) is Ok,
    ensures
        planned_ds(media, pool, n).len() == n,
        back_to_back(planned_ds(media, pool, n), n),
        planned_end(media, pool, n) == stream_end(planned_ds(media, pool, n), n),
    decreases n,
{
    if n > 0 {
        assert(planned(media, pool, n - 1) is Ok);
        lemma_planned_back_to_back(media, pool, n - 1);
        let ds = planned_ds(media, pool, n - 1);
        let all = planned_ds(media, pool, n);
        assert(all == ds.push(crate::container::planned_descriptor(media[n - 1], planned_end(media, pool, n - 1))));
        assert forall|k: int| 0 <= k < n implies (#[trigger] all[k]).byte_offset == stream_end(all, k) by {
            if k < n - 1 {
                assert(all[k] == ds[k]);
                if k > 0 {
                    assert(all[k - 1] == ds[k - 1]);
                }
            } else if k > 0 {
                assert(all[k - 1] == ds[k - 1]);
            }
        }
    }
}

/// The bytes that back-to-back descriptors cover are one stretch of the file.
proof fn lemma_audio_stream_back_to_back(file: Seq<u8>, start: int, ds: Seq<DescriptorModel>, n: int)
    requires
        0 <= n <= ds.len(),
        back_to_back(ds, n),
        0 <= start,
        start + stream_end(ds, n) <= file.len(),
    ensures
        0 <= stream_end(ds, n),
        audio_stream(file, start, ds, n) == file.subrange(start, start + stream_end(ds, n)),
    decreases n,
{
    if n > 0 {
        assert(ds[n - 1].byte_offset == stream_end(ds, n - 1));
        lemma_audio_stream_back_to_back(file, start, ds, n - 1);
        let off = start + stream_end(ds, n - 1);
        assert(file.subrange(start, off) + file.subrange(off, start + stream_end(ds, n)) =~= file.subrange(
            start,
            start + stream_end(ds, n),
        ));
    } else {
        assert(file.subrange(start, start) =~= Seq::<u8>::empty());
    }
}

/// Whether a descriptor is accepted does not depend on the bytes it covers:
/// decoding gives channels of its shape whatever they hold.
proof fn lemma_descriptor_issue_any_bytes(
    f: Seq<u8>,
    g: Seq<u8>,
    start: int,
    audio_len: u64,
    d: DescriptorModel,
)
    ensures
        descriptor_issue(f, start, audio_len, d) == descriptor_issue(g, start, audio_len, d),
{
    let a = loaded_source(f, start, d).channels;
    let b = loaded_source(g, start, d).channels;
    assert(a.len() == b.len());
    assert forall|c: int| 0 <= c < a.len() implies (#[trigger] a[c]).len() == b[c].len() by {}
    if a.len() > 0 {
        assert((exists|c: int| 0 <= c < a.len() && #[trigger] a[c].len() != a[0].len()) == (exists|c: int|
            0 <= c < b.len() && #[trigger] b[c].len() != b[0].len())) by {
            if exists|c: int| 0 <= c < a.len() && #[trigger] a[c].len() != a[0].len() {
                let c = choose|c: int| 0 <= c < a.len() && #[trigger] a[c].len() != a[0].len();
                assert(b[c].len() != b[0].len());
            }
            if exists|c: int| 0 <= c < b.len() && #[trigger] b[c].len() != b[0].len() {
                let c = choose|c: int| 0 <= c < b.len() && #[trigger] b[c].len() != b[0].len();
                assert(a[c].len() != a[0].len());
            }
        }
    }
}

proof fn lemma_descriptors_issue_any_bytes(
    f: Seq<u8>,
    g: Seq<u8>,
    start: int,
    audio_len: u64,
    ds: Seq<DescriptorModel>,
    n: int,
)
    requires
        n <= ds.len(),
    ensures
        descriptors_issue(f, start, audio_len, ds, n) == descriptors_issue(g, start, audio_len, ds, n),
    decreases n,
{
    if n > 0 {
        lemma_descriptors_issue_any_bytes(f, g, start, audio_len, ds, n - 1);
        lemma_descriptor_issue_any_bytes(f, g, start, audio_len, ds[n - 1]);
    }
}

/// Reading a file whose header and descriptors pass but whose checksum
/// does not match fails with a checksum mismatch.
proof fn lemma_mismatch_is_reported(file: Seq<u8>, p: ProjectModel, ds: Seq<DescriptorModel>, h: ContainerHeader)
    requires
        open_result(file) == Ok::<ContainerHeader, FormatFault>(h),
        validation_issue(p) is None,
        descriptors_issue(file, HEADER_SIZE + h.manifest_len, h.audio_len, ds, ds.len() as int) is None,
        fnv1a(
            file.subrange(HEADER_SIZE as int, HEADER_SIZE + h.manifest_len) + audio_stream(
                file,
                HEADER_SIZE + h.manifest_len,
                ds,
                ds.len() as int,
            ),
        ) != h.checksum,
    ensures
        load_result(file, p, ds) == Err::<Seq<PcmModel>, FormatFault>(FormatFault::ChecksumMismatch),
{
}

/// Changing any one byte of the audio section of a written file makes
/// reading it back fail with a checksum mismatch.
#[verifier::spinoff_prover]
#[verifier::rlimit(40)]
pub proof fn lemma_changed_audio_byte_is_caught(
    p: ProjectModel,
    pool: Seq<PcmModel>,
    manifest: Seq<u8>,
    k: int,
    byte: u8,
)
    requires
        pool_well_formed(pool),
        ids_ascending(p.media),
        encode_result(p, pool, manifest) is Ok,
        HEADER_SIZE + manifest.len() <= k < encode_result(p, pool, manifest)->Ok_0.len(),
        byte != encode_result(p, pool, manifest)->Ok_0[k],
    ensures
        load_result(encode_result(p, pool, manifest)->Ok_0.update(k, byte), p, plan_result(p, pool)->Ok_0.0)
            == Err::<Seq<PcmModel>, FormatFault>(FormatFault::ChecksumMismatch),
{
    let media = p.media;
    let n = media.len() as int;
    assert(validation_issue(p) is None);
    let ds = planned_ds(media, pool, n);
    let total = planned_end(media, pool, n);
    let audio = pcm_stream(pool, ds);
    assert(ds.len() == n && audio.len() == total && total <= u64::MAX && stream_end(ds, n) == total
        && back_to_back(ds, n)) by {
        lemma_planned_layout(media, pool, n);
        lemma_planned_back_to_back(media, pool, n);
    }
    let h = ContainerHeader {
        manifest_len: manifest.len() as u64,
        audio_len: total as u64,
        checksum: fnv1a(manifest + audio),
    };
    let f = encode_result(p, pool, manifest)->Ok_0;
    let g = f.update(k, byte);
    let rest = manifest + audio;
    let start = HEADER_SIZE + manifest.len();
    assert(f =~= header_bytes(h) + rest);
    assert(open_result(g) == Ok::<ContainerHeader, FormatFault>(h)) by {
        assert(g =~= header_bytes(h) + rest.update(k - HEADER_SIZE, byte));
        lemma_header_read(h, rest.update(k - HEADER_SIZE, byte));
    }
    assert(descriptors_issue(g, start, h.audio_len, ds, n) is None) by {
        assert(f.subrange(start, f.len() as int) =~= audio);
        lemma_loaded_walk(f, start, media, pool, n);
        lemma_descriptors_issue_any_bytes(f, g, start, h.audio_len, ds, n);
    }
    let checked_f = f.subrange(HEADER_SIZE as int, start) + audio_stream(f, start, ds, n);
    let checked_g = g.subrange(HEADER_SIZE as int, start) + audio_stream(g, start, ds, n);
    assert(checked_f =~= rest && checked_g =~= rest.update(k - HEADER_SIZE, byte)) by {
        lemma_audio_stream_back_to_back(f, start, ds, n);
        lemma_audio_stream_back_to_back(g, start, ds, n);
    }
    lemma_fnv1a_detects_one_changed_byte(rest, k - HEADER_SIZE, byte);
    lemma_mismatch_is_reported(g, p, ds, h);
}

proof fn lemma_media_match_walk(media: Seq<MediaModel>, loaded: Seq<PcmModel>, n: int)
    requires
        0 <= n <= media.len(),
        forall|k: int| 0 <= k < n ==> #[trigger] media_match_fault(media[k], loaded) is None,
    ensures
        media_match_issue(media, loaded, n) is None,
    decreases n,
{
    if n > 0 {
        lemma_media_match_walk(media, loaded, n - 1);
        assert(media_match_fault(media[n - 1], loaded) is None);
    }
}

} // verus!
