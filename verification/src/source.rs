//! Decoded audio held as planar PCM: one sequence of `f32` bit patterns per
//! channel, all of one length.

use crate::model::{optional_text, MediaId, MediaInfo, MediaModel};
use vstd::prelude::*;

verus! {

#[derive(Debug, Clone, Copy, PartialEq, Eq, Structural)]
pub enum SourceError {
    NoChannels,
    UnequalChannelLengths,
    InvalidSampleRate,
    Empty,
}

pub open spec fn source_error_text(error: SourceError) -> Seq<char> {
    match error {
        SourceError::NoChannels => "오디오에 채널이 없습니다"@,
        SourceError::UnequalChannelLengths => "오디오 채널 길이가 서로 다릅니다"@,
        SourceError::InvalidSampleRate => "오디오 샘플레이트가 올바르지 않습니다"@,
        SourceError::Empty => "오디오 파일이 비어 있습니다"@,
    }
}

impl SourceError {
    /// The message shown to the user.
    pub fn message(&self) -> (text: String)
        ensures
            text@ == source_error_text(*self),
    {
        match self {
            SourceError::NoChannels => String::from_str("오디오에 채널이 없습니다"),
            SourceError::UnequalChannelLengths => String::from_str("오디오 채널 길이가 서로 다릅니다"),
            SourceError::InvalidSampleRate => String::from_str("오디오 샘플레이트가 올바르지 않습니다"),
            SourceError::Empty => String::from_str("오디오 파일이 비어 있습니다"),
        }
    }
}

pub open spec fn channel_views(channels: Seq<Vec<u32>>) -> Seq<Seq<u32>> {
    channels.map_values(|channel: Vec<u32>| channel@)
}

/// What is wrong with audio of this rate and these channels, if anything:
/// the rate must be 8 to 768 kHz, and there must be 1 to 64 channels of one
/// length, not zero.
pub open spec fn source_issue(sample_rate: u32, channels: Seq<Seq<u32>>) -> Option<SourceError> {
    if !(8_000 <= sample_rate <= 768_000) {
        Some(SourceError::InvalidSampleRate)
    } else if channels.len() == 0 {
        Some(SourceError::NoChannels)
    } else if channels[0].len() == 0 {
        Some(SourceError::Empty)
    } else if channels.len() > 64 || exists|c: int| 0 <= c < channels.len() && #[trigger] channels[c].len() != channels[0].len() {
        Some(SourceError::UnequalChannelLengths)
    } else {
        None
    }
}

/// Checks audio of `sample_rate` with channels of the given lengths.
pub fn check_source_shape(sample_rate: u32, channels: &Vec<Vec<u32>>) -> (issue: Option<SourceError>)
    ensures
        issue == source_issue(sample_rate, channel_views(channels@)),
{
    let ghost views = channel_views(channels@);
    if !(8_000 <= sample_rate && sample_rate <= 768_000) {
        return Some(SourceError::InvalidSampleRate);
    }
    if channels.len() == 0 {
        return Some(SourceError::NoChannels);
    }
    let frames = channels[0].len();
    assert(views[0].len() == frames);
    if frames == 0 {
        return Some(SourceError::Empty);
    }
    if channels.len() > 64 {
        return Some(SourceError::UnequalChannelLengths);
    }
    let mut c: usize = 0;
    while c < channels.len()
        invariant
            views == channel_views(channels@),
            channels.len() <= 64,
            channels.len() > 0,
            frames > 0,
            8_000 <= sample_rate <= 768_000,
            frames == views[0].len(),
            c <= channels.len(),
            forall|k: int| 0 <= k < c ==> #[trigger] views[k].len() == frames,
        decreases channels.len() - c,
    {
        assert(views[c as int] == channels@[c as int]@);
        if channels[c].len() != frames {
            assert(views[c as int].len() != views[0].len());
            return Some(SourceError::UnequalChannelLengths);
        }
        c = c + 1;
    }
    None
}

/// The decoded samples an interleaved block of `count` frames adds to
/// channel `c`: every `channels`-th sample from `c` on, each non-finite one
/// read as silence.
pub open spec fn planar_part(interleaved: Seq<u32>, channels: nat, c: int) -> Seq<u32> {
    Seq::new(
        interleaved.len() / channels,
        |i: int|
            if crate::bits::f32_is_finite(interleaved[i * channels + c]) {
                interleaved[i * channels + c]
            } else {
                0
            },
    )
}

/// Appends a block of interleaved samples (`f32` bits) to planar channels,
/// one frame per `channels.len()` samples; a trailing partial frame is
/// dropped and non-finite samples become silence.
pub fn deinterleave_into(channels: &mut Vec<Vec<u32>>, interleaved: &[u32])
    requires
        old(channels)@.len() > 0,
    ensures
        final(channels)@.len() == old(channels)@.len(),
        forall|c: int|
            0 <= c < old(channels)@.len() ==> #[trigger] final(channels)@[c]@ == old(channels)@[c]@
                + planar_part(interleaved@, old(channels)@.len(), c),
{
    let count = channels.len();
    let total = interleaved.len();
    let frames = total / count;
    let ghost start = channels@;
    let mut i: usize = 0;
    proof {
        assert forall|c: int| 0 <= c < count implies #[trigger] channels@[c]@ == start[c]@ + planar_part(interleaved@, count as nat, c).take(0) by {
            assert(planar_part(interleaved@, count as nat, c).take(0) =~= Seq::<u32>::empty());
            assert(start[c]@ + Seq::<u32>::empty() =~= start[c]@);
        }
    }
    while i < frames
        invariant
            count == start.len(),
            count > 0,
            frames == interleaved@.len() / (count as nat),
            total == interleaved@.len(),
            i <= frames,
            channels@.len() == count,
            forall|c: int| 0 <= c < count ==> #[trigger] channels@[c]@ == start[c]@ + planar_part(
                interleaved@,
                count as nat,
                c,
            ).take(i as int),
        decreases frames - i,
    {
        proof {
            assert((i as int) * (count as int) + (count as int) <= (frames as int) * (count as int)) by (nonlinear_arith)
                requires i < frames;
            assert((frames as int) * (count as int) <= interleaved@.len()) by (nonlinear_arith)
                requires frames == interleaved@.len() / (count as nat), count > 0;
        }
        let mut c: usize = 0;
        let base = i * count;
        while c < count
            invariant
                count == start.len(),
                count > 0,
                frames == interleaved@.len() / (count as nat),
                total == interleaved@.len(),
                i < frames,
                base == i * count,
                base + count <= interleaved@.len(),
                c <= count,
                channels@.len() == count,
                forall|k: int| 0 <= k < c ==> #[trigger] channels@[k]@ == start[k]@ + planar_part(
                    interleaved@,
                    count as nat,
                    k,
                ).take(i + 1),
                forall|k: int| c <= k < count ==> #[trigger] channels@[k]@ == start[k]@ + planar_part(
                    interleaved@,
                    count as nat,
                    k,
                ).take(i as int),
            decreases count - c,
        {
            let bits = interleaved[base + c];
            let sample = if (bits >> 23u32) & 0xffu32 != 0xffu32 {
                bits
            } else {
                0
            };
            let ghost before = channels@;
            channels[c].push(sample);
            proof {
                let part = planar_part(interleaved@, count as nat, c as int);
                assert(part[i as int] == sample);
                assert(part.take(i + 1) =~= part.take(i as int).push(sample));
                assert forall|k: int| 0 <= k < count && k != c implies #[trigger] channels@[k] == before[k] by {}
            }
            c = c + 1;
        }
        i = i + 1;
    }
    proof {
        assert forall|c: int| 0 <= c < count implies planar_part(interleaved@, count as nat, c).take(frames as int) =~= planar_part(interleaved@, count as nat, c) by {}
    }
}

/// Planar PCM of one piece of media.
#[derive(Debug)]
pub struct PcmSource {
    id: MediaId,
    name: String,
    sample_rate: u32,
    channels: Vec<Vec<u32>>,
}

pub struct PcmModel {
    pub id: MediaId,
    pub name: Seq<char>,
    pub sample_rate: u32,
    pub channels: Seq<Seq<u32>>,
}

impl View for PcmSource {
    type V = PcmModel;

    closed spec fn view(&self) -> PcmModel {
        PcmModel {
            id: self.id,
            name: self.name@,
            sample_rate: self.sample_rate,
            channels: channel_views(self.channels@),
        }
    }
}

/// The number of frames: the length of the first channel.
pub open spec fn pcm_frames(p: PcmModel) -> nat {
    if p.channels.len() == 0 { 0 } else { p.channels[0].len() }
}

impl PcmSource {
    #[verifier::type_invariant]
    closed spec fn well_formed(self) -> bool {
        source_issue(self.sample_rate, channel_views(self.channels@)) is None
    }

    /// Audio of `sample_rate` with the given channels, refused with the first
    /// problem found.
    pub fn new(id: MediaId, name: String, sample_rate: u32, channels: Vec<Vec<u32>>) -> (source: Result<PcmSource, SourceError>)
        ensures
            match source_issue(sample_rate, channel_views(channels@)) {
                Some(e) => source == Err::<PcmSource, SourceError>(e),
                None => source matches Ok(s) && s@ == (PcmModel {
                    id,
                    name: name@,
                    sample_rate,
                    channels: channel_views(channels@),
                }),
            },
    {
        match check_source_shape(sample_rate, &channels) {
            Some(e) => Err(e),
            None => Ok(PcmSource { id, name, sample_rate, channels }),
        }
    }

    /// Every source is well formed.
    pub fn shape(&self) -> (frames: usize)
        ensures
            source_issue(self@.sample_rate, self@.channels) is None,
            frames == pcm_frames(self@),
    {
        proof {
            use_type_invariant(self);
        }
        self.channels[0].len()
    }

    pub fn id(&self) -> (id: MediaId)
        ensures
            id == self@.id,
    {
        self.id
    }

    pub fn name(&self) -> (name: &String)
        ensures
            name@ == self@.name,
    {
        &self.name
    }

    pub fn sample_rate(&self) -> (rate: u32)
        ensures
            rate == self@.sample_rate,
    {
        self.sample_rate
    }

    pub fn channels(&self) -> (channels: &Vec<Vec<u32>>)
        ensures
            channel_views(channels@) == self@.channels,
    {
        &self.channels
    }

    /// Newly recorded audio under a fresh identifier.
    pub fn from_recording(name: String, sample_rate: u32, channels: Vec<Vec<u32>>) -> (source: Result<
        PcmSource,
        SourceError,
    >)
        ensures
            match source_issue(sample_rate, channel_views(channels@)) {
                Some(e) => source == Err::<PcmSource, SourceError>(e),
                None => source matches Ok(s) && s@.id != 0 && s@.name == name@ && s@.sample_rate
                    == sample_rate && s@.channels == channel_views(channels@),
            },
    {
        PcmSource::new(crate::clock::new_id(), name, sample_rate, channels)
    }

    /// The registry entry describing this audio.
    pub fn info(&self, original_path: Option<String>) -> (info: MediaInfo)
        ensures
            info@ == (MediaModel {
                id: self@.id,
                name: self@.name,
                sample_rate: self@.sample_rate,
                channels: self@.channels.len() as u16,
                frames: pcm_frames(self@) as u64,
                original_path: optional_text(original_path),
            }),
    {
        proof {
            use_type_invariant(self);
        }
        MediaInfo {
            id: self.id,
            name: self.name.clone(),
            sample_rate: self.sample_rate,
            channels: self.channels.len() as u16,
            frames: self.channels[0].len() as u64,
            original_path,
        }
    }

    /// A copy of the source, samples included.
    pub fn duplicate(&self) -> (copy: PcmSource)
        ensures
            copy@ == self@,
    {
        proof {
            use_type_invariant(self);
        }
        let ghost views = channel_views(self.channels@);
        let mut channels: Vec<Vec<u32>> = Vec::new();
        let mut c: usize = 0;
        while c < self.channels.len()
            invariant
                c <= self.channels@.len(),
                views == channel_views(self.channels@),
                channel_views(channels@) == views.take(c as int),
            decreases self.channels.len() - c,
        {
            let source = &self.channels[c];
            let mut channel: Vec<u32> = Vec::new();
            let mut i: usize = 0;
            while i < source.len()
                invariant
                    i <= source@.len(),
                    channel@ == source@.take(i as int),
                decreases source.len() - i,
            {
                channel.push(source[i]);
                assert(channel@ =~= source@.take(i + 1));
                i = i + 1;
            }
            assert(channel@ =~= source@);
            let ghost before = channels@;
            channels.push(channel);
            proof {
                assert(channel_views(channels@) =~= channel_views(before).push(views[c as int]));
                assert(views.take(c + 1) =~= views.take(c as int).push(views[c as int]));
            }
            c = c + 1;
        }
        assert(views.take(c as int) =~= views);
        PcmSource { id: self.id, name: self.name.clone(), sample_rate: self.sample_rate, channels }
    }

    /// The channels, giving up the source.
    pub fn into_channels(self) -> (channels: Vec<Vec<u32>>)
        ensures
            channel_views(channels@) == self@.channels,
    {
        self.channels
    }
}

} // verus!
