//! The audio format of a WAVE form and the layout of its channels.
//!
//! The content of a `fmt ` chunk, all numbers least significant byte first:
//!
//! | offset | bytes | field                                  |
//! |--------|-------|----------------------------------------|
//! | 0      | 2     | format tag                             |
//! | 2      | 2     | number of channels                     |
//! | 4      | 4     | sample frames per second               |
//! | 8      | 4     | bytes per second                       |
//! | 12     | 2     | bytes per sample frame                 |
//! | 14     | 2     | bits per sample                        |
//! | 16     | 2     | size of the extension                  |
//! | 18     | 2     | valid bits per sample                  |
//! | 20     | 4     | channel mask                           |
//! | 24     | 16    | identifier of the sample format        |
//!
//! The fields from offset 16 on are there only under the extensible tag.

use vstd::prelude::*;
use vstd::slice::slice_index_get;

use crate::endian::{in_store, le_u16, le_u32, read_u16_at, read_u32_at};
use crate::errors::Error;

verus! {

/// The format tag under which the fields of the extension follow.
pub const WAVE_FORMAT_EXTENSIBLE: u16 = 0xFFFE;

/// The bits of a channel mask that name no speaker.
pub const RESERVED_SPEAKER_BITS: u32 = 0xFFFC_0000;

/// The number of speakers that a channel mask can name.
pub const NAMED_SPEAKERS: u32 = 18;

/// Where a channel is meant to sound.
#[derive(Clone, Copy, Debug, PartialEq, Eq, Hash, Structural)]
pub enum ChannelMask {
    DirectOut,
    FrontLeft,
    FrontRight,
    FrontCenter,
    LowFrequency,
    BackLeft,
    BackRight,
    FrontCenterLeft,
    FrontCenterRight,
    BackCenter,
    SideLeft,
    SideRight,
    TopCenter,
    TopFrontLeft,
    TopFrontCenter,
    TopFrontRight,
    TopBackLeft,
    TopBackCenter,
    TopBackRight,
}

/// The speaker that bit number `bit` of a channel mask names.
pub open spec fn speaker_of_bit(bit: int) -> ChannelMask {
    if bit == 0 {
        ChannelMask::FrontLeft
    } else if bit == 1 {
        ChannelMask::FrontRight
    } else if bit == 2 {
        ChannelMask::FrontCenter
    } else if bit == 3 {
        ChannelMask::LowFrequency
    } else if bit == 4 {
        ChannelMask::BackLeft
    } else if bit == 5 {
        ChannelMask::BackRight
    } else if bit == 6 {
        ChannelMask::FrontCenterLeft
    } else if bit == 7 {
        ChannelMask::FrontCenterRight
    } else if bit == 8 {
        ChannelMask::BackCenter
    } else if bit == 9 {
        ChannelMask::SideLeft
    } else if bit == 10 {
        ChannelMask::SideRight
    } else if bit == 11 {
        ChannelMask::TopCenter
    } else if bit == 12 {
        ChannelMask::TopFrontLeft
    } else if bit == 13 {
        ChannelMask::TopFrontCenter
    } else if bit == 14 {
        ChannelMask::TopFrontRight
    } else if bit == 15 {
        ChannelMask::TopBackLeft
    } else if bit == 16 {
        ChannelMask::TopBackCenter
    } else if bit == 17 {
        ChannelMask::TopBackRight
    } else {
        ChannelMask::DirectOut
    }
}

/// Whether bit number `bit` of `mask` is set.
pub open spec fn bit_is_set(mask: u32, bit: u32) -> bool {
    mask & (1u32 << bit) != 0
}

/// The speakers that the lowest `bits` bits of `mask` name, lowest bit first.
pub open spec fn speakers_below(mask: u32, bits: nat) -> Seq<ChannelMask>
    decreases bits,
{
    if bits == 0 {
        Seq::empty()
    } else {
        let lower = speakers_below(mask, (bits - 1) as nat);
        if bit_is_set(mask, (bits - 1) as u32) {
            lower.push(speaker_of_bit(bits - 1))
        } else {
            lower
        }
    }
}

/// The speakers of `channel_count` channels under the channel mask
/// `input_mask`: the speakers that the mask names, lowest bit first; but
/// where the mask has a reserved bit set, every channel is a direct output.
pub open spec fn mask_speakers(input_mask: u32, channel_count: u16) -> Seq<ChannelMask> {
    if input_mask & RESERVED_SPEAKER_BITS != 0 {
        Seq::new(channel_count as nat, |i: int| ChannelMask::DirectOut)
    } else {
        speakers_below(input_mask, NAMED_SPEAKERS as nat)
    }
}

impl ChannelMask {
    /// The speaker that bit number `bit` of a channel mask names.
    pub fn from_bit(bit: u32) -> (speaker: ChannelMask)
        ensures
            speaker == speaker_of_bit(bit as int),
    {
        match bit {
            0 => ChannelMask::FrontLeft,
            1 => ChannelMask::FrontRight,
            2 => ChannelMask::FrontCenter,
            3 => ChannelMask::LowFrequency,
            4 => ChannelMask::BackLeft,
            5 => ChannelMask::BackRight,
            6 => ChannelMask::FrontCenterLeft,
            7 => ChannelMask::FrontCenterRight,
            8 => ChannelMask::BackCenter,
            9 => ChannelMask::SideLeft,
            10 => ChannelMask::SideRight,
            11 => ChannelMask::TopCenter,
            12 => ChannelMask::TopFrontLeft,
            13 => ChannelMask::TopFrontCenter,
            14 => ChannelMask::TopFrontRight,
            15 => ChannelMask::TopBackLeft,
            16 => ChannelMask::TopBackCenter,
            17 => ChannelMask::TopBackRight,
            _ => ChannelMask::DirectOut,
        }
    }

    /// The speakers of `channel_count` channels under the mask `input_mask`.
    pub fn channels(input_mask: u32, channel_count: u16) -> (speakers: Vec<ChannelMask>)
        ensures
            speakers@ == mask_speakers(input_mask, channel_count),
    {
        let mut speakers: Vec<ChannelMask> = Vec::new();
        if input_mask & RESERVED_SPEAKER_BITS != 0 {
            let mut i: u16 = 0;
            while i < channel_count
                invariant
                    i <= channel_count,
                    speakers@ == Seq::new(i as nat, |k: int| ChannelMask::DirectOut),
                decreases channel_count - i,
            {
                speakers.push(ChannelMask::DirectOut);
                i = i + 1;
                assert(speakers@ =~= Seq::new(i as nat, |k: int| ChannelMask::DirectOut));
            }
            assert(speakers@ =~= mask_speakers(input_mask, channel_count));
        } else {
            let mut bit: u32 = 0;
            while bit < NAMED_SPEAKERS
                invariant
                    bit <= NAMED_SPEAKERS,
                    speakers@ == speakers_below(input_mask, bit as nat),
                decreases NAMED_SPEAKERS - bit,
            {
                if input_mask & (1u32 << bit) != 0 {
                    speakers.push(ChannelMask::from_bit(bit));
                }
                bit = bit + 1;
            }
        }
        speakers
    }
}

/// An identifier of an audio definition model, as a track of the form
/// carries it.
#[derive(Clone, Copy, Debug, PartialEq, Eq)]
pub struct ADMAudioID {
    pub track_uid: [char; 12],
    pub channel_format_ref: [char; 14],
    pub pack_ref: [char; 11],
}

/// One channel of the audio: its number, its speaker, and the audio
/// definition identifiers bound to it.
#[derive(Clone, Debug, PartialEq, Eq)]
pub struct ChannelDescriptor {
    /// The channel's number in a sample frame, from zero.
    pub index: u16,
    /// Where the channel is meant to sound.
    pub speaker: ChannelMask,
    /// The audio definition identifiers of the channel.
    pub adm_track_audio_ids: Vec<ADMAudioID>,
}

/// The fields that follow the extensible tag.
#[derive(Clone, Copy, Debug, PartialEq, Eq)]
pub struct WaveFmtExtended {
    /// The bits of each sample that carry audio.
    pub valid_bits_per_sample: u16,
    /// The speakers of the channels, one bit each.
    pub channel_mask: u32,
    /// The identifier of the sample format, as its sixteen bytes stand in
    /// the chunk.
    pub type_guid: [u8; 16],
}

/// The audio format that a `fmt ` chunk states.
#[derive(Clone, Copy, Debug, PartialEq, Eq)]
pub struct WaveFmt {
    /// The format tag.
    pub tag: u16,
    /// The number of channels in a sample frame.
    pub channel_count: u16,
    /// Sample frames per second.
    pub sample_rate: u32,
    /// Bytes per second.
    pub bytes_per_second: u32,
    /// Bytes per sample frame.
    pub block_alignment: u16,
    /// Bits per sample.
    pub bits_per_sample: u16,
    /// The extension, under the extensible tag.
    pub extended_format: Option<WaveFmtExtended>,
}

/// The number of bytes that the format fields at `at` take: sixteen, and
/// forty under the extensible tag.
pub open spec fn fmt_extent(s: Seq<u8>, at: int) -> int {
    if in_store(s.len(), at, 16) && le_u16(s, at) == WAVE_FORMAT_EXTENSIBLE {
        40
    } else {
        16
    }
}

/// Whether `fmt` is what the format fields at `at` state.
pub open spec fn is_fmt_at(s: Seq<u8>, at: int, fmt: WaveFmt) -> bool {
    &&& fmt.tag == le_u16(s, at)
    &&& fmt.channel_count == le_u16(s, at + 2)
    &&& fmt.sample_rate == le_u32(s, at + 4)
    &&& fmt.bytes_per_second == le_u32(s, at + 8)
    &&& fmt.block_alignment == le_u16(s, at + 12)
    &&& fmt.bits_per_sample == le_u16(s, at + 14)
    &&& fmt.extended_format is Some <==> fmt.tag == WAVE_FORMAT_EXTENSIBLE
    &&& fmt.extended_format matches Some(extended) ==> {
        &&& extended.valid_bits_per_sample == le_u16(s, at + 18)
        &&& extended.channel_mask == le_u32(s, at + 20)
        &&& extended.type_guid@ == s.subrange(at + 24, at + 40)
    }
}

/// Reads the format fields at `at`. The store must hold all of them:
/// `UnexpectedEof` otherwise.
pub fn read_wave_fmt(bytes: &[u8], at: u64) -> (r: Result<WaveFmt, Error>)
    ensures
        r is Ok <==> in_store(bytes@.len(), at as int, fmt_extent(bytes@, at as int)),
        r matches Ok(fmt) ==> is_fmt_at(bytes@, at as int, fmt),
        r matches Err(e) ==> e == Error::UnexpectedEof,
{
    let len: u64 = bytes.len() as u64;
    if at > len || len - at < 16 {
        return Err(Error::UnexpectedEof);
    }
    let tag = match read_u16_at(bytes, at) {
        Ok(v) => v,
        Err(e) => { return Err(e); },
    };
    let channel_count = match read_u16_at(bytes, at + 2) {
        Ok(v) => v,
        Err(e) => { return Err(e); },
    };
    let sample_rate = match read_u32_at(bytes, at + 4) {
        Ok(v) => v,
        Err(e) => { return Err(e); },
    };
    let bytes_per_second = match read_u32_at(bytes, at + 8) {
        Ok(v) => v,
        Err(e) => { return Err(e); },
    };
    let block_alignment = match read_u16_at(bytes, at + 12) {
        Ok(v) => v,
        Err(e) => { return Err(e); },
    };
    let bits_per_sample = match read_u16_at(bytes, at + 14) {
        Ok(v) => v,
        Err(e) => { return Err(e); },
    };
    let mut extended_format: Option<WaveFmtExtended> = None;
    if tag == WAVE_FORMAT_EXTENSIBLE {
        if len - at < 40 {
            return Err(Error::UnexpectedEof);
        }
        let valid_bits_per_sample = match read_u16_at(bytes, at + 18) {
            Ok(v) => v,
            Err(e) => { return Err(e); },
        };
        let channel_mask = match read_u32_at(bytes, at + 20) {
            Ok(v) => v,
            Err(e) => { return Err(e); },
        };
        let mut type_guid: [u8; 16] = [0u8; 16];
        let start: usize = (at + 24) as usize;
        let mut i: usize = 0;
        while i < 16
            invariant
                i <= 16,
                start + 16 <= bytes@.len() <= usize::MAX,
                forall|k: int| 0 <= k < i ==> type_guid@[k] == bytes@[start + k],
            decreases 16 - i,
        {
            type_guid[i] = *slice_index_get(bytes, start + i);
            i = i + 1;
        }
        assert(type_guid@ =~= bytes@.subrange(at + 24, at + 40));
        extended_format = Some(WaveFmtExtended { valid_bits_per_sample, channel_mask, type_guid });
    }
    Ok(
        WaveFmt {
            tag,
            channel_count,
            sample_rate,
            bytes_per_second,
            block_alignment,
            bits_per_sample,
            extended_format,
        },
    )
}

/// The channel mask that the format fields at `at` state, if they have one.
pub open spec fn fmt_channel_mask(s: Seq<u8>, at: int) -> Option<u32> {
    if le_u16(s, at) == WAVE_FORMAT_EXTENSIBLE {
        Some(le_u32(s, at + 20) as u32)
    } else {
        None
    }
}

/// The speakers of `channel_count` channels: one channel sounds in front,
/// two sound left and right; more follow the channel mask where the format
/// has one, and are direct outputs where it has none.
pub open spec fn format_speakers(channel_count: u16, channel_mask: Option<u32>) -> Seq<
    ChannelMask,
> {
    if channel_count == 1 {
        seq![ChannelMask::FrontCenter]
    } else if channel_count == 2 {
        seq![ChannelMask::FrontLeft, ChannelMask::FrontRight]
    } else {
        match channel_mask {
            Some(mask) => mask_speakers(mask, channel_count),
            None => Seq::new(channel_count as nat, |i: int| ChannelMask::DirectOut),
        }
    }
}

/// Whether `channels` describes `channel_count` channels under
/// `channel_mask`: one descriptor for each channel that has a speaker,
/// numbered from zero, none of them with audio definition identifiers.
pub open spec fn describes_channels(
    channel_count: u16,
    channel_mask: Option<u32>,
    channels: Seq<ChannelDescriptor>,
) -> bool {
    let speakers = format_speakers(channel_count, channel_mask);
    &&& channels.len() == if speakers.len() < channel_count {
        speakers.len()
    } else {
        channel_count as nat
    }
    &&& forall|i: int|
        0 <= i < channels.len() ==> {
            &&& (#[trigger] channels[i]).index == i
            &&& channels[i].speaker == speakers[i]
            &&& channels[i].adm_track_audio_ids@.len() == 0
        }
}

/// Describes `channel_count` channels under `channel_mask`.
pub fn describe_channels(channel_count: u16, channel_mask: Option<u32>) -> (channels: Vec<
    ChannelDescriptor,
>)
    ensures
        describes_channels(channel_count, channel_mask, channels@),
{
    let speakers: Vec<ChannelMask> = if channel_count == 1 {
        vec![ChannelMask::FrontCenter]
    } else if channel_count == 2 {
        vec![ChannelMask::FrontLeft, ChannelMask::FrontRight]
    } else {
        match channel_mask {
            Some(mask) => ChannelMask::channels(mask, channel_count),
            None => ChannelMask::channels(RESERVED_SPEAKER_BITS, channel_count),
        }
    };
    assert(speakers@ =~= format_speakers(channel_count, channel_mask)) by {
        assert(RESERVED_SPEAKER_BITS & RESERVED_SPEAKER_BITS != 0) by (bit_vector);
    }
    let mut channels: Vec<ChannelDescriptor> = Vec::new();
    let mut i: u16 = 0;
    while i < channel_count && (i as usize) < speakers.len()
        invariant
            i <= channel_count,
            i <= speakers@.len(),
            channels@.len() == i,
            forall|k: int|
                0 <= k < i ==> {
                    &&& (#[trigger] channels@[k]).index == k
                    &&& channels@[k].speaker == speakers@[k]
                    &&& channels@[k].adm_track_audio_ids@.len() == 0
                },
        decreases channel_count - i,
    {
        channels.push(
            ChannelDescriptor {
                index: i,
                speaker: speakers[i as usize],
                adm_track_audio_ids: Vec::new(),
            },
        );
        i = i + 1;
    }
    channels
}

} // verus!
