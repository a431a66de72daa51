use bwavfile::{ChannelDescriptor, ChannelMask, Wave};

fn wave_with_fmt(fmt: &[u8]) -> Wave {
    let mut bytes = Vec::new();
    bytes.extend_from_slice(b"RIFF");
    bytes.extend_from_slice(&((4 + 8 + fmt.len()) as u32).to_le_bytes());
    bytes.extend_from_slice(b"WAVE");
    bytes.extend_from_slice(b"fmt ");
    bytes.extend_from_slice(&(fmt.len() as u32).to_le_bytes());
    bytes.extend_from_slice(fmt);
    Wave::new(bytes)
}

fn fmt_fields(tag: u16, channels: u16, channel_mask: Option<u32>) -> Vec<u8> {
    let mut content = Vec::new();
    content.extend_from_slice(&tag.to_le_bytes());
    content.extend_from_slice(&channels.to_le_bytes());
    content.extend_from_slice(&48000u32.to_le_bytes());
    content.extend_from_slice(&0u32.to_le_bytes());
    content.extend_from_slice(&(channels.wrapping_mul(3)).to_le_bytes());
    content.extend_from_slice(&24u16.to_le_bytes());
    if let Some(mask) = channel_mask {
        content.extend_from_slice(&22u16.to_le_bytes());
        content.extend_from_slice(&24u16.to_le_bytes());
        content.extend_from_slice(&mask.to_le_bytes());
        content.extend_from_slice(&[0; 16]);
    }
    content
}

fn speakers(channels: &[ChannelDescriptor]) -> Vec<ChannelMask> {
    channels.iter().map(|c| c.speaker).collect()
}

#[test]
fn mask_names_speakers_lowest_bit_first() {
    assert_eq!(
        ChannelMask::channels(0x3F, 6),
        vec![
            ChannelMask::FrontLeft,
            ChannelMask::FrontRight,
            ChannelMask::FrontCenter,
            ChannelMask::LowFrequency,
            ChannelMask::BackLeft,
            ChannelMask::BackRight,
        ]
    );
    assert_eq!(
        ChannelMask::channels(0x2_0600, 3),
        vec![ChannelMask::SideLeft, ChannelMask::SideRight, ChannelMask::TopBackRight]
    );
    assert_eq!(ChannelMask::channels(0, 4), Vec::<ChannelMask>::new());
    assert_eq!(ChannelMask::channels(0x3_FFFF, 18).len(), 18);
}

#[test]
fn reserved_mask_bits_give_direct_outputs() {
    assert_eq!(ChannelMask::channels(0x8000_0000, 3), vec![ChannelMask::DirectOut; 3]);
    assert_eq!(ChannelMask::channels(0x4_0003, 2), vec![ChannelMask::DirectOut; 2]);
}

#[test]
fn every_bit_has_its_speaker() {
    let expected = [
        ChannelMask::FrontLeft,
        ChannelMask::FrontRight,
        ChannelMask::FrontCenter,
        ChannelMask::LowFrequency,
        ChannelMask::BackLeft,
        ChannelMask::BackRight,
        ChannelMask::FrontCenterLeft,
        ChannelMask::FrontCenterRight,
        ChannelMask::BackCenter,
        ChannelMask::SideLeft,
        ChannelMask::SideRight,
        ChannelMask::TopCenter,
        ChannelMask::TopFrontLeft,
        ChannelMask::TopFrontCenter,
        ChannelMask::TopFrontRight,
        ChannelMask::TopBackLeft,
        ChannelMask::TopBackCenter,
        ChannelMask::TopBackRight,
    ];
    for (bit, speaker) in expected.iter().enumerate() {
        assert_eq!(ChannelMask::from_bit(bit as u32), *speaker);
        assert_eq!(ChannelMask::channels(1 << bit, 1), vec![*speaker]);
    }
    assert_eq!(ChannelMask::from_bit(18), ChannelMask::DirectOut);
}

#[test]
fn mono_and_stereo_layouts() {
    let mono = wave_with_fmt(&fmt_fields(1, 1, None)).channels().unwrap();
    assert_eq!(mono.len(), 1);
    assert_eq!(mono[0].index, 0);
    assert_eq!(mono[0].speaker, ChannelMask::FrontCenter);
    assert!(mono[0].adm_track_audio_ids.is_empty());

    let stereo = wave_with_fmt(&fmt_fields(0xFFFE, 2, Some(0x30))).channels().unwrap();
    assert_eq!(speakers(&stereo), vec![ChannelMask::FrontLeft, ChannelMask::FrontRight]);
    assert_eq!(stereo[1].index, 1);
}

#[test]
fn surround_layout_follows_the_mask() {
    let mut wave = wave_with_fmt(&fmt_fields(0xFFFE, 6, Some(0x3F)));
    let channels = wave.channels().unwrap();
    assert_eq!(channels.len(), 6);
    assert_eq!(channels[0].index, 0);
    assert_eq!(channels[0].speaker, ChannelMask::FrontLeft);
    assert_eq!(channels[3].index, 3);
    assert_eq!(channels[3].speaker, ChannelMask::LowFrequency);
    assert_eq!(channels[4].speaker, ChannelMask::BackLeft);
    assert_eq!(wave.position(), 60);
}

#[test]
fn layout_is_cut_to_the_shorter_of_channels_and_speakers() {
    let more_speakers = wave_with_fmt(&fmt_fields(0xFFFE, 3, Some(0x3F))).channels().unwrap();
    assert_eq!(
        speakers(&more_speakers),
        vec![ChannelMask::FrontLeft, ChannelMask::FrontRight, ChannelMask::FrontCenter]
    );
    let fewer_speakers = wave_with_fmt(&fmt_fields(0xFFFE, 4, Some(0x0B))).channels().unwrap();
    assert_eq!(
        speakers(&fewer_speakers),
        vec![ChannelMask::FrontLeft, ChannelMask::FrontRight, ChannelMask::LowFrequency]
    );
    assert_eq!(fewer_speakers[2].index, 2);
}

#[test]
fn channels_without_a_mask_are_direct_outputs() {
    let channels = wave_with_fmt(&fmt_fields(1, 4, None)).channels().unwrap();
    assert_eq!(speakers(&channels), vec![ChannelMask::DirectOut; 4]);
    assert_eq!(channels[3].index, 3);
    let none = wave_with_fmt(&fmt_fields(1, 0, None)).channels().unwrap();
    assert!(none.is_empty());
}
