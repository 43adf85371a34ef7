use sndcat::resample::rate_step;
use sndcat::resample::RateStep;
use sndcat::mixer::StreamInfo;
use sndcat::oggopus::Header;
use sndcat::oggopus::HeaderError;
use sndcat::oggopus::NothingToFlush;
use sndcat::oggopus::PacketFramer;
use sndcat::resample::channel_of;
use sndcat::resample::clamp_quality;
use sndcat::resample::interleave;
use sndcat::resample::output_frames;

#[test]
fn head_bytes_are_exact() {
    let h = Header {
        info: StreamInfo {
            channels: 2,
            sample_rate: 48000,
        },
    };
    let b = h.serialize_head().unwrap();
    let mut expected = b"OpusHead".to_vec();
    expected.extend_from_slice(&[1, 2, 0, 0]);
    expected.extend_from_slice(&48000u32.to_le_bytes());
    expected.extend_from_slice(&[0, 0, 0]);
    assert_eq!(b, expected);
    assert_eq!(b.len(), 19);
}

#[test]
fn head_rejects_more_than_two_channels() {
    let h = Header {
        info: StreamInfo {
            channels: 3,
            sample_rate: 48000,
        },
    };
    assert_eq!(h.serialize_head(), Err(HeaderError::TooManyChannels(3)));
}

#[test]
fn tags_bytes_are_exact() {
    let h = Header {
        info: StreamInfo {
            channels: 1,
            sample_rate: 16000,
        },
    };
    let mut expected = b"OpusTags".to_vec();
    expected.extend_from_slice(&6u32.to_le_bytes());
    expected.extend_from_slice(b"sndcat");
    expected.extend_from_slice(&0u32.to_le_bytes());
    let b = h.serialize_tags().unwrap();
    assert_eq!(b, expected);
    assert_eq!(b.len(), 22);
}

#[test]
fn head_round_trip_reports_channels_at_48k() {
    let h = Header {
        info: StreamInfo {
            channels: 1,
            sample_rate: 16000,
        },
    };
    let b = h.serialize_head().unwrap();
    let back = Header::deserialize_head(&b).unwrap();
    assert_eq!(
        back.info,
        StreamInfo {
            channels: 1,
            sample_rate: 48000
        }
    );
}

#[test]
fn head_read_errors() {
    assert_eq!(Header::deserialize_head(b"Opus").err(), Some(HeaderError::Truncated));
    assert_eq!(Header::deserialize_head(b"OggSxxxxxx").err(), Some(HeaderError::NotOpus));
    assert_eq!(Header::deserialize_head(b"OpusHead\x02\x01").err(), Some(HeaderError::UnsupportedVersion(2)));
    assert_eq!(Header::deserialize_head(b"OpusHead\x01").err(), Some(HeaderError::Truncated));
}

#[test]
fn framer_hands_out_packets_with_reserve() {
    let info = StreamInfo {
        channels: 1,
        sample_rate: 8000,
    };
    let mut f: PacketFramer<f32> = PacketFramer::new(info);
    f.push(&vec![0.0; 1000]);
    assert!(f.next_frame(120, 20).is_none());
    assert_eq!(f.granule(), 0);
    f.push(&vec![1.0; 200]);
    let frame = f.next_frame(120, 20).unwrap();
    assert_eq!(frame.len(), 960);
    assert_eq!(f.granule(), 5760);
    let tail = f.drain_tail().unwrap();
    assert_eq!(tail.len(), 1);
    assert_eq!(tail[0].frame.len(), 160);
    assert_eq!(tail[0].granule, 6720);
    assert!(tail[0].last);
}

#[test]
fn framer_close_without_data_fails() {
    let info = StreamInfo {
        channels: 2,
        sample_rate: 48000,
    };
    let mut f: PacketFramer<f32> = PacketFramer::new(info);
    f.push(&vec![0.0; 100]);
    assert!(matches!(f.drain_tail(), Err(NothingToFlush)));
}

#[test]
fn framer_tail_marks_only_last_packet() {
    let info = StreamInfo {
        channels: 1,
        sample_rate: 8000,
    };
    let mut f: PacketFramer<i16> = PacketFramer::new(info);
    f.push(&(0..400).collect::<Vec<i16>>());
    let tail = f.drain_tail().unwrap();
    assert_eq!(tail.len(), 2);
    assert!(!tail[0].last && tail[1].last);
    assert_eq!(tail[1].frame[0], 160);
    assert_eq!((tail[0].granule, tail[1].granule), (960, 1920));
}

#[test]
fn resampled_length_round_trip() {
    assert_eq!(output_frames(441, 44100, 48000), 480);
    assert_eq!(output_frames(480, 48000, 44100), 441);
    assert_eq!(output_frames(160, 8000, 16000), 320);
    assert_eq!(output_frames(320, 16000, 8000), 160);
    assert_eq!(output_frames(3, 2, 1), 2);
}

#[test]
fn channels_split_and_join() {
    let s = vec![1, 2, 3, 4, 5, 6];
    assert_eq!(channel_of(&s, 2, 0), vec![1, 3, 5]);
    assert_eq!(channel_of(&s, 2, 1), vec![2, 4, 6]);
    let planes = vec![vec![1, 3, 5], vec![2, 4, 6]];
    assert_eq!(interleave(&planes, 3), s);
}

#[test]
fn quality_is_clamped() {
    assert_eq!(clamp_quality(Some(42), 4), 10);
    assert_eq!(clamp_quality(Some(3), 4), 3);
    assert_eq!(clamp_quality(None, 4), 4);
}

#[test]
fn wav_header_is_exact() {
    let info = StreamInfo {
        channels: 2,
        sample_rate: 44100,
    };
    let h = sndcat::wav::wav_header(info);
    let mut expected = Vec::new();
    expected.extend_from_slice(b"RIFF");
    expected.extend_from_slice(&0u32.to_le_bytes());
    expected.extend_from_slice(b"WAVEfmt ");
    expected.extend_from_slice(&16u32.to_le_bytes());
    expected.extend_from_slice(&1u16.to_le_bytes());
    expected.extend_from_slice(&2u16.to_le_bytes());
    expected.extend_from_slice(&44100u32.to_le_bytes());
    expected.extend_from_slice(&176400u32.to_le_bytes());
    expected.extend_from_slice(&4u16.to_le_bytes());
    expected.extend_from_slice(&16u16.to_le_bytes());
    expected.extend_from_slice(b"data");
    expected.extend_from_slice(&0u32.to_le_bytes());
    assert_eq!(h, expected);
    assert_eq!(h.len(), 44);
}

#[test]
fn wav_sizes_patch_values() {
    assert_eq!(sndcat::wav::wav_sizes(44), (36, 0));
    assert_eq!(sndcat::wav::wav_sizes(1044), (1036, 1000));
}

#[test]
fn rate_step_never_rebinds() {
    assert_eq!(rate_step(None, 48000, 48000), RateStep::Unchanged);
    assert_eq!(rate_step(None, 44100, 48000), RateStep::Create);
    assert_eq!(rate_step(Some(44100), 44100, 48000), RateStep::Reuse);
    assert_eq!(rate_step(Some(44100), 32000, 48000), RateStep::Mismatch);
}
