use sndcat::mixer::absorb_frame;
use sndcat::mixer::MixError;
use sndcat::mixer::Mixer;
use sndcat::mixer::Samples;
use sndcat::mixer::StreamInfo;

fn repeat(seq: &[f32], n: usize) -> Vec<f32> {
    (0..n).flat_map(|_| seq.to_vec()).collect()
}

fn sin_wave(step: f32, n: usize) -> Vec<f32> {
    (0..n).map(|i| (step * (i as f32)).sin()).collect()
}

#[test]
fn test_mixer_single_stream() {
    let mut mixer: Mixer<f32> = Mixer::new();
    let info = StreamInfo {
        channels: 1,
        sample_rate: 8000,
    };
    let stream = mixer.allocate_input_buffer(info);

    assert_eq!(mixer.pick_output_info(), info);

    // Write some samples.
    let samples = Samples::new(info, repeat(&[1.0, -1.0], 160));
    mixer.extend(stream, samples);
    let mixed = mixer.mix(info).unwrap().unwrap();
    assert_eq!(mixed.samples, repeat(&[1.0, -1.0], 160));

    let mixed = mixer.mix(info).unwrap().unwrap();
    assert!(mixed.samples.is_empty());

    // Mono -> Stereo
    let samples = Samples::new(info, repeat(&[1.0, -1.0], 160));
    mixer.extend(stream, samples);
    let mixed = mixer
        .mix(StreamInfo {
            channels: 2,
            sample_rate: 8000,
        })
        .unwrap()
        .unwrap();
    assert_eq!(mixed.samples, repeat(&[1., 1., -1., -1.], 160));

    // Cannot mix streams with different sample rates.
    let samples = Samples::new(info, sin_wave(0.1, 160));
    mixer.extend(stream, samples);
    let mixed = mixer.mix(StreamInfo {
        channels: 1,
        sample_rate: 16000,
    });
    assert!(mixed.is_err());

    // End of stream.
    mixer.end(stream);
    let mixed = mixer.mix(info).unwrap();
    assert!(mixed.is_none());
}

#[test]
fn pick_output_info_defaults_to_stereo_44100() {
    let mixer: Mixer<f32> = Mixer::new();
    assert_eq!(
        mixer.pick_output_info(),
        StreamInfo {
            channels: 2,
            sample_rate: 44100
        }
    );
}

#[test]
fn silent_sources_mix_to_silence_of_same_length() {
    let info = StreamInfo {
        channels: 1,
        sample_rate: 8000,
    };
    let mut mixer: Mixer<f32> = Mixer::new();
    let a = mixer.allocate_input_buffer(info);
    let b = mixer.allocate_input_buffer(info);
    mixer.extend(a, Samples::new(info, vec![0.0; 160]));
    mixer.extend(b, Samples::new(info, vec![0.0; 160]));
    let mixed = mixer.mix(info).unwrap().unwrap();
    assert_eq!(mixed.info, info);
    assert_eq!(mixed.samples, vec![0.0f32; 160]);
}

#[test]
fn mix_sums_sources_sample_for_sample() {
    let info = StreamInfo {
        channels: 1,
        sample_rate: 8000,
    };
    let mut mixer: Mixer<f32> = Mixer::new();
    let a = mixer.allocate_input_buffer(info);
    let b = mixer.allocate_input_buffer(info);
    mixer.extend(a, Samples::new(info, vec![0.25; 80]));
    mixer.extend(b, Samples::new(info, vec![0.5; 80]));
    let mixed = mixer.mix(info).unwrap().unwrap();
    assert_eq!(mixed.samples, vec![0.75f32; 80]);
}

#[test]
fn mix_ends_when_shorter_source_is_drained() {
    let info = StreamInfo {
        channels: 1,
        sample_rate: 8000,
    };
    let mut mixer: Mixer<f32> = Mixer::new();
    let long = mixer.allocate_input_buffer(info);
    let short = mixer.allocate_input_buffer(info);
    for _ in 0..3 {
        mixer.extend(long, Samples::new(info, vec![0.5; 80]));
    }
    mixer.extend(short, Samples::new(info, vec![0.25; 80]));
    mixer.end(short);
    let first = mixer.mix(info).unwrap().unwrap();
    assert_eq!(first.samples.len(), 80);
    assert!(mixer.mix(info).unwrap().is_none());
}

#[test]
fn mix_takes_only_whole_ticks_available_in_every_buffer() {
    let info = StreamInfo {
        channels: 1,
        sample_rate: 8000,
    };
    let mut mixer: Mixer<f32> = Mixer::new();
    let a = mixer.allocate_input_buffer(info);
    let b = mixer.allocate_input_buffer(info);
    mixer.extend(a, Samples::new(info, vec![1.0; 250]));
    mixer.extend(b, Samples::new(info, vec![1.0; 170]));
    let mixed = mixer.mix(info).unwrap().unwrap();
    assert_eq!(mixed.samples.len(), 160);
}

#[test]
fn backlog_is_more_than_two_seconds_of_samples() {
    let info = StreamInfo {
        channels: 1,
        sample_rate: 100,
    };
    let mut mixer: Mixer<f32> = Mixer::new();
    let a = mixer.allocate_input_buffer(info);
    mixer.extend(a, Samples::new(info, vec![0.0; 200]));
    assert!(!mixer.is_backlogged(a));
    mixer.extend(a, Samples::new(info, vec![0.0; 1]));
    assert!(mixer.is_backlogged(a));
}

#[test]
fn stream_info_sample_counts() {
    let info = StreamInfo {
        channels: 2,
        sample_rate: 48000,
    };
    assert_eq!(info.sample_count_millis(100), 9600);
    assert_eq!(info.sample_count_millis(3000), 288000);
    assert_eq!(info.sample_count_internal_batch_size(), 960);
}

#[test]
fn rechannel_mono_to_stereo_duplicates() {
    let mut s = Samples::new(
        StreamInfo {
            channels: 1,
            sample_rate: 8000,
        },
        vec![0.5f32, -0.25],
    );
    s.rechannels(2).unwrap();
    assert_eq!(s.info.channels, 2);
    assert_eq!(s.samples, vec![0.5, 0.5, -0.25, -0.25]);
}

#[test]
fn rechannel_stereo_to_mono_averages() {
    let mut s = Samples::new(
        StreamInfo {
            channels: 2,
            sample_rate: 8000,
        },
        vec![1.0f32, 3.0, 2.0, 4.0],
    );
    s.rechannels(1).unwrap();
    assert_eq!(s.info.channels, 1);
    assert_eq!(s.samples, vec![2.0, 3.0]);
}

#[test]
fn rechannel_mono_stereo_mono_is_exact() {
    let original = vec![0.5f32, -0.25, 0.125, 1.0];
    let info = StreamInfo {
        channels: 1,
        sample_rate: 8000,
    };
    let mut s = Samples::new(info, original.clone());
    s.rechannels(2).unwrap();
    s.rechannels(1).unwrap();
    assert_eq!(s.info, info);
    assert_eq!(s.samples, original);
}

#[test]
fn rechannel_stereo_mono_stereo_keeps_length() {
    let mut s = Samples::new(
        StreamInfo {
            channels: 2,
            sample_rate: 8000,
        },
        vec![1.0f32, 0.0, 0.5, 0.25],
    );
    s.rechannels(1).unwrap();
    s.rechannels(2).unwrap();
    assert_eq!(s.samples.len(), 4);
    assert_eq!(s.samples.len() % 2, 0);
    assert_eq!(s.samples, vec![0.5, 0.5, 0.375, 0.375]);
}

#[test]
fn rechannel_between_multichannel_counts_fails() {
    let mut s = Samples::new(
        StreamInfo {
            channels: 3,
            sample_rate: 8000,
        },
        vec![0.0f32; 6],
    );
    assert_eq!(s.rechannels(2), Err(MixError::CannotRemix { from: 3, to: 2 }));
    assert_eq!(s.samples.len(), 6);
    assert_eq!(s.info.channels, 3);
}

#[test]
fn normalize_channels_reports_rate_mismatch() {
    let mut s = Samples::new(
        StreamInfo {
            channels: 1,
            sample_rate: 8000,
        },
        vec![0.0f32; 4],
    );
    let r = s.normalize_channels(StreamInfo {
        channels: 2,
        sample_rate: 16000,
    });
    assert_eq!(
        r,
        Err(MixError::RateMismatch {
            expected: 16000,
            actual: 8000
        })
    );
}

#[test]
fn samples_mix_length_mismatch() {
    let info = StreamInfo {
        channels: 1,
        sample_rate: 8000,
    };
    let mut a = Samples::new(info, vec![1.0f32; 4]);
    let b = Samples::new(info, vec![1.0f32; 2]);
    assert_eq!(
        a.mix(b),
        Err(MixError::LengthMismatch {
            expected: 4,
            actual: 2
        })
    );
}

#[test]
fn samples_concat_millis_and_empty() {
    let info = StreamInfo {
        channels: 2,
        sample_rate: 1000,
    };
    let mut s: Samples<f32> = Samples::new(
        StreamInfo {
            channels: 1,
            sample_rate: 8000,
        },
        Vec::new(),
    );
    assert!(s.is_empty());
    s.concat(Samples::new(info, vec![0.0; 100]));
    assert_eq!(s.info, info);
    assert_eq!(s.millis(), 50);
    assert!(!s.is_empty());
}

#[test]
fn absorb_frame_gathers_until_long_enough() {
    let info = StreamInfo {
        channels: 1,
        sample_rate: 1000,
    };
    let (ready, kept) = absorb_frame(None, Samples::new(info, vec![0.5f32; 30]), 50);
    assert!(ready.is_none());
    let (ready, kept) = absorb_frame(kept, Samples::new(info, vec![0.25f32; 30]), 50);
    assert!(kept.is_none());
    let ready = ready.unwrap();
    assert_eq!(ready.samples.len(), 60);
    assert_eq!(ready.samples[29], 0.5);
    assert_eq!(ready.samples[30], 0.25);
}

#[test]
fn absorb_frame_flushes_on_parameter_change() {
    let mono = StreamInfo {
        channels: 1,
        sample_rate: 1000,
    };
    let stereo = StreamInfo {
        channels: 2,
        sample_rate: 1000,
    };
    let (_, kept) = absorb_frame(None, Samples::new(mono, vec![0.0f32; 10]), 50);
    let (ready, kept) = absorb_frame(kept, Samples::new(stereo, vec![1.0f32; 20]), 50);
    let ready = ready.unwrap();
    assert_eq!((ready.info, ready.samples.len()), (mono, 10));
    let kept = kept.unwrap();
    assert_eq!((kept.info, kept.samples.len()), (stereo, 20));
}
