use soundscape::analysis::{
    auto_split_mono, autocrop_audio, chunked_audio_power, collect_samples,
    determine_autocrop_points, determine_noise_threshold, prepare_recording,
};
use soundscape::audio::{Audio, AudioSpec, TimeSpan};

fn generate_audio(value: i32, len: usize, channels: u16, sample_rate: u32) -> Audio<i32> {
    let mut data: Vec<Vec<i32>> = Vec::new();
    for _ in 0..channels {
        data.push(vec![value; len]);
    }
    Audio {
        data,
        spec: AudioSpec {
            channels,
            sample_rate,
        },
    }
}

#[test]
fn test_auto_split_mono() {
    let mut audio = generate_audio(0, 5, 2, 1);
    let expected_value = vec![0, 1000, 100, -1000, 0];
    audio.data[0] = expected_value.clone();
    audio.data[1] = vec![0; 5];
    auto_split_mono(&mut audio);
    assert_eq!(audio.data[0], expected_value.clone());
    assert_eq!(audio.data[1], expected_value);
}

#[test]
fn test_auto_split_mono_leaves_stereo_alone() {
    let mut audio = generate_audio(0, 3, 2, 1);
    audio.data[0] = vec![1, 2, 3];
    audio.data[1] = vec![4, 5, 6];
    auto_split_mono(&mut audio);
    assert_eq!(audio.data[0], vec![1, 2, 3]);
    assert_eq!(audio.data[1], vec![4, 5, 6]);
}

#[test]
fn test_chunked_audio_power() {
    let mut audio = generate_audio(0, 5, 2, 2);
    audio.data[0] = vec![
        -300, 200, // bin 0: peak 300
        -100, 900, // bin 1: peak 900
        0, // bin 2: loudest on the other channel
    ];
    audio.data[1][4] = 700;

    let amplitudes = chunked_audio_power(&audio, TimeSpan::from_secs(1));

    assert_eq!(amplitudes.len(), 3);
    assert_eq!(amplitudes[0].0, 0);
    assert_eq!(amplitudes[0].1, 300);
    assert_eq!(amplitudes[1].0, 2);
    assert_eq!(amplitudes[1].1, 900);
    assert_eq!(amplitudes[2].0, 4);
    assert_eq!(amplitudes[2].1, 700);
}

#[test]
fn test_determine_noise_threshold() {
    let amplitudes = vec![(0usize, 100u64), (0, 0), (0, 1000), (0, 400)];
    assert_eq!(determine_noise_threshold(&amplitudes, 5), 0);
    assert_eq!(determine_noise_threshold(&amplitudes, 40), 100);
    assert_eq!(determine_noise_threshold(&amplitudes, 50), 400);
}

#[test]
fn test_determine_autocrop_points() {
    let amplitudes = vec![
        (0usize, 0u64),
        (1, 100),
        (2, 1000),
        (3, 400),
        (4, 800),
        (5, 1000),
        (6, 100),
        (7, 0),
    ];
    let (start, stop) = determine_autocrop_points(&amplitudes, 25).unwrap();
    assert_eq!(start, 2);
    assert_eq!(stop, 6);
}

#[test]
fn test_determine_autocrop_points_where_none_found() {
    let amplitudes = vec![(0usize, 0u64), (1, 0), (2, 0)];
    assert_eq!(determine_autocrop_points(&amplitudes, 10), None);
}

#[test]
fn test_autocrop_audio() {
    let mut audio = generate_audio(0, 5, 2, 1);
    audio.data[0] = vec![0, 1000, 100, -1000, 0];
    audio.data[1] = vec![0, -1000, -100, 700, 0];
    autocrop_audio(&mut audio, TimeSpan::from_secs(1), 20);
    assert_eq!(audio.data[0].len(), 3);
    assert_eq!(audio.data[1].len(), 3);
    assert_eq!(audio.data[0], vec![1000, 100, -1000]);
    assert_eq!(audio.data[1], vec![-1000, -100, 700]);
}

#[test]
fn test_autocrop_audio_all_noise_is_untouched() {
    let mut audio = generate_audio(0, 4, 1, 1);
    autocrop_audio(&mut audio, TimeSpan::from_secs(1), 30);
    assert_eq!(audio.data[0].len(), 4);
}

#[test]
fn test_collect_samples_deinterleaves() {
    let spec = AudioSpec {
        channels: 2,
        sample_rate: 44100,
    };
    let audio = collect_samples(&spec, vec![1, 2, 3, 4, 5]);
    assert_eq!(audio.data.len(), 2);
    assert_eq!(audio.data[0], vec![1, 3, 5]);
    assert_eq!(audio.data[1], vec![2, 4]);
}

#[test]
fn test_prepare_recording_splits_then_crops() {
    // A mono take on a stereo device at 10 Hz: 100 ms bins hold one sample.
    let mut audio = generate_audio(0, 5, 2, 10);
    audio.data[0] = vec![0, 1000, 100, -1000, 0];
    audio.data[1] = vec![0; 5];
    prepare_recording(&mut audio);
    // The take was copied to both channels, then cropped around the
    // signal with the 30th-percentile threshold (here: zero).
    assert_eq!(audio.data[0], vec![1000, 100, -1000]);
    assert_eq!(audio.data[1], vec![1000, 100, -1000]);
}
