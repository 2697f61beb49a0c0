use soundscape::audio::{Audio, AudioSpec, TimeSpan};

fn internal_audio(len: usize, channels: u16, sample_rate: u32) -> Audio<f32> {
    let mut data: Vec<Vec<f32>> = Vec::new();
    for _ in 0..channels {
        data.push(vec![0.0; len]);
    }
    Audio {
        data,
        spec: AudioSpec {
            channels,
            sample_rate,
        },
    }
}

#[test]
fn test_clip_in_place_both_args_none() {
    let mut audio = internal_audio(5, 2, 2);
    audio.clip_in_place(None, None);
    assert_eq!(audio.data.get(0).unwrap().len(), 5);
    assert_eq!(audio.data.get(1).unwrap().len(), 5);
}

#[test]
fn test_clip_in_place_only_start_offset_given() {
    let mut audio = internal_audio(5, 2, 2);
    audio.clip_in_place(Some(TimeSpan::from_millis(500)), None);
    assert_eq!(audio.data.get(0).unwrap().len(), 4);
    assert_eq!(audio.data.get(1).unwrap().len(), 4);
}

#[test]
fn test_clip_in_place_only_duration_given() {
    let mut audio = internal_audio(5, 2, 2);
    audio.clip_in_place(None, Some(TimeSpan::from_millis(500)));
    assert_eq!(audio.data.get(0).unwrap().len(), 1);
    assert_eq!(audio.data.get(1).unwrap().len(), 1);
}

#[test]
fn test_clip_in_place_both_given() {
    let mut audio = internal_audio(5, 2, 2);
    audio.clip_in_place(
        Some(TimeSpan::from_millis(500)),
        Some(TimeSpan::from_millis(1000)),
    );
    assert_eq!(audio.data.get(0).unwrap().len(), 2);
    assert_eq!(audio.data.get(1).unwrap().len(), 2);
}

#[test]
fn test_clip_samples_keeps_exact_range() {
    let mut audio = Audio {
        data: vec![vec![10i32, 20, 30, 40, 50], vec![-10, -20, -30, -40, -50]],
        spec: AudioSpec {
            channels: 2,
            sample_rate: 44100,
        },
    };
    audio.clip_samples(1, 4);
    assert_eq!(audio.data[0], vec![20, 30, 40]);
    assert_eq!(audio.data[1], vec![-20, -30, -40]);
}

#[test]
fn test_span_to_samples_rounds_down() {
    // 1.5 ms at 44100 Hz covers 66.15 samples; only whole samples count.
    let span = TimeSpan::from_nanos(1_500_000);
    assert_eq!(soundscape::audio::span_to_samples(span, 44100), 66);
}
