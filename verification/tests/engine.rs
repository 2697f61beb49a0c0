use crossbeam_channel::unbounded;
use soundscape::audio::{AudioSpec, TimeSpan, SAMPLE_UNIT};
use soundscape::controller::{
    chunked_moving_average_amp, ControllerError, InstallationProcessor,
    InstallationProcessorConfig, InstallationProcessorControlMessage, ListeningState,
};
use soundscape::mixer::{AudioOutputProcessor, AudioOutputProcessorControlMessage};
use soundscape::node::{ControlMessage, ProcessorState};
use soundscape::ring::RecordingRing;
use soundscape::rng::random_in_range;
use soundscape::stretch::{check_pow2, emission_lengths, output_budget, StretchError, Stretcher};

fn default_processor() -> InstallationProcessor {
    InstallationProcessor::new(InstallationProcessorConfig::default())
}

fn silence(len: usize) -> Vec<i32> {
    vec![0; len]
}

#[test]
fn test_ring_drops_oldest_on_overflow() {
    let mut ring = RecordingRing::new(2, 2);
    assert_eq!(ring.len(), 0);
    assert!(!ring.push_chunks(vec![vec![1, 2], vec![10, 20]]));
    assert!(!ring.push_chunks(vec![vec![3, 4], vec![30, 40]]));
    assert!(ring.push_chunks(vec![vec![5, 6], vec![50, 60]]));
    assert_eq!(ring.len(), 2);
    assert_eq!(ring.chunk_at(0, 0), &vec![3, 4]);
    assert_eq!(ring.chunk_at(0, 1), &vec![5, 6]);
    assert_eq!(ring.chunk_at(1, 0), &vec![30, 40]);
    assert_eq!(ring.last_chunk(1), &vec![50, 60]);
}

#[test]
fn test_moving_average_exact_value() {
    let mut ring = RecordingRing::new(2, 1024);
    ring.push_chunks(vec![vec![1000, -1000, 1000, -1000], vec![1000; 4]]);
    // One update over a window of 100 samples: (0 * (100 - 8) + 8000) / 100.
    assert_eq!(chunked_moving_average_amp(0, 100, &ring), 80);
    // A second update from 80: (80 * 92 + 8000) / 100 = 153 (rounded down).
    assert_eq!(chunked_moving_average_amp(80, 100, &ring), 153);
}

#[test]
fn test_moving_average_converges_to_constant_level() {
    let mut ring = RecordingRing::new(1, 1024);
    let mut amp: u64 = 0;
    let mut last: u64 = 0;
    for _ in 0..100 {
        ring.push_chunks(vec![vec![1000; 10]]);
        amp = chunked_moving_average_amp(amp, 100, &ring);
        assert!(amp >= last, "estimator must never move away from the level");
        assert!(amp <= 1000, "estimator must never overshoot the level");
        last = amp;
    }
    assert!(amp >= 990, "after many windows the estimator sits within 1%");
}

#[test]
fn test_trigger_fires_after_burst() {
    let mut p = default_processor();
    for _ in 0..513 {
        p.ring.push_chunks(vec![silence(4), silence(4)]);
    }
    p.current_amplitude = 1000;
    p.ambient_amplitude = 100;
    let t = p.update_state();
    assert!(t.is_none());
    assert!(matches!(p.listening_state, ListeningState::Active));
    assert_eq!(p.listen_start, 513);

    p.ring.push_chunks(vec![vec![7, 8, 9, 10], vec![11, 12, 13, 14]]);
    p.current_amplitude = 10;
    p.ambient_amplitude = 1000;
    let t = p.update_state().expect("the level drop must yield a trigger");
    assert!(matches!(p.listening_state, ListeningState::Idle));
    assert_eq!(t.snapshot.len(), 2);
    assert_eq!(t.snapshot[0], vec![vec![7, 8, 9, 10]]);
    assert_eq!(t.snapshot[1], vec![vec![11, 12, 13, 14]]);
    assert_eq!(t.total_input_samples, 4);
    assert!(t.stretch_factor_milli >= 6000 && t.stretch_factor_milli <= 12000);
    assert_eq!(t.window_size, 8192);
    assert_eq!(t.fade.nanos, 500_000_000);
    assert_eq!(p.active_stretchers, 1);
    p.note_stretcher_finished();
    assert_eq!(p.active_stretchers, 0);
}

#[test]
fn test_no_trigger_on_steady_level() {
    let mut p = default_processor();
    for _ in 0..600 {
        p.ring.push_chunks(vec![silence(4), silence(4)]);
    }
    // A converged estimator pair: the level is steady, ratio 1.0 < 1.5.
    p.current_amplitude = 5000;
    p.ambient_amplitude = 5000;
    for _ in 0..50 {
        assert!(p.update_state().is_none());
        assert!(matches!(p.listening_state, ListeningState::Idle));
    }
}

#[test]
fn test_trigger_skipped_at_max_stretchers() {
    let mut p = default_processor();
    for _ in 0..513 {
        p.ring.push_chunks(vec![silence(4), silence(4)]);
    }
    p.listening_state = ListeningState::Active;
    p.listen_start = 513;
    p.active_stretchers = 10;
    p.current_amplitude = 10;
    p.ambient_amplitude = 1000;
    assert!(p.update_state().is_none());
    assert!(matches!(p.listening_state, ListeningState::Idle));
    assert_eq!(p.active_stretchers, 10);
}

#[test]
fn test_full_session_detects_burst_and_shuts_down() {
    let (tx0, rx0) = unbounded::<Vec<i32>>();
    let (tx1, rx1) = unbounded::<Vec<i32>>();
    let bus = vec![rx0, rx1];
    let (ctl_tx, ctl_rx) = unbounded::<InstallationProcessorControlMessage>();
    let mut p = default_processor();

    for _ in 0..520 {
        tx0.send(silence(32)).unwrap();
        tx1.send(silence(32)).unwrap();
        let out = p.run_iteration(&bus, &ctl_rx).unwrap();
        assert!(matches!(out.state, ProcessorState::Running));
        assert!(out.trigger.is_none());
    }
    assert!(matches!(p.listening_state, ListeningState::Idle));

    tx0.send(vec![8_000_000; 32]).unwrap();
    tx1.send(vec![8_000_000; 32]).unwrap();
    let out = p.run_iteration(&bus, &ctl_rx).unwrap();
    assert!(out.trigger.is_none());
    assert!(matches!(p.listening_state, ListeningState::Active));

    let mut trigger = None;
    for _ in 0..200 {
        tx0.send(silence(2048)).unwrap();
        tx1.send(silence(2048)).unwrap();
        let out = p.run_iteration(&bus, &ctl_rx).unwrap();
        if let Some(t) = out.trigger {
            trigger = Some(t);
            break;
        }
    }
    let t = trigger.expect("the fading level must end the event");
    assert_eq!(t.snapshot.len(), 2);
    assert!(t.total_input_samples > 0);
    assert!(
        t.total_input_samples <= 44100,
        "the snippet must respect the one-second cap"
    );

    ctl_tx
        .send(InstallationProcessorControlMessage::shutdown_msg())
        .unwrap();
    tx0.send(silence(32)).unwrap();
    tx1.send(silence(32)).unwrap();
    let out = p.run_iteration(&bus, &ctl_rx).unwrap();
    assert!(matches!(out.state, ProcessorState::Finished));
}

#[test]
fn test_listen_start_survives_truncation() {
    let (tx0, rx0) = unbounded::<Vec<i32>>();
    let (tx1, rx1) = unbounded::<Vec<i32>>();
    let bus = vec![rx0, rx1];
    let (_ctl_tx, ctl_rx) = unbounded::<InstallationProcessorControlMessage>();
    let mut p = default_processor();
    for _ in 0..1024 {
        tx0.send(silence(1)).unwrap();
        tx1.send(silence(1)).unwrap();
        p.run_iteration(&bus, &ctl_rx).unwrap();
    }
    assert_eq!(p.ring.len(), 1024);
    p.listening_state = ListeningState::Active;
    p.listen_start = 5;
    tx0.send(silence(1)).unwrap();
    tx1.send(silence(1)).unwrap();
    p.run_iteration(&bus, &ctl_rx).unwrap();
    assert_eq!(p.ring.len(), 1024, "the ring stays at capacity");
    assert_eq!(p.listen_start, 4, "the listen start follows the dropped chunk");
    assert!(matches!(p.listening_state, ListeningState::Active));
}

#[test]
fn test_disconnected_bus_is_an_error() {
    let (tx0, rx0) = unbounded::<Vec<i32>>();
    let bus = vec![rx0];
    let (_ctl_tx, ctl_rx) = unbounded::<InstallationProcessorControlMessage>();
    let mut config = InstallationProcessorConfig::default();
    config.spec.channels = 1;
    let mut p = InstallationProcessor::new(config);
    drop(tx0);
    assert!(matches!(
        p.run_iteration(&bus, &ctl_rx),
        Err(ControllerError::BusDisconnected)
    ));
}

#[test]
fn test_uneven_chunks_are_an_error() {
    let (tx0, rx0) = unbounded::<Vec<i32>>();
    let (tx1, rx1) = unbounded::<Vec<i32>>();
    let bus = vec![rx0, rx1];
    let (_ctl_tx, ctl_rx) = unbounded::<InstallationProcessorControlMessage>();
    let mut p = default_processor();
    tx0.send(silence(4)).unwrap();
    tx1.send(silence(8)).unwrap();
    assert!(matches!(
        p.run_iteration(&bus, &ctl_rx),
        Err(ControllerError::UnevenBus)
    ));
}

#[test]
fn test_oversized_chunk_is_an_error() {
    let (tx0, rx0) = unbounded::<Vec<i32>>();
    let (tx1, rx1) = unbounded::<Vec<i32>>();
    let bus = vec![rx0, rx1];
    let (_ctl_tx, ctl_rx) = unbounded::<InstallationProcessorControlMessage>();
    let mut p = default_processor();
    // 14000 samples per channel exceed the 300 ms window of 26460.
    tx0.send(silence(14000)).unwrap();
    tx1.send(silence(14000)).unwrap();
    assert!(matches!(
        p.run_iteration(&bus, &ctl_rx),
        Err(ControllerError::ChunkTooLarge)
    ));
}

#[test]
fn test_control_messages_run_and_finish() {
    let (tx, rx) = unbounded::<InstallationProcessorControlMessage>();
    let mut p = default_processor();
    assert!(matches!(
        p.handle_control_messages(&rx),
        ProcessorState::Running
    ));
    tx.send(InstallationProcessorControlMessage::Shutdown).unwrap();
    assert!(matches!(
        p.handle_control_messages(&rx),
        ProcessorState::Finished
    ));
    drop(tx);
    assert!(matches!(
        p.handle_control_messages(&rx),
        ProcessorState::Finished
    ));
}

#[test]
fn test_mixer_sums_and_clips() {
    let spec = AudioSpec {
        channels: 1,
        sample_rate: 10,
    };
    let mut mixer = AudioOutputProcessor::new(spec);
    let (tx_a, rx_a) = unbounded::<Vec<i32>>();
    let (tx_b, rx_b) = unbounded::<Vec<i32>>();
    mixer.connect_bus(1, vec![rx_a], None, false);
    mixer.connect_bus(2, vec![rx_b], None, false);
    tx_a.send(vec![1000, SAMPLE_UNIT, -SAMPLE_UNIT]).unwrap();
    tx_b.send(vec![2000, SAMPLE_UNIT, -SAMPLE_UNIT]).unwrap();
    mixer.refill();
    assert_eq!(mixer.mix_frame(), vec![3000]);
    mixer.refill();
    assert_eq!(mixer.mix_frame(), vec![SAMPLE_UNIT], "positive clip");
    mixer.refill();
    assert_eq!(mixer.mix_frame(), vec![-SAMPLE_UNIT], "negative clip");
    // Underflow yields silence.
    mixer.refill();
    assert_eq!(mixer.mix_frame(), vec![0]);
}

#[test]
fn test_mixer_fade_in_rises_monotonically() {
    let spec = AudioSpec {
        channels: 1,
        sample_rate: 10,
    };
    let mut mixer = AudioOutputProcessor::new(spec);
    let (tx, rx) = unbounded::<Vec<i32>>();
    // 500 ms at 10 Hz: the fade spans 5 frames.
    mixer.connect_bus(7, vec![rx], Some(TimeSpan::from_millis(500)), false);
    tx.send(vec![SAMPLE_UNIT; 10]).unwrap();
    let mut last: i32 = -1;
    let mut frames = Vec::new();
    for _ in 0..6 {
        mixer.refill();
        let frame = mixer.mix_frame();
        assert!(frame[0] >= last, "a fade-in never falls");
        last = frame[0];
        frames.push(frame[0]);
    }
    assert_eq!(frames[0], 0, "the fade starts from silence");
    assert_eq!(frames[5], SAMPLE_UNIT, "the fade reaches full level");
}

#[test]
fn test_mixer_closes_finished_bus_and_requests_shutdown() {
    let spec = AudioSpec {
        channels: 1,
        sample_rate: 10,
    };
    let mut mixer = AudioOutputProcessor::new(spec);
    let (tx, rx) = unbounded::<Vec<i32>>();
    mixer.connect_bus(9, vec![rx], None, true);
    tx.send(vec![5]).unwrap();
    drop(tx);
    mixer.refill();
    assert_eq!(mixer.mix_frame(), vec![5]);
    assert!(!mixer.sweep_finished(), "a bus with pending state stays");
    mixer.refill();
    assert!(mixer.sweep_finished(), "the drained bus asks for shutdown");
    assert!(!mixer.has_bus(9));
}

#[test]
fn test_mixer_control_connect_and_disconnect() {
    let spec = AudioSpec {
        channels: 1,
        sample_rate: 10,
    };
    let mut mixer = AudioOutputProcessor::new(spec);
    let (_tx, rx) = unbounded::<Vec<i32>>();
    let state = mixer.handle_control_message(AudioOutputProcessorControlMessage::ConnectBus {
        id: 3,
        bus: vec![rx],
        fade: None,
        shutdown_when_finished: false,
    });
    assert!(matches!(state, ProcessorState::Running));
    assert!(mixer.has_bus(3));
    let state =
        mixer.handle_control_message(AudioOutputProcessorControlMessage::DisconnectBus { id: 3 });
    assert!(matches!(state, ProcessorState::Running));
    assert!(!mixer.has_bus(3));
    let state = mixer
        .handle_control_message(AudioOutputProcessorControlMessage::shutdown_msg());
    assert!(matches!(state, ProcessorState::Finished));
}

#[test]
fn test_stretch_budget() {
    // 44100 input samples at a factor of 6.0 owe exactly 264600 samples.
    assert_eq!(output_budget(44100, 6000), Some(264600));
    let spec = AudioSpec {
        channels: 2,
        sample_rate: 44100,
    };
    let s = Stretcher::new(
        spec,
        6000,
        1000,
        8192,
        TimeSpan::from_secs(4),
        Some(264600),
    )
    .unwrap();
    assert_eq!(s.analysis_hop, 2048);
    assert_eq!(s.synthesis_hop, 12288);
    let lens = emission_lengths(264600, s.synthesis_hop);
    let total: usize = lens.iter().sum();
    assert_eq!(total, 264600, "the emitted chunks cover the budget exactly");
    assert!(lens.iter().all(|l| *l <= 12288));
}

#[test]
fn test_stretcher_emits_exactly_its_budget() {
    let spec = AudioSpec {
        channels: 1,
        sample_rate: 44100,
    };
    let mut s = Stretcher::new(spec, 2500, 1000, 4, TimeSpan::from_nanos(0), Some(10)).unwrap();
    // Analysis hop 1, synthesis hop round(1 * 2.5) = 3.
    assert_eq!(s.synthesis_hop, 3);
    let mut emitted: usize = 0;
    while !s.is_done() {
        let n = s.next_chunk_len();
        assert!(n >= 1);
        s.note_emitted(n);
        emitted += n;
    }
    assert_eq!(emitted, 10);
}

#[test]
fn test_stretcher_rejects_bad_parameters() {
    let spec = AudioSpec {
        channels: 1,
        sample_rate: 44100,
    };
    assert!(matches!(
        Stretcher::new(spec, 500, 1000, 8192, TimeSpan::from_secs(4), None),
        Err(StretchError::ParameterOutOfRange)
    ));
    assert!(matches!(
        Stretcher::new(spec, 6000, 1000, 8191, TimeSpan::from_secs(4), None),
        Err(StretchError::ParameterOutOfRange)
    ));
    assert!(Stretcher::new(spec, 1000, 1000, 4, TimeSpan::from_secs(4), None).is_ok());
    assert!(check_pow2(8192));
    assert!(!check_pow2(0));
    assert!(!check_pow2(12000));
}

#[test]
fn test_stretcher_envelope_shapes_output() {
    let spec = AudioSpec {
        channels: 1,
        sample_rate: 1,
    };
    // Fade of 2 samples on both ends of a 4-sample budget, unit amplitude.
    let s = Stretcher::new(spec, 1000, 1000, 4, TimeSpan::from_secs(2), Some(4)).unwrap();
    assert_eq!(s.fade_len, 2);
    let shaped = s.shape_chunk(&vec![1000, 1000, 1000, 1000], 0);
    assert_eq!(shaped, vec![0, 500, 1000, 500]);
    // Halved amplitude is applied before the fades.
    let s = Stretcher::new(spec, 1000, 500, 4, TimeSpan::from_secs(2), Some(4)).unwrap();
    let shaped = s.shape_chunk(&vec![1000, 1000, 1000, 1000], 0);
    assert_eq!(shaped, vec![0, 250, 500, 250]);
}

#[test]
fn test_random_range_stays_inside_bounds() {
    for _ in 0..50 {
        let v = random_in_range(5, 8);
        assert!(v >= 5 && v < 8);
    }
    assert_eq!(random_in_range(41, 42), 41);
}

#[test]
fn test_chosen_parameters_come_from_config() {
    let p = default_processor();
    for _ in 0..20 {
        let f = p.choose_stretch_factor();
        assert!(f >= 6000 && f <= 12000);
        assert_eq!(p.choose_window(), 8192);
    }
}

#[test]
fn test_arms_at_exactly_half_full() {
    let mut p = default_processor();
    for _ in 0..512 {
        p.ring.push_chunks(vec![silence(4), silence(4)]);
    }
    p.current_amplitude = 1000;
    p.ambient_amplitude = 100;
    assert!(p.update_state().is_none());
    assert!(
        matches!(p.listening_state, ListeningState::Active),
        "a ring at exactly half capacity already arms the machine"
    );
    assert_eq!(p.listen_start, 512);
}

#[test]
fn test_config_validation() {
    assert!(InstallationProcessorConfig::default().validate());
    let mut bad = InstallationProcessorConfig::default();
    bad.spec.sample_rate = 0;
    assert!(!bad.validate());
    let mut bad = InstallationProcessorConfig::default();
    bad.window_sizes = Vec::new();
    assert!(!bad.validate());
    let mut bad = InstallationProcessorConfig::default();
    bad.min_stretch_factor_milli = 500;
    assert!(!bad.validate());
    let mut bad = InstallationProcessorConfig::default();
    bad.min_stretch_factor_milli = 9000;
    bad.max_stretch_factor_milli = 8000;
    assert!(!bad.validate());
}

#[test]
fn test_mixer_fades_out_after_end_of_stream() {
    let spec = AudioSpec {
        channels: 1,
        sample_rate: 10,
    };
    let mut mixer = AudioOutputProcessor::new(spec);
    let (tx, rx) = unbounded::<Vec<i32>>();
    // 500 ms at 10 Hz: the fade spans 5 frames.
    mixer.connect_bus(11, vec![rx], Some(TimeSpan::from_millis(500)), false);
    tx.send(vec![SAMPLE_UNIT; 20]).unwrap();
    for _ in 0..6 {
        mixer.refill();
        mixer.mix_frame();
    }
    // The bus reached full level; now its sender vanishes.
    drop(tx);
    mixer.refill();
    assert_eq!(mixer.mix_frame(), vec![SAMPLE_UNIT], "full level at end of stream");
    let mut last = SAMPLE_UNIT;
    for _ in 0..5 {
        mixer.refill();
        let frame = mixer.mix_frame();
        assert!(frame[0] <= last, "after end of stream the level never rises");
        last = frame[0];
    }
    assert_eq!(last, 0, "the fade-out reaches silence");
}
