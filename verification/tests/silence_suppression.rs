use audio_capture::silence_suppression::{
    generate_silence_frame, FrameAction, SilenceSuppressionConfig, SilenceSuppressor,
};

const MS: u64 = 1_000_000;

fn loud_frame() -> Vec<i16> {
    vec![500; 320]
}

fn silent_frame() -> Vec<i16> {
    vec![0; 320]
}

#[test]
fn test_speech_immediate() {
    let mut suppressor = SilenceSuppressor::new(SilenceSuppressionConfig::default());

    // Loud frame should be sent immediately
    let loud_frame: Vec<i16> = vec![500; 320];
    match suppressor.process(&loud_frame) {
        FrameAction::Send(_) => {}
        _ => panic!("Loud frame should be sent immediately"),
    }
    assert!(suppressor.is_speech());
}

#[test]
fn test_silence_keepalive() {
    let mut suppressor = SilenceSuppressor::new(SilenceSuppressionConfig {
        speech_threshold_rms: 100,
        speech_hangover_ms: 0,
        silence_keepalive_interval_ms: 50,
    });

    let silent_frame: Vec<i16> = vec![0; 320];
    let action = suppressor.process(&silent_frame);
    assert!(matches!(action, FrameAction::SendSilence | FrameAction::Suppress));
}

#[test]
fn presets_have_their_values() {
    let mic = SilenceSuppressionConfig::for_microphone();
    assert_eq!(mic.speech_threshold_rms, 100);
    assert_eq!(mic.speech_hangover_ms, 200);
    assert_eq!(mic.silence_keepalive_interval_ms, 100);
    let sys = SilenceSuppressionConfig::for_system_audio();
    assert_eq!(sys.speech_threshold_rms, 30);
    assert_eq!(sys.speech_hangover_ms, 300);
    assert_eq!(sys.silence_keepalive_interval_ms, 100);
    assert_eq!(SilenceSuppressionConfig::default(), mic);
}

#[test]
fn loud_frame_is_sent_unchanged() {
    let mut suppressor = SilenceSuppressor::new(SilenceSuppressionConfig::for_microphone());
    let frame: Vec<i16> = (0..320).map(|i| if i % 2 == 0 { 700 } else { -700 }).collect();
    match suppressor.process_at(&frame, 5 * MS) {
        FrameAction::Send(samples) => assert_eq!(samples, frame),
        other => panic!("expected Send, got {:?}", other),
    }
    assert_eq!(suppressor.stats(), (1, 0));
}

#[test]
fn silence_after_speech_with_no_hangover_is_not_sent() {
    let mut suppressor = SilenceSuppressor::new(SilenceSuppressionConfig {
        speech_threshold_rms: 100,
        speech_hangover_ms: 0,
        silence_keepalive_interval_ms: 50,
    });
    assert!(matches!(suppressor.process_at(&loud_frame(), 0), FrameAction::Send(_)));
    assert!(suppressor.is_speech());
    // 20 ms later the hangover of 0 ms is over and no keep-alive is due yet.
    assert!(matches!(suppressor.process_at(&silent_frame(), 20 * MS), FrameAction::Suppress));
    assert!(!suppressor.is_speech());
    assert!(matches!(suppressor.process_at(&silent_frame(), 40 * MS), FrameAction::Suppress));
    // 50 ms after the start of the clock the first keep-alive is due.
    assert!(matches!(suppressor.process_at(&silent_frame(), 60 * MS), FrameAction::SendSilence));
    assert!(matches!(suppressor.process_at(&silent_frame(), 80 * MS), FrameAction::Suppress));
    assert_eq!(suppressor.stats(), (2, 3));
}

#[test]
fn threshold_is_met_exactly_at_the_level() {
    let mut suppressor = SilenceSuppressor::new(SilenceSuppressionConfig {
        speech_threshold_rms: 100,
        speech_hangover_ms: 0,
        silence_keepalive_interval_ms: 1_000,
    });
    // Moves the suppressor out of the active state.
    assert!(matches!(suppressor.process_at(&silent_frame(), 1), FrameAction::Suppress));
    let at_level: Vec<i16> = vec![100; 320];
    assert!(matches!(suppressor.process_at(&at_level, 2), FrameAction::Send(_)));
    assert!(matches!(suppressor.process_at(&silent_frame(), 3), FrameAction::Suppress));
    let below: Vec<i16> = vec![99; 320];
    assert!(matches!(suppressor.process_at(&below, 4), FrameAction::Suppress));
}

#[test]
fn level_is_taken_from_every_fourth_sample() {
    let mut suppressor = SilenceSuppressor::new(SilenceSuppressionConfig {
        speech_threshold_rms: 100,
        speech_hangover_ms: 0,
        silence_keepalive_interval_ms: 1_000,
    });
    assert!(matches!(suppressor.process_at(&silent_frame(), 1), FrameAction::Suppress));
    // Loud only where the level is not measured.
    let off_grid: Vec<i16> = (0..320).map(|i| if i % 4 == 0 { 0 } else { 20_000 }).collect();
    assert!(matches!(suppressor.process_at(&off_grid, 2), FrameAction::Suppress));
    // Loud only where it is measured.
    let on_grid: Vec<i16> = (0..320).map(|i| if i % 4 == 0 { 20_000 } else { 0 }).collect();
    assert!(matches!(suppressor.process_at(&on_grid, 3), FrameAction::Send(_)));
}

#[test]
fn empty_frame_counts_as_silence() {
    let mut suppressor = SilenceSuppressor::new(SilenceSuppressionConfig {
        speech_threshold_rms: 1,
        speech_hangover_ms: 0,
        silence_keepalive_interval_ms: 1_000,
    });
    let empty: Vec<i16> = Vec::new();
    assert!(matches!(suppressor.process_at(&empty, 1), FrameAction::Suppress));
}

#[test]
fn hangover_passes_silence_until_it_is_over() {
    let mut suppressor = SilenceSuppressor::new(SilenceSuppressionConfig::for_microphone());
    assert!(matches!(suppressor.process_at(&loud_frame(), 1_000 * MS), FrameAction::Send(_)));
    // Exactly 200 ms after speech the hangover still holds.
    match suppressor.process_at(&silent_frame(), 1_200 * MS) {
        FrameAction::Send(samples) => assert_eq!(samples, silent_frame()),
        other => panic!("expected Send, got {:?}", other),
    }
    assert!(suppressor.is_speech());
    // One nanosecond later it is over; the last keep-alive is long ago.
    assert!(matches!(
        suppressor.process_at(&silent_frame(), 1_200 * MS + 1),
        FrameAction::SendSilence
    ));
    assert!(!suppressor.is_speech());
    assert!(matches!(
        suppressor.process_at(&silent_frame(), 1_220 * MS),
        FrameAction::Suppress
    ));
    // 100 ms after the keep-alive the next one is due, not before.
    assert!(matches!(
        suppressor.process_at(&silent_frame(), 1_300 * MS),
        FrameAction::Suppress
    ));
    assert!(matches!(
        suppressor.process_at(&silent_frame(), 1_300 * MS + 1),
        FrameAction::SendSilence
    ));
}

#[test]
fn speech_is_sent_from_every_state() {
    let mut suppressor = SilenceSuppressor::new(SilenceSuppressionConfig::for_microphone());
    // Active.
    assert!(matches!(suppressor.process_at(&loud_frame(), 0), FrameAction::Send(_)));
    // Hangover.
    assert!(matches!(suppressor.process_at(&silent_frame(), 20 * MS), FrameAction::Send(_)));
    assert!(matches!(suppressor.process_at(&loud_frame(), 40 * MS), FrameAction::Send(_)));
    // Suppressed.
    assert!(matches!(
        suppressor.process_at(&silent_frame(), 1_000 * MS),
        FrameAction::SendSilence
    ));
    assert!(matches!(suppressor.process_at(&silent_frame(), 1_020 * MS), FrameAction::Suppress));
    assert!(!suppressor.is_speech());
    assert!(matches!(suppressor.process_at(&loud_frame(), 1_040 * MS), FrameAction::Send(_)));
    assert!(suppressor.is_speech());
}

#[test]
fn thousand_silent_frames_are_mostly_suppressed() {
    let mut suppressor = SilenceSuppressor::new(SilenceSuppressionConfig::for_microphone());
    let mut last_emission: Option<u64> = None;
    let mut widest_gap: u64 = 0;
    for i in 0..1000u64 {
        let now = i * 20 * MS;
        let before = suppressor.stats();
        let action = suppressor.process_at(&silent_frame(), now);
        let after = suppressor.stats();
        // Each frame moves exactly one counter by one.
        assert!(after.0 >= before.0 && after.1 >= before.1);
        assert_eq!(after.0 + after.1, i + 1);
        if !matches!(action, FrameAction::Suppress) {
            if let Some(previous) = last_emission {
                widest_gap = widest_gap.max(now - previous);
            }
            last_emission = Some(now);
        }
    }
    // Eleven frames of hangover (0 ms to 200 ms), then one keep-alive every
    // 100 ms from 220 ms to 19 920 ms.
    assert_eq!(suppressor.stats(), (11 + 198, 1000 - 11 - 198));
    // Never more than the keep-alive interval plus one frame period.
    assert!(widest_gap <= 120 * MS);
    assert_eq!(widest_gap, 100 * MS);
}

#[test]
fn time_that_goes_back_counts_as_no_time() {
    let mut suppressor = SilenceSuppressor::new(SilenceSuppressionConfig::for_microphone());
    assert!(matches!(suppressor.process_at(&loud_frame(), 500 * MS), FrameAction::Send(_)));
    // An earlier reading is within every hangover.
    assert!(matches!(suppressor.process_at(&silent_frame(), 100 * MS), FrameAction::Send(_)));
}

#[test]
fn reset_returns_to_active_and_keeps_the_counters() {
    let mut suppressor = SilenceSuppressor::new(SilenceSuppressionConfig::for_microphone());
    assert!(matches!(
        suppressor.process_at(&silent_frame(), 1_000 * MS),
        FrameAction::SendSilence
    ));
    assert!(!suppressor.is_speech());
    suppressor.reset_at(1_010 * MS);
    assert!(suppressor.is_speech());
    assert_eq!(suppressor.stats(), (1, 0));
    // Within the hangover of the reset.
    assert!(matches!(suppressor.process_at(&silent_frame(), 1_200 * MS), FrameAction::Send(_)));
    // Past it, and the keep-alive timer was restarted at the reset.
    assert!(matches!(
        suppressor.process_at(&silent_frame(), 1_220 * MS),
        FrameAction::SendSilence
    ));
    suppressor.reset();
    assert!(suppressor.is_speech());
    assert_eq!(suppressor.config(), SilenceSuppressionConfig::for_microphone());
}

#[test]
fn payload_of_each_action() {
    assert_eq!(FrameAction::Send(vec![1, 2, 3]).payload(), Some(vec![1, 2, 3]));
    assert_eq!(FrameAction::SendSilence.payload(), Some(vec![0i16; 320]));
    assert_eq!(FrameAction::Suppress.payload(), None);
    let copy = FrameAction::Send(vec![4, 5]).clone();
    assert!(matches!(copy, FrameAction::Send(ref samples) if samples == &vec![4, 5]));
}

#[test]
fn silence_frame_has_the_size_asked_for() {
    assert_eq!(generate_silence_frame(0), Vec::<i16>::new());
    assert_eq!(generate_silence_frame(320), vec![0i16; 320]);
    assert_eq!(generate_silence_frame(7).len(), 7);
}

#[test]
fn clock_of_the_suppressor_does_not_go_back() {
    let suppressor = SilenceSuppressor::new(SilenceSuppressionConfig::for_microphone());
    let first = suppressor.now();
    let second = suppressor.now();
    assert!(second >= first);
}
