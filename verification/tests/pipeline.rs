use audio_capture::audio_config::{
    CHUNK_SAMPLES, DRAIN_BATCH_SAMPLES, DSP_POLL_MS, FRAME_MS, FRAME_SAMPLES, RING_BUFFER_SAMPLES,
    SAMPLE_RATE, VAD_END_RMS, VAD_HANGOVER_MS, VAD_PREROLL_CHUNKS, VAD_START_RMS,
};
use audio_capture::error::CaptureError;
use audio_capture::frame_assembler::FrameAssembler;
use audio_capture::pipeline::CapturePipeline;
use audio_capture::ring::ring;
use audio_capture::silence_suppression::SilenceSuppressionConfig;

const MS: u64 = 1_000_000;

fn quantize(x: f32) -> i16 {
    (x * 32767.0).round().clamp(-32768.0, 32767.0) as i16
}

#[test]
fn constants_have_their_values() {
    assert_eq!(SAMPLE_RATE, 16_000);
    assert_eq!(FRAME_MS, 20);
    assert_eq!(FRAME_SAMPLES, 320);
    assert_eq!(CHUNK_SAMPLES, 320);
    assert_eq!(VAD_START_RMS, 185);
    assert_eq!(VAD_END_RMS, 100);
    assert_eq!(VAD_PREROLL_CHUNKS, 3);
    assert_eq!(VAD_HANGOVER_MS, 500);
    assert_eq!(DSP_POLL_MS, 1);
    assert_eq!(DRAIN_BATCH_SAMPLES, 480);
    assert_eq!(RING_BUFFER_SAMPLES, 32768);
    assert_eq!(SAMPLE_RATE as usize * FRAME_MS as usize / 1000, FRAME_SAMPLES);
}

#[test]
fn assembler_hands_out_whole_frames_in_order() {
    let mut assembler = FrameAssembler::new();
    assert_eq!(assembler.len(), 0);
    assert!(!assembler.has_frame());
    assert_eq!(assembler.pop_frame(), None);
    let first: Vec<i16> = (0..300).collect();
    assembler.extend(&first);
    assert_eq!(assembler.len(), 300);
    assert_eq!(assembler.pop_frame(), None);
    assert_eq!(assembler.len(), 300);
    let second: Vec<i16> = (300..700).collect();
    assembler.extend(&second);
    assert!(assembler.has_frame());
    assert_eq!(assembler.pop_frame(), Some((0..320).collect::<Vec<i16>>()));
    assert_eq!(assembler.pop_frame(), Some((320..640).collect::<Vec<i16>>()));
    assert_eq!(assembler.pop_frame(), None);
    assert_eq!(assembler.len(), 60);
}

#[test]
fn zero_rate_is_refused() {
    assert!(matches!(
        CapturePipeline::for_microphone(0),
        Err(CaptureError::InvalidSampleRate)
    ));
    assert!(matches!(
        CapturePipeline::for_system_audio(0),
        Err(CaptureError::InvalidSampleRate)
    ));
    assert!(matches!(
        CapturePipeline::new(0, SilenceSuppressionConfig::default()),
        Err(CaptureError::InvalidSampleRate)
    ));
    assert!(CapturePipeline::for_microphone(1).is_ok());
}

#[test]
fn loud_audio_comes_out_in_frames_of_320() {
    let mut pipeline = CapturePipeline::for_microphone(48000).unwrap();
    // 480 samples at 48 kHz are 160 samples at 16 kHz: half a frame.
    let batch: Vec<i16> = vec![1000; 480];
    assert_eq!(pipeline.feed_at(&batch, 0), Vec::<Vec<i16>>::new());
    assert_eq!(pipeline.pending(), 160);
    assert_eq!(pipeline.feed_at(&batch, 10 * MS), vec![vec![1000i16; 320]]);
    assert_eq!(pipeline.pending(), 0);
    assert_eq!(pipeline.stats(), (1, 0));
}

#[test]
fn a_large_batch_gives_several_frames_and_keeps_the_rest() {
    let mut pipeline = CapturePipeline::for_microphone(16000).unwrap();
    let batch: Vec<i16> = (0..1000).map(|i| 2000 + i as i16).collect();
    let frames = pipeline.feed_at(&batch, 0);
    assert_eq!(frames.len(), 3);
    for (k, frame) in frames.iter().enumerate() {
        assert_eq!(frame.len(), 320);
        let expected: Vec<i16> = (0..320).map(|i| 2000 + (k * 320 + i) as i16).collect();
        assert_eq!(frame, &expected);
    }
    assert_eq!(pipeline.pending(), 40);
}

#[test]
fn silence_turns_into_keepalives_of_zeros() {
    let mut pipeline = CapturePipeline::for_system_audio(16000).unwrap();
    let silent: Vec<i16> = vec![0; 320];
    let mut delivered = 0;
    for i in 0..100u64 {
        let frames = pipeline.feed_at(&silent, i * 20 * MS);
        for frame in &frames {
            assert_eq!(frame, &vec![0i16; 320]);
        }
        delivered += frames.len();
    }
    // 16 frames of hangover (0 ms to 300 ms), then a keep-alive every 100 ms
    // from 320 ms to 1 920 ms.
    assert_eq!(delivered, 16 + 17);
    assert_eq!(pipeline.stats(), (33, 67));
}

#[test]
fn five_seconds_of_sine_give_250_frames() {
    let mut pipeline = CapturePipeline::for_microphone(48000).unwrap();
    let total = 5 * 48000;
    let signal: Vec<i16> = (0..total)
        .map(|i| quantize(0.5 * (2.0 * std::f32::consts::PI * 440.0 * (i as f32) / 48000.0).sin()))
        .collect();
    let mut frames = 0;
    let mut samples = 0;
    for (tick, batch) in signal.chunks(480).enumerate() {
        for frame in pipeline.feed_at(batch, tick as u64 * 10 * MS) {
            assert_eq!(frame.len(), 320);
            frames += 1;
            samples += frame.len();
        }
    }
    assert_eq!(frames, 250);
    assert_eq!(samples + pipeline.pending(), 80_000);
    assert_eq!(pipeline.stats(), (250, 0));
}

#[test]
fn rate_is_kept_for_a_fractional_ratio() {
    let mut pipeline = CapturePipeline::for_microphone(44100).unwrap();
    let signal: Vec<i16> = vec![3000; 44100];
    let mut frames = 0;
    for batch in signal.chunks(441) {
        frames += pipeline.feed_at(batch, 0).len();
    }
    // One second of input is 16 000 output samples: exactly 50 frames.
    assert_eq!(frames * 320 + pipeline.pending(), 16_000);
    assert_eq!(frames, 50);
}

#[test]
fn feed_reads_the_clock_itself() {
    let mut pipeline = CapturePipeline::for_microphone(16000).unwrap();
    let loud: Vec<i16> = vec![4000; 640];
    let frames = pipeline.feed(&loud);
    assert_eq!(frames, vec![vec![4000i16; 320], vec![4000i16; 320]]);
}

#[test]
fn tick_takes_at_most_one_batch_from_the_ring() {
    let (mut producer, mut consumer) = ring::<f32>(4096).unwrap();
    let mut monitor = audio_capture::overflow::OverflowMonitor::new();
    let source: Vec<f32> = vec![0.5; 1000];
    producer.push(&mut monitor, &source);
    let mut pipeline = CapturePipeline::for_microphone(16000).unwrap();
    // 480 samples: one frame and 160 pending.
    let frames = pipeline.tick(&mut consumer, quantize);
    assert_eq!(frames, vec![vec![16384i16; 320]]);
    assert_eq!(pipeline.pending(), 160);
    // 480 more: 640 in all, two frames.
    let frames = pipeline.tick(&mut consumer, quantize);
    assert_eq!(frames.len(), 2);
    assert_eq!(pipeline.pending(), 0);
    // The last 40.
    assert_eq!(pipeline.tick(&mut consumer, quantize).len(), 0);
    assert_eq!(pipeline.pending(), 40);
    // Nothing is left.
    assert_eq!(pipeline.tick(&mut consumer, quantize).len(), 0);
    assert_eq!(pipeline.pending(), 40);
}

#[test]
fn raw_samples_are_quantized_in_order_before_they_are_fed() {
    let mut pipeline = CapturePipeline::for_microphone(16000).unwrap();
    let raw: Vec<f32> = (0..640).map(|i| if i < 320 { 0.25 } else { -0.5 }).collect();
    let frames = pipeline.feed_raw(&raw, &quantize, 0);
    assert_eq!(frames, vec![vec![8192i16; 320], vec![-16384i16; 320]]);
    // The same as quantizing first and feeding the batch.
    let mut other = CapturePipeline::for_microphone(16000).unwrap();
    let batch: Vec<i16> = raw.iter().map(|x| quantize(*x)).collect();
    assert_eq!(other.feed_at(&batch, 0), frames);
    let empty: Vec<f32> = Vec::new();
    assert_eq!(pipeline.feed_raw(&empty, &quantize, 0).len(), 0);
}

#[test]
fn tick_feeds_what_the_ring_held() {
    let (mut producer, mut consumer) = ring::<f32>(1024).unwrap();
    let mut monitor = audio_capture::overflow::OverflowMonitor::new();
    let source: Vec<f32> = (0..320).map(|i| (i as f32 - 160.0) / 200.0).collect();
    producer.push(&mut monitor, &source);
    let mut pipeline = CapturePipeline::for_microphone(16000).unwrap();
    let frames = pipeline.tick(&mut consumer, quantize);
    let expected: Vec<i16> = source.iter().map(|x| quantize(*x)).collect();
    // At equal rates every sample of the first batch passes as it is.
    assert_eq!(frames, vec![expected]);
}
