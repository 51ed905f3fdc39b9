use audio_capture::overflow::{OverflowMonitor, OverflowSignal, DROP_FATAL_RUN, DROP_WARNING_RUN};
use audio_capture::ring::{capture_ring, count_frames, first_channel_sample, ring};

#[test]
fn ring_without_capacity_is_refused() {
    assert!(ring::<f32>(0).is_none());
    assert!(ring::<f32>(1).is_some());
    // More than a quarter of the address space, even for items of no size.
    assert!(ring::<()>(usize::MAX / 4 + 1).is_none());
    assert!(ring::<f32>(usize::MAX).is_none());
}

#[test]
fn frames_are_counted_with_a_cut_one_as_whole() {
    assert_eq!(count_frames(0, 2), 0);
    assert_eq!(count_frames(6, 2), 3);
    assert_eq!(count_frames(7, 2), 4);
    assert_eq!(count_frames(5, 1), 5);
    assert_eq!(count_frames(5, 0), 5);
    assert_eq!(count_frames(2, 3), 1);
    assert_eq!(count_frames(usize::MAX, 2), usize::MAX / 2 + 1);
    assert_eq!(count_frames(usize::MAX, usize::MAX), 1);
}

#[test]
fn the_first_channel_is_the_first_sample_of_each_frame() {
    let stereo: Vec<i16> = vec![1, 10, 2, 20, 3];
    assert_eq!(first_channel_sample(&stereo, 2, 0), 1);
    assert_eq!(first_channel_sample(&stereo, 2, 1), 2);
    assert_eq!(first_channel_sample(&stereo, 2, 2), 3);
    assert_eq!(first_channel_sample(&stereo, 1, 3), 20);
    assert_eq!(first_channel_sample(&stereo, 0, 4), 3);
    assert_eq!(first_channel_sample(&stereo, 4, 1), 3);
}

#[test]
fn samples_come_out_in_the_order_they_went_in() {
    let (mut producer, mut consumer) = ring::<i16>(8).unwrap();
    let mut monitor = OverflowMonitor::new();
    assert_eq!(producer.push(&mut monitor, &[1, 2, 3]), OverflowSignal::Clear);
    assert_eq!(producer.push(&mut monitor, &[4, 5]), OverflowSignal::Clear);
    let mut batch: Vec<i16> = vec![0];
    consumer.drain(&mut batch, 4);
    assert_eq!(batch, vec![0, 1, 2, 3]);
    consumer.drain(&mut batch, 100);
    assert_eq!(batch, vec![0, 1, 2, 3, 4, 5]);
    // A batch that is full already is left alone.
    assert_eq!(producer.push(&mut monitor, &[6]), OverflowSignal::Clear);
    consumer.drain(&mut batch, 6);
    assert_eq!(batch, vec![0, 1, 2, 3, 4, 5]);
    consumer.drain(&mut batch, 3);
    assert_eq!(batch, vec![0, 1, 2, 3, 4, 5]);
}

#[test]
fn a_full_ring_drops_the_tail() {
    let (mut producer, mut consumer) = ring::<i16>(4).unwrap();
    let mut monitor = OverflowMonitor::new();
    assert_eq!(producer.push(&mut monitor, &[1, 2, 3, 4, 5, 6]), OverflowSignal::Dropped);
    assert_eq!(monitor.consecutive_drops(), 1);
    let mut batch: Vec<i16> = Vec::new();
    consumer.drain(&mut batch, 480);
    assert_eq!(batch, vec![1, 2, 3, 4]);
    assert_eq!(producer.push(&mut monitor, &[7, 8]), OverflowSignal::Clear);
    assert_eq!(monitor.consecutive_drops(), 0);
}

#[test]
fn capture_ring_holds_its_capacity() {
    let (mut producer, mut consumer) = capture_ring::<u8>().unwrap();
    let mut monitor = OverflowMonitor::new();
    let block: Vec<u8> = vec![7; 32768];
    assert_eq!(producer.push(&mut monitor, &block), OverflowSignal::Clear);
    assert_eq!(producer.push(&mut monitor, &[1]), OverflowSignal::Dropped);
    let mut batch: Vec<u8> = Vec::new();
    consumer.drain(&mut batch, 40_000);
    assert_eq!(batch.len(), 32768);
}

#[test]
fn first_channel_of_each_frame_is_pushed() {
    let (mut producer, mut consumer) = ring::<i32>(16).unwrap();
    let mut monitor = OverflowMonitor::new();
    let scale = |s: i16| s as i32 * 100;
    let stereo: Vec<i16> = vec![1, 10, 2, 20, 3, 30];
    assert_eq!(producer.push_first_channel(&mut monitor, &stereo, 2, scale), OverflowSignal::Clear);
    // A frame that is cut short still gives its first sample.
    let cut: Vec<i16> = vec![4, 40, 5];
    assert_eq!(producer.push_first_channel(&mut monitor, &cut, 2, scale), OverflowSignal::Clear);
    let mono: Vec<i16> = vec![6, 7];
    assert_eq!(producer.push_first_channel(&mut monitor, &mono, 1, scale), OverflowSignal::Clear);
    assert_eq!(producer.push_first_channel(&mut monitor, &mono, 0, scale), OverflowSignal::Clear);
    let none: Vec<i16> = Vec::new();
    assert_eq!(producer.push_first_channel(&mut monitor, &none, 2, scale), OverflowSignal::Clear);
    assert_eq!(monitor.consecutive_drops(), 0);
    let mut batch: Vec<i32> = Vec::new();
    consumer.drain(&mut batch, 480);
    assert_eq!(batch, vec![100, 200, 300, 400, 500, 600, 700, 600, 700]);
}

#[test]
fn first_channel_counts_a_frame_that_did_not_fit_as_a_drop() {
    let (mut producer, mut consumer) = ring::<i16>(2).unwrap();
    let mut monitor = OverflowMonitor::new();
    let frames: Vec<i16> = vec![1, 0, 0, 2, 0, 0, 3, 0, 0];
    // Three frames are offered, two fit.
    assert_eq!(
        producer.push_first_channel(&mut monitor, &frames, 3, |s: i16| s),
        OverflowSignal::Dropped
    );
    assert_eq!(monitor.consecutive_drops(), 1);
    let mut batch: Vec<i16> = Vec::new();
    consumer.drain(&mut batch, 480);
    assert_eq!(batch, vec![1, 2]);
    // Two frames are offered and both fit: the run is over.
    let fitting: Vec<i16> = vec![4, 0, 0, 5, 0];
    assert_eq!(
        producer.push_first_channel(&mut monitor, &fitting, 3, |s: i16| s),
        OverflowSignal::Clear
    );
    assert_eq!(monitor.consecutive_drops(), 0);
}

#[test]
fn first_channel_ends_the_capture_after_a_long_run_of_drops() {
    let (mut producer, _consumer) = ring::<i16>(1).unwrap();
    let mut monitor = OverflowMonitor::new();
    let stereo: Vec<i16> = vec![1, 2, 3, 4];
    for run in 1..=51u32 {
        let signal = producer.push_first_channel(&mut monitor, &stereo, 2, |s: i16| s);
        let expected = if run > 50 {
            OverflowSignal::Terminate
        } else if run >= 25 {
            OverflowSignal::Warning
        } else {
            OverflowSignal::Dropped
        };
        assert_eq!(signal, expected);
    }
    assert!(monitor.should_terminate());
}

#[test]
fn a_long_run_of_drops_warns_and_then_ends_the_capture() {
    assert_eq!(DROP_WARNING_RUN, 25);
    assert_eq!(DROP_FATAL_RUN, 50);
    let (mut producer, _consumer) = ring::<f32>(1).unwrap();
    let mut monitor = OverflowMonitor::new();
    for run in 1..=60u32 {
        let signal = producer.push(&mut monitor, &[0.0, 0.0]);
        let expected = if run > 50 {
            OverflowSignal::Terminate
        } else if run >= 25 {
            OverflowSignal::Warning
        } else {
            OverflowSignal::Dropped
        };
        assert_eq!(signal, expected);
        assert_eq!(monitor.consecutive_drops(), run);
        assert_eq!(monitor.should_terminate(), run > 50);
    }
}

#[test]
fn a_clean_push_ends_the_run_but_not_the_verdict() {
    let mut monitor = OverflowMonitor::new();
    for _ in 0..24 {
        assert_eq!(monitor.record(10, 9), OverflowSignal::Dropped);
    }
    assert_eq!(monitor.record(10, 10), OverflowSignal::Clear);
    assert_eq!(monitor.consecutive_drops(), 0);
    assert!(!monitor.should_terminate());
    for _ in 0..24 {
        assert_eq!(monitor.record(10, 0), OverflowSignal::Dropped);
    }
    assert_eq!(monitor.record(10, 0), OverflowSignal::Warning);
    for _ in 0..25 {
        assert_eq!(monitor.record(10, 0), OverflowSignal::Warning);
    }
    assert_eq!(monitor.record(10, 0), OverflowSignal::Terminate);
    assert!(monitor.should_terminate());
    assert_eq!(monitor.record(0, 0), OverflowSignal::Clear);
    assert!(monitor.should_terminate());
    assert_eq!(monitor.consecutive_drops(), 0);
}
