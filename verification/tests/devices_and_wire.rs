use audio_capture::devices::{
    device_infos, identified_devices, input_device_list, output_device_list, requested_device,
    select_input_device, FoundDevice,
};
use audio_capture::error::CaptureError;
use audio_capture::lifecycle::{Lifecycle, StartPlan, StopPlan};
use audio_capture::speaker::{
    buffer_samples, fallback_backend, list_output_devices, preferred_backend, Backend,
    SpeakerInput, SCREEN_CAPTURE_SAMPLE_RATE,
};
use audio_capture::wire::{frame_to_le_bytes, take_le_words};
use std::collections::VecDeque;

fn pair(id: &str, name: &str) -> (String, String) {
    (id.to_string(), name.to_string())
}

#[test]
fn frames_are_little_endian_on_the_wire() {
    assert_eq!(frame_to_le_bytes(&[]), Vec::<u8>::new());
    assert_eq!(
        frame_to_le_bytes(&[1, -1, 256, -32768, 32767, -2, 0x1234]),
        vec![1, 0, 255, 255, 0, 1, 0, 128, 255, 127, 254, 255, 0x34, 0x12]
    );
    let frame: Vec<i16> = (0..320).map(|i| (i * 205 - 32768) as i16).collect();
    let bytes = frame_to_le_bytes(&frame);
    assert_eq!(bytes.len(), 640);
    let expected: Vec<u8> = frame.iter().flat_map(|s| s.to_le_bytes()).collect();
    assert_eq!(bytes, expected);
    assert_eq!(frame_to_le_bytes(&vec![0i16; 320]), vec![0u8; 640]);
}

#[test]
fn default_and_empty_identifiers_ask_for_no_device() {
    assert_eq!(requested_device(None), None);
    assert_eq!(requested_device(Some(String::new())), None);
    assert_eq!(requested_device(Some("default".to_string())), None);
    assert_eq!(requested_device(Some("Default".to_string())), Some("Default".to_string()));
    assert_eq!(requested_device(Some("BuiltIn-42".to_string())), Some("BuiltIn-42".to_string()));
}

#[test]
fn input_devices_start_with_the_default_microphone() {
    assert_eq!(input_device_list(&vec![]), vec![pair("default", "Default Microphone")]);
    assert_eq!(
        input_device_list(&vec!["USB Mic".to_string(), "Headset".to_string()]),
        vec![
            pair("default", "Default Microphone"),
            pair("USB Mic", "USB Mic"),
            pair("Headset", "Headset"),
        ]
    );
}

#[test]
fn devices_without_identifier_are_left_out() {
    let found = vec![pair("a", "Speakers"), pair("", "Ghost"), pair("b", ""), pair("", "")];
    assert_eq!(identified_devices(&found), vec![pair("a", "Speakers"), pair("b", "")]);
    assert_eq!(identified_devices(&vec![]), Vec::<(String, String)>::new());
}

fn found(id: &str, name: &str, output_buffers: usize) -> FoundDevice {
    FoundDevice { id: id.to_string(), name: name.to_string(), output_buffers }
}

#[test]
fn output_devices_need_an_output_buffer_and_an_identifier() {
    let devices = vec![
        found("mic", "Microphone", 0),
        found("spk", "Speakers", 2),
        found("", "Nameless output", 1),
        found("hdmi", "Display", 1),
        found("", "Nothing", 0),
        found("usb", "", 1),
    ];
    assert_eq!(
        output_device_list(&devices),
        vec![pair("spk", "Speakers"), pair("hdmi", "Display"), pair("usb", "")]
    );
    assert_eq!(output_device_list(&vec![]), Vec::<(String, String)>::new());
    assert_eq!(output_device_list(&vec![found("mic", "Microphone", 0)]), vec![]);
}

#[test]
fn the_input_device_of_the_callers_name_is_chosen() {
    let names = vec!["USB Mic".to_string(), "Headset".to_string(), "USB Mic".to_string()];
    assert_eq!(select_input_device(&names, &Some("Headset".to_string())), Some(1));
    // The first of two devices of the same name.
    assert_eq!(select_input_device(&names, &Some("USB Mic".to_string())), Some(0));
    // No such device, no particular device asked for: the default is opened.
    assert_eq!(select_input_device(&names, &Some("Webcam".to_string())), None);
    assert_eq!(select_input_device(&names, &Some("default".to_string())), None);
    assert_eq!(select_input_device(&names, &Some(String::new())), None);
    assert_eq!(select_input_device(&names, &None), None);
    assert_eq!(select_input_device(&vec![], &Some("USB Mic".to_string())), None);
    // A device that is called like the default device is not found by that name.
    let odd = vec!["default".to_string()];
    assert_eq!(select_input_device(&odd, &Some("default".to_string())), None);
}

#[test]
fn a_failed_listing_gives_no_devices() {
    assert!(device_infos(Err(CaptureError::UnsupportedPlatform)).is_empty());
    let infos =
        device_infos::<CaptureError>(Ok(vec![pair("a", "Speakers"), pair("b", "Display")]));
    assert_eq!(infos.len(), 2);
    assert_eq!((infos[0].id.as_str(), infos[0].name.as_str()), ("a", "Speakers"));
    assert_eq!((infos[1].id.as_str(), infos[1].name.as_str()), ("b", "Display"));
}

#[test]
fn screen_capture_is_forced_by_its_identifier_only() {
    assert_eq!(preferred_backend(&Some("sck".to_string())), Backend::ScreenCapture);
    assert_eq!(preferred_backend(&Some("SCK".to_string())), Backend::AudioTap);
    assert_eq!(preferred_backend(&Some("default".to_string())), Backend::AudioTap);
    assert_eq!(preferred_backend(&Some(String::new())), Backend::AudioTap);
    assert_eq!(preferred_backend(&None), Backend::AudioTap);
    assert_eq!(fallback_backend(Backend::AudioTap), Some(Backend::ScreenCapture));
    assert_eq!(fallback_backend(Backend::ScreenCapture), None);
    assert_eq!(SCREEN_CAPTURE_SAMPLE_RATE, 48_000);
}

#[test]
fn buffers_must_hold_whole_samples() {
    assert_eq!(buffer_samples(0), None);
    assert_eq!(buffer_samples(3), None);
    assert_eq!(buffer_samples(4), Some(1));
    assert_eq!(buffer_samples(4096), Some(1024));
    assert_eq!(buffer_samples(4098), None);
}

#[test]
fn platform_without_backend_has_no_source_and_no_devices() {
    assert!(matches!(SpeakerInput::new(None), Err(CaptureError::UnsupportedPlatform)));
    assert!(matches!(
        SpeakerInput::new(Some("sck".to_string())),
        Err(CaptureError::UnsupportedPlatform)
    ));
    assert_eq!(list_output_devices(), Ok(Vec::new()));
}

#[test]
fn errors_have_a_text() {
    assert_eq!(CaptureError::UnsupportedPlatform.message(), "Unsupported platform");
    assert_eq!(CaptureError::InvalidSampleRate.message(), "Invalid sample rate");
    assert_eq!(CaptureError::AlreadyRunning.message(), "Capture is already running");
}

#[test]
fn stop_twice_is_safe_and_start_after_stop_works() {
    let mut lifecycle = Lifecycle::deferred();
    assert!(!lifecycle.is_running());
    // Stopping what never ran does nothing.
    assert_eq!(lifecycle.stop(), StopPlan { join_worker: false, release_source: false });
    assert_eq!(lifecycle.begin_start(), Ok(StartPlan { open_source: true }));
    lifecycle.started();
    assert!(lifecycle.is_running());
    assert_eq!(lifecycle.begin_start(), Err(CaptureError::AlreadyRunning));
    assert_eq!(lifecycle.stop(), StopPlan { join_worker: true, release_source: true });
    assert_eq!(lifecycle.stop(), StopPlan { join_worker: false, release_source: false });
    assert!(!lifecycle.is_running());
    assert_eq!(lifecycle.begin_start(), Ok(StartPlan { open_source: true }));
    lifecycle.started();
    assert!(lifecycle.is_running());
}

#[test]
fn a_source_opened_at_construction_is_not_opened_again() {
    let mut lifecycle = Lifecycle::with_open_source();
    assert_eq!(lifecycle.begin_start(), Ok(StartPlan { open_source: false }));
    // A start that was only planned changes nothing.
    assert_eq!(lifecycle.begin_start(), Ok(StartPlan { open_source: false }));
    assert_eq!(lifecycle.stop(), StopPlan { join_worker: false, release_source: true });
    assert_eq!(lifecycle.begin_start(), Ok(StartPlan { open_source: true }));
}

#[test]
fn whole_words_are_taken_off_a_queue_of_bytes() {
    let mut bytes: VecDeque<u8> = VecDeque::new();
    assert_eq!(take_le_words(&mut bytes), Vec::<u32>::new());
    bytes.extend([0x78, 0x56, 0x34, 0x12, 0xff, 0xff, 0xff, 0xff, 0x01, 0x02]);
    assert_eq!(take_le_words(&mut bytes), vec![0x1234_5678, 0xffff_ffff]);
    assert_eq!(bytes, VecDeque::from(vec![0x01, 0x02]));
    // The words are the bits of the float samples of a source.
    let mut floats: VecDeque<u8> = VecDeque::new();
    floats.extend(0.5f32.to_le_bytes());
    floats.extend((-1.0f32).to_le_bytes());
    let samples: Vec<f32> =
        take_le_words(&mut floats).into_iter().map(f32::from_bits).collect();
    assert_eq!(samples, vec![0.5, -1.0]);
    assert!(floats.is_empty());
}
