use cm108::gpio::{gpio_events, gpio_poll_step, HidGpio, GPIO_DIR_RIM_LITE};
use cm108::iso::{bytes_to_frame, frame_to_bytes, tx_packet};
use cm108::types::{is_supported_device, AudioFrame, GpioState, RadioEvent, CM108_VID};

#[test]
fn set_pin_builds_output_report() {
    let mut g = HidGpio::new();
    assert_eq!(g.output_report(), [0, 0, GPIO_DIR_RIM_LITE, 0]);
    assert_eq!(g.set_pin(0, true), [0, 0b0001, 0x09, 0]);
    assert_eq!(g.set_pin(3, true), [0, 0b1001, 0x09, 0]);
    assert_eq!(g.set_pin(0, false), [0, 0b1000, 0x09, 0]);
    assert_eq!(g.set_pin(2, false), [0, 0b1000, 0x09, 0]);
}

#[test]
fn state_comes_from_second_report_byte() {
    assert_eq!(HidGpio::state_from_report(&[7, 0b0110, 9, 9]), GpioState(0b0110));
}

#[test]
fn gpio_events_report_changes() {
    assert_eq!(
        gpio_events(GpioState(0b0000), GpioState(0b0011)),
        vec![RadioEvent::PttDeassert, RadioEvent::CosInactive, RadioEvent::GpioChange(GpioState(0))]
    );
    assert_eq!(
        gpio_events(GpioState(0b1000), GpioState(0b0000)),
        vec![RadioEvent::GpioChange(GpioState(0b1000))]
    );
    assert_eq!(
        gpio_events(GpioState(0b0010), GpioState(0b0000)),
        vec![RadioEvent::CosActive, RadioEvent::GpioChange(GpioState(0b0010))]
    );
}

#[test]
fn frame_bytes_roundtrip() {
    let mut f = AudioFrame::default();
    f.0[0] = 0x1234;
    f.0[1] = -2;
    f.0[95] = i16::MIN;
    let b = frame_to_bytes(&f);
    assert_eq!(&b[..4], &[0x34, 0x12, 0xfe, 0xff]);
    assert_eq!(&b[190..], &[0x00, 0x80]);
    assert_eq!(bytes_to_frame(&b).0, f.0);
    let mut raw = [0u8; 192];
    for (i, x) in raw.iter_mut().enumerate() {
        *x = i as u8;
    }
    assert_eq!(frame_to_bytes(&bytes_to_frame(&raw)), raw);
}

#[test]
fn recognises_cm108_family() {
    assert!(is_supported_device(CM108_VID, 0x013a));
    assert!(is_supported_device(0x0d8c, 0x001f));
    assert!(!is_supported_device(0x0d8c, 0x0001));
    assert!(!is_supported_device(0x1234, 0x013a));
}

#[test]
fn playback_sends_silence_on_underrun() {
    assert_eq!(tx_packet(None), [0u8; 192]);
    let mut f = AudioFrame::default();
    f.0[0] = 0x0102;
    f.0[95] = -1;
    let p = tx_packet(Some(f));
    assert_eq!(&p[..2], &[0x02, 0x01]);
    assert_eq!(&p[190..], &[0xff, 0xff]);
    assert_eq!(p, frame_to_bytes(&f));
}

#[test]
fn poller_skips_unchanged_reads() {
    let reads = [GpioState(0), GpioState(0b0001), GpioState(0b0001), GpioState(0b0000)];
    let mut prev = GpioState(0);
    let mut all = Vec::new();
    for s in reads {
        let (next, evs) = gpio_poll_step(prev, s);
        assert_eq!(next, s);
        all.extend(evs);
        prev = next;
    }
    assert_eq!(
        all,
        vec![
            RadioEvent::PttAssert,
            RadioEvent::GpioChange(GpioState(0b0001)),
            RadioEvent::PttDeassert,
            RadioEvent::GpioChange(GpioState(0)),
        ]
    );
}
