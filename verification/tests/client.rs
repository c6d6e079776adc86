use cm108::client::{audio_copy_frames, next_audio_step, radio_to_c, server_msg_to_event, ClientError, Cm108Event};
use cm108::seqlock::{is_stable, read_is_consistent, write_seqs};
use cm108::types::{GpioState, RadioEvent, ServerMsg};

#[test]
fn radio_events_map_to_c_codes() {
    assert_eq!(radio_to_c(RadioEvent::PttAssert), Cm108Event { event_type: 0, gpio_state: 0 });
    assert_eq!(radio_to_c(RadioEvent::PttDeassert), Cm108Event { event_type: 1, gpio_state: 0 });
    assert_eq!(radio_to_c(RadioEvent::CosActive), Cm108Event { event_type: 2, gpio_state: 0 });
    assert_eq!(radio_to_c(RadioEvent::CosInactive), Cm108Event { event_type: 3, gpio_state: 0 });
    assert_eq!(
        radio_to_c(RadioEvent::GpioChange(GpioState(0b1010))),
        Cm108Event { event_type: 4, gpio_state: 0b1010 }
    );
}

#[test]
fn only_radio_events_become_c_events() {
    assert_eq!(
        server_msg_to_event(ServerMsg::RadioEvent(RadioEvent::CosActive)),
        Some(Cm108Event { event_type: 2, gpio_state: 0 })
    );
    assert_eq!(server_msg_to_event(ServerMsg::Pong), None);
    assert_eq!(server_msg_to_event(ServerMsg::AudioReady { seq: 4 }), None);
}

#[test]
fn waiting_client_takes_only_newer_notifications() {
    assert!(matches!(next_audio_step(4, &Some(ServerMsg::AudioReady { seq: 6 })), Ok(Some(6))));
    assert!(matches!(next_audio_step(6, &Some(ServerMsg::AudioReady { seq: 6 })), Ok(None)));
    assert!(matches!(next_audio_step(6, &Some(ServerMsg::Pong)), Ok(None)));
    assert!(matches!(next_audio_step(6, &None), Err(ClientError::Disconnected)));
}

#[test]
fn copies_at_most_one_frame() {
    assert_eq!(audio_copy_frames(10), 10);
    assert_eq!(audio_copy_frames(48), 48);
    assert_eq!(audio_copy_frames(1000), 48);
}

#[test]
fn seqlock_write_goes_odd_then_even() {
    let (busy, done) = write_seqs(0);
    assert_eq!((busy, done), (1, 2));
    assert!(!is_stable(busy));
    assert!(is_stable(done));
    let (_, done2) = write_seqs(done);
    assert_eq!(done2, done + 2);
    assert_eq!(write_seqs(u64::MAX - 1), (u64::MAX, 0));
}

#[test]
fn seqlock_read_needs_even_unchanged_counter() {
    assert!(read_is_consistent(4, 4));
    assert!(!read_is_consistent(4, 6));
    assert!(!read_is_consistent(5, 5));
}
