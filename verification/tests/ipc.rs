use std::sync::mpsc::sync_channel;

use cm108::framing::{
    frame_payload_len, read_msg, read_server_msg, write_client_msg, write_msg, FrameError,
};
use cm108::registry::{ClientHandle, ClientRegistry};
use cm108::gpio::HidGpio;
use cm108::server::{
    dispatch_client_msg, emit_gpio_events, heartbeat_on_disconnect, heartbeat_on_message, on_gpio_read,
    ClientAction, DispatchState, HEARTBEAT_PIN,
};
use cm108::types::{ClientMsg, GpioState, LatencyStats, RadioEvent, ServerMsg, StreamFlags};

fn sorted(mut v: Vec<u64>) -> Vec<u64> {
    v.sort();
    v
}

#[test]
fn registry_ids_start_at_one_and_increase() {
    let mut reg = ClientRegistry::new();
    assert_eq!(reg.allocate_id(), 1);
    assert_eq!(reg.allocate_id(), 2);
    assert_eq!(reg.allocate_id(), 3);
}

fn send(reg: &ClientRegistry, id: u64, msg: ServerMsg) {
    // as the daemon does: a full or closed channel drops the message
    let _ = reg.sender_of(id).expect("registered client").try_send(msg);
}

fn deliver(reg: &ClientRegistry, d: Vec<(u64, ServerMsg)>) {
    for (id, msg) in d {
        send(reg, id, msg);
    }
}

#[test]
fn registry_subscribers_follow_streams() {
    let mut reg = ClientRegistry::new();
    let (tx1, rx1) = sync_channel(8);
    let (tx2, rx2) = sync_channel(8);
    reg.register(ClientHandle { id: 1, streams: StreamFlags::empty(), sender: tx1 });
    reg.register(ClientHandle { id: 2, streams: StreamFlags::AUDIO_IN(), sender: tx2 });
    assert_eq!(sorted(reg.subscribers(StreamFlags::AUDIO_IN())), vec![2]);
    assert_eq!(sorted(reg.subscribers(StreamFlags::empty())), vec![1, 2]);

    reg.update_streams(1, StreamFlags::AUDIO_IN() | StreamFlags::GPIO_EVENTS());
    assert_eq!(sorted(reg.subscribers(StreamFlags::AUDIO_IN())), vec![1, 2]);
    assert_eq!(sorted(reg.subscribers(StreamFlags::GPIO_EVENTS())), vec![1]);

    let d = reg.notify_audio_ready(42);
    assert_eq!(sorted(d.iter().map(|(id, _)| *id).collect()), vec![1, 2]);
    deliver(&reg, d);
    assert_eq!(rx1.try_recv().unwrap(), ServerMsg::AudioReady { seq: 42 });
    assert_eq!(rx2.try_recv().unwrap(), ServerMsg::AudioReady { seq: 42 });

    let d = reg.broadcast_radio_event(RadioEvent::CosActive);
    assert_eq!(d, vec![(1, ServerMsg::RadioEvent(RadioEvent::CosActive))]);
    deliver(&reg, d);
    assert_eq!(rx1.try_recv().unwrap(), ServerMsg::RadioEvent(RadioEvent::CosActive));
    assert!(rx2.try_recv().is_err());

    reg.unregister(1);
    assert_eq!(sorted(reg.subscribers(StreamFlags::empty())), vec![2]);
    // a removed client is handed nothing more
    assert!(reg.sender_of(1).is_none());
    assert!(reg.broadcast_radio_event(RadioEvent::CosInactive).is_empty());
    assert!(rx1.try_recv().is_err());
    // unknown ids are ignored
    reg.update_streams(7, StreamFlags::AUDIO_IN());
    assert_eq!(sorted(reg.subscribers(StreamFlags::empty())), vec![2]);
}

#[test]
fn registry_session_gives_back_the_registry() {
    let mut reg = ClientRegistry::new();
    let (tx1, _rx1) = sync_channel(8);
    let first = reg.allocate_id();
    reg.register(ClientHandle { id: first, streams: StreamFlags::AUDIO_IN(), sender: tx1 });
    assert!(!reg.is_empty());

    let (tx2, _rx2) = sync_channel(8);
    let id = reg.allocate_id();
    assert_ne!(id, first);
    reg.register(ClientHandle { id, streams: StreamFlags::empty(), sender: tx2 });
    reg.update_streams(id, StreamFlags::GPIO_EVENTS());
    assert_eq!(sorted(reg.subscribers(StreamFlags::empty())), vec![first, id]);
    reg.unregister(id);
    assert_eq!(reg.subscribers(StreamFlags::empty()), vec![first]);
    assert_eq!(reg.subscribers(StreamFlags::AUDIO_IN()), vec![first]);
    reg.unregister(first);
    assert!(reg.is_empty());
}

#[test]
fn broadcast_stats_reaches_everyone() {
    let mut reg = ClientRegistry::new();
    let (tx1, rx1) = sync_channel(8);
    let (tx2, rx2) = sync_channel(8);
    reg.register(ClientHandle { id: 5, streams: StreamFlags::empty(), sender: tx1 });
    reg.register(ClientHandle { id: 6, streams: StreamFlags::GPIO_EVENTS(), sender: tx2 });
    let lat = LatencyStats { min_us: 1, max_us: 2, p99_us: 4 };
    let d = reg.broadcast_stats(3, 4, lat);
    assert_eq!(sorted(d.iter().map(|(id, _)| *id).collect()), vec![5, 6]);
    deliver(&reg, d);
    let expected = ServerMsg::Stats { rx_xruns: 3, tx_xruns: 4, dispatch_lat: lat };
    assert_eq!(rx1.try_recv().unwrap(), expected);
    assert_eq!(rx2.try_recv().unwrap(), expected);
}

#[test]
fn full_channel_drops_message_without_blocking() {
    let mut reg = ClientRegistry::new();
    let (tx, rx) = sync_channel(1);
    reg.register(ClientHandle { id: 1, streams: StreamFlags::AUDIO_IN(), sender: tx });
    deliver(&reg, reg.notify_audio_ready(1));
    deliver(&reg, reg.notify_audio_ready(2));
    assert_eq!(rx.try_recv().unwrap(), ServerMsg::AudioReady { seq: 1 });
    assert!(rx.try_recv().is_err());
}

#[test]
fn gpio_change_broadcasts_ptt_cos_and_state() {
    let mut reg = ClientRegistry::new();
    let (tx, rx) = sync_channel(8);
    let (tx_audio, rx_audio) = sync_channel(8);
    reg.register(ClientHandle { id: 1, streams: StreamFlags::GPIO_EVENTS(), sender: tx });
    reg.register(ClientHandle { id: 2, streams: StreamFlags::AUDIO_IN(), sender: tx_audio });
    let d = emit_gpio_events(GpioState(0b0011), GpioState(0), &reg);
    assert_eq!(
        d,
        vec![(
            1,
            vec![
                ServerMsg::RadioEvent(RadioEvent::PttAssert),
                ServerMsg::RadioEvent(RadioEvent::CosActive),
                ServerMsg::RadioEvent(RadioEvent::GpioChange(GpioState(0b0011))),
            ]
        )]
    );
    for (id, msgs) in d {
        for m in msgs {
            send(&reg, id, m);
        }
    }
    assert_eq!(rx.try_recv().unwrap(), ServerMsg::RadioEvent(RadioEvent::PttAssert));
    assert_eq!(rx.try_recv().unwrap(), ServerMsg::RadioEvent(RadioEvent::CosActive));
    assert_eq!(rx.try_recv().unwrap(), ServerMsg::RadioEvent(RadioEvent::GpioChange(GpioState(0b0011))));
    assert!(rx.try_recv().is_err());
    assert!(rx_audio.try_recv().is_err());

    let d = emit_gpio_events(GpioState(0b0100), GpioState(0b0001), &reg);
    assert_eq!(
        d,
        vec![(
            1,
            vec![
                ServerMsg::RadioEvent(RadioEvent::PttDeassert),
                ServerMsg::RadioEvent(RadioEvent::GpioChange(GpioState(0b0100))),
            ]
        )]
    );
}

#[test]
fn sender_of_finds_each_client_own_channel() {
    let mut reg = ClientRegistry::new();
    let (tx1, rx1) = sync_channel(8);
    let (tx2, rx2) = sync_channel(8);
    reg.register(ClientHandle { id: 1, streams: StreamFlags::empty(), sender: tx1 });
    reg.register(ClientHandle { id: 2, streams: StreamFlags::empty(), sender: tx2 });
    send(&reg, 2, ServerMsg::Pong);
    assert!(rx1.try_recv().is_err());
    assert_eq!(rx2.try_recv().unwrap(), ServerMsg::Pong);
    send(&reg, 1, ServerMsg::AudioReady { seq: 6 });
    assert_eq!(rx1.try_recv().unwrap(), ServerMsg::AudioReady { seq: 6 });
    assert!(reg.sender_of(3).is_none());
}

#[test]
fn gpio_read_reports_only_changes() {
    let mut reg = ClientRegistry::new();
    let (tx, _rx) = sync_channel(8);
    reg.register(ClientHandle { id: 4, streams: StreamFlags::GPIO_EVENTS(), sender: tx });
    let (next, d) = on_gpio_read(GpioState(0), GpioState(0), &reg);
    assert_eq!(next, GpioState(0));
    assert!(d.is_empty());
    let (next, d) = on_gpio_read(GpioState(0), GpioState(0b0010), &reg);
    assert_eq!(next, GpioState(0b0010));
    assert_eq!(
        d,
        vec![(
            4,
            vec![
                ServerMsg::RadioEvent(RadioEvent::CosActive),
                ServerMsg::RadioEvent(RadioEvent::GpioChange(GpioState(0b0010))),
            ]
        )]
    );
}

#[test]
fn heartbeat_after_many_messages_follows_their_parity() {
    let mut gpio = HidGpio::new();
    for k in 1..=7u32 {
        let report = heartbeat_on_message(&mut gpio);
        assert_eq!(gpio.pin_level(HEARTBEAT_PIN), k % 2 == 1);
        assert_eq!(report[1] & !0b1000, 0);
    }
}

#[test]
fn dispatch_answers_ping_and_stats() {
    let mut reg = ClientRegistry::new();
    let (tx, rx) = sync_channel(8);
    reg.register(ClientHandle { id: 9, streams: StreamFlags::empty(), sender: tx });
    let lat = LatencyStats { min_us: 5, max_us: 6, p99_us: 8 };
    match dispatch_client_msg(&mut reg, 9, ClientMsg::Ping, 0, 0, lat) {
        ClientAction::Reply { to, msg } => {
            assert_eq!(to, 9);
            assert_eq!(msg, ServerMsg::Pong);
            send(&reg, to, msg);
        }
        _ => panic!("expected a reply"),
    }
    assert_eq!(rx.try_recv().unwrap(), ServerMsg::Pong);
    match dispatch_client_msg(&mut reg, 9, ClientMsg::GetStats, 11, 12, lat) {
        ClientAction::Reply { to, msg } => {
            assert_eq!(to, 9);
            send(&reg, to, msg);
        }
        _ => panic!("expected a reply"),
    }
    assert_eq!(rx.try_recv().unwrap(), ServerMsg::Stats { rx_xruns: 11, tx_xruns: 12, dispatch_lat: lat });
    match dispatch_client_msg(&mut reg, 9, ClientMsg::SetGpio { pin: 0, high: true }, 0, 0, lat) {
        ClientAction::SetGpio { pin, high } => assert!(pin == 0 && high),
        _ => panic!("expected a GPIO action"),
    }
    assert!(matches!(
        dispatch_client_msg(&mut reg, 9, ClientMsg::Subscribe { streams: StreamFlags::AUDIO_IN() }, 0, 0, lat),
        ClientAction::Nothing
    ));
    assert_eq!(reg.subscribers(StreamFlags::AUDIO_IN()), vec![9]);
    assert!(matches!(
        dispatch_client_msg(&mut reg, 9, ClientMsg::AudioWrite { frame_count: 3 }, 0, 0, lat),
        ClientAction::Nothing
    ));
    assert!(rx.try_recv().is_err());
}

#[test]
fn heartbeat_toggles_once_per_client_message() {
    let mut gpio = HidGpio::new();
    let first = heartbeat_on_message(&mut gpio);
    assert_eq!(first[1] & 0b1000, 0b1000);
    assert!(gpio.pin_level(HEARTBEAT_PIN));
    let second = heartbeat_on_message(&mut gpio);
    assert_eq!(second[1] & 0b1000, 0);
    assert!(!gpio.pin_level(HEARTBEAT_PIN));
    // the other pins keep their levels
    assert_eq!(first[1] & !0b1000, second[1] & !0b1000);
    assert_eq!(first[2], second[2]);
}

#[test]
fn heartbeat_goes_dark_when_the_last_client_leaves() {
    let mut gpio = HidGpio::new();
    heartbeat_on_message(&mut gpio);
    let mut reg = ClientRegistry::new();
    let (tx, _rx) = sync_channel(8);
    reg.register(ClientHandle { id: 1, streams: StreamFlags::empty(), sender: tx });
    assert_eq!(heartbeat_on_disconnect(&mut gpio, &reg), None);
    assert!(gpio.pin_level(HEARTBEAT_PIN));
    reg.unregister(1);
    let report = heartbeat_on_disconnect(&mut gpio, &reg).unwrap();
    assert_eq!(report[1] & 0b1000, 0);
    assert!(!gpio.pin_level(HEARTBEAT_PIN));
}

#[test]
fn dispatch_stats_published_every_5000_frames() {
    let mut d = DispatchState::new();
    for i in 0..4_999u32 {
        assert!(d.on_frame(i % 10).is_none());
    }
    let snap = d.on_frame(1_000).unwrap();
    assert_eq!(snap.min_us, 0);
    assert_eq!(snap.max_us, 1_000);
    assert_eq!(snap.p99_us, 16);
    assert!(d.on_frame(3).is_none());
}

#[test]
fn each_snapshot_covers_only_its_own_5000_frames() {
    let mut d = DispatchState::new();
    for _ in 0..4_999u32 {
        assert!(d.on_frame(70_000).is_none());
    }
    assert_eq!(d.on_frame(70_000).unwrap().min_us, 70_000);
    for _ in 0..4_999u32 {
        assert!(d.on_frame(3).is_none());
    }
    let snap = d.on_frame(3).unwrap();
    assert_eq!(snap, LatencyStats { min_us: 3, max_us: 3, p99_us: 4 });
}

#[test]
fn packets_read_back() {
    let packet = write_client_msg(&ClientMsg::SetGpio { pin: 1, high: true });
    let header: [u8; 4] = packet[..4].try_into().unwrap();
    let len = frame_payload_len(&header).unwrap();
    assert_eq!(len, 3);
    assert_eq!(read_msg(&packet[4..4 + len]).unwrap(), ClientMsg::SetGpio { pin: 1, high: true });

    let packet = write_msg(&ServerMsg::Error("no device".into()));
    let header: [u8; 4] = packet[..4].try_into().unwrap();
    let len = frame_payload_len(&header).unwrap();
    assert_eq!(read_server_msg(&packet[4..4 + len]).unwrap(), ServerMsg::Error("no device".into()));
}

#[test]
fn oversized_or_garbled_packets_are_refused() {
    assert_eq!(frame_payload_len(&[0x01, 0x00, 0x01, 0x00]), Err(FrameError::TooLarge));
    assert_eq!(frame_payload_len(&[0x00, 0x00, 0x01, 0x00]), Ok(65_536));
    assert_eq!(read_msg(&[0x2a]), Err(FrameError::Decode));
    assert!(matches!(read_server_msg(&[]), Err(FrameError::Decode)));
}
