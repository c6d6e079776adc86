use cm108::codec::{from_framed, to_framed, Decode, Encode};
use cm108::types::{
    AudioFrame, ClientMsg, GpioState, LatencyStats, RadioEvent, ServerMsg, StreamFlags,
    FRAME_BYTES, SAMPLES_PER_FRAME,
};

// ── Type invariants ───────────────────────────────────────────────────────────

#[test]
fn audio_frame_default_is_silence() {
    let f = AudioFrame::default();
    assert!(f.0.iter().all(|&s| s == 0));
}

#[test]
fn audio_frame_size_matches_frame_bytes() {
    assert_eq!(std::mem::size_of::<[i16; SAMPLES_PER_FRAME * 2]>(), FRAME_BYTES,);
}

#[test]
fn gpio_state_pin_bits() {
    let g = GpioState(0b1010);
    assert!(!g.pin(0)); // GPIO1 clear
    assert!(g.pin(1)); // GPIO2 set
    assert!(!g.pin(2)); // GPIO3 clear
    assert!(g.pin(3)); // GPIO4 set
}

#[test]
fn stream_flags_combinations() {
    let f = StreamFlags::AUDIO_IN() | StreamFlags::GPIO_EVENTS();
    assert!(f.contains(StreamFlags::AUDIO_IN()));
    assert!(!f.contains(StreamFlags::AUDIO_OUT()));
    assert!(f.contains(StreamFlags::GPIO_EVENTS()));
    assert_eq!(f.bits(), 0b0101);
}

#[test]
fn latency_stats_default_is_zero() {
    let ls = LatencyStats::default();
    assert_eq!(ls.min_us, 0);
    assert_eq!(ls.max_us, 0);
    assert_eq!(ls.p99_us, 0);
}

// ── Wire-format round-trips ───────────────────────────────────────────────────

fn rt<T: Encode + Decode + PartialEq + std::fmt::Debug>(msg: T) {
    let encoded = msg.to_vec();
    let decoded: T = T::from_bytes(&encoded).unwrap();
    assert_eq!(msg, decoded);
}

#[test]
fn client_msg_roundtrips() {
    rt(ClientMsg::Ping);
    rt(ClientMsg::GetStats);
    rt(ClientMsg::Subscribe { streams: StreamFlags::AUDIO_IN() | StreamFlags::GPIO_EVENTS() });
    rt(ClientMsg::SetGpio { pin: 0, high: true });
    rt(ClientMsg::SetGpio { pin: 3, high: false });
    rt(ClientMsg::AudioWrite { frame_count: 42 });
}

#[test]
fn server_msg_roundtrips() {
    rt(ServerMsg::Pong);
    rt(ServerMsg::AudioReady { seq: u64::MAX });
    rt(ServerMsg::RadioEvent(RadioEvent::PttAssert));
    rt(ServerMsg::RadioEvent(RadioEvent::CosInactive));
    rt(ServerMsg::RadioEvent(RadioEvent::GpioChange(GpioState(0b1111))));
    rt(ServerMsg::Stats {
        rx_xruns: 7,
        tx_xruns: 3,
        dispatch_lat: LatencyStats { min_us: 1, max_us: 500, p99_us: 120 },
    });
    rt(ServerMsg::Error("test error".into()));
}

#[test]
fn stream_flags_roundtrip() {
    rt(StreamFlags::AUDIO_IN() | StreamFlags::AUDIO_OUT() | StreamFlags::GPIO_EVENTS());
    rt(StreamFlags::empty());
}

#[test]
fn radio_event_roundtrip_all_variants() {
    for ev in [
        RadioEvent::PttAssert,
        RadioEvent::PttDeassert,
        RadioEvent::CosActive,
        RadioEvent::CosInactive,
        RadioEvent::GpioChange(GpioState(0xAB)),
    ] {
        rt(ev);
    }
}

// ── Exact wire bytes ──────────────────────────────────────────────────────────

#[test]
fn client_msg_wire_bytes() {
    assert_eq!(ClientMsg::Subscribe { streams: StreamFlags(0b0101) }.to_vec(), vec![0, 5]);
    assert_eq!(ClientMsg::SetGpio { pin: 3, high: true }.to_vec(), vec![1, 3, 1]);
    assert_eq!(ClientMsg::AudioWrite { frame_count: 0x0102_0304 }.to_vec(), vec![2, 4, 3, 2, 1]);
    assert_eq!(ClientMsg::Ping.to_vec(), vec![3]);
    assert_eq!(ClientMsg::GetStats.to_vec(), vec![4]);
}

#[test]
fn server_msg_wire_bytes() {
    assert_eq!(
        ServerMsg::AudioReady { seq: 0x0102 }.to_vec(),
        vec![0, 2, 1, 0, 0, 0, 0, 0, 0]
    );
    assert_eq!(ServerMsg::RadioEvent(RadioEvent::GpioChange(GpioState(9))).to_vec(), vec![1, 4, 9]);
    assert_eq!(ServerMsg::Error("hé".into()).to_vec(), vec![4, 3, 0, b'h', 0xc3, 0xa9]);
    let stats = ServerMsg::Stats {
        rx_xruns: 1,
        tx_xruns: 2,
        dispatch_lat: LatencyStats { min_us: 3, max_us: 4, p99_us: 5 },
    }
    .to_vec();
    assert_eq!(stats.len(), 29);
    assert_eq!(stats[0], 2);
    assert_eq!(stats[1], 1);
    assert_eq!(stats[9], 2);
    assert_eq!(stats[17], 3);
    assert_eq!(stats[21], 4);
    assert_eq!(stats[25], 5);
}

#[test]
fn decode_reports_remaining_bytes() {
    let buf = [3u8, 0xAA, 0xBB];
    let (msg, rest) = ClientMsg::decode(&buf).unwrap();
    assert_eq!(msg, ClientMsg::Ping);
    assert_eq!(rest, &[0xAA, 0xBB]);
}

#[test]
fn decode_rejects_bad_input() {
    assert!(ClientMsg::from_bytes(&[]).is_none());
    assert!(ClientMsg::from_bytes(&[9]).is_none());
    assert!(ClientMsg::from_bytes(&[1, 0]).is_none());
    // frame count above the sanity cap
    assert!(ClientMsg::from_bytes(&[2, 0x01, 0x00, 0x01, 0x00]).is_none());
    assert!(ClientMsg::from_bytes(&[2, 0x00, 0x00, 0x01, 0x00]).is_some());
    assert!(ServerMsg::from_bytes(&[1, 7]).is_none());
    assert!(ServerMsg::from_bytes(&[2, 0, 0]).is_none());
    // invalid UTF-8 in an error text
    assert!(ServerMsg::from_bytes(&[4, 1, 0, 0xff]).is_none());
    // string shorter than its length field
    assert!(ServerMsg::from_bytes(&[4, 5, 0, b'a']).is_none());
}

#[test]
fn decode_truncates_flags_and_reads_any_nonzero_as_high() {
    assert_eq!(
        ClientMsg::from_bytes(&[0, 0xff]).unwrap(),
        ClientMsg::Subscribe { streams: StreamFlags(0b0111) }
    );
    assert_eq!(
        ClientMsg::from_bytes(&[1, 2, 7]).unwrap(),
        ClientMsg::SetGpio { pin: 2, high: true }
    );
    assert_eq!(StreamFlags::from_bits_truncate(0xf8), StreamFlags(0));
}

#[test]
fn audio_frame_roundtrip_and_layout() {
    let mut f = AudioFrame::default();
    f.0[0] = 0x1234;
    f.0[95] = -1;
    let bytes = f.to_vec();
    assert_eq!(bytes.len(), FRAME_BYTES);
    assert_eq!(bytes[0], 0x34);
    assert_eq!(bytes[1], 0x12);
    assert_eq!(bytes[190], 0xff);
    assert_eq!(bytes[191], 0xff);
    let g = AudioFrame::from_bytes(&bytes).unwrap();
    assert_eq!(g.0, f.0);
    assert!(AudioFrame::from_bytes(&bytes[..191]).is_none());
}

#[test]
fn framed_roundtrip_with_trailing_bytes() {
    let mut packet = to_framed(&ServerMsg::Pong);
    assert_eq!(packet, vec![1, 0, 0, 0, 3]);
    packet.extend_from_slice(&[7, 8]);
    let (msg, rest): (ServerMsg, &[u8]) = from_framed(&packet).unwrap();
    assert_eq!(msg, ServerMsg::Pong);
    assert_eq!(rest, &[7, 8]);
    assert!(from_framed::<ServerMsg>(&[2, 0, 0, 0, 3]).is_none());
}
