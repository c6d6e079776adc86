//! Shared types of the driver: USB constants, audio frames, GPIO state,
//! radio events, latency summaries, stream subscription flags and the
//! messages exchanged between the daemon and its clients.

use vstd::prelude::*;

verus! {

// ── USB constants ────────────────────────────────────────────────────────────

/// USB vendor id of C-Media.
pub const CM108_VID: u16 = 0x0d8c;

/// Known CM108/CM119 product IDs.
pub const CM108_PIDS: [u16; 7] = [0x001f, 0x0105, 0x0107, 0x010f, 0x0115, 0x013a, 0x013c];

/// Whether a USB device with these ids is a CM108/CM119 the driver
/// handles: C-Media's vendor id and one of the known product ids.
pub fn is_supported_device(vendor_id: u16, product_id: u16) -> (b: bool)
    ensures
        b == (vendor_id == CM108_VID && CM108_PIDS@.contains(product_id)),
{
    if vendor_id != CM108_VID {
        return false;
    }
    let pids = CM108_PIDS;
    let mut i: usize = 0;
    while i < 7
        invariant
            0 <= i <= 7,
            vendor_id == CM108_VID,
            pids@ == CM108_PIDS@,
            pids@.len() == 7,
            forall|j: int| 0 <= j < i ==> pids@[j] != product_id,
        decreases 7 - i,
    {
        if pids[i] == product_id {
            assert(CM108_PIDS@[i as int] == product_id);
            return true;
        }
        i = i + 1;
    }
    false
}

/// USB Audio Class: audio control.
pub const IFACE_AUDIO_CTRL: u8 = 0;
/// Audio streaming, speaker (ISO OUT).
pub const IFACE_AUDIO_OUT: u8 = 1;
/// Audio streaming, microphone (ISO IN).
pub const IFACE_AUDIO_IN: u8 = 2;
/// HID interface: GPIO / PTT.
pub const IFACE_HID: u8 = 3;
pub const EP_ISO_OUT: u8 = 0x01;
pub const EP_ISO_IN: u8 = 0x82;
pub const EP_HID_IN: u8 = 0x87;

/// Bytes per USB frame: 48 samples x stereo x i16 at 48 kHz = 1 ms.
pub const FRAME_BYTES: usize = 192;
pub const SAMPLES_PER_FRAME: usize = 48;

// ── Audio frame ──────────────────────────────────────────────────────────────

/// One millisecond of 48 kHz / 16-bit stereo audio.
/// Layout: [L0, R0, L1, R1, ...] interleaved i16.
#[derive(Clone, Copy, Debug)]
pub struct AudioFrame(pub [i16; 96]);

impl View for AudioFrame {
    type V = Seq<i16>;

    open spec fn view(&self) -> Seq<i16> {
        self.0@
    }
}

impl Default for AudioFrame {
    /// A frame of silence.
    fn default() -> (f: Self)
        ensures
            f@ == Seq::new(96, |i: int| 0i16),
    {
        let f = AudioFrame([0i16; 96]);
        assert(f@ =~= Seq::new(96, |i: int| 0i16));
        f
    }
}

// ── GPIO ─────────────────────────────────────────────────────────────────────

/// Bitmask of GPIO1-GPIO4 pin states (bit 0 = GPIO1 / PTT).
#[derive(Clone, Copy, Debug, PartialEq, Eq, Structural)]
pub struct GpioState(pub u8);

/// Whether bit `n` of `bits` is set.
pub open spec fn bit_set(bits: u8, n: u8) -> bool {
    (bits >> n) & 1u8 == 1u8
}

impl Default for GpioState {
    /// All pins low.
    fn default() -> (g: Self)
        ensures
            g == GpioState(0),
    {
        GpioState(0)
    }
}

impl View for GpioState {
    type V = GpioState;

    open spec fn view(&self) -> GpioState {
        *self
    }
}

impl GpioState {
    /// State of pin `n` (0-indexed, GPIO1 = 0).
    pub fn pin(self, n: u8) -> (b: bool)
        requires
            n < 4,
        ensures
            b == bit_set(self.0, n),
    {
        let v = self.0;
        assert(((v & (1u8 << n)) != 0) == ((v >> n) & 1u8 == 1u8)) by (bit_vector)
            requires
                n < 4,
        ;
        self.0 & (1u8 << n) != 0
    }
}

// ── Radio events ─────────────────────────────────────────────────────────────

#[derive(Clone, Copy, Debug, PartialEq, Eq, Structural)]
pub enum RadioEvent {
    PttAssert,
    PttDeassert,
    CosActive,
    CosInactive,
    GpioChange(GpioState),
}

impl View for RadioEvent {
    type V = RadioEvent;

    open spec fn view(&self) -> RadioEvent {
        *self
    }
}

// ── Dispatch latency summary ─────────────────────────────────────────────────

#[derive(Clone, Copy, Debug, PartialEq, Eq, Structural)]
pub struct LatencyStats {
    pub min_us: u32,
    pub max_us: u32,
    pub p99_us: u32,
}

impl View for LatencyStats {
    type V = LatencyStats;

    open spec fn view(&self) -> LatencyStats {
        *self
    }
}

impl Default for LatencyStats {
    /// All three figures zero.
    fn default() -> (s: Self)
        ensures
            s == (LatencyStats { min_us: 0, max_us: 0, p99_us: 0 }),
    {
        LatencyStats { min_us: 0, max_us: 0, p99_us: 0 }
    }
}

// ── Stream subscription flags ────────────────────────────────────────────────

/// Bitmask of audio/event streams a client subscribes to.
#[derive(Clone, Copy, Debug, PartialEq, Eq, Structural)]
pub struct StreamFlags(pub u8);

/// The bits that name a stream.
pub open spec fn stream_bits_mask() -> u8 {
    0b0111u8
}

impl Default for StreamFlags {
    /// No stream.
    fn default() -> (f: Self)
        ensures
            f == StreamFlags(0),
    {
        StreamFlags(0)
    }
}

impl View for StreamFlags {
    type V = StreamFlags;

    open spec fn view(&self) -> StreamFlags {
        *self
    }
}

impl StreamFlags {
    /// The microphone (RX) audio stream.
    #[allow(non_snake_case)]
    pub fn AUDIO_IN() -> (f: StreamFlags)
        ensures
            f.0 == 0b0001,
    {
        StreamFlags(0b0001)
    }

    /// The speaker (TX) audio stream.
    #[allow(non_snake_case)]
    pub fn AUDIO_OUT() -> (f: StreamFlags)
        ensures
            f.0 == 0b0010,
    {
        StreamFlags(0b0010)
    }

    /// Radio and GPIO events.
    #[allow(non_snake_case)]
    pub fn GPIO_EVENTS() -> (f: StreamFlags)
        ensures
            f.0 == 0b0100,
    {
        StreamFlags(0b0100)
    }

    /// Whether no bit outside the three stream bits is set.
    pub open spec fn is_valid(self) -> bool {
        self.0 & stream_bits_mask() == self.0
    }

    /// Whether every bit of `other` is set in `self`.
    pub open spec fn spec_contains(self, other: StreamFlags) -> bool {
        self.0 & other.0 == other.0
    }

    /// Flags that name no stream.
    pub fn empty() -> (f: Self)
        ensures
            f.0 == 0,
    {
        StreamFlags(0)
    }

    /// The raw bitmask.
    pub fn bits(self) -> (b: u8)
        ensures
            b == self.0,
    {
        self.0
    }

    /// Whether every stream of `other` is also in `self`.
    pub fn contains(self, other: Self) -> (b: bool)
        ensures
            b == self.spec_contains(other),
    {
        self.0 & other.0 == other.0
    }

    /// Flags from a raw byte, keeping only the bits that name a stream.
    pub fn from_bits_truncate(v: u8) -> (f: Self)
        ensures
            f.0 == v & stream_bits_mask(),
    {
        StreamFlags(v & 0b0111)
    }
}

impl core::ops::BitOr for StreamFlags {
    type Output = StreamFlags;

    /// The union of two sets of flags.
    fn bitor(self, rhs: StreamFlags) -> (r: StreamFlags)
        ensures
            r.0 == self.0 | rhs.0,
    {
        StreamFlags(self.0 | rhs.0)
    }
}

impl vstd::std_specs::ops::BitOrSpecImpl for StreamFlags {
    open spec fn obeys_bitor_spec() -> bool {
        true
    }

    open spec fn bitor_req(self, rhs: StreamFlags) -> bool {
        true
    }

    open spec fn bitor_spec(self, rhs: StreamFlags) -> StreamFlags {
        StreamFlags(self.0 | rhs.0)
    }
}

/// Every set of flags contains the empty set of flags.
pub proof fn lemma_empty_flags_reach_everyone(streams: StreamFlags)
    ensures
        streams.spec_contains(StreamFlags(0)),
{
    let v = streams.0;
    assert(v & 0u8 == 0u8) by (bit_vector);
}

/// A client subscribed to the union of two sets of flags receives what
/// either set names.
pub proof fn lemma_union_contains_both(a: StreamFlags, b: StreamFlags)
    ensures
        StreamFlags(a.0 | b.0).spec_contains(a),
        StreamFlags(a.0 | b.0).spec_contains(b),
{
    let x = a.0;
    let y = b.0;
    assert((x | y) & x == x) by (bit_vector);
    assert((x | y) & y == y) by (bit_vector);
}

impl core::ops::BitOrAssign for StreamFlags {
    /// Adds the flags of `rhs`.
    fn bitor_assign(&mut self, rhs: StreamFlags)
        ensures
            final(self).0 == old(self).0 | rhs.0,
    {
        self.0 = self.0 | rhs.0;
    }
}

// ── IPC protocol ─────────────────────────────────────────────────────────────

/// A request from a client to the daemon.
#[derive(Clone, Debug, PartialEq, Eq, Structural)]
pub enum ClientMsg {
    Subscribe { streams: StreamFlags },
    SetGpio { pin: u8, high: bool },
    AudioWrite { frame_count: u32 },
    Ping,
    GetStats,
}

impl View for ClientMsg {
    type V = ClientMsg;

    open spec fn view(&self) -> ClientMsg {
        *self
    }
}

/// A message from the daemon to a client.
#[derive(Clone, Debug, PartialEq)]
pub enum ServerMsg {
    AudioReady { seq: u64 },
    RadioEvent(RadioEvent),
    Stats { rx_xruns: u64, tx_xruns: u64, dispatch_lat: LatencyStats },
    Pong,
    Error(String),
}

/// The mathematical value of a [`ServerMsg`]: the error text is a sequence
/// of characters.
pub ghost enum ServerMsgView {
    AudioReady { seq: u64 },
    RadioEvent(RadioEvent),
    Stats { rx_xruns: u64, tx_xruns: u64, dispatch_lat: LatencyStats },
    Pong,
    Error(Seq<char>),
}

impl View for ServerMsg {
    type V = ServerMsgView;

    open spec fn view(&self) -> ServerMsgView {
        match self {
            ServerMsg::AudioReady { seq } => ServerMsgView::AudioReady { seq: *seq },
            ServerMsg::RadioEvent(ev) => ServerMsgView::RadioEvent(*ev),
            ServerMsg::Stats { rx_xruns, tx_xruns, dispatch_lat } => ServerMsgView::Stats {
                rx_xruns: *rx_xruns,
                tx_xruns: *tx_xruns,
                dispatch_lat: *dispatch_lat,
            },
            ServerMsg::Pong => ServerMsgView::Pong,
            ServerMsg::Error(s) => ServerMsgView::Error(s@),
        }
    }
}

} // verus!
