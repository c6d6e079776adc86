//! Hand-rolled binary codec for the IPC messages.
//!
//! Wire format: a 1-byte discriminant tag, then the fields in declaration
//! order. Integers are little-endian. Strings are a 2-byte little-endian
//! length, then their UTF-8 bytes.

use vstd::prelude::*;
use vstd::bytes::*;
use vstd::slice::slice_subrange;
use vstd::utf8::*;
use vstd::string::*;

use crate::types::{AudioFrame, ClientMsg, GpioState, LatencyStats, RadioEvent, ServerMsg, ServerMsgView, StreamFlags};

verus! {

broadcast use vstd::seq_lib::group_seq_properties;

// ── Byte-level lemmas ────────────────────────────────────────────────────────

/// A prefix of known length can be cut off a concatenation again.
pub proof fn lemma_split_concat(a: Seq<u8>, rest: Seq<u8>)
    ensures
        (a + rest).subrange(0, a.len() as int) == a,
        (a + rest).skip(a.len() as int) == rest,
{
    assert((a + rest).subrange(0, a.len() as int) =~= a);
    assert((a + rest).skip(a.len() as int) =~= rest);
}

// ── Writers ──────────────────────────────────────────────────────────────────

fn push_u8(buf: &mut Vec<u8>, v: u8)
    ensures
        final(buf)@ == old(buf)@ + seq![v],
{
    buf.push(v);
    assert(buf@ =~= old(buf)@ + seq![v]);
}

fn push_u16(buf: &mut Vec<u8>, v: u16)
    ensures
        final(buf)@ == old(buf)@ + spec_u16_to_le_bytes(v),
{
    let bytes = u16_to_le_bytes(v);
    buf.extend_from_slice(bytes.as_slice());
}

fn push_u32(buf: &mut Vec<u8>, v: u32)
    ensures
        final(buf)@ == old(buf)@ + spec_u32_to_le_bytes(v),
{
    let bytes = u32_to_le_bytes(v);
    buf.extend_from_slice(bytes.as_slice());
}

fn push_u64(buf: &mut Vec<u8>, v: u64)
    ensures
        final(buf)@ == old(buf)@ + spec_u64_to_le_bytes(v),
{
    let bytes = u64_to_le_bytes(v);
    buf.extend_from_slice(bytes.as_slice());
}

/// The wire form of a string: its UTF-8 length (as a 16-bit count, which
/// wraps for strings of more than 65535 bytes), then its UTF-8 bytes.
pub open spec fn spec_str_bytes(s: Seq<char>) -> Seq<u8> {
    spec_u16_to_le_bytes(encode_utf8(s).len() as u16) + encode_utf8(s)
}

fn push_str(buf: &mut Vec<u8>, s: &str)
    ensures
        final(buf)@ == old(buf)@ + spec_str_bytes(s@),
{
    let bytes = s.as_bytes();
    #[verifier::truncate]
    let n = bytes.len() as u16;
    push_u16(buf, n);
    buf.extend_from_slice(bytes);
    assert(buf@ =~= old(buf)@ + spec_str_bytes(s@));
}

// ── Readers ──────────────────────────────────────────────────────────────────

fn read_u8(buf: &[u8]) -> (r: Option<(u8, &[u8])>)
    ensures
        r is Some <==> buf@.len() >= 1,
        r matches Some((b, rest)) ==> b == buf@[0] && rest@ == buf@.skip(1),
{
    if buf.len() < 1 {
        return None;
    }
    Some((buf[0], slice_subrange(buf, 1, buf.len())))
}

fn read_u16(buf: &[u8]) -> (r: Option<(u16, &[u8])>)
    ensures
        r is Some <==> buf@.len() >= 2,
        r matches Some((v, rest)) ==> v == spec_u16_from_le_bytes(buf@.subrange(0, 2))
            && rest@ == buf@.skip(2),
{
    if buf.len() < 2 {
        return None;
    }
    Some((u16_from_le_bytes(slice_subrange(buf, 0, 2)), slice_subrange(buf, 2, buf.len())))
}

fn read_u32(buf: &[u8]) -> (r: Option<(u32, &[u8])>)
    ensures
        r is Some <==> buf@.len() >= 4,
        r matches Some((v, rest)) ==> v == spec_u32_from_le_bytes(buf@.subrange(0, 4))
            && rest@ == buf@.skip(4),
{
    if buf.len() < 4 {
        return None;
    }
    Some((u32_from_le_bytes(slice_subrange(buf, 0, 4)), slice_subrange(buf, 4, buf.len())))
}

fn read_u64(buf: &[u8]) -> (r: Option<(u64, &[u8])>)
    ensures
        r is Some <==> buf@.len() >= 8,
        r matches Some((v, rest)) ==> v == spec_u64_from_le_bytes(buf@.subrange(0, 8))
            && rest@ == buf@.skip(8),
{
    if buf.len() < 8 {
        return None;
    }
    Some((u64_from_le_bytes(slice_subrange(buf, 0, 8)), slice_subrange(buf, 8, buf.len())))
}

/// The characters of a string field at the start of `buf`, and the number of
/// bytes it takes: a 2-byte length, then that many bytes of valid UTF-8.
pub open spec fn spec_read_str(buf: Seq<u8>) -> Option<(Seq<char>, int)> {
    if buf.len() < 2 {
        None
    } else {
        let n = spec_u16_from_le_bytes(buf.subrange(0, 2)) as int;
        if buf.len() < 2 + n {
            None
        } else if !valid_utf8(buf.subrange(2, 2 + n)) {
            None
        } else {
            Some((decode_utf8(buf.subrange(2, 2 + n)), 2 + n))
        }
    }
}

/// Calls `std::str::from_utf8`. As its documentation states, it succeeds
/// exactly when the bytes are valid UTF-8, and the string slice then holds
/// the characters they encode.
#[verifier::external_body]
fn str_from_utf8(bytes: &[u8]) -> (r: Option<&str>)
    ensures
        r is Some <==> valid_utf8(bytes@),
        r matches Some(s) ==> s@ == decode_utf8(bytes@),
{
    std::str::from_utf8(bytes).ok()
}

fn read_str(buf: &[u8]) -> (r: Option<(String, &[u8])>)
    ensures
        r is Some <==> spec_read_str(buf@) is Some,
        r matches Some((s, rest)) ==> spec_read_str(buf@) matches Some((cs, n)) && s@ == cs
            && rest@ == buf@.skip(n),
{
    let (len, rest) = match read_u16(buf) {
        Some(p) => p,
        None => return None,
    };
    let len = len as usize;
    if rest.len() < len {
        return None;
    }
    let text = slice_subrange(rest, 0, len);
    assert(text@ == buf@.subrange(2, 2 + len));
    match str_from_utf8(text) {
        Some(text) => {
            let s = text.to_owned();
            let tail = slice_subrange(rest, len, rest.len());
            assert(tail@ =~= buf@.skip(2 + len));
            Some((s, tail))
        },
        None => None,
    }
}

// ── Encode / Decode ──────────────────────────────────────────────────────────

/// Values that have a wire form.
pub trait Encode: View {
    /// The bytes that encode a value.
    spec fn spec_encode(v: Self::V) -> Seq<u8>;

    /// Appends the wire form of `self` to `buf`.
    fn encode(&self, buf: &mut Vec<u8>)
        ensures
            final(buf)@ == old(buf)@ + Self::spec_encode(self@),
    ;

    /// The wire form of `self`.
    fn to_vec(&self) -> (v: Vec<u8>)
        ensures
            v@ == Self::spec_encode(self@),
    {
        let mut buf = Vec::new();
        self.encode(&mut buf);
        assert(buf@ =~= Self::spec_encode(self@));
        buf
    }
}

/// Values that can be read back from their wire form.
pub trait Decode: Sized + View {
    /// The value at the start of `buf` and the number of bytes it takes, or
    /// `None` where `buf` does not start with a well-formed value.
    spec fn spec_decode(buf: Seq<u8>) -> Option<(Self::V, int)>;

    /// Decodes from `buf`, returning the value and the remaining unconsumed bytes.
    fn decode(buf: &[u8]) -> (r: Option<(Self, &[u8])>)
        ensures
            r is Some <==> Self::spec_decode(buf@) is Some,
            r matches Some((v, rest)) ==> Self::spec_decode(buf@) matches Some((w, n)) && v@ == w
                && 0 <= n <= buf@.len() && rest@ == buf@.skip(n),
    ;

    /// Decodes the value at the start of `buf`, ignoring any bytes after it.
    fn from_bytes(buf: &[u8]) -> (r: Option<Self>)
        ensures
            r is Some <==> Self::spec_decode(buf@) is Some,
            r matches Some(v) ==> Self::spec_decode(buf@) matches Some((w, _)) && v@ == w,
    {
        match Self::decode(buf) {
            Some((v, _)) => Some(v),
            None => None,
        }
    }
}

/// Types whose wire form reads back as the value that was written.
pub trait Codec: Encode + Decode {
    /// The values whose wire form is faithful.
    spec fn spec_well_formed(v: <Self as View>::V) -> bool;

    /// Decoding the wire form of a well-formed value, followed by any bytes,
    /// gives back the value and the length of its wire form.
    proof fn lemma_roundtrip(v: <Self as View>::V, rest: Seq<u8>)
        requires
            Self::spec_well_formed(v),
        ensures
            <Self as Decode>::spec_decode(<Self as Encode>::spec_encode(v) + rest) == Some(
                (v, <Self as Encode>::spec_encode(v).len() as int),
            ),
    ;
}

// ── StreamFlags ──────────────────────────────────────────────────────────────

impl Encode for StreamFlags {
    open spec fn spec_encode(v: StreamFlags) -> Seq<u8> {
        seq![v.0]
    }

    fn encode(&self, buf: &mut Vec<u8>) {
        push_u8(buf, self.0);
    }
}

impl Decode for StreamFlags {
    open spec fn spec_decode(buf: Seq<u8>) -> Option<(StreamFlags, int)> {
        if buf.len() < 1 {
            None
        } else {
            Some((StreamFlags(buf[0] & crate::types::stream_bits_mask()), 1))
        }
    }

    fn decode(buf: &[u8]) -> (r: Option<(Self, &[u8])>) {
        let (b, rest) = match read_u8(buf) {
            Some(p) => p,
            None => return None,
        };
        Some((StreamFlags::from_bits_truncate(b), rest))
    }
}

impl Codec for StreamFlags {
    open spec fn spec_well_formed(v: StreamFlags) -> bool {
        v.is_valid()
    }

    proof fn lemma_roundtrip(v: StreamFlags, rest: Seq<u8>) {
        assert((seq![v.0] + rest)[0] == v.0);
    }
}

// ── GpioState ────────────────────────────────────────────────────────────────

impl Encode for GpioState {
    open spec fn spec_encode(v: GpioState) -> Seq<u8> {
        seq![v.0]
    }

    fn encode(&self, buf: &mut Vec<u8>) {
        push_u8(buf, self.0);
    }
}

impl Decode for GpioState {
    open spec fn spec_decode(buf: Seq<u8>) -> Option<(GpioState, int)> {
        if buf.len() < 1 {
            None
        } else {
            Some((GpioState(buf[0]), 1))
        }
    }

    fn decode(buf: &[u8]) -> (r: Option<(Self, &[u8])>) {
        let (b, rest) = match read_u8(buf) {
            Some(p) => p,
            None => return None,
        };
        Some((GpioState(b), rest))
    }
}

impl Codec for GpioState {
    open spec fn spec_well_formed(v: GpioState) -> bool {
        true
    }

    proof fn lemma_roundtrip(v: GpioState, rest: Seq<u8>) {
        assert((seq![v.0] + rest)[0] == v.0);
    }
}

// ── LatencyStats ─────────────────────────────────────────────────────────────

impl Encode for LatencyStats {
    open spec fn spec_encode(v: LatencyStats) -> Seq<u8> {
        spec_u32_to_le_bytes(v.min_us) + spec_u32_to_le_bytes(v.max_us) + spec_u32_to_le_bytes(
            v.p99_us,
        )
    }

    fn encode(&self, buf: &mut Vec<u8>) {
        push_u32(buf, self.min_us);
        push_u32(buf, self.max_us);
        push_u32(buf, self.p99_us);
        assert(buf@ =~= old(buf)@ + Self::spec_encode(self@));
    }
}

impl Decode for LatencyStats {
    open spec fn spec_decode(buf: Seq<u8>) -> Option<(LatencyStats, int)> {
        if buf.len() < 12 {
            None
        } else {
            Some(
                (
                    LatencyStats {
                        min_us: spec_u32_from_le_bytes(buf.subrange(0, 4)),
                        max_us: spec_u32_from_le_bytes(buf.subrange(4, 8)),
                        p99_us: spec_u32_from_le_bytes(buf.subrange(8, 12)),
                    },
                    12,
                ),
            )
        }
    }

    fn decode(buf: &[u8]) -> (r: Option<(Self, &[u8])>) {
        if buf.len() < 12 {
            return None;
        }
        let (min_us, buf1) = match read_u32(buf) {
            Some(p) => p,
            None => return None,
        };
        let (max_us, buf2) = match read_u32(buf1) {
            Some(p) => p,
            None => return None,
        };
        let (p99_us, buf3) = match read_u32(buf2) {
            Some(p) => p,
            None => return None,
        };
        assert(buf1@.subrange(0, 4) =~= buf@.subrange(4, 8));
        assert(buf2@.subrange(0, 4) =~= buf@.subrange(8, 12));
        assert(buf3@ =~= buf@.skip(12));
        Some((LatencyStats { min_us, max_us, p99_us }, buf3))
    }
}

impl Codec for LatencyStats {
    open spec fn spec_well_formed(v: LatencyStats) -> bool {
        true
    }

    proof fn lemma_roundtrip(v: LatencyStats, rest: Seq<u8>) {
        lemma_auto_spec_u32_to_from_le_bytes();
        let a = spec_u32_to_le_bytes(v.min_us);
        let b = spec_u32_to_le_bytes(v.max_us);
        let c = spec_u32_to_le_bytes(v.p99_us);
        let all = a + b + c + rest;
        assert(all.subrange(0, 4) =~= a);
        assert(all.subrange(4, 8) =~= b);
        assert(all.subrange(8, 12) =~= c);
    }
}

// ── RadioEvent ───────────────────────────────────────────────────────────────
// Tag: 0=PttAssert 1=PttDeassert 2=CosActive 3=CosInactive 4=GpioChange(byte)

impl Encode for RadioEvent {
    open spec fn spec_encode(v: RadioEvent) -> Seq<u8> {
        match v {
            RadioEvent::PttAssert => seq![0u8],
            RadioEvent::PttDeassert => seq![1u8],
            RadioEvent::CosActive => seq![2u8],
            RadioEvent::CosInactive => seq![3u8],
            RadioEvent::GpioChange(g) => seq![4u8, g.0],
        }
    }

    fn encode(&self, buf: &mut Vec<u8>) {
        match self {
            RadioEvent::PttAssert => push_u8(buf, 0),
            RadioEvent::PttDeassert => push_u8(buf, 1),
            RadioEvent::CosActive => push_u8(buf, 2),
            RadioEvent::CosInactive => push_u8(buf, 3),
            RadioEvent::GpioChange(g) => {
                push_u8(buf, 4);
                g.encode(buf);
            },
        }
        assert(buf@ =~= old(buf)@ + Self::spec_encode(self@));
    }
}

impl Decode for RadioEvent {
    open spec fn spec_decode(buf: Seq<u8>) -> Option<(RadioEvent, int)> {
        if buf.len() < 1 {
            None
        } else if buf[0] == 0 {
            Some((RadioEvent::PttAssert, 1))
        } else if buf[0] == 1 {
            Some((RadioEvent::PttDeassert, 1))
        } else if buf[0] == 2 {
            Some((RadioEvent::CosActive, 1))
        } else if buf[0] == 3 {
            Some((RadioEvent::CosInactive, 1))
        } else if buf[0] == 4 && buf.len() >= 2 {
            Some((RadioEvent::GpioChange(GpioState(buf[1])), 2))
        } else {
            None
        }
    }

    fn decode(buf: &[u8]) -> (r: Option<(Self, &[u8])>) {
        let (tag, rest) = match read_u8(buf) {
            Some(p) => p,
            None => return None,
        };
        match tag {
            0 => Some((RadioEvent::PttAssert, rest)),
            1 => Some((RadioEvent::PttDeassert, rest)),
            2 => Some((RadioEvent::CosActive, rest)),
            3 => Some((RadioEvent::CosInactive, rest)),
            4 => {
                let (g, rest2) = match GpioState::decode(rest) {
                    Some(p) => p,
                    None => return None,
                };
                assert(rest2@ =~= buf@.skip(2));
                Some((RadioEvent::GpioChange(g), rest2))
            },
            _ => None,
        }
    }
}

impl Codec for RadioEvent {
    open spec fn spec_well_formed(v: RadioEvent) -> bool {
        true
    }

    proof fn lemma_roundtrip(v: RadioEvent, rest: Seq<u8>) {
        let e = Self::spec_encode(v);
        assert((e + rest)[0] == e[0]);
        if e.len() == 2 {
            assert((e + rest)[1] == e[1]);
        }
    }
}

/// The wire form of each radio event is its documented tag byte (0 PTT
/// asserted, 1 PTT released, 2 carrier up, 3 carrier down, 4 GPIO state
/// followed by the state byte), and a tag byte is read back as that event.
pub proof fn lemma_radio_event_wire_bytes(g: GpioState, rest: Seq<u8>)
    ensures
        RadioEvent::spec_encode(RadioEvent::PttAssert) == seq![0u8],
        RadioEvent::spec_encode(RadioEvent::PttDeassert) == seq![1u8],
        RadioEvent::spec_encode(RadioEvent::CosActive) == seq![2u8],
        RadioEvent::spec_encode(RadioEvent::CosInactive) == seq![3u8],
        RadioEvent::spec_encode(RadioEvent::GpioChange(g)) == seq![4u8, g.0],
        RadioEvent::spec_decode(seq![0u8] + rest) == Some((RadioEvent::PttAssert, 1int)),
        RadioEvent::spec_decode(seq![1u8] + rest) == Some((RadioEvent::PttDeassert, 1int)),
        RadioEvent::spec_decode(seq![2u8] + rest) == Some((RadioEvent::CosActive, 1int)),
        RadioEvent::spec_decode(seq![3u8] + rest) == Some((RadioEvent::CosInactive, 1int)),
        RadioEvent::spec_decode(seq![4u8, g.0] + rest) == Some((RadioEvent::GpioChange(g), 2int)),
{
    assert((seq![4u8, g.0] + rest)[1] == g.0);
}

// ── AudioFrame ───────────────────────────────────────────────────────────────

/// Byte `j` of the wire form of the samples `v`: sample `j / 2` as two
/// little-endian bytes of its 16-bit pattern, the low byte first.
pub open spec fn spec_sample_byte(v: Seq<i16>, j: int) -> u8 {
    let x = v[j / 2] as u16;
    if j % 2 == 0 {
        (x & 0xffu16) as u8
    } else {
        (x >> 8u16) as u8
    }
}

/// Sample `i` of the 2-byte little-endian samples in `buf`: byte `2i` is
/// its low byte, byte `2i + 1` its high byte.
pub open spec fn spec_sample_at(buf: Seq<u8>, i: int) -> i16 {
    ((buf[2 * i] as u16) | ((buf[2 * i + 1] as u16) << 8u16)) as i16
}

/// The low and high byte of a sample give it back.
pub proof fn lemma_sample_bytes_roundtrip(y: i16)
    ensures
        (((((y as u16) & 0xffu16) as u8) as u16) | (((((y as u16) >> 8u16) as u8) as u16) << 8u16))
            as i16 == y,
{
    assert((((((y as u16) & 0xffu16) as u8) as u16) | (((((y as u16) >> 8u16) as u8) as u16)
        << 8u16)) as i16 == y) by (bit_vector);
}

/// The sample made of two bytes gives back those bytes.
pub proof fn lemma_bytes_sample_roundtrip(lo: u8, hi: u8)
    ensures
        ((((((lo as u16) | ((hi as u16) << 8u16)) as i16) as u16) & 0xffu16) as u8) == lo,
        (((((lo as u16) | ((hi as u16) << 8u16)) as i16) as u16) >> 8u16) as u8 == hi,
{
    assert(((((((lo as u16) | ((hi as u16) << 8u16)) as i16) as u16) & 0xffu16) as u8) == lo)
        by (bit_vector);
    assert((((((lo as u16) | ((hi as u16) << 8u16)) as i16) as u16) >> 8u16) as u8 == hi)
        by (bit_vector);
}

impl Encode for AudioFrame {
    open spec fn spec_encode(v: Seq<i16>) -> Seq<u8> {
        Seq::new((2 * v.len()) as nat, |j: int| spec_sample_byte(v, j))
    }

    fn encode(&self, buf: &mut Vec<u8>) {
        let ghost start = buf@;
        let mut i: usize = 0;
        while i < 96
            invariant
                0 <= i <= 96,
                self@.len() == 96,
                buf@ =~= start + Seq::new((2 * i) as nat, |j: int| spec_sample_byte(self@, j)),
            decreases 96 - i,
        {
            let x = self.0[i] as u16;
            let lo = (x & 0xff) as u8;
            let hi = (x >> 8) as u8;
            buf.push(lo);
            buf.push(hi);
            assert(spec_sample_byte(self@, 2 * i as int) == lo);
            assert(spec_sample_byte(self@, 2 * i + 1) == hi);
            i += 1;
            assert(buf@ =~= start + Seq::new((2 * i) as nat, |j: int| spec_sample_byte(self@, j)));
        }
        assert(buf@ =~= old(buf)@ + Self::spec_encode(self@));
    }
}

impl Decode for AudioFrame {
    open spec fn spec_decode(buf: Seq<u8>) -> Option<(Seq<i16>, int)> {
        if buf.len() < 192 {
            None
        } else {
            Some((Seq::new(96, |i: int| spec_sample_at(buf, i)), 192))
        }
    }

    fn decode(buf: &[u8]) -> (r: Option<(Self, &[u8])>) {
        if buf.len() < 192 {
            return None;
        }
        let mut frame = AudioFrame([0i16; 96]);
        let mut i: usize = 0;
        while i < 96
            invariant
                0 <= i <= 96,
                buf@.len() >= 192,
                frame@.len() == 96,
                forall|k: int| 0 <= k < i ==> frame@[k] == spec_sample_at(buf@, k),
            decreases 96 - i,
        {
            let lo = buf[2 * i];
            let hi = buf[2 * i + 1];
            let v = ((lo as u16) | ((hi as u16) << 8)) as i16;
            frame.0[i] = v;
            i += 1;
        }
        assert(frame@ =~= Seq::new(96, |i: int| spec_sample_at(buf@, i)));
        Some((frame, slice_subrange(buf, 192, buf.len())))
    }
}

impl Codec for AudioFrame {
    open spec fn spec_well_formed(v: Seq<i16>) -> bool {
        v.len() == 96
    }

    proof fn lemma_roundtrip(v: Seq<i16>, rest: Seq<u8>) {
        let e = Self::spec_encode(v);
        let all = e + rest;
        assert forall|i: int| 0 <= i < 96 implies spec_sample_at(all, i) == v[i] by {
            assert(all[2 * i] == spec_sample_byte(v, 2 * i));
            assert(all[2 * i + 1] == spec_sample_byte(v, 2 * i + 1));
            lemma_sample_bytes_roundtrip(v[i]);
        }
        assert(Seq::new(96, |i: int| spec_sample_at(all, i)) =~= v);
    }
}

// ── ClientMsg ────────────────────────────────────────────────────────────────
// Tag: 0=Subscribe 1=SetGpio 2=AudioWrite 3=Ping 4=GetStats

/// The largest frame count that an `AudioWrite` request may carry: 65 536
/// frames is about 64 s of audio; anything beyond is taken as a corrupt
/// length.
pub const MAX_AUDIO_WRITE_FRAMES: u32 = 65_536;

impl Encode for ClientMsg {
    open spec fn spec_encode(v: ClientMsg) -> Seq<u8> {
        match v {
            ClientMsg::Subscribe { streams } => seq![0u8, streams.0],
            ClientMsg::SetGpio { pin, high } => seq![1u8, pin, if high { 1u8 } else { 0u8 }],
            ClientMsg::AudioWrite { frame_count } => seq![2u8] + spec_u32_to_le_bytes(frame_count),
            ClientMsg::Ping => seq![3u8],
            ClientMsg::GetStats => seq![4u8],
        }
    }

    fn encode(&self, buf: &mut Vec<u8>) {
        match self {
            ClientMsg::Subscribe { streams } => {
                push_u8(buf, 0);
                streams.encode(buf);
            },
            ClientMsg::SetGpio { pin, high } => {
                push_u8(buf, 1);
                push_u8(buf, *pin);
                push_u8(buf, if *high { 1 } else { 0 });
            },
            ClientMsg::AudioWrite { frame_count } => {
                push_u8(buf, 2);
                push_u32(buf, *frame_count);
            },
            ClientMsg::Ping => push_u8(buf, 3),
            ClientMsg::GetStats => push_u8(buf, 4),
        }
        assert(buf@ =~= old(buf)@ + Self::spec_encode(self@));
    }
}

impl Decode for ClientMsg {
    open spec fn spec_decode(buf: Seq<u8>) -> Option<(ClientMsg, int)> {
        if buf.len() < 1 {
            None
        } else if buf[0] == 0 {
            if buf.len() < 2 {
                None
            } else {
                Some(
                    (
                        ClientMsg::Subscribe {
                            streams: StreamFlags(buf[1] & crate::types::stream_bits_mask()),
                        },
                        2,
                    ),
                )
            }
        } else if buf[0] == 1 {
            if buf.len() < 3 {
                None
            } else {
                Some((ClientMsg::SetGpio { pin: buf[1], high: buf[2] != 0 }, 3))
            }
        } else if buf[0] == 2 {
            if buf.len() < 5 {
                None
            } else {
                let frame_count = spec_u32_from_le_bytes(buf.subrange(1, 5));
                if frame_count > MAX_AUDIO_WRITE_FRAMES {
                    None
                } else {
                    Some((ClientMsg::AudioWrite { frame_count }, 5))
                }
            }
        } else if buf[0] == 3 {
            Some((ClientMsg::Ping, 1))
        } else if buf[0] == 4 {
            Some((ClientMsg::GetStats, 1))
        } else {
            None
        }
    }

    fn decode(buf: &[u8]) -> (r: Option<(Self, &[u8])>) {
        let (tag, rest) = match read_u8(buf) {
            Some(p) => p,
            None => return None,
        };
        match tag {
            0 => {
                let (streams, rest2) = match StreamFlags::decode(rest) {
                    Some(p) => p,
                    None => return None,
                };
                assert(rest2@ =~= buf@.skip(2));
                Some((ClientMsg::Subscribe { streams }, rest2))
            },
            1 => {
                let (pin, rest2) = match read_u8(rest) {
                    Some(p) => p,
                    None => return None,
                };
                let (high, rest3) = match read_u8(rest2) {
                    Some(p) => p,
                    None => return None,
                };
                assert(rest3@ =~= buf@.skip(3));
                Some((ClientMsg::SetGpio { pin, high: high != 0 }, rest3))
            },
            2 => {
                let (frame_count, rest2) = match read_u32(rest) {
                    Some(p) => p,
                    None => return None,
                };
                assert(rest@.subrange(0, 4) =~= buf@.subrange(1, 5));
                assert(rest2@ =~= buf@.skip(5));
                if frame_count > MAX_AUDIO_WRITE_FRAMES {
                    return None;
                }
                Some((ClientMsg::AudioWrite { frame_count }, rest2))
            },
            3 => Some((ClientMsg::Ping, rest)),
            4 => Some((ClientMsg::GetStats, rest)),
            _ => None,
        }
    }
}

impl Codec for ClientMsg {
    open spec fn spec_well_formed(v: ClientMsg) -> bool {
        match v {
            ClientMsg::Subscribe { streams } => streams.is_valid(),
            ClientMsg::AudioWrite { frame_count } => frame_count <= MAX_AUDIO_WRITE_FRAMES,
            _ => true,
        }
    }

    proof fn lemma_roundtrip(v: ClientMsg, rest: Seq<u8>) {
        lemma_auto_spec_u32_to_from_le_bytes();
        let e = Self::spec_encode(v);
        let all = e + rest;
        assert(all[0] == e[0]);
        match v {
            ClientMsg::Subscribe { streams } => {
                assert(all[1] == e[1]);
            },
            ClientMsg::SetGpio { pin, high } => {
                assert(all[1] == e[1]);
                assert(all[2] == e[2]);
            },
            ClientMsg::AudioWrite { frame_count } => {
                assert(all.subrange(1, 5) =~= spec_u32_to_le_bytes(frame_count));
            },
            _ => {},
        }
    }
}

// ── ServerMsg ────────────────────────────────────────────────────────────────
// Tag: 0=AudioReady 1=RadioEvent 2=Stats 3=Pong 4=Error

impl Encode for ServerMsg {
    open spec fn spec_encode(v: ServerMsgView) -> Seq<u8> {
        match v {
            ServerMsgView::AudioReady { seq } => seq![0u8] + spec_u64_to_le_bytes(seq),
            ServerMsgView::RadioEvent(ev) => seq![1u8] + RadioEvent::spec_encode(ev),
            ServerMsgView::Stats { rx_xruns, tx_xruns, dispatch_lat } => seq![2u8]
                + spec_u64_to_le_bytes(rx_xruns) + spec_u64_to_le_bytes(tx_xruns)
                + LatencyStats::spec_encode(dispatch_lat),
            ServerMsgView::Pong => seq![3u8],
            ServerMsgView::Error(s) => seq![4u8] + spec_str_bytes(s),
        }
    }

    fn encode(&self, buf: &mut Vec<u8>) {
        match self {
            ServerMsg::AudioReady { seq } => {
                push_u8(buf, 0);
                push_u64(buf, *seq);
            },
            ServerMsg::RadioEvent(ev) => {
                push_u8(buf, 1);
                ev.encode(buf);
            },
            ServerMsg::Stats { rx_xruns, tx_xruns, dispatch_lat } => {
                push_u8(buf, 2);
                push_u64(buf, *rx_xruns);
                push_u64(buf, *tx_xruns);
                dispatch_lat.encode(buf);
            },
            ServerMsg::Pong => push_u8(buf, 3),
            ServerMsg::Error(s) => {
                push_u8(buf, 4);
                push_str(buf, s.as_str());
            },
        }
        assert(buf@ =~= old(buf)@ + Self::spec_encode(self@));
    }
}

impl Decode for ServerMsg {
    open spec fn spec_decode(buf: Seq<u8>) -> Option<(ServerMsgView, int)> {
        if buf.len() < 1 {
            None
        } else if buf[0] == 0 {
            if buf.len() < 9 {
                None
            } else {
                Some(
                    (
                        ServerMsgView::AudioReady { seq: spec_u64_from_le_bytes(buf.subrange(1, 9)) },
                        9,
                    ),
                )
            }
        } else if buf[0] == 1 {
            match RadioEvent::spec_decode(buf.skip(1)) {
                Some((ev, n)) => Some((ServerMsgView::RadioEvent(ev), n + 1)),
                None => None,
            }
        } else if buf[0] == 2 {
            if buf.len() < 17 {
                None
            } else {
                match LatencyStats::spec_decode(buf.skip(17)) {
                Some((lat, n)) => Some(
                    (
                        ServerMsgView::Stats {
                            rx_xruns: spec_u64_from_le_bytes(buf.subrange(1, 9)),
                            tx_xruns: spec_u64_from_le_bytes(buf.subrange(9, 17)),
                            dispatch_lat: lat,
                        },
                            n + 17,
                        ),
                    ),
                    None => None,
                }
            }
        } else if buf[0] == 3 {
            Some((ServerMsgView::Pong, 1))
        } else if buf[0] == 4 {
            match spec_read_str(buf.skip(1)) {
                Some((s, n)) => Some((ServerMsgView::Error(s), n + 1)),
                None => None,
            }
        } else {
            None
        }
    }

    fn decode(buf: &[u8]) -> (r: Option<(Self, &[u8])>) {
        let (tag, rest) = match read_u8(buf) {
            Some(p) => p,
            None => return None,
        };
        match tag {
            0 => {
                let (seq, rest2) = match read_u64(rest) {
                    Some(p) => p,
                    None => return None,
                };
                assert(rest@.subrange(0, 8) =~= buf@.subrange(1, 9));
                assert(rest2@ =~= buf@.skip(9));
                Some((ServerMsg::AudioReady { seq }, rest2))
            },
            1 => {
                let (ev, rest2) = match RadioEvent::decode(rest) {
                    Some(p) => p,
                    None => return None,
                };
                proof {
                    let n = RadioEvent::spec_decode(rest@).unwrap().1;
                    assert(rest2@ =~= buf@.skip(n + 1));
                }
                Some((ServerMsg::RadioEvent(ev), rest2))
            },
            2 => {
                if buf.len() < 17 {
                    return None;
                }
                let (rx_xruns, rest2) = match read_u64(rest) {
                    Some(p) => p,
                    None => return None,
                };
                let (tx_xruns, rest3) = match read_u64(rest2) {
                    Some(p) => p,
                    None => return None,
                };
                assert(rest@.subrange(0, 8) =~= buf@.subrange(1, 9));
                assert(rest2@.subrange(0, 8) =~= buf@.subrange(9, 17));
                assert(rest3@ =~= buf@.skip(17));
                let (dispatch_lat, rest4) = match LatencyStats::decode(rest3) {
                    Some(p) => p,
                    None => return None,
                };
                assert(rest4@ =~= buf@.skip(29));
                Some((ServerMsg::Stats { rx_xruns, tx_xruns, dispatch_lat }, rest4))
            },
            3 => Some((ServerMsg::Pong, rest)),
            4 => {
                let (s, rest2) = match read_str(rest) {
                    Some(p) => p,
                    None => return None,
                };
                proof {
                    let n = spec_read_str(rest@).unwrap().1;
                    assert(rest2@ =~= buf@.skip(n + 1));
                }
                Some((ServerMsg::Error(s), rest2))
            },
            _ => None,
        }
    }
}

impl Codec for ServerMsg {
    open spec fn spec_well_formed(v: ServerMsgView) -> bool {
        match v {
            ServerMsgView::Error(s) => encode_utf8(s).len() <= u16::MAX,
            _ => true,
        }
    }

    proof fn lemma_roundtrip(v: ServerMsgView, rest: Seq<u8>) {
        lemma_auto_spec_u64_to_from_le_bytes();
        lemma_auto_spec_u16_to_from_le_bytes();
        let e = Self::spec_encode(v);
        let all = e + rest;
        assert(all[0] == e[0]);
        match v {
            ServerMsgView::AudioReady { seq } => {
                assert(all.subrange(1, 9) =~= spec_u64_to_le_bytes(seq));
            },
            ServerMsgView::RadioEvent(ev) => {
                let inner = RadioEvent::spec_encode(ev);
                assert(all.skip(1) =~= inner + rest);
                RadioEvent::lemma_roundtrip(ev, rest);
            },
            ServerMsgView::Stats { rx_xruns, tx_xruns, dispatch_lat } => {
                let inner = LatencyStats::spec_encode(dispatch_lat);
                assert(all.subrange(1, 9) =~= spec_u64_to_le_bytes(rx_xruns));
                assert(all.subrange(9, 17) =~= spec_u64_to_le_bytes(tx_xruns));
                assert(all.skip(17) =~= inner + rest);
                LatencyStats::lemma_roundtrip(dispatch_lat, rest);
            },
            ServerMsgView::Pong => {},
            ServerMsgView::Error(s) => {
                let bytes = encode_utf8(s);
                let tail = all.skip(1);
                assert(tail =~= spec_u16_to_le_bytes(bytes.len() as u16) + bytes + rest);
                assert(tail.subrange(0, 2) =~= spec_u16_to_le_bytes(bytes.len() as u16));
                assert(tail.subrange(2, 2 + bytes.len() as int) =~= bytes);
                encode_utf8_valid_utf8(s);
                encode_utf8_decode_utf8(s);
            },
        }
    }
}

/// The documented tag bytes of the messages, and their one-byte fields:
/// requests 0 subscribe (flags), 1 set GPIO (pin, 0 or 1), 2 audio write,
/// 3 ping, 4 statistics; replies 0 audio ready, 1 radio event (then the
/// event's bytes), 2 statistics, 3 pong, 4 error.
pub proof fn lemma_message_tags(c: ClientMsg, m: ServerMsgView)
    ensures
        ClientMsg::spec_encode(c)[0] == match c {
            ClientMsg::Subscribe { .. } => 0u8,
            ClientMsg::SetGpio { .. } => 1u8,
            ClientMsg::AudioWrite { .. } => 2u8,
            ClientMsg::Ping => 3u8,
            ClientMsg::GetStats => 4u8,
        },
        ServerMsg::spec_encode(m)[0] == match m {
            ServerMsgView::AudioReady { .. } => 0u8,
            ServerMsgView::RadioEvent(_) => 1u8,
            ServerMsgView::Stats { .. } => 2u8,
            ServerMsgView::Pong => 3u8,
            ServerMsgView::Error(_) => 4u8,
        },
        c matches ClientMsg::Subscribe { streams } ==> ClientMsg::spec_encode(c) == seq![
            0u8,
            streams.0,
        ],
        c matches ClientMsg::SetGpio { pin, high } ==> ClientMsg::spec_encode(c) == seq![
            1u8,
            pin,
            if high {
                1u8
            } else {
                0u8
            },
        ],
        c is Ping ==> ClientMsg::spec_encode(c) == seq![3u8],
        c is GetStats ==> ClientMsg::spec_encode(c) == seq![4u8],
        m is Pong ==> ServerMsg::spec_encode(m) == seq![3u8],
        m matches ServerMsgView::RadioEvent(ev) ==> ServerMsg::spec_encode(m) == seq![1u8]
            + RadioEvent::spec_encode(ev),
        ServerMsg::spec_encode(ServerMsgView::RadioEvent(RadioEvent::CosActive)) == seq![1u8, 2u8],
        ServerMsg::spec_encode(ServerMsgView::RadioEvent(RadioEvent::CosInactive)) == seq![
            1u8,
            3u8,
        ],
{
    assert(seq![1u8] + seq![2u8] =~= seq![1u8, 2u8]);
    assert(seq![1u8] + seq![3u8] =~= seq![1u8, 3u8]);
}

// ── Length-prefixed framing ──────────────────────────────────────────────────

/// A packet: the payload length as 4 little-endian bytes (wrapping above
/// `u32::MAX`), then the payload.
pub open spec fn spec_frame(payload: Seq<u8>) -> Seq<u8> {
    spec_u32_to_le_bytes(payload.len() as u32) + payload
}

/// The packet that carries the wire form of `v`.
pub open spec fn spec_to_framed<T: Encode>(v: T::V) -> Seq<u8> {
    spec_frame(T::spec_encode(v))
}

/// The value in the packet at the start of `buf`, and the packet's length.
/// The value is decoded from the packet's payload alone; bytes of the
/// payload after the value are skipped.
pub open spec fn spec_from_framed<T: Decode>(buf: Seq<u8>) -> Option<(T::V, int)> {
    if buf.len() < 4 {
        None
    } else {
        let n = spec_u32_from_le_bytes(buf.subrange(0, 4)) as int;
        if buf.len() < 4 + n {
            None
        } else {
            match T::spec_decode(buf.subrange(4, 4 + n)) {
                Some((v, _)) => Some((v, 4 + n)),
                None => None,
            }
        }
    }
}

/// Encode a value as a 4-byte LE length-prefixed packet (same framing as the IPC layer).
pub fn to_framed<T: Encode>(msg: &T) -> (out: Vec<u8>)
    ensures
        out@ == spec_to_framed::<T>(msg@),
{
    let mut payload = msg.to_vec();
    #[verifier::truncate]
    let n = payload.len() as u32;
    let mut out = Vec::new();
    push_u32(&mut out, n);
    out.append(&mut payload);
    assert(out@ =~= spec_to_framed::<T>(msg@));
    out
}

/// Read a length-prefixed message from a byte slice, returning the decoded
/// value and remaining bytes. Returns `None` if the buffer is incomplete.
pub fn from_framed<T: Decode>(buf: &[u8]) -> (r: Option<(T, &[u8])>)
    ensures
        r is Some <==> spec_from_framed::<T>(buf@) is Some,
        r matches Some((v, rest)) ==> spec_from_framed::<T>(buf@) matches Some((w, n)) && v@ == w
            && 0 <= n <= buf@.len() && rest@ == buf@.skip(n),
{
    let (len, rest) = match read_u32(buf) {
        Some(p) => p,
        None => return None,
    };
    let len = len as usize;
    if rest.len() < len {
        return None;
    }
    let payload = slice_subrange(rest, 0, len);
    assert(payload@ =~= buf@.subrange(4, 4 + len));
    match T::decode(payload) {
        Some((val, _)) => {
            let tail = slice_subrange(rest, len, rest.len());
            assert(tail@ =~= buf@.skip(4 + len));
            Some((val, tail))
        },
        None => None,
    }
}

/// Reading back a packet written by `to_framed`, followed by any bytes,
/// gives the value that was written and the packet's length, for every
/// well-formed value whose wire form fits a 4-byte length.
pub proof fn lemma_framed_roundtrip<T: Codec>(v: <T as View>::V, rest: Seq<u8>)
    requires
        T::spec_well_formed(v),
        <T as Encode>::spec_encode(v).len() <= u32::MAX,
    ensures
        spec_from_framed::<T>(spec_to_framed::<T>(v) + rest) == Some(
            (v, 4 + <T as Encode>::spec_encode(v).len() as int),
        ),
{
    lemma_auto_spec_u32_to_from_le_bytes();
    let payload = <T as Encode>::spec_encode(v);
    let all = spec_to_framed::<T>(v) + rest;
    assert(all.subrange(0, 4) =~= spec_u32_to_le_bytes(payload.len() as u32));
    assert(all.subrange(4, 4 + payload.len() as int) =~= payload + Seq::<u8>::empty());
    T::lemma_roundtrip(v, Seq::<u8>::empty());
}

} // verus!
