//! Conversion between audio frames and the byte layout of an isochronous
//! USB packet: each sample as two little-endian bytes.

use vstd::prelude::*;
use vstd::bytes::*;

use crate::codec::{spec_sample_at, spec_sample_byte, Codec, Decode, Encode};
use crate::types::AudioFrame;

verus! {

/// The samples of a 192-byte packet.
pub open spec fn spec_frame_of(buf: Seq<u8>) -> Seq<i16> {
    Seq::new(96, |i: int| spec_sample_at(buf, i))
}

/// The 192 bytes of the packet that carries `frame`.
pub fn frame_to_bytes(frame: &AudioFrame) -> (buf: [u8; 192])
    ensures
        buf@ == AudioFrame::spec_encode(frame@),
        forall|i: int|
            0 <= i < 96 ==> buf@[2 * i] == (((#[trigger] frame@[i]) as u16) & 0xffu16) as u8
            && buf@[2 * i + 1] == ((frame@[i] as u16) >> 8u16) as u8,
{
    let mut buf = [0u8; 192];
    let mut i: usize = 0;
    while i < 96
        invariant
            0 <= i <= 96,
            frame@.len() == 96,
            buf@.len() == 192,
            forall|j: int| 0 <= j < 2 * i ==> buf@[j] == spec_sample_byte(frame@, j),
        decreases 96 - i,
    {
        let x = frame.0[i] as u16;
        buf[2 * i] = (x & 0xff) as u8;
        buf[2 * i + 1] = (x >> 8) as u8;
        i = i + 1;
    }
    assert(buf@ =~= AudioFrame::spec_encode(frame@));
    proof {
        lemma_packet_layout(frame@);
    }
    buf
}

/// The packet to send to the speaker endpoint for the next millisecond:
/// the frame taken from the playback ring, or silence when the ring is
/// empty (an underrun).
pub fn tx_packet(frame: Option<AudioFrame>) -> (buf: [u8; 192])
    ensures
        match frame {
            Some(f) => buf@ == AudioFrame::spec_encode(f@) && forall|i: int|
                0 <= i < 96 ==> (buf@[2 * i] == (((#[trigger] f@[i]) as u16) & 0xffu16) as u8
            && buf@[2 * i + 1] == ((f@[i] as u16) >> 8u16) as u8),
            None => buf@ == Seq::new(192, |i: int| 0u8),
        },
{
    match frame {
        Some(f) => frame_to_bytes(&f),
        None => {
            let buf = [0u8; 192];
            assert(buf@ =~= Seq::new(192, |i: int| 0u8));
            buf
        },
    }
}

/// The frame carried by a 192-byte packet.
pub fn bytes_to_frame(buf: &[u8; 192]) -> (frame: AudioFrame)
    ensures
        frame@ == spec_frame_of(buf@),
        forall|i: int|
            0 <= i < 96 ==> buf@[2 * i] == (((#[trigger] frame@[i]) as u16) & 0xffu16) as u8
            && buf@[2 * i + 1] == ((frame@[i] as u16) >> 8u16) as u8,
{
    let frame = match AudioFrame::decode(buf.as_slice()) {
        Some((f, _)) => f,
        None => AudioFrame([0i16; 96]),
    };
    proof {
        lemma_packet_samples(buf@);
        assert forall|i: int| 0 <= i < 96 implies buf@[2 * i] == (((#[trigger] frame@[i]) as u16) & 0xffu16) as u8
            && buf@[2 * i + 1] == ((frame@[i] as u16) >> 8u16) as u8 by {
            assert(frame@[i] == spec_frame_of(buf@)[i]);
        }
    }
    frame
}

/// A frame read back from its packet is the frame.
pub proof fn lemma_frame_bytes_frame(samples: Seq<i16>)
    requires
        samples.len() == 96,
    ensures
        spec_frame_of(AudioFrame::spec_encode(samples)) == samples,
{
    AudioFrame::lemma_roundtrip(samples, Seq::<u8>::empty());
    assert(AudioFrame::spec_encode(samples) + Seq::<u8>::empty() =~= AudioFrame::spec_encode(
        samples,
    ));
}

/// A packet rebuilt from the frame it carries is the packet: no byte
/// pattern is lost.
pub proof fn lemma_bytes_frame_bytes(buf: Seq<u8>)
    requires
        buf.len() == 192,
    ensures
        AudioFrame::spec_encode(spec_frame_of(buf)) == buf,
{
    let f = spec_frame_of(buf);
    let e = AudioFrame::spec_encode(f);
    assert forall|j: int| 0 <= j < 192 implies e[j] == buf[j] by {
        let i = j / 2;
        crate::codec::lemma_bytes_sample_roundtrip(buf[2 * i], buf[2 * i + 1]);
    }
    assert(e =~= buf);
}

/// The packet layout: sample `i` of a frame is carried by bytes `2i`
/// (low) and `2i + 1` (high), so samples keep their order and the left and
/// right samples of each stereo pair their places.
pub proof fn lemma_packet_layout(samples: Seq<i16>)
    requires
        samples.len() == 96,
    ensures
        AudioFrame::spec_encode(samples).len() == 192,
        forall|i: int|
            0 <= i < 96 ==> AudioFrame::spec_encode(samples)[2 * i] == (((#[trigger] samples[i]) as u16) & 0xffu16) as u8
                && AudioFrame::spec_encode(samples)[2 * i + 1] == ((samples[i] as u16) >> 8u16) as u8,
{
    let e = AudioFrame::spec_encode(samples);
    assert forall|i: int| 0 <= i < 96 implies e[2 * i] == (((#[trigger] samples[i]) as u16) & 0xffu16) as u8
            && e[2 * i + 1] == ((samples[i] as u16) >> 8u16) as u8 by {
        assert(e[2 * i] == spec_sample_byte(samples, 2 * i));
        assert(e[2 * i + 1] == spec_sample_byte(samples, 2 * i + 1));
        assert((2 * i + 1) / 2 == i);
    }
}

/// Read the other way: sample `i` of the frame in a packet is made of
/// bytes `2i` (low) and `2i + 1` (high).
pub proof fn lemma_packet_samples(buf: Seq<u8>)
    requires
        buf.len() == 192,
    ensures
        forall|i: int|
            0 <= i < 96 ==> buf[2 * i] == (((#[trigger] spec_frame_of(buf)[i]) as u16) & 0xffu16) as u8
            && buf[2 * i + 1] == ((spec_frame_of(buf)[i] as u16) >> 8u16) as u8,
{
    assert forall|i: int| 0 <= i < 96 implies buf[2 * i] == (((#[trigger] spec_frame_of(buf)[i]) as u16) & 0xffu16) as u8
            && buf[2 * i + 1] == ((spec_frame_of(buf)[i] as u16) >> 8u16) as u8 by {
        crate::codec::lemma_bytes_sample_roundtrip(buf[2 * i], buf[2 * i + 1]);
    }
}

} // verus!
