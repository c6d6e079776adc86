//! Client-side decisions: which notification brings a new audio frame, and
//! the C-compatible form of radio events.

use vstd::prelude::*;

use crate::types::{RadioEvent, ServerMsg, ServerMsgView, SAMPLES_PER_FRAME};

verus! {

/// An I/O error of the standard library.
#[verifier::external_type_specification]
#[verifier::external_body]
pub struct ExIoError(std::io::Error);

/// Why a client call failed.
pub enum ClientError {
    Io(std::io::Error),
    Protocol(String),
    Disconnected,
}

/// C-compatible radio/GPIO event.
#[derive(Clone, Copy, Debug, PartialEq, Eq, Structural)]
pub struct Cm108Event {
    /// 0 = PttAssert, 1 = PttDeassert, 2 = CosActive,
    /// 3 = CosInactive, 4 = GpioChange
    pub event_type: u8,
    /// GPIO1-GPIO4 bitmask (populated for GpioChange; 0 otherwise).
    pub gpio_state: u8,
}

/// The C form of a radio event.
pub open spec fn spec_radio_to_c(ev: RadioEvent) -> Cm108Event {
    match ev {
        RadioEvent::PttAssert => Cm108Event { event_type: 0, gpio_state: 0 },
        RadioEvent::PttDeassert => Cm108Event { event_type: 1, gpio_state: 0 },
        RadioEvent::CosActive => Cm108Event { event_type: 2, gpio_state: 0 },
        RadioEvent::CosInactive => Cm108Event { event_type: 3, gpio_state: 0 },
        RadioEvent::GpioChange(g) => Cm108Event { event_type: 4, gpio_state: g.0 },
    }
}

/// The C form of a radio event.
pub fn radio_to_c(ev: RadioEvent) -> (e: Cm108Event)
    ensures
        e == spec_radio_to_c(ev),
{
    match ev {
        RadioEvent::PttAssert => Cm108Event { event_type: 0, gpio_state: 0 },
        RadioEvent::PttDeassert => Cm108Event { event_type: 1, gpio_state: 0 },
        RadioEvent::CosActive => Cm108Event { event_type: 2, gpio_state: 0 },
        RadioEvent::CosInactive => Cm108Event { event_type: 3, gpio_state: 0 },
        RadioEvent::GpioChange(g) => Cm108Event { event_type: 4, gpio_state: g.0 },
    }
}

/// The C event for a server message: radio events only.
pub fn server_msg_to_event(msg: ServerMsg) -> (e: Option<Cm108Event>)
    ensures
        e == match msg@ {
            ServerMsgView::RadioEvent(ev) => Some(spec_radio_to_c(ev)),
            _ => None,
        },
{
    if let ServerMsg::RadioEvent(ev) = msg {
        Some(radio_to_c(ev))
    } else {
        None
    }
}

/// What a client waiting for audio does with the next message from the
/// daemon, after having read the frame of notification `last_seq`:
/// `Ok(Some(seq))` means the frame of a newer notification `seq` is to be
/// read; `Ok(None)` means keep waiting (a stale notification or another
/// message); the end of the stream means the daemon disconnected.
pub fn next_audio_step(last_seq: u64, msg: &Option<ServerMsg>) -> (r: Result<Option<u64>, ClientError>)
    ensures
        match msg {
            Some(m) => match m@ {
                ServerMsgView::AudioReady { seq } => if seq > last_seq {
                    r matches Ok(Some(s)) && s == seq
                } else {
                    r matches Ok(None)
                },
                _ => r matches Ok(None),
            },
            None => r matches Err(ClientError::Disconnected),
        },
{
    match msg {
        Some(ServerMsg::AudioReady { seq }) => {
            if *seq > last_seq {
                Ok(Some(*seq))
            } else {
                Ok(None)
            }
        },
        Some(_) => Ok(None),
        None => Err(ClientError::Disconnected),
    }
}

/// The number of stereo frames copied into a caller's buffer that holds
/// `frames` of them: at most one USB frame's worth.
pub fn audio_copy_frames(frames: usize) -> (n: usize)
    ensures
        n == if frames < SAMPLES_PER_FRAME {
            frames
        } else {
            SAMPLES_PER_FRAME
        },
{
    if frames < SAMPLES_PER_FRAME {
        frames
    } else {
        SAMPLES_PER_FRAME
    }
}

} // verus!
