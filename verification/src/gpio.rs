//! CM108 HID GPIO: the output report that drives the pins, the state read
//! back from the interrupt endpoint, and the radio events a state change
//! stands for.

use vstd::prelude::*;

use crate::types::{GpioState, RadioEvent};

verus! {

/// HID SET_REPORT request type (class request, host to interface).
pub const HID_SET_REPORT_TYPE: u8 = 0x21;
/// HID SET_REPORT request.
pub const HID_SET_REPORT_REQ: u8 = 0x09;
/// wValue of SET_REPORT for output report 0.
pub const HID_OUTPUT_REPORT: u16 = 0x0200;

/// GPIO direction register of the RB_RIM_Lite_v2 board: GPIO1 (PTT) and
/// GPIO4 (heartbeat LED) are outputs, GPIO2 and GPIO3 (COS, CTCSS) inputs.
pub const GPIO_DIR_RIM_LITE: u8 = 0x09;

/// The GPIO output and direction registers of the device.
pub struct HidGpio {
    /// Current output register value (OR1).
    gpio_out: u8,
    /// Direction register (OR2).
    gpio_dir: u8,
}

impl HidGpio {
    /// The output register as last set.
    pub closed spec fn spec_out(&self) -> u8 {
        self.gpio_out
    }

    /// The direction register.
    pub closed spec fn spec_dir(&self) -> u8 {
        self.gpio_dir
    }

    /// All outputs low, with the board's direction register.
    pub fn new() -> (g: Self)
        ensures
            g.spec_out() == 0,
            g.spec_dir() == GPIO_DIR_RIM_LITE,
    {
        HidGpio { gpio_out: 0, gpio_dir: GPIO_DIR_RIM_LITE }
    }

    /// The level last set on output pin `pin` (0-indexed, GPIO1 = 0).
    pub fn pin_level(&self, pin: u8) -> (high: bool)
        requires
            pin < 4,
        ensures
            high == crate::types::bit_set(self.spec_out(), pin),
    {
        GpioState(self.gpio_out).pin(pin)
    }

    /// The 4-byte output report that programs the device with the current
    /// registers: report id 0, the output register, the direction register, 0.
    pub fn output_report(&self) -> (report: [u8; 4])
        ensures
            report@ == seq![0u8, self.spec_out(), self.spec_dir(), 0u8],
    {
        let report = [0x00u8, self.gpio_out, self.gpio_dir, 0x00u8];
        assert(report@ =~= seq![0u8, self.spec_out(), self.spec_dir(), 0u8]);
        report
    }

    /// Asserts or deasserts a single GPIO pin (0-indexed, GPIO1 = 0) and
    /// returns the output report that must be sent to the device for it to
    /// take effect.
    pub fn set_pin(&mut self, pin: u8, high: bool) -> (report: [u8; 4])
        requires
            pin < 4,
        ensures
            final(self).spec_out() == if high {
                old(self).spec_out() | (1u8 << pin)
            } else {
                old(self).spec_out() & !(1u8 << pin)
            },
            final(self).spec_dir() == old(self).spec_dir(),
            report@ == seq![0u8, final(self).spec_out(), final(self).spec_dir(), 0u8],
    {
        if high {
            self.gpio_out = self.gpio_out | (1u8 << pin);
        } else {
            self.gpio_out = self.gpio_out & !(1u8 << pin);
        }
        self.output_report()
    }

    /// The GPIO input state carried by a 4-byte interrupt report: its
    /// second byte.
    pub fn state_from_report(report: &[u8; 4]) -> (g: GpioState)
        ensures
            g == GpioState(report@[1]),
    {
        GpioState(report[1])
    }
}

/// Setting a pin changes that pin to the requested level and leaves the
/// other pins as they were.
pub proof fn lemma_set_pin_changes_only_that_pin(out: u8, pin: u8, high: bool, n: u8)
    requires
        pin < 4,
        n < 8,
    ensures
        ({
            let new_out = if high {
                out | (1u8 << pin)
            } else {
                out & !(1u8 << pin)
            };
            &&& crate::types::bit_set(new_out, pin) == high
            &&& n != pin ==> crate::types::bit_set(new_out, n) == crate::types::bit_set(out, n)
        }),
{
    if high {
        assert(((out | (1u8 << pin)) >> pin) & 1u8 == 1u8) by (bit_vector)
            requires
                pin < 4,
        ;
        assert(n != pin ==> (((out | (1u8 << pin)) >> n) & 1u8 == 1u8) == ((out >> n) & 1u8
            == 1u8)) by (bit_vector)
            requires
                pin < 4,
                n < 8,
        ;
    } else {
        assert(((out & !(1u8 << pin)) >> pin) & 1u8 != 1u8) by (bit_vector)
            requires
                pin < 4,
        ;
        assert(n != pin ==> (((out & !(1u8 << pin)) >> n) & 1u8 == 1u8) == ((out >> n) & 1u8
            == 1u8)) by (bit_vector)
            requires
                pin < 4,
                n < 8,
        ;
    }
}

/// The radio events that a change of GPIO state from `prev` to `state`
/// stands for, in order: a PTT event where GPIO1 changed, a COS event where
/// GPIO2 changed, then the new state itself.
pub open spec fn spec_gpio_events(state: GpioState, prev: GpioState) -> Seq<RadioEvent> {
    let ptt = if crate::types::bit_set(state.0, 0) != crate::types::bit_set(prev.0, 0) {
        seq![
            if crate::types::bit_set(state.0, 0) {
                RadioEvent::PttAssert
            } else {
                RadioEvent::PttDeassert
            },
        ]
    } else {
        Seq::empty()
    };
    let cos = if crate::types::bit_set(state.0, 1) != crate::types::bit_set(prev.0, 1) {
        seq![
            if crate::types::bit_set(state.0, 1) {
                RadioEvent::CosActive
            } else {
                RadioEvent::CosInactive
            },
        ]
    } else {
        Seq::empty()
    };
    ptt + cos + seq![RadioEvent::GpioChange(state)]
}

/// The events of one successful poll that read `state` after `prev`:
/// none when nothing changed, else those of the change.
pub open spec fn poll_step_events(prev: GpioState, state: GpioState) -> Seq<RadioEvent> {
    if state == prev {
        Seq::empty()
    } else {
        spec_gpio_events(state, prev)
    }
}

/// The state a poller remembers after the reads `reads`, starting from `s0`.
pub open spec fn poll_last(s0: GpioState, reads: Seq<GpioState>) -> GpioState {
    if reads.len() == 0 {
        s0
    } else {
        reads.last()
    }
}

/// All events a poller reports, in order, for the successful reads
/// `reads` starting from `s0`.
pub open spec fn poll_run_events(s0: GpioState, reads: Seq<GpioState>) -> Seq<RadioEvent>
    decreases reads.len(),
{
    if reads.len() == 0 {
        Seq::empty()
    } else {
        let prior = reads.drop_last();
        poll_run_events(s0, prior) + poll_step_events(poll_last(s0, prior), reads.last())
    }
}

/// One step of the GPIO poller: after reading `state` where `prev` was
/// known, the state to remember and the events to report (none when the
/// state did not change).
pub fn gpio_poll_step(prev: GpioState, state: GpioState) -> (r: (GpioState, Vec<RadioEvent>))
    ensures
        r.0 == state,
        r.1@ == poll_step_events(prev, state),
        state.0 == prev.0 ==> r.1@.len() == 0,
        state.0 != prev.0 ==> r.1@ == spec_gpio_events(state, prev) && r.1@.len() > 0
            && r.1@.last() == RadioEvent::GpioChange(state),
{
    proof {
        lemma_poll_step_reports_every_change(prev, state);
    }
    if state == prev {
        (state, Vec::new())
    } else {
        (state, gpio_events(state, prev))
    }
}

/// A poll reports a change of any input bit, whichever it is: the events
/// of the change, ending with the new state; and an unchanged read reports
/// nothing.
pub proof fn lemma_poll_step_reports_every_change(prev: GpioState, state: GpioState)
    ensures
        state.0 == prev.0 ==> poll_step_events(prev, state).len() == 0,
        state.0 != prev.0 ==> poll_step_events(prev, state) == spec_gpio_events(state, prev)
            && poll_step_events(prev, state).len() > 0 && poll_step_events(prev, state).last()
            == RadioEvent::GpioChange(state),
{
    lemma_gpio_events_follow_pins(state, prev);
}

/// Reading the same state again, any number of times, reports nothing more.
pub proof fn lemma_repeated_reads_emit_nothing(s0: GpioState, reads: Seq<GpioState>, k: nat)
    ensures
        poll_run_events(s0, reads + Seq::new(k, |i: int| poll_last(s0, reads))) == poll_run_events(
            s0,
            reads,
        ),
    decreases k,
{
    let same = Seq::new(k, |i: int| poll_last(s0, reads));
    let all = reads + same;
    if k == 0 {
        assert(all =~= reads);
    } else {
        let fewer = Seq::new((k - 1) as nat, |i: int| poll_last(s0, reads));
        lemma_repeated_reads_emit_nothing(s0, reads, (k - 1) as nat);
        assert(all.drop_last() =~= reads + fewer);
        assert(poll_last(s0, reads + fewer) == poll_last(s0, reads));
        assert(all.last() == poll_last(s0, reads));
        assert(poll_run_events(s0, all) =~= poll_run_events(s0, reads + fewer));
    }
}

/// What a GPIO change reports, in terms of the two input bits: a PTT event
/// first when bit 0 (GPIO1) changed, assert exactly when it is now set; then
/// a COS event when bit 1 (GPIO2) changed, active exactly when it is now
/// set, whatever bit 0 does; then the new state. Each input event appears
/// only for a change of its own bit, with the direction of that bit.
pub proof fn lemma_gpio_events_follow_pins(state: GpioState, prev: GpioState)
    ensures
        ({
            let e = spec_gpio_events(state, prev);
            let ptt_changed = state.0 & 1u8 != prev.0 & 1u8;
            let cos_changed = state.0 & 2u8 != prev.0 & 2u8;
            &&& e.len() == 1 + (if ptt_changed {
                1int
            } else {
                0int
            }) + (if cos_changed {
                1int
            } else {
                0int
            })
            &&& ptt_changed ==> e[0] == if state.0 & 1u8 != 0 {
                RadioEvent::PttAssert
            } else {
                RadioEvent::PttDeassert
            }
            &&& cos_changed ==> e[e.len() - 2] == if state.0 & 2u8 != 0 {
                RadioEvent::CosActive
            } else {
                RadioEvent::CosInactive
            }
            &&& e.last() == RadioEvent::GpioChange(state)
            &&& e.contains(RadioEvent::PttAssert) <==> ptt_changed && state.0 & 1u8 != 0
            &&& e.contains(RadioEvent::PttDeassert) <==> ptt_changed && state.0 & 1u8 == 0
            &&& e.contains(RadioEvent::CosActive) <==> cos_changed && state.0 & 2u8 != 0
            &&& e.contains(RadioEvent::CosInactive) <==> cos_changed && state.0 & 2u8 == 0
        }),
{
    let x = state.0;
    let y = prev.0;
    assert(crate::types::bit_set(x, 0) == (x & 1u8 != 0)) by (bit_vector);
    assert(crate::types::bit_set(y, 0) == (y & 1u8 != 0)) by (bit_vector);
    assert(crate::types::bit_set(x, 1) == (x & 2u8 != 0)) by (bit_vector);
    assert(crate::types::bit_set(y, 1) == (y & 2u8 != 0)) by (bit_vector);
    assert((x & 1u8 != y & 1u8) == ((x & 1u8 != 0) != (y & 1u8 != 0))) by (bit_vector);
    assert((x & 2u8 != y & 2u8) == ((x & 2u8 != 0) != (y & 2u8 != 0))) by (bit_vector);
    let e = spec_gpio_events(state, prev);
    assert forall|ev: RadioEvent| #[trigger] e.contains(ev) && ev !is GpioChange implies e[0]
        == ev || (e.len() == 3 && e[1] == ev) by {
        let k = choose|k: int| 0 <= k < e.len() && e[k] == ev;
        assert(k != e.len() - 1);
    }
    if e.len() >= 2 {
        assert(e.contains(e[0]));
    }
    if e.len() == 3 {
        assert(e.contains(e[1]));
    }
}

/// The events to report when the GPIO state changes from `prev` to
/// `state`: GPIO1 is conventional PTT, GPIO2 conventional COS.
pub fn gpio_events(state: GpioState, prev: GpioState) -> (evs: Vec<RadioEvent>)
    ensures
        evs@ == spec_gpio_events(state, prev),
        evs@.len() == 1 + (if state.0 & 1u8 != prev.0 & 1u8 {
            1int
        } else {
            0int
        }) + (if state.0 & 2u8 != prev.0 & 2u8 {
            1int
        } else {
            0int
        }),
        state.0 & 1u8 != prev.0 & 1u8 ==> evs@[0] == if state.0 & 1u8 != 0 {
            RadioEvent::PttAssert
        } else {
            RadioEvent::PttDeassert
        },
        state.0 & 2u8 != prev.0 & 2u8 ==> evs@[evs@.len() - 2] == if state.0 & 2u8 != 0 {
            RadioEvent::CosActive
        } else {
            RadioEvent::CosInactive
        },
        evs@.last() == RadioEvent::GpioChange(state),
{
    proof {
        lemma_gpio_events_follow_pins(state, prev);
    }
    let mut evs: Vec<RadioEvent> = Vec::new();
    let ptt = state.pin(0);
    if ptt != prev.pin(0) {
        evs.push(
            if ptt {
                RadioEvent::PttAssert
            } else {
                RadioEvent::PttDeassert
            },
        );
    }
    let cos = state.pin(1);
    if cos != prev.pin(1) {
        evs.push(
            if cos {
                RadioEvent::CosActive
            } else {
                RadioEvent::CosInactive
            },
        );
    }
    evs.push(RadioEvent::GpioChange(state));
    assert(evs@ =~= spec_gpio_events(state, prev));
    evs
}

} // verus!
