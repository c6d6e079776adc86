//! The decisions of the daemon: which events a GPIO change broadcasts, how
//! a client request is answered, when dispatch statistics are published,
//! and how the heartbeat LED follows client messages.

use vstd::prelude::*;

use crate::gpio::{gpio_events, spec_gpio_events, HidGpio};
use crate::latency::LatencyHistogram;
use crate::registry::{is_subscriber_list, ClientHandle, ClientId, ClientRegistry};
use crate::types::{
    ClientMsg, GpioState, LatencyStats, RadioEvent, ServerMsg, ServerMsgView, StreamFlags,
};

verus! {

/// GPIO4 (pin index 3): PC_OK heartbeat LED (inverting: high, LED on).
pub const HEARTBEAT_PIN: u8 = 3;

/// The dispatch statistics are published once per this many frames.
pub const STATS_INTERVAL_FRAMES: u64 = 5_000;

/// `d` hands the radio events `evs`, in order, to each client of `m`
/// subscribed to GPIO events, once, and to no other client.
pub open spec fn is_gpio_delivery(
    d: Seq<(ClientId, Vec<ServerMsg>)>,
    m: Map<ClientId, ClientHandle>,
    evs: Seq<RadioEvent>,
) -> bool {
    &&& is_subscriber_list(Seq::new(d.len(), |i: int| d[i].0), m, StreamFlags(0b0100))
    &&& forall|i: int| 0 <= i < d.len() ==> (#[trigger] d[i]).1@.len() == evs.len()
    &&& forall|i: int, k: int|
        0 <= i < d.len() && 0 <= k < evs.len() ==> (#[trigger] d[i].1@[k])@
            == ServerMsgView::RadioEvent(evs[k])
}

/// The radio events of a GPIO change from `prev` to `state`, for each
/// client subscribed to GPIO events: the client and its messages, in the
/// order of `gpio_events`. The caller hands each message to the
/// client's channel (`ClientRegistry::sender_of`).
pub fn emit_gpio_events(state: GpioState, prev: GpioState, reg: &ClientRegistry) -> (d: Vec<
    (ClientId, Vec<ServerMsg>),
>)
    ensures
        is_gpio_delivery(d@, reg@, spec_gpio_events(state, prev)),
{
    let evs = gpio_events(state, prev);
    let ids = reg.subscribers(StreamFlags::GPIO_EVENTS());
    let mut d: Vec<(ClientId, Vec<ServerMsg>)> = Vec::new();
    let mut i: usize = 0;
    while i < ids.len()
        invariant
            0 <= i <= ids.len(),
            d@.len() == i,
            evs@ == spec_gpio_events(state, prev),
            Seq::new(d@.len(), |j: int| d@[j].0) == ids@.take(i as int),
            forall|j: int| 0 <= j < d@.len() ==> (#[trigger] d@[j]).1@.len() == evs@.len(),
            forall|j: int, k: int|
                0 <= j < d@.len() && 0 <= k < evs@.len() ==> (#[trigger] d@[j].1@[k])@
                    == ServerMsgView::RadioEvent(evs@[k]),
        decreases ids.len() - i,
    {
        let mut msgs: Vec<ServerMsg> = Vec::new();
        let mut k: usize = 0;
        while k < evs.len()
            invariant
                0 <= k <= evs.len(),
                msgs@.len() == k,
                forall|q: int| 0 <= q < k ==> (#[trigger] msgs@[q])@ == ServerMsgView::RadioEvent(
                    evs@[q],
                ),
            decreases evs.len() - k,
        {
            msgs.push(ServerMsg::RadioEvent(evs[k]));
            k = k + 1;
        }
        let ghost old_d = d@;
        d.push((ids[i], msgs));
        i = i + 1;
        assert forall|j: int| 0 <= j < d@.len() implies Seq::new(d@.len(), |q: int| d@[q].0)[j]
            == ids@.take(i as int)[j] by {
            if j < old_d.len() {
                assert(d@[j] == old_d[j]);
                assert(Seq::new(old_d.len(), |q: int| old_d[q].0)[j] == ids@.take(i - 1)[j]);
            }
            assert(d@[j].0 == ids@[j]);
        }
        assert(Seq::new(d@.len(), |j: int| d@[j].0) =~= ids@.take(i as int));
    }
    assert(ids@.take(ids@.len() as int) =~= ids@);
    d
}

/// One successful poll of the GPIO inputs that read `state` where `prev`
/// was known: the state to remember, and for each client subscribed to
/// GPIO events the messages of the change (none at all when the state did
/// not change).
pub fn on_gpio_read(prev: GpioState, state: GpioState, reg: &ClientRegistry) -> (r: (
    GpioState,
    Vec<(ClientId, Vec<ServerMsg>)>,
))
    ensures
        r.0 == state,
        state == prev ==> r.1@.len() == 0,
        state != prev ==> is_gpio_delivery(r.1@, reg@, spec_gpio_events(state, prev)),
{
    if state == prev {
        (state, Vec::new())
    } else {
        (state, emit_gpio_events(state, prev, reg))
    }
}

/// Toggles the heartbeat LED (GPIO4) for one message received from a
/// client, and returns the output report that drives it; the other pins
/// keep their levels.
pub fn heartbeat_on_message(gpio: &mut HidGpio) -> (report: [u8; 4])
    ensures
        crate::types::bit_set(final(gpio).spec_out(), HEARTBEAT_PIN) != crate::types::bit_set(
            old(gpio).spec_out(),
            HEARTBEAT_PIN,
        ),
        forall|n: u8|
            n < 8 && n != HEARTBEAT_PIN ==> crate::types::bit_set(final(gpio).spec_out(), n)
                == crate::types::bit_set(old(gpio).spec_out(), n),
        final(gpio).spec_out() == heartbeat_after(old(gpio).spec_out(), 1),
        final(gpio).spec_dir() == old(gpio).spec_dir(),
        report@ == seq![0u8, final(gpio).spec_out(), final(gpio).spec_dir(), 0u8],
{
    let on = gpio.pin_level(HEARTBEAT_PIN);
    let ghost out = gpio.spec_out();
    let report = gpio.set_pin(HEARTBEAT_PIN, !on);
    proof {
        assert(((out >> 3u8) & 1u8 == 1u8 ==> (out & !(1u8 << 3u8)) == out ^ 8u8) && (!((out
            >> 3u8) & 1u8 == 1u8) ==> (out | (1u8 << 3u8)) == out ^ 8u8)) by (bit_vector);
        assert(heartbeat_after(out, 1) == heartbeat_after(out, 0) ^ 8u8);
        assert forall|n: u8| n < 8 implies crate::types::bit_set(gpio.spec_out(), n) == if n
            == HEARTBEAT_PIN {
            !on
        } else {
            crate::types::bit_set(out, n)
        } by {
            crate::gpio::lemma_set_pin_changes_only_that_pin(out, HEARTBEAT_PIN, !on, n);
        }
    }
    report
}

/// The output register after `k` messages from clients, starting from
/// `out`: each message toggles the heartbeat pin.
pub open spec fn heartbeat_after(out: u8, k: nat) -> u8
    decreases k,
{
    if k == 0 {
        out
    } else {
        heartbeat_after(out, (k - 1) as nat) ^ 8u8
    }
}

/// Over `k` messages from clients the heartbeat LED toggles `k` times: it
/// is back where it started after an even number and inverted after an odd
/// one, and no other pin ever changes.
pub proof fn lemma_heartbeat_follows_messages(out: u8, k: nat)
    ensures
        heartbeat_after(out, k) == if k % 2 == 0 {
            out
        } else {
            out ^ 8u8
        },
        crate::types::bit_set(heartbeat_after(out, k), HEARTBEAT_PIN) == (crate::types::bit_set(
            out,
            HEARTBEAT_PIN,
        ) != (k % 2 == 1)),
        forall|n: u8|
            n < 8 && n != HEARTBEAT_PIN ==> #[trigger] crate::types::bit_set(
                heartbeat_after(out, k),
                n,
            ) == crate::types::bit_set(out, n),
    decreases k,
{
    if k > 0 {
        lemma_heartbeat_follows_messages(out, (k - 1) as nat);
        assert((out ^ 8u8) ^ 8u8 == out) by (bit_vector);
    }
    assert(((out ^ 8u8) >> 3u8) & 1u8 == 1u8 <==> !((out >> 3u8) & 1u8 == 1u8)) by (bit_vector);
    assert forall|n: u8| n < 8 && n != HEARTBEAT_PIN implies #[trigger] crate::types::bit_set(
        heartbeat_after(out, k),
        n,
    ) == crate::types::bit_set(out, n) by {
        assert(n < 8 && n != 3 ==> (((out ^ 8u8) >> n) & 1u8 == 1u8 <==> (out >> n) & 1u8 == 1u8))
            by (bit_vector);
    }
}

/// Turns the heartbeat LED off once no client is connected any more, and
/// returns the output report that drives it; with clients left, nothing
/// changes.
pub fn heartbeat_on_disconnect(gpio: &mut HidGpio, reg: &ClientRegistry) -> (report: Option<[u8; 4]>)
    ensures
        reg@.dom() =~= Set::<ClientId>::empty() ==> {
            &&& !crate::types::bit_set(final(gpio).spec_out(), HEARTBEAT_PIN)
            &&& forall|n: u8|
                n < 8 && n != HEARTBEAT_PIN ==> crate::types::bit_set(final(gpio).spec_out(), n)
                    == crate::types::bit_set(old(gpio).spec_out(), n)
            &&& final(gpio).spec_dir() == old(gpio).spec_dir()
            &&& report matches Some(r) && r@ == seq![0u8, final(gpio).spec_out(), final(gpio).spec_dir(), 0u8]
        },
        !(reg@.dom() =~= Set::<ClientId>::empty()) ==> {
            &&& report is None
            &&& final(gpio).spec_out() == old(gpio).spec_out()
            &&& final(gpio).spec_dir() == old(gpio).spec_dir()
        },
{
    if reg.is_empty() {
        let ghost out = gpio.spec_out();
        let r = gpio.set_pin(HEARTBEAT_PIN, false);
        proof {
            assert forall|n: u8| n < 8 implies crate::types::bit_set(gpio.spec_out(), n) == if n
                == HEARTBEAT_PIN {
                false
            } else {
                crate::types::bit_set(out, n)
            } by {
                crate::gpio::lemma_set_pin_changes_only_that_pin(out, HEARTBEAT_PIN, false, n);
            }
        }
        Some(r)
    } else {
        None
    }
}

/// What the daemon must still do for a client request after the registry
/// part is done.
pub enum ClientAction {
    /// Nothing more.
    Nothing,
    /// Drive a GPIO pin on the device.
    SetGpio { pin: u8, high: bool },
    /// Hand `msg` to client `to` (its channel, `ClientRegistry::sender_of`), and to no
    /// other client.
    Reply { to: ClientId, msg: ServerMsg },
}

/// Handles one request of client `id`: a subscription updates the
/// registry; a ping is answered with a pong and a statistics request with
/// the given figures, both for this client alone; a GPIO request is passed
/// back for the device.
pub fn dispatch_client_msg(
    registry: &mut ClientRegistry,
    id: ClientId,
    msg: ClientMsg,
    rx_xruns: u64,
    tx_xruns: u64,
    last_latency: LatencyStats,
) -> (action: ClientAction)
    ensures
        final(registry).spec_next_id() == old(registry).spec_next_id(),
        final(registry).spec_ids_fresh() == old(registry).spec_ids_fresh(),
        match msg {
            ClientMsg::Subscribe { streams } => {
                &&& action is Nothing
                &&& final(registry)@ == if old(registry)@.contains_key(id) {
                    old(registry)@.insert(
                        id,
                        ClientHandle { id, streams, sender: old(registry)@[id].sender },
                    )
                } else {
                    old(registry)@
                }
            },
            ClientMsg::SetGpio { pin, high } => {
                &&& action == (ClientAction::SetGpio { pin, high })
                &&& final(registry)@ == old(registry)@
            },
            ClientMsg::AudioWrite { .. } => {
                &&& action is Nothing
                &&& final(registry)@ == old(registry)@
            },
            ClientMsg::Ping => {
                &&& action matches ClientAction::Reply { to, msg: r } && to == id && r@
                    == ServerMsgView::Pong
                &&& final(registry)@ == old(registry)@
            },
            ClientMsg::GetStats => {
                &&& action matches ClientAction::Reply { to, msg: r } && to == id && r@ == (
                ServerMsgView::Stats {
                    rx_xruns,
                    tx_xruns,
                    dispatch_lat: last_latency,
                })
                &&& final(registry)@ == old(registry)@
            },
        },
{
    match msg {
        ClientMsg::Subscribe { streams } => {
            registry.update_streams(id, streams);
            ClientAction::Nothing
        },
        ClientMsg::SetGpio { pin, high } => ClientAction::SetGpio { pin, high },
        ClientMsg::AudioWrite { .. } => ClientAction::Nothing,
        ClientMsg::Ping => ClientAction::Reply { to: id, msg: ServerMsg::Pong },
        ClientMsg::GetStats => ClientAction::Reply {
            to: id,
            msg: ServerMsg::Stats { rx_xruns, tx_xruns, dispatch_lat: last_latency },
        },
    }
}

/// One dispatched frame that took `us`, from frame counter `t` and pending
/// latencies `p`: the new counter (wrapping at 2^64), the new pending
/// latencies, and the statistics to publish. Every time the counter reaches
/// a multiple of 5000 the statistics of the pending latencies, this one
/// included, are published and the pending latencies start over.
pub open spec fn dispatch_step(t: u64, p: Seq<u32>, us: u32) -> (u64, Seq<u32>, Option<
    LatencyStats,
>) {
    let t2 = t.wrapping_add(1);
    if t2 % STATS_INTERVAL_FRAMES == 0 {
        (t2, Seq::empty(), Some(crate::latency::spec_stats(p.push(us))))
    } else {
        (t2, p.push(us), None)
    }
}

/// The frames with latencies `xs` dispatched in order from counter `t`
/// and pending latencies `p`: the final counter and pending latencies, and
/// what each frame published.
pub open spec fn dispatch_run(t: u64, p: Seq<u32>, xs: Seq<u32>) -> (u64, Seq<u32>, Seq<
    Option<LatencyStats>,
>)
    decreases xs.len(),
{
    if xs.len() == 0 {
        (t, p, Seq::empty())
    } else {
        let (t1, p1, s1) = dispatch_run(t, p, xs.drop_last());
        let (t2, p2, o) = dispatch_step(t1, p1, xs.last());
        (t2, p2, s1.push(o))
    }
}

/// Starting at a multiple of 5000 with nothing pending, the next 5000
/// frames publish nothing until the last, which publishes the statistics
/// of exactly those 5000 latencies and leaves nothing pending (so the next
/// interval starts the same way). Fewer frames publish nothing and leave
/// all their latencies pending. The counter must not wrap meanwhile.
pub proof fn lemma_stats_cover_each_interval(t0: u64, xs: Seq<u32>)
    requires
        t0 % STATS_INTERVAL_FRAMES == 0,
        xs.len() <= STATS_INTERVAL_FRAMES,
        t0 + xs.len() <= u64::MAX,
    ensures
        ({
            let (t, p, out) = dispatch_run(t0, Seq::empty(), xs);
            &&& t == t0 + xs.len()
            &&& out.len() == xs.len()
            &&& forall|k: int| 0 <= k < xs.len() - 1 ==> out[k] is None
            &&& xs.len() < STATS_INTERVAL_FRAMES ==> p == xs && (xs.len() > 0 ==> out.last()
                is None)
            &&& xs.len() == STATS_INTERVAL_FRAMES ==> p == Seq::<u32>::empty() && out.last()
                == Some(crate::latency::spec_stats(xs))
        }),
    decreases xs.len(),
{
    if xs.len() > 0 {
        let ys = xs.drop_last();
        lemma_stats_cover_each_interval(t0, ys);
        let (t1, p1, s1) = dispatch_run(t0, Seq::empty(), ys);
        assert(p1.push(xs.last()) =~= xs);
        assert(t1 < u64::MAX);
        assert(t1.wrapping_add(1) == t1 + 1);
        let (t, p, out) = dispatch_run(t0, Seq::empty(), xs);
        assert(out == s1.push(dispatch_step(t1, p1, xs.last()).2));
        assert forall|k: int| 0 <= k < xs.len() - 1 implies out[k] is None by {
            assert(out[k] == s1[k]);
        }
    }
}

/// The dispatch thread's bookkeeping: a frame counter and the latency
/// histogram of the frames since the last published statistics.
pub struct DispatchState {
    ticker: u64,
    histogram: LatencyHistogram,
}

impl DispatchState {
    #[verifier::type_invariant]
    spec fn inv(self) -> bool {
        self.histogram@.len() == self.ticker % STATS_INTERVAL_FRAMES
    }

    /// The number of frames dispatched, wrapping at 2^64.
    pub closed spec fn spec_ticker(&self) -> u64 {
        self.ticker
    }

    /// The dispatch latencies recorded since the statistics were last published.
    pub closed spec fn spec_pending(&self) -> Seq<u32> {
        self.histogram@
    }

    /// No frame dispatched yet.
    pub fn new() -> (d: Self)
        ensures
            d.spec_ticker() == 0,
            d.spec_pending() == Seq::<u32>::empty(),
    {
        DispatchState { ticker: 0, histogram: LatencyHistogram::new() }
    }

    /// Accounts for one dispatched frame that took `dispatch_us`. Every
    /// 5000th frame the statistics of the frames since the last snapshot are
    /// returned for publication, and the histogram starts over.
    pub fn on_frame(&mut self, dispatch_us: u32) -> (snapshot: Option<LatencyStats>)
        ensures
            (final(self).spec_ticker(), final(self).spec_pending(), snapshot) == dispatch_step(
                old(self).spec_ticker(),
                old(self).spec_pending(),
                dispatch_us,
            ),
    {
        proof {
            use_type_invariant(&*self);
        }
        let mut current = DispatchState::new();
        std::mem::swap(&mut current, self);
        proof {
            use_type_invariant(&current);
        }
        let DispatchState { ticker, mut histogram } = current;
        histogram.record(dispatch_us);
        let ticker = ticker.wrapping_add(1);
        let snapshot = if ticker % STATS_INTERVAL_FRAMES == 0 {
            let snap = histogram.to_stats();
            histogram.reset();
            Some(snap)
        } else {
            None
        };
        *self = DispatchState { ticker, histogram };
        snapshot
    }
}

} // verus!
