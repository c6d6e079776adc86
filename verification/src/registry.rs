//! The daemon's registry of connected clients: which streams each client
//! subscribed to, and where its outbound messages go.

use std::collections::HashMap;
use std::sync::mpsc::SyncSender;

use vstd::prelude::*;

use crate::types::{LatencyStats, RadioEvent, ServerMsg, ServerMsgView, StreamFlags};

verus! {

broadcast use {vstd::std_specs::hash::group_hash_axioms, vstd::seq_lib::group_seq_properties};

/// The sending half of a bounded channel of the standard library.
#[verifier::external_type_specification]
#[verifier::external_body]
#[verifier::reject_recursive_types(T)]
pub struct ExSyncSender<T>(SyncSender<T>);

pub type ClientId = u64;

/// One connected client.
pub struct ClientHandle {
    pub id: ClientId,
    pub streams: StreamFlags,
    /// Sends outbound messages to this client's writer thread.
    pub sender: SyncSender<ServerMsg>,
}

/// The connected clients, by id, and the next id to hand out.
pub struct ClientRegistry {
    clients: HashMap<ClientId, ClientHandle>,
    next_id: u64,
    /// Whether every registered id is below `next_id`, so that the ids
    /// handed out from now on are held by no registered client.
    fresh: Ghost<bool>,
}

impl ClientRegistry {
    #[verifier::type_invariant]
    spec fn inv(self) -> bool {
        &&& forall|id: ClientId| #[trigger]
            self.clients@.contains_key(id) ==> self.clients@[id].id == id
        &&& self.fresh@ ==> forall|id: ClientId| #[trigger]
            self.clients@.contains_key(id) ==> id < self.next_id
    }

    /// The id that `allocate_id` hands out next.
    pub closed spec fn spec_next_id(&self) -> u64 {
        self.next_id
    }

    /// Whether every registered id is below the next id to hand out: true
    /// from `new` on, until the id counter wraps or a client is registered
    /// under an id that was not handed out yet.
    pub closed spec fn spec_ids_fresh(&self) -> bool {
        self.fresh@
    }
}

impl View for ClientRegistry {
    /// The registered clients by id: their streams and their channels.
    type V = Map<ClientId, ClientHandle>;

    closed spec fn view(&self) -> Map<ClientId, ClientHandle> {
        self.clients@
    }
}

impl ClientRegistry {
    /// An empty registry whose first id is 1.
    pub fn new() -> (r: Self)
        ensures
            r@ == Map::<ClientId, ClientHandle>::empty(),
            r.spec_next_id() == 1,
            r.spec_ids_fresh(),
    {
        let r = ClientRegistry { clients: HashMap::new(), next_id: 1, fresh: Ghost(true) };
        assert(r@ =~= Map::<ClientId, ClientHandle>::empty());
        r
    }

    /// Hands out the next client id; while the ids are fresh it is held by
    /// no registered client.
    pub fn allocate_id(&mut self) -> (id: ClientId)
        ensures
            id == old(self).spec_next_id(),
            old(self).spec_ids_fresh() ==> !old(self)@.contains_key(id),
            final(self).spec_next_id() == old(self).spec_next_id().wrapping_add(1),
            final(self).spec_ids_fresh() == (old(self).spec_ids_fresh() && old(
                self,
            ).spec_next_id() < u64::MAX),
            final(self)@ == old(self)@,
    {
        proof {
            use_type_invariant(&*self);
        }
        let id = self.next_id;
        let ghost fresh = self.fresh@ && self.next_id < u64::MAX;
        let next_id = self.next_id.wrapping_add(1);
        let mut clients = HashMap::new();
        std::mem::swap(&mut clients, &mut self.clients);
        *self = ClientRegistry { clients, next_id, fresh: Ghost(fresh) };
        id
    }

    /// Adds a client, replacing any client registered under the same id.
    pub fn register(&mut self, handle: ClientHandle)
        ensures
            final(self)@ == old(self)@.insert(handle.id, handle),
            final(self).spec_next_id() == old(self).spec_next_id(),
            final(self).spec_ids_fresh() == (old(self).spec_ids_fresh() && handle.id < old(
                self,
            ).spec_next_id()),
    {
        proof {
            use_type_invariant(&*self);
        }
        let ghost old_view = self@;
        let ghost h = handle;
        let ghost fresh = self.fresh@ && handle.id < self.next_id;
        let mut clients = HashMap::new();
        std::mem::swap(&mut clients, &mut self.clients);
        clients.insert(handle.id, handle);
        *self = ClientRegistry { clients, next_id: self.next_id, fresh: Ghost(fresh) };
        assert(self@ =~= old_view.insert(h.id, h));
    }

    /// Removes a client.
    pub fn unregister(&mut self, id: ClientId)
        ensures
            final(self)@ == old(self)@.remove(id),
            final(self).spec_next_id() == old(self).spec_next_id(),
            final(self).spec_ids_fresh() == old(self).spec_ids_fresh(),
    {
        proof {
            use_type_invariant(&*self);
        }
        let ghost old_view = self@;
        let mut clients = HashMap::new();
        std::mem::swap(&mut clients, &mut self.clients);
        clients.remove(&id);
        self.clients = clients;
        assert(self@ =~= old_view.remove(id));
    }

    /// Whether no client is registered.
    pub fn is_empty(&self) -> (b: bool)
        ensures
            b == (self@.dom() =~= Set::<ClientId>::empty()),
    {
        let b = self.clients.is_empty();
        proof {
            if !b {
                let id = self@.dom().choose();
                assert(self@.dom().contains(id));
            }
        }
        b
    }
}

impl ClientRegistry {
    /// Replaces the streams of a registered client, keeping its id and its
    /// channel; does nothing for an unknown id.
    pub fn update_streams(&mut self, id: ClientId, streams: StreamFlags)
        ensures
            final(self)@ == if old(self)@.contains_key(id) {
                old(self)@.insert(
                    id,
                    ClientHandle { id, streams, sender: old(self)@[id].sender },
                )
            } else {
                old(self)@
            },
            final(self).spec_next_id() == old(self).spec_next_id(),
            final(self).spec_ids_fresh() == old(self).spec_ids_fresh(),
    {
        proof {
            use_type_invariant(&*self);
        }
        let ghost old_view = self@;
        let mut clients = HashMap::new();
        std::mem::swap(&mut clients, &mut self.clients);
        match clients.remove(&id) {
            Some(h) => {
                let h = ClientHandle { id: h.id, streams, sender: h.sender };
                clients.insert(id, h);
            },
            None => {},
        }
        self.clients = clients;
        proof {
            if old_view.contains_key(id) {
                assert(self@ =~= old_view.insert(
                    id,
                    ClientHandle { id, streams, sender: old_view[id].sender },
                ));
            } else {
                assert(self@ =~= old_view);
            }
        }
    }

    /// The ids of the clients whose subscription includes every stream of
    /// `flag`, each once, in no particular order.
    pub fn subscribers(&self, flag: StreamFlags) -> (ids: Vec<ClientId>)
        ensures
            ids@.no_duplicates(),
            forall|id: ClientId|
                #![trigger ids@.contains(id)]
                ids@.contains(id) <==> (self@.contains_key(id) && self@[id].streams.spec_contains(flag)),
    {
        proof {
            use_type_invariant(self);
        }
        let mut ids: Vec<ClientId> = Vec::new();
        let ghost m = self.clients@;
        let ghost all = vstd::std_specs::iter::IteratorSpec::remaining(&vstd::std_specs::hash::spec_hash_map_iter(&self.clients));
        for item in it: self.clients.iter()
            invariant
                m == self.clients@,
                it.seq() == all,
                it.seq().no_duplicates(),
                it.seq().len() == m.dom().len(),
                forall|j: int|
                    #![trigger it.seq()[j]]
                    0 <= j < it.seq().len() ==> m.contains_key(*it.seq()[j].0) && m[*it.seq()[j].0]
                        == *it.seq()[j].1,
                forall|k: ClientId| #[trigger] m.contains_key(k) ==> it.seq().contains((&k, &m[k])),
                ids@.no_duplicates(),
                forall|id: ClientId|
                    #![trigger ids@.contains(id)]
                    ids@.contains(id) <==> exists|j: int|
                        0 <= j < it.index() && *it.seq()[j].0 == id && (*it.seq()[j].1).streams.spec_contains(flag),
        {
            let (id, h) = item;
            let ghost k = it.index();
            let ghost old_ids = ids@;
            proof {
                assert(it.seq()[k] == (id, h));
            }
            if h.streams.contains(flag) {
                proof {
                    if ids@.contains(*id) {
                        let j2 = choose|j2: int|
                            0 <= j2 < k && *it.seq()[j2].0 == *id && (
                            *it.seq()[j2].1).streams.spec_contains(flag);
                        assert(*it.seq()[j2].0 == *it.seq()[k].0);
                        assert(m[*id] == *it.seq()[j2].1);
                        assert(m[*id] == *it.seq()[k].1);
                        assert(it.seq()[j2] == it.seq()[k]);
                    }
                }
                ids.push(*id);
            }
            proof {
                assert forall|x: ClientId| #![trigger ids@.contains(x)]
                    ids@.contains(x) <==> exists|j: int|
                        0 <= j < k + 1 && *it.seq()[j].0 == x && (*it.seq()[j].1).streams.spec_contains(flag) by {
                    if ids@.contains(x) {
                        if old_ids.contains(x) {
                            let j = choose|j: int| 0 <= j < k && *it.seq()[j].0 == x && (*it.seq()[j].1).streams.spec_contains(flag);
                            assert(0 <= j < k + 1 && *it.seq()[j].0 == x && (*it.seq()[j].1).streams.spec_contains(flag));
                        } else {
                            assert(x == *id);
                            assert(h.streams.spec_contains(flag));
                            assert(0 <= k < k + 1 && *it.seq()[k].0 == x && (*it.seq()[k].1).streams.spec_contains(flag));
                        }
                    }
                    if exists|j: int| 0 <= j < k + 1 && *it.seq()[j].0 == x && (*it.seq()[j].1).streams.spec_contains(flag) {
                        let j = choose|j: int| 0 <= j < k + 1 && *it.seq()[j].0 == x && (*it.seq()[j].1).streams.spec_contains(flag);
                        if j < k {
                            assert(0 <= j < k && *it.seq()[j].0 == x && (*it.seq()[j].1).streams.spec_contains(flag));
                            assert(old_ids.contains(x));
                        } else {
                            assert(h.streams.spec_contains(flag));
                            assert(ids@.last() == x);
                        }
                    }
                }
            }
        }
        proof {
            assert forall|id: ClientId|
                #![trigger ids@.contains(id)]
                ids@.contains(id) <==> (self@.contains_key(id) && self@[id].streams.spec_contains(flag)) by {
                if self@.contains_key(id) && self@[id].streams.spec_contains(flag) {
                    let j = choose|j: int| 0 <= j < all.len() && all[j] == (&id, &m[id]);
                    assert(*all[j].0 == id);
                }
            }
        }
        ids
    }
}

/// The ids of exactly the clients of `m` whose streams include every
/// stream of `flag`, each once.
pub open spec fn is_subscriber_list(
    ids: Seq<ClientId>,
    m: Map<ClientId, ClientHandle>,
    flag: StreamFlags,
) -> bool {
    &&& ids.no_duplicates()
    &&& forall|id: ClientId|
        #![trigger ids.contains(id)]
        ids.contains(id) <==> (m.contains_key(id) && m[id].streams.spec_contains(flag))
}

/// The recipients of a list of deliveries, in order.
pub open spec fn recipients(d: Seq<(ClientId, ServerMsg)>) -> Seq<ClientId> {
    Seq::new(d.len(), |i: int| d[i].0)
}

/// `d` hands `msg` to each client of `m` subscribed to `flag`, once, and
/// to no other client.
pub open spec fn is_delivery_list(
    d: Seq<(ClientId, ServerMsg)>,
    m: Map<ClientId, ClientHandle>,
    flag: StreamFlags,
    msg: ServerMsgView,
) -> bool {
    &&& is_subscriber_list(recipients(d), m, flag)
    &&& forall|i: int| 0 <= i < d.len() ==> (#[trigger] d[i]).1@ == msg
}

impl ClientRegistry {
    /// The channel of client `id`, if that client is registered: where the
    /// daemon hands the messages meant for it.
    pub fn sender_of(&self, id: ClientId) -> (s: Option<&SyncSender<ServerMsg>>)
        ensures
            s is Some <==> self@.contains_key(id),
            s matches Some(c) ==> *c == self@[id].sender,
    {
        match self.clients.get(&id) {
            Some(h) => Some(&h.sender),
            None => None,
        }
    }

    /// One delivery of a copy of `msg` to each subscriber of `flag`.
    fn deliveries_of(&self, flag: StreamFlags, msg: &ServerMsg) -> (d: Vec<(ClientId, ServerMsg)>)
        ensures
            is_delivery_list(d@, self@, flag, msg@),
    {
        let ids = self.subscribers(flag);
        let mut d: Vec<(ClientId, ServerMsg)> = Vec::new();
        let mut i: usize = 0;
        while i < ids.len()
            invariant
                0 <= i <= ids.len(),
                d@.len() == i,
                recipients(d@) == ids@.take(i as int),
                forall|k: int| 0 <= k < d@.len() ==> (#[trigger] d@[k]).1@ == msg@,
            decreases ids.len() - i,
        {
            let copy = match msg {
                ServerMsg::AudioReady { seq } => ServerMsg::AudioReady { seq: *seq },
                ServerMsg::RadioEvent(ev) => ServerMsg::RadioEvent(*ev),
                ServerMsg::Stats { rx_xruns, tx_xruns, dispatch_lat } => ServerMsg::Stats {
                    rx_xruns: *rx_xruns,
                    tx_xruns: *tx_xruns,
                    dispatch_lat: *dispatch_lat,
                },
                ServerMsg::Pong => ServerMsg::Pong,
                ServerMsg::Error(text) => ServerMsg::Error(text.clone()),
            };
            let ghost old_d = d@;
            d.push((ids[i], copy));
            i = i + 1;
            assert forall|j: int| 0 <= j < d@.len() implies recipients(d@)[j] == ids@.take(
                i as int,
            )[j] by {
                if j < old_d.len() {
                    assert(d@[j] == old_d[j]);
                    assert(recipients(old_d)[j] == ids@.take(i - 1)[j]);
                    assert(d@[j].0 == ids@[j]);
                } else {
                    assert(d@[j].0 == ids@[j]);
                }
            }
            assert(recipients(d@) =~= ids@.take(i as int));
        }
        assert(ids@.take(ids@.len() as int) =~= ids@);
        d
    }

    /// The radio event for every client subscribed to `GPIO_EVENTS`: one
    /// delivery each, for the caller to hand to the channel that
    /// `sender_of` finds.
    pub fn broadcast_radio_event(&self, event: RadioEvent) -> (d: Vec<(ClientId, ServerMsg)>)
        ensures
            is_delivery_list(d@, self@, StreamFlags(0b0100), ServerMsgView::RadioEvent(event)),
    {
        self.deliveries_of(StreamFlags::GPIO_EVENTS(), &ServerMsg::RadioEvent(event))
    }

    /// The notification that a new frame is available at `seq`, for every
    /// client subscribed to `AUDIO_IN`: one delivery each.
    pub fn notify_audio_ready(&self, seq: u64) -> (d: Vec<(ClientId, ServerMsg)>)
        ensures
            is_delivery_list(d@, self@, StreamFlags(0b0001), ServerMsgView::AudioReady { seq }),
    {
        self.deliveries_of(StreamFlags::AUDIO_IN(), &ServerMsg::AudioReady { seq })
    }

    /// The statistics for every registered client: one delivery each.
    pub fn broadcast_stats(&self, rx_xruns: u64, tx_xruns: u64, dispatch_lat: LatencyStats) -> (d:
        Vec<(ClientId, ServerMsg)>)
        ensures
            is_delivery_list(
                d@,
                self@,
                StreamFlags(0),
                ServerMsgView::Stats { rx_xruns, tx_xruns, dispatch_lat },
            ),
            forall|id: ClientId| self@.contains_key(id) ==> recipients(d@).contains(id),
    {
        let d = self.deliveries_of(
            StreamFlags::empty(),
            &ServerMsg::Stats { rx_xruns, tx_xruns, dispatch_lat },
        );
        proof {
            assert forall|id: ClientId| self@.contains_key(id) implies recipients(d@).contains(
                id,
            ) by {
                crate::types::lemma_empty_flags_reach_everyone(self@[id].streams);
            }
        }
        d
    }
}

/// A client that has been unregistered is handed nothing more: no list of
/// deliveries for the registry without it names it (and `sender_of` finds
/// no channel for it).
pub proof fn lemma_removed_client_gets_nothing(
    m: Map<ClientId, ClientHandle>,
    id: ClientId,
    d: Seq<(ClientId, ServerMsg)>,
    flag: StreamFlags,
    msg: ServerMsgView,
)
    requires
        is_delivery_list(d, m.remove(id), flag, msg),
    ensures
        !recipients(d).contains(id),
{
}

/// A client that took a fresh id and leaves again gives back the registry
/// as it was: registering under an id that no client holds, changing only
/// that client's streams, then unregistering it, restores the map.
pub proof fn lemma_session_restores_registry(
    m: Map<ClientId, ClientHandle>,
    h: ClientHandle,
    later: Map<ClientId, ClientHandle>,
)
    requires
        !m.contains_key(h.id),
        later.dom() == m.insert(h.id, h).dom(),
        forall|id: ClientId| #[trigger] m.contains_key(id) ==> later[id] == m[id],
    ensures
        later.remove(h.id) == m,
{
    assert(later.remove(h.id) =~= m);
}

} // verus!
