//! The dispatcher's table of connected clients, and what it does with each
//! event a worker sends.
use vstd::prelude::*;
use crate::socket::message::Message;
use std::collections::HashMap;
use std::collections::hash_map::Entry;
use vstd::std_specs::hash::spec_keys_iter;
use vstd::std_specs::iter::IteratorSpec;

verus! {

/// Law: a client that connects under a fresh id and then disconnects hands
/// back the stream it connected with and leaves the table as it found it.
pub proof fn law_connect_then_disconnect<S>(table: Map<u128, S>, id: u128, stream: S)
    requires
        !table.contains_key(id),
    ensures
        receive_result(table, Message::CONNECT(stream, id)).1 == Dispatch::<S>::Connected(id),
        receive_result(receive_result(table, Message::CONNECT(stream, id)).0, Message::DISCONNECT(id))
            == (table, Dispatch::<S>::Disconnected(id, stream)),
{
    assert(table.insert(id, stream).remove(id) =~= table);
}

/// The connected clients: the stream of each, by its id.
pub struct ConnectionRegistry<S> {
    streams: HashMap<u128, S>,
}

/// What the dispatcher has to do after taking in an event.
#[derive(Debug)]
pub enum Dispatch<S> {
    /// A client connected: run the connect callback on its stream.
    Connected(u128),
    /// A registered client sent a message: run the message callback on its stream.
    Delivered(u128, Vec<u8>),
    /// A registered client left; its stream, now out of the table, goes to the
    /// disconnect callback.
    Disconnected(u128, S),
    /// Write these bytes to every registered client.
    Broadcast(Vec<u8>),
    /// The event names a client that is not registered.
    UnknownConnection(u128),
}

/// The table and the dispatch after one event, for a table `table` of streams
/// by client id.
pub open spec fn receive_result<S>(table: Map<u128, S>, msg: Message<S>) -> (
    Map<u128, S>,
    Dispatch<S>,
) {
    match msg {
        Message::CONNECT(stream, id) => (table.insert(id, stream), Dispatch::Connected(id)),
        Message::MESSAGE(id, bytes) => if table.contains_key(id) {
            (table, Dispatch::Delivered(id, bytes))
        } else {
            (table, Dispatch::UnknownConnection(id))
        },
        Message::DISCONNECT(id) => if table.contains_key(id) {
            (table.remove(id), Dispatch::Disconnected(id, table[id]))
        } else {
            (table, Dispatch::UnknownConnection(id))
        },
        Message::BROADCAST(bytes) => (table, Dispatch::Broadcast(bytes)),
    }
}

/// The table after taking in `events` in turn, starting from `table`.
pub open spec fn table_after<S>(table: Map<u128, S>, events: Seq<Message<S>>) -> Map<u128, S>
    decreases events.len(),
{
    if events.len() == 0 {
        table
    } else {
        receive_result(table_after(table, events.drop_last()), events.last()).0
    }
}

/// The dispatch for the event at position `k` of `events`, taken in turn
/// starting from `table`.
pub open spec fn dispatch_at<S>(table: Map<u128, S>, events: Seq<Message<S>>, k: int) -> Dispatch<
    S,
> {
    receive_result(table_after(table, events.take(k)), events[k]).1
}

/// The event registers a connection under `id`.
pub open spec fn connects<S>(msg: Message<S>, id: u128) -> bool {
    msg matches Message::CONNECT(_, x) && x == id
}

/// The dispatch runs a callback on the stream of the registered client `id`
/// after it connected: its message callback or its disconnect callback.
pub open spec fn reaches_client<S>(d: Dispatch<S>, id: u128) -> bool {
    ||| d matches Dispatch::Delivered(x, _) && x == id
    ||| d matches Dispatch::Disconnected(x, _) && x == id
}

/// The event announces that client `id` is gone.
pub open spec fn departs<S>(msg: Message<S>, id: u128) -> bool {
    msg matches Message::DISCONNECT(x) && x == id
}

/// A registered id keeps its stream over events that neither connect nor
/// remove it.
proof fn lemma_stays_registered<S>(
    table: Map<u128, S>,
    events: Seq<Message<S>>,
    id: u128,
    stream: S,
    a: int,
    b: int,
)
    requires
        0 <= a <= b <= events.len(),
        table_after(table, events.take(a)).contains_key(id),
        table_after(table, events.take(a))[id] == stream,
        forall|m: int| a <= m < b ==> !connects(#[trigger] events[m], id) && !departs(events[m], id),
    ensures
        table_after(table, events.take(b)).contains_key(id),
        table_after(table, events.take(b))[id] == stream,
    decreases b - a,
{
    if a < b {
        let prefix = events.take(a + 1);
        assert(prefix.drop_last() =~= events.take(a));
        assert(prefix.last() == events[a]);
        assert(!connects(events[a], id) && !departs(events[a], id));
        lemma_stays_registered(table, events, id, stream, a + 1, b);
    }
}

/// The bytes of the event if it carries a message read from client `id`.
pub open spec fn message_from<S>(msg: Message<S>, id: u128) -> Option<Vec<u8>> {
    match msg {
        Message::MESSAGE(x, bytes) => if x == id {
            Some(bytes)
        } else {
            None
        },
        _ => None,
    }
}

/// The bytes the dispatch hands to the message callback of client `id`, if any.
pub open spec fn delivered_to<S>(d: Dispatch<S>, id: u128) -> Option<Vec<u8>> {
    match d {
        Dispatch::Delivered(x, bytes) => if x == id {
            Some(bytes)
        } else {
            None
        },
        _ => None,
    }
}

/// The stream the dispatch hands to the disconnect callback of client `id`, if any.
pub open spec fn departed_stream<S>(d: Dispatch<S>, id: u128) -> Option<S> {
    match d {
        Dispatch::Disconnected(x, stream) => if x == id {
            Some(stream)
        } else {
            None
        },
        _ => None,
    }
}

/// Law: from the event that connects client `id` on `stream` until the next
/// event that connects or removes the same id, each message read from that
/// client is handed to its message callback exactly once, with the bytes read,
/// at the event's own place in the order, and nothing else is handed to it; its
/// disconnect callback does not run; the departure that ends the connection
/// runs the disconnect callback on the stream it connected with.
pub proof fn law_messages_delivered_in_order<S>(
    table: Map<u128, S>,
    events: Seq<Message<S>>,
    id: u128,
    stream: S,
    c: int,
    j: int,
)
    requires
        0 <= c < j <= events.len(),
        events[c] == Message::CONNECT(stream, id),
        forall|m: int| c < m < j ==> !connects(#[trigger] events[m], id) && !departs(events[m], id),
    ensures
        table_after(table, events.take(j)).contains_key(id),
        table_after(table, events.take(j))[id] == stream,
        forall|i: int|
            c < i < j ==> delivered_to(#[trigger] dispatch_at(table, events, i), id) == message_from(
                events[i],
                id,
            ),
        forall|i: int| c < i < j ==> departed_stream(#[trigger] dispatch_at(table, events, i), id) is None,
        j < events.len() && departs(events[j], id) ==> departed_stream(dispatch_at(table, events, j), id)
            == Some(stream),
{
    assert(events.take(c + 1).drop_last() =~= events.take(c));
    assert(events.take(c + 1).last() == events[c]);
    assert forall|i: int| c < i <= j implies table_after(table, events.take(i)).contains_key(id)
        && table_after(table, events.take(i))[id] == stream by {
        lemma_stays_registered(table, events, id, stream, c + 1, i);
    }
    assert forall|i: int| c < i < j implies delivered_to(
        #[trigger] dispatch_at(table, events, i),
        id,
    ) == message_from(events[i], id) && departed_stream(dispatch_at(table, events, i), id) is None by {
        assert(table_after(table, events.take(i)).contains_key(id));
        assert(!departs(events[i], id));
    }
}

/// Law: a connection's life, from the event that connects client `id` until
/// the first later departure of `id` and on until it connects again, runs the
/// disconnect callback for `id` exactly once: at that departure.
pub proof fn law_one_disconnect_per_connection<S>(
    table: Map<u128, S>,
    events: Seq<Message<S>>,
    id: u128,
    stream: S,
    c: int,
    j: int,
    l: int,
)
    requires
        0 <= c < j < l <= events.len(),
        events[c] == Message::CONNECT(stream, id),
        forall|m: int| c < m < j ==> !connects(#[trigger] events[m], id) && !departs(events[m], id),
        departs(events[j], id),
        forall|m: int| j < m < l ==> !connects(#[trigger] events[m], id),
    ensures
        forall|i: int|
            c < i < l ==> (departed_stream(#[trigger] dispatch_at(table, events, i), id) is Some
                <==> i == j),
        departed_stream(dispatch_at(table, events, j), id) == Some(stream),
{
    law_messages_delivered_in_order(table, events, id, stream, c, j);
    assert forall|i: int| j < i < l implies departed_stream(
        #[trigger] dispatch_at(table, events, i),
        id,
    ) is None by {
        law_no_event_after_disconnect(table, events, id, j, i);
    }
}

/// An id that is not registered stays unregistered over events that do not
/// connect it.
proof fn lemma_stays_unregistered<S>(table: Map<u128, S>, events: Seq<Message<S>>, id: u128, a: int, b: int)
    requires
        0 <= a <= b <= events.len(),
        !table_after(table, events.take(a)).contains_key(id),
        forall|m: int| a <= m < b ==> !connects(#[trigger] events[m], id),
    ensures
        !table_after(table, events.take(b)).contains_key(id),
    decreases b - a,
{
    if a < b {
        let prefix = events.take(a + 1);
        assert(prefix.drop_last() =~= events.take(a));
        assert(prefix.last() == events[a]);
        assert(!connects(events[a], id));
        lemma_stays_unregistered(table, events, id, a + 1, b);
    }
}

/// Law: after a client's departure has been dispatched, no later event reaches
/// that client (neither its message callback nor its disconnect callback runs
/// again) until it connects again.
pub proof fn law_no_event_after_disconnect<S>(
    table: Map<u128, S>,
    events: Seq<Message<S>>,
    id: u128,
    i: int,
    j: int,
)
    requires
        0 <= i < j < events.len(),
        dispatch_at(table, events, i) matches Dispatch::Disconnected(x, _) && x == id,
        forall|m: int| i < m < j ==> !connects(#[trigger] events[m], id),
    ensures
        !table_after(table, events.take(j)).contains_key(id),
        !reaches_client(dispatch_at(table, events, j), id),
{
    let before = table_after(table, events.take(i));
    assert(events.take(i + 1).drop_last() =~= events.take(i));
    assert(events.take(i + 1).last() == events[i]);
    assert(events[i] matches Message::DISCONNECT(x) && x == id);
    assert(!table_after(table, events.take(i + 1)).contains_key(id));
    lemma_stays_unregistered(table, events, id, i + 1, j);
}

/// Law: from a table where `id` is not registered, an event reaches client
/// `id` only after an earlier event connected it: its connect callback runs
/// before any message or disconnect callback for it.
pub proof fn law_connect_comes_first<S>(table: Map<u128, S>, events: Seq<Message<S>>, id: u128, j: int)
    requires
        0 <= j < events.len(),
        !table.contains_key(id),
        reaches_client(dispatch_at(table, events, j), id),
    ensures
        exists|i: int| 0 <= i < j && #[trigger] connects(events[i], id),
{
    assert(events.take(0) =~= Seq::<Message<S>>::empty());
    if forall|m: int| 0 <= m < j ==> !connects(#[trigger] events[m], id) {
        lemma_stays_unregistered(table, events, id, 0, j);
    }
}

impl<S> ConnectionRegistry<S> {
    /// The streams by client id.
    pub closed spec fn view(self) -> Map<u128, S> {
        self.streams@
    }

    /// An empty table.
    pub fn new() -> (r: Self)
        ensures
            r.view() == Map::<u128, S>::empty(),
    {
        ConnectionRegistry { streams: HashMap::new() }
    }

    /// The number of registered clients.
    pub fn len(&self) -> (n: usize)
        ensures
            n == self.view().len(),
    {
        broadcast use vstd::std_specs::hash::group_hash_axioms;

        self.streams.len()
    }

    /// Whether `id` is registered.
    pub fn contains(&self, id: u128) -> (b: bool)
        ensures
            b == self.view().contains_key(id),
    {
        broadcast use vstd::std_specs::hash::group_hash_axioms;

        self.streams.contains_key(&id)
    }

    /// The registered ids, each once, in the order the table walks them.
    pub fn ids(&self) -> (v: Vec<u128>)
        ensures
            v@.no_duplicates(),
            v@.to_set() == self.view().dom(),
    {
        broadcast use vstd::std_specs::hash::group_hash_axioms;

        let ghost all: Seq<u128> = spec_keys_iter(&self.streams).remaining().unref();
        let mut v: Vec<u128> = Vec::new();
        for k in it: self.streams.keys()
            invariant
                it.seq().unref() == all,
                v@ == all.take(it.index()),
        {
            v.push(*k);
            proof {
                assert(all.take(it.index() + 1) =~= all.take(it.index()).push(*k));
            }
        }
        proof {
            let keys = spec_keys_iter(&self.streams).remaining();
            assert(v@ =~= all);
            assert forall|a: int, b: int| 0 <= a < all.len() && 0 <= b < all.len() && a != b implies all[a]
                != all[b] by {
                assert(keys[a] != keys[b]);
            }
        }
        v
    }

    /// Registers `stream` under `id`; a stream already registered under `id`
    /// is replaced (and dropped).
    pub fn insert(&mut self, id: u128, stream: S)
        ensures
            final(self).view() == old(self).view().insert(id, stream),
    {
        broadcast use vstd::std_specs::hash::group_hash_axioms;

        let _ = self.streams.insert(id, stream);
    }

    /// Takes the stream registered under `id` out of the table.
    pub fn remove(&mut self, id: u128) -> (r: Option<S>)
        ensures
            final(self).view() == old(self).view().remove(id),
            r matches Some(s) ==> old(self).view().contains_key(id) && s == old(self).view()[id],
            r is None ==> !old(self).view().contains_key(id),
    {
        broadcast use vstd::std_specs::hash::group_hash_axioms;

        self.streams.remove(&id)
    }

    /// The stream registered under `id`, to act on in place.
    pub fn stream_mut(&mut self, id: u128) -> (r: Option<&mut S>)
        ensures
            r matches Some(s) ==> {
                &&& old(self).view().contains_key(id)
                &&& *s == old(self).view()[id]
                &&& final(self).view() == old(self).view().insert(id, *final(s))
            },
            r is None ==> !old(self).view().contains_key(id) && final(self).view() == old(
                self,
            ).view(),
    {
        broadcast use vstd::std_specs::hash::group_hash_axioms;

        match self.streams.entry(id) {
            Entry::Occupied(o) => Some(o.into_mut()),
            Entry::Vacant(_) => {
                assert(old(self).view().remove(id) =~= old(self).view());
                None
            },
        }
    }

    /// Takes in an event and updates the table: a connection is registered, a
    /// departure removes the client (handing its stream back), and a message or
    /// departure for an unknown client is reported as such.
    pub fn receive(&mut self, msg: Message<S>) -> (d: Dispatch<S>)
        ensures
            (final(self).view(), d) == receive_result(old(self).view(), msg),
            match msg {
                Message::CONNECT(stream, id) => d == Dispatch::<S>::Connected(id)
                    && final(self).view() == old(self).view().insert(id, stream),
                Message::MESSAGE(id, bytes) => *final(self) == *old(self) && if old(
                    self,
                ).view().contains_key(id) {
                    d == Dispatch::<S>::Delivered(id, bytes)
                } else {
                    d == Dispatch::<S>::UnknownConnection(id)
                },
                Message::DISCONNECT(id) => if old(self).view().contains_key(id) {
                    d == Dispatch::<S>::Disconnected(id, old(self).view()[id])
                        && final(self).view() == old(self).view().remove(id)
                } else {
                    d == Dispatch::<S>::UnknownConnection(id) && *final(self) == *old(self)
                },
                Message::BROADCAST(bytes) => d == Dispatch::<S>::Broadcast(bytes) && *final(self)
                    == *old(self),
            },
    {
        match msg {
            Message::CONNECT(stream, id) => {
                self.insert(id, stream);
                Dispatch::Connected(id)
            },
            Message::MESSAGE(id, bytes) => {
                if self.contains(id) {
                    Dispatch::Delivered(id, bytes)
                } else {
                    Dispatch::UnknownConnection(id)
                }
            },
            Message::DISCONNECT(id) => {
                if self.contains(id) {
                    match self.remove(id) {
                        Some(stream) => Dispatch::Disconnected(id, stream),
                        None => Dispatch::UnknownConnection(id),
                    }
                } else {
                    Dispatch::UnknownConnection(id)
                }
            },
            Message::BROADCAST(bytes) => Dispatch::Broadcast(bytes),
        }
    }
}

} // verus!
