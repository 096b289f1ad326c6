use crate::assoc::{
    assoc_map, distinct_keys, lemma_assoc_dom, lemma_assoc_last, lemma_assoc_len, lemma_assoc_push,
    lemma_assoc_remove, lemma_assoc_update,
};
use crate::channel::Channel;
use crate::client::{lemma_name_set_push, name_set, Client, ClientView, PeerAddr};
use crate::frame::{data_frame_view, names_view, Frame, FrameData, FrameDataView, FrameView};
use crate::json::{Json, JsonObject, JsonValue};
use crate::text::str_eq;
use crate::utils::{json_snapshot, snapshot_delta};
use crate::wire::{json_text, MAX_COMPRESS_CHARS};
use vstd::prelude::*;
use vstd::string::StringExecFns;

verus! {

/// Something that happened on the connection of one peer.
#[derive(Debug)]
pub struct Event {
    addr: PeerAddr,
    data: EventData,
}

/// What happened.
#[derive(Debug)]
pub enum EventData {
    /// The peer has connected; this is its session.
    NewClient(Client),
    /// The peer has sent a frame.
    ClientFrame(Frame),
    /// The peer is gone.
    Disconnect,
}

/// The mathematical value of what happened.
pub enum EventDataView {
    NewClient(ClientView),
    ClientFrame(FrameView),
    Disconnect,
}

/// The mathematical value of an event.
pub struct EventView {
    pub addr: PeerAddr,
    pub data: EventDataView,
}

impl View for EventData {
    type V = EventDataView;

    open spec fn view(&self) -> EventDataView {
        match self {
            EventData::NewClient(client) => EventDataView::NewClient(client@),
            EventData::ClientFrame(frame) => EventDataView::ClientFrame(frame@),
            EventData::Disconnect => EventDataView::Disconnect,
        }
    }
}

impl View for Event {
    type V = EventView;

    closed spec fn view(&self) -> EventView {
        EventView { addr: self.addr, data: self.data@ }
    }
}

impl Event {
    /// The event that a peer has connected.
    pub fn new_client(addr: PeerAddr, client: Client) -> (r: Event)
        ensures
            r@ == (EventView { addr, data: EventDataView::NewClient(client@) }),
    {
        Event { addr, data: EventData::NewClient(client) }
    }

    /// The event that a peer has sent a frame.
    pub fn new_client_frame(addr: PeerAddr, client_frame: Frame) -> (r: Event)
        ensures
            r@ == (EventView { addr, data: EventDataView::ClientFrame(client_frame@) }),
    {
        Event { addr, data: EventData::ClientFrame(client_frame) }
    }

    /// The event that a peer is gone.
    pub fn disconnect(addr: PeerAddr) -> (r: Event)
        ensures
            r@ == (EventView { addr, data: EventDataView::Disconnect }),
    {
        Event { addr, data: EventData::Disconnect }
    }

    /// The peer that the event is about.
    pub fn addr(&self) -> (r: PeerAddr)
        ensures
            r == self@.addr,
    {
        self.addr
    }

    /// What happened.
    pub fn event_data(self) -> (r: EventData)
        ensures
            r@ == self@.data,
    {
        self.data
    }
}

/// What is to be done after the broker has handled an event.
#[derive(Debug)]
pub enum Action {
    /// Nothing.
    Idle,
    /// Send a frame to a peer.
    Send { addr: PeerAddr, frame: Frame },
    /// Extract the data of these channels, and hand the results to
    /// `fetch_data_from_channels` together with the peer and its request.
    Fetch { addr: PeerAddr, frame: Frame, channels: Vec<String> },
}

/// The mathematical value of what is to be done.
pub enum ActionView {
    Idle,
    Send { addr: PeerAddr, frame: FrameView },
    Fetch { addr: PeerAddr, frame: FrameView, channels: Set<Seq<char>> },
}

impl View for Action {
    type V = ActionView;

    open spec fn view(&self) -> ActionView {
        match self {
            Action::Idle => ActionView::Idle,
            Action::Send { addr, frame } => ActionView::Send { addr: *addr, frame: frame@ },
            Action::Fetch { addr, frame, channels } => ActionView::Fetch {
                addr: *addr,
                frame: frame@,
                channels: name_set(channels@),
            },
        }
    }
}

/// The two requests that change a subscription.
#[derive(Debug, Clone, Copy)]
pub enum ManageSubscription {
    Subscribe,
    Unsubscribe,
}

/// The code of the answer to a request that names an unknown channel.
pub const NOT_FOUND: u32 = 404;

/// The single writer of all sessions: it handles the events of all peers one
/// after the other.
pub struct Broker {
    client_map: Vec<(PeerAddr, Client)>,
    channel_map: Vec<String>,
}

/// The mathematical value of the broker: the session of each peer, and the
/// names of the registered channels.
pub struct BrokerView {
    pub sessions: Map<PeerAddr, ClientView>,
    pub channels: Set<Seq<char>>,
}

/// The peers and the values of their sessions, in the order of a list.
pub open spec fn session_entries(sessions: Seq<(PeerAddr, Client)>) -> Seq<(PeerAddr, ClientView)> {
    Seq::new(sessions.len(), |i: int| (sessions[i].0, sessions[i].1@))
}

impl View for Broker {
    type V = BrokerView;

    closed spec fn view(&self) -> BrokerView {
        BrokerView {
            sessions: assoc_map(session_entries(self.client_map@)),
            channels: name_set(self.channel_map@),
        }
    }
}

impl BrokerView {
    /// Every session holds a snapshot, and that snapshot is an object.
    pub open spec fn wf(self) -> bool {
        forall|addr: PeerAddr| #[trigger]
            self.sessions.dom().contains(addr) ==> self.sessions[addr].settled()
    }
}

/// The requested names that are not registered, in the order of the request.
pub open spec fn unknown_names(registry: Set<Seq<char>>, names: Seq<Seq<char>>) -> Seq<Seq<char>> {
    names.filter(|name: Seq<char>| !registry.contains(name))
}

/// The names joined by commas.
pub open spec fn join_names(names: Seq<Seq<char>>) -> Seq<char>
    decreases names.len(),
{
    if names.len() == 0 {
        Seq::empty()
    } else if names.len() == 1 {
        names[0]
    } else {
        join_names(names.drop_last()) + ","@ + names.last()
    }
}

/// The reason given for a request that names unknown channels.
pub open spec fn not_found_reason(unknown: Seq<Seq<char>>) -> Seq<char> {
    "Following channels were not found: "@ + join_names(unknown)
}

/// The subscriptions after a request has been carried out.
pub open spec fn changed_subscriptions(
    subscriptions: Set<Seq<char>>,
    names: Seq<Seq<char>>,
    mode: ManageSubscription,
) -> Set<Seq<char>> {
    match mode {
        ManageSubscription::Subscribe => subscriptions.union(names.to_set()),
        ManageSubscription::Unsubscribe => subscriptions.difference(names.to_set()),
    }
}

/// What a request to subscribe or unsubscribe does. Where a name is not
/// registered, nothing changes and the answer is an error that lists the
/// unknown names; otherwise the request is carried out for every name, and
/// the answer is `Okay`. The answer carries the tag of the request.
pub open spec fn manage(
    broker: BrokerView,
    addr: PeerAddr,
    cseq: u32,
    names: Seq<Seq<char>>,
    mode: ManageSubscription,
) -> (BrokerView, ActionView)
    recommends
        broker.sessions.dom().contains(addr),
{
    let unknown = unknown_names(broker.channels, names);
    if unknown.len() == 0 {
        let session = broker.sessions[addr];
        (
            BrokerView {
                sessions: broker.sessions.insert(
                    addr,
                    ClientView {
                        channels: changed_subscriptions(session.channels, names, mode),
                        ..session
                    },
                ),
                ..broker
            },
            ActionView::Send { addr, frame: FrameView { cseq, data: FrameDataView::Okay } },
        )
    } else {
        (
            broker,
            ActionView::Send {
                addr,
                frame: FrameView {
                    cseq,
                    data: FrameDataView::Error {
                        code: NOT_FOUND,
                        reason: not_found_reason(unknown),
                    },
                },
            },
        )
    }
}

/// What an event does to the broker, and what is to be done then.
///
/// A new client gets its session, and a disconnect takes the session away. A
/// frame of a peer without a session is dropped. `Subscribe` and `Unsubscribe`
/// are answered as `manage` says. `Ready` asks for the data of the peer's
/// channels. A frame of a kind that only the server sends is ignored.
pub open spec fn step(broker: BrokerView, event: EventView) -> (BrokerView, ActionView) {
    match event.data {
        EventDataView::NewClient(client) => (
            BrokerView { sessions: broker.sessions.insert(event.addr, client), ..broker },
            ActionView::Idle,
        ),
        EventDataView::Disconnect => (
            BrokerView { sessions: broker.sessions.remove(event.addr), ..broker },
            ActionView::Idle,
        ),
        EventDataView::ClientFrame(frame) => if !broker.sessions.dom().contains(event.addr) {
            (broker, ActionView::Idle)
        } else {
            match frame.data {
                FrameDataView::Subscribe { channels } => manage(
                    broker,
                    event.addr,
                    frame.cseq,
                    channels,
                    ManageSubscription::Subscribe,
                ),
                FrameDataView::Unsubscribe { channels } => manage(
                    broker,
                    event.addr,
                    frame.cseq,
                    channels,
                    ManageSubscription::Unsubscribe,
                ),
                FrameDataView::Ready => (
                    broker,
                    ActionView::Fetch {
                        addr: event.addr,
                        frame,
                        channels: broker.sessions[event.addr].channels,
                    },
                ),
                _ => (broker, ActionView::Idle),
            }
        },
    }
}

/// The values of a list of extraction results.
pub open spec fn results_view(results: Seq<(String, Option<Json>)>) -> Seq<
    (Seq<char>, Option<JsonValue>),
> {
    Seq::new(
        results.len(),
        |i: int|
            (
                results[i].0@,
                match results[i].1 {
                    Some(value) => Some(value@),
                    None => None,
                },
            ),
    )
}

/// The payload gathered from extraction results: one member for each
/// subscribed channel whose extraction succeeded. A failed extraction leaves
/// its channel out; of two results for one channel the later counts.
pub open spec fn gathered(
    subscriptions: Set<Seq<char>>,
    results: Seq<(Seq<char>, Option<JsonValue>)>,
) -> Map<Seq<char>, JsonValue>
    decreases results.len(),
{
    if results.len() == 0 {
        Map::empty()
    } else {
        let before = gathered(subscriptions, results.drop_last());
        match results.last().1 {
            Some(value) => if subscriptions.contains(results.last().0) {
                before.insert(results.last().0, value)
            } else {
                before
            },
            None => before,
        }
    }
}

/// What the results of an extraction do for a peer that is ready. The payload
/// gathered from them becomes the peer's snapshot, and the delta between the
/// snapshot held so far and the payload goes to the peer in a data frame that
/// carries the tag of the request. A delta whose text is longer than the
/// compressor takes is not sent, and nothing changes. Results for a peer
/// without a session are dropped.
pub open spec fn answer(
    broker: BrokerView,
    addr: PeerAddr,
    cseq: u32,
    results: Seq<(Seq<char>, Option<JsonValue>)>,
) -> (BrokerView, ActionView)
    recommends
        broker.wf(),
{
    if !broker.sessions.dom().contains(addr) {
        (broker, ActionView::Idle)
    } else {
        let session = broker.sessions[addr];
        let payload = JsonValue::Object(gathered(session.channels, results));
        let delta = snapshot_delta(session.last_message->Some_0, payload);
        if json_text(delta).len() > MAX_COMPRESS_CHARS {
            (broker, ActionView::Idle)
        } else {
            (
                BrokerView {
                    sessions: broker.sessions.insert(
                        addr,
                        ClientView { last_message: Some(payload), ..session },
                    ),
                    ..broker
                },
                ActionView::Send { addr, frame: data_frame_view(cseq, json_text(delta)) },
            )
        }
    }
}

/// A session that has changed in its place changes the map at its peer.
proof fn lemma_session_changed(
    before: Seq<(PeerAddr, Client)>,
    after: Seq<(PeerAddr, Client)>,
    p: int,
)
    requires
        0 <= p < before.len(),
        after.len() == before.len(),
        after[p].0 == before[p].0,
        forall|j: int| 0 <= j < before.len() && j != p ==> after[j] == before[j],
        forall|j: int| p < j < before.len() ==> (#[trigger] before[j]).0 != before[p].0,
    ensures
        assoc_map(session_entries(after)) == assoc_map(session_entries(before)).insert(
            before[p].0,
            after[p].1@,
        ),
        distinct_keys(session_entries(before)) ==> distinct_keys(session_entries(after)),
{
    let entries = session_entries(before);
    if distinct_keys(entries) {
        assert forall|i: int, j: int| 0 <= i < j < after.len() implies (#[trigger] session_entries(
            after,
        )[i]).0 != (#[trigger] session_entries(after)[j]).0 by {
            assert(entries[i].0 != entries[j].0);
        }
    }
    assert forall|j: int| p < j < entries.len() implies (#[trigger] entries[j]).0 != entries[p].0 by {
        assert(before[j].0 != before[p].0);
    }
    lemma_assoc_update(entries, p, after[p].1@);
    assert(session_entries(after) =~= entries.update(p, (entries[p].0, after[p].1@)));
}

/// The names in a longer part of a list are those in the shorter part and the
/// next one.
proof fn lemma_take_push<A>(items: Seq<A>, i: int)
    requires
        0 <= i < items.len(),
    ensures
        items.take(i + 1) == items.take(i).push(items[i]),
        items.take(i + 1).drop_last() == items.take(i),
        items.take(i + 1).last() == items[i],
{
    assert(items.take(i + 1) =~= items.take(i).push(items[i]));
    assert(items.take(i + 1).drop_last() =~= items.take(i));
}

/// The members of a list with one more item.
proof fn lemma_to_set_push<A>(items: Seq<A>, item: A)
    ensures
        items.push(item).to_set() == items.to_set().insert(item),
{
    let longer = items.push(item);
    assert forall|a: A| longer.to_set().contains(a) == items.to_set().insert(item).contains(a) by {
        if longer.contains(a) {
            let i = choose|i: int| 0 <= i < longer.len() && longer[i] == a;
            if i < items.len() {
                assert(items[i] == a);
            }
        }
        if items.contains(a) {
            let i = choose|i: int| 0 <= i < items.len() && items[i] == a;
            assert(longer[i] == a);
        }
        if a == item {
            assert(longer[longer.len() - 1] == a);
        }
    }
    assert(longer.to_set() =~= items.to_set().insert(item));
}

/// The names joined by commas.
fn join_with_commas(names: &Vec<String>) -> (r: String)
    ensures
        r@ == join_names(names_view(names@)),
{
    let ghost all = names_view(names@);
    let mut joined = String::new();
    let mut i: usize = 0;
    while i < names.len()
        invariant
            i <= names@.len(),
            all == names_view(names@),
            joined@ == join_names(all.take(i as int)),
        decreases names@.len() - i,
    {
        proof {
            lemma_take_push(all, i as int);
        }
        if i > 0 {
            joined.append(",");
        }
        joined.append(names[i].as_str());
        proof {
            if i == 0 {
                assert(joined@ =~= all[0]);
            }
        }
        i += 1;
    }
    assert(all.take(i as int) =~= all);
    joined
}

/// A copy of a list of names.
fn clone_names(names: &Vec<String>) -> (r: Vec<String>)
    ensures
        names_view(r@) == names_view(names@),
        name_set(r@) == name_set(names@),
{
    let mut copies: Vec<String> = Vec::new();
    let mut i: usize = 0;
    while i < names.len()
        invariant
            i <= names@.len(),
            copies@.len() == i,
            forall|j: int| 0 <= j < i ==> (#[trigger] copies@[j])@ == names@[j]@,
        decreases names@.len() - i,
    {
        copies.push(names[i].clone());
        i += 1;
    }
    proof {
        assert(names_view(copies@) =~= names_view(names@));
        assert forall|n: Seq<char>| name_set(copies@).contains(n) == name_set(names@).contains(
            n,
        ) by {
            if name_set(copies@).contains(n) {
                let j = choose|j: int| 0 <= j < copies@.len() && (#[trigger] copies@[j])@ == n;
                assert(names@[j]@ == n);
            }
            if name_set(names@).contains(n) {
                let j = choose|j: int| 0 <= j < names@.len() && (#[trigger] names@[j])@ == n;
                assert(copies@[j]@ == n);
            }
        }
        assert(name_set(copies@) =~= name_set(names@));
    }
    copies
}

impl Broker {
    /// A broker without sessions and without channels.
    pub fn new() -> (r: Broker)
        ensures
            r@ == (BrokerView { sessions: Map::empty(), channels: Set::empty() }),
            r.wf(),
    {
        let r = Broker { client_map: Vec::new(), channel_map: Vec::new() };
        assert(name_set(r.channel_map@) =~= Set::empty());
        assert(session_entries(r.client_map@) =~= Seq::empty());
        r
    }

    /// Registers a channel under the name that it gives, and hands the broker
    /// back for the next registration.
    pub fn add_channel<C: Channel>(&mut self, channel: &C) -> (r: &mut Broker)
        ensures
            exists|name: &str|
                call_ensures(C::name, (channel,), name) && r@ == (BrokerView {
                    channels: old(self)@.channels.insert(name@),
                    ..old(self)@
                }),
            old(self).wf() ==> r.wf(),
            *final(self) == *final(r),
    {
        let name = channel.name();
        let owned = name.to_owned();
        proof {
            lemma_name_set_push(self.channel_map@, owned);
        }
        self.channel_map.push(owned);
        assert(self.client_map@ == old(self).client_map@);
        assert(self@.sessions == old(self)@.sessions);
        self
    }

    /// Whether a channel of this name is registered.
    pub fn is_registered(&self, name: &str) -> (r: bool)
        ensures
            r == self@.channels.contains(name@),
    {
        let mut i: usize = 0;
        while i < self.channel_map.len()
            invariant
                i <= self.channel_map@.len(),
                forall|j: int| 0 <= j < i ==> (#[trigger] self.channel_map@[j])@ != name@,
            decreases self.channel_map@.len() - i,
        {
            if str_eq(self.channel_map[i].as_str(), name) {
                return true;
            }
            i += 1;
        }
        false
    }

    /// The broker holds one session for each peer, and every session is at
    /// rest.
    pub closed spec fn wf(&self) -> bool {
        &&& distinct_keys(session_entries(self.client_map@))
        &&& self@.wf()
    }

    /// A broker in order has a value in order.
    pub proof fn lemma_wf_view(&self)
        requires
            self.wf(),
        ensures
            self@.wf(),
            self@.sessions.dom().finite(),
    {
        lemma_assoc_len(session_entries(self.client_map@));
    }

    /// The number of sessions.
    pub fn client_count(&self) -> (r: usize)
        requires
            self.wf(),
        ensures
            r == self@.sessions.dom().len(),
    {
        proof {
            lemma_assoc_len(session_entries(self.client_map@));
        }
        self.client_map.len()
    }

    /// The place of the session of a peer.
    fn position(&self, addr: PeerAddr) -> (r: Option<usize>)
        ensures
            match r {
                Some(i) => {
                    &&& i < self.client_map@.len()
                    &&& self.client_map@[i as int].0 == addr
                    &&& forall|j: int|
                        i < j < self.client_map@.len() ==> (#[trigger] self.client_map@[j]).0
                            != addr
                    &&& self@.sessions.dom().contains(addr)
                    &&& self@.sessions[addr] == self.client_map@[i as int].1@
                },
                None => {
                    &&& forall|j: int|
                        0 <= j < self.client_map@.len() ==> (#[trigger] self.client_map@[j]).0
                            != addr
                    &&& !self@.sessions.dom().contains(addr)
                },
            },
    {
        let ghost entries = session_entries(self.client_map@);
        proof {
            lemma_assoc_dom(entries, addr);
        }
        let mut i: usize = self.client_map.len();
        while i > 0
            invariant
                i <= self.client_map@.len(),
                entries == session_entries(self.client_map@),
                forall|j: int|
                    i <= j < self.client_map@.len() ==> (#[trigger] self.client_map@[j]).0 != addr,
            decreases i,
        {
            i -= 1;
            if self.client_map[i].0 == addr {
                proof {
                    assert forall|j: int| i < j < entries.len() implies (#[trigger] entries[j]).0
                        != entries[i as int].0 by {
                        assert(self.client_map@[j].0 != addr);
                    }
                    lemma_assoc_last(entries, i as int);
                }
                return Some(i);
            }
        }
        proof {
            if self@.sessions.dom().contains(addr) {
                let j = choose|j: int| 0 <= j < entries.len() && (#[trigger] entries[j]).0 == addr;
                assert(self.client_map@[j].0 == addr);
            }
        }
        None
    }

    /// Puts the session of a peer in, in place of the one it had.
    fn insert_session(&mut self, addr: PeerAddr, client: Client)
        ensures
            final(self)@ == (BrokerView {
                sessions: old(self)@.sessions.insert(addr, client@),
                ..old(self)@
            }),
            distinct_keys(session_entries(old(self).client_map@)) ==> distinct_keys(
                session_entries(final(self).client_map@),
            ),
    {
        let ghost before = session_entries(self.client_map@);
        match self.position(addr) {
            Some(i) => {
                self.client_map.set(i, (addr, client));
                proof {
                    lemma_session_changed(old(self).client_map@, self.client_map@, i as int);
                }
            },
            None => {
                self.client_map.push((addr, client));
                proof {
                    lemma_assoc_push(before, addr, client@);
                    assert(session_entries(self.client_map@) =~= before.push((addr, client@)));
                    if distinct_keys(before) {
                        assert forall|i: int, j: int|
                            0 <= i < j < before.len() + 1 implies (#[trigger] session_entries(
                            self.client_map@,
                        )[i]).0 != (#[trigger] session_entries(self.client_map@)[j]).0 by {
                            if j < before.len() {
                                assert(before[i].0 != before[j].0);
                            } else {
                                assert(old(self).client_map@[i].0 != addr);
                            }
                        }
                    }
                }
            },
        }
    }

    /// Takes the session of a peer out.
    fn remove_session(&mut self, addr: PeerAddr)
        ensures
            final(self)@ == (BrokerView {
                sessions: old(self)@.sessions.remove(addr),
                ..old(self)@
            }),
            distinct_keys(session_entries(old(self).client_map@)) ==> distinct_keys(
                session_entries(final(self).client_map@),
            ),
    {
        loop
            invariant
                self@.sessions.remove(addr) == old(self)@.sessions.remove(addr),
                self@.channels == old(self)@.channels,
                distinct_keys(session_entries(old(self).client_map@)) ==> distinct_keys(
                    session_entries(self.client_map@),
                ),
            ensures
                self@.sessions == old(self)@.sessions.remove(addr),
                self@.channels == old(self)@.channels,
                distinct_keys(session_entries(old(self).client_map@)) ==> distinct_keys(
                    session_entries(self.client_map@),
                ),
            decreases self.client_map@.len(),
        {
            match self.position(addr) {
                Some(i) => {
                    let ghost before = session_entries(self.client_map@);
                    let _gone = self.client_map.remove(i);
                    proof {
                        lemma_assoc_remove(before, i as int);
                        let after = session_entries(self.client_map@);
                        assert(after =~= before.remove(i as int));
                        if distinct_keys(before) {
                            assert forall|a: int, b: int| 0 <= a < b < after.len() implies (
                            #[trigger] after[a]).0 != (#[trigger] after[b]).0 by {
                                let x = if a < i { a } else { a + 1 };
                                let y = if b < i { b } else { b + 1 };
                                assert(before[x].0 != before[y].0);
                            }
                        }
                    }
                },
                None => {
                    assert(self@.sessions.remove(addr) =~= self@.sessions);
                    break ;
                },
            }
        }
    }

    /// Carries out a request to subscribe or unsubscribe for a peer that has
    /// a session, and gives the frame that answers it.
    fn manage_subscription(
        &mut self,
        addr: PeerAddr,
        frame: &Frame,
        channels: &Vec<String>,
        mode: ManageSubscription,
    ) -> (r: Frame)
        requires
            old(self)@.sessions.dom().contains(addr),
        ensures
            (final(self)@, ActionView::Send { addr, frame: r@ }) == manage(
                old(self)@,
                addr,
                frame@.cseq,
                names_view(channels@),
                mode,
            ),
            distinct_keys(session_entries(old(self).client_map@)) ==> distinct_keys(
                session_entries(final(self).client_map@),
            ),
    {
        let ghost names = names_view(channels@);
        let ghost registry = self@.channels;
        let ghost is_unknown = |name: Seq<char>| !registry.contains(name);
        let mut not_registered: Vec<String> = Vec::new();
        let mut i: usize = 0;
        assert(names.take(0).filter(is_unknown) =~= Seq::empty()) by {
            reveal(Seq::filter);
        }
        while i < channels.len()
            invariant
                i <= channels@.len(),
                names == names_view(channels@),
                registry == self@.channels,
                is_unknown == |name: Seq<char>| !registry.contains(name),
                names_view(not_registered@) == names.take(i as int).filter(is_unknown),
            decreases channels@.len() - i,
        {
            proof {
                lemma_take_push(names, i as int);
                reveal(Seq::filter);
            }
            if !self.is_registered(channels[i].as_str()) {
                let ghost before = not_registered@;
                not_registered.push(channels[i].clone());
                assert(names_view(not_registered@) =~= names_view(before).push(names[i as int]));
            }
            i += 1;
        }
        assert(names.take(i as int) =~= names);
        if not_registered.len() == 0 {
            let found = self.position(addr);
            let p = found.unwrap();
            let ghost held = self.client_map@[p as int].1@;
            let mut j: usize = 0;
            assert(names.take(0).to_set() =~= Set::empty());
            assert(changed_subscriptions(held.channels, names.take(0), mode) =~= held.channels);
            while j < channels.len()
                invariant
                    j <= channels@.len(),
                    p < self.client_map@.len(),
                    names == names_view(channels@),
                    self.client_map@.len() == old(self).client_map@.len(),
                    self.channel_map == old(self).channel_map,
                    forall|k: int|
                        0 <= k < self.client_map@.len() && k != p ==> self.client_map@[k] == old(
                            self,
                        ).client_map@[k],
                    self.client_map@[p as int].0 == addr,
                    self.client_map@[p as int].1@ == (ClientView {
                        channels: changed_subscriptions(
                            held.channels,
                            names.take(j as int),
                            mode,
                        ),
                        ..held
                    }),
                decreases channels@.len() - j,
            {
                let ghost sofar = names.take(j as int);
                proof {
                    lemma_take_push(names, j as int);
                    lemma_to_set_push(sofar, names[j as int]);
                }
                match mode {
                    ManageSubscription::Subscribe => {
                        self.client_map[p].1.subscribe(channels[j].clone());
                        assert(held.channels.union(sofar.to_set()).insert(names[j as int])
                            =~= held.channels.union(sofar.push(names[j as int]).to_set()));
                    },
                    ManageSubscription::Unsubscribe => {
                        self.client_map[p].1.unsubscribe(channels[j].as_str());
                        assert(held.channels.difference(sofar.to_set()).remove(names[j as int])
                            =~= held.channels.difference(sofar.push(names[j as int]).to_set()));
                    },
                }
                j += 1;
            }
            proof {
                assert(names.take(j as int) =~= names);
                lemma_session_changed(old(self).client_map@, self.client_map@, p as int);
            }
            Frame::create_ok_frame(frame)
        } else {
            let mut reason = "Following channels were not found: ".to_owned();
            let listed = join_with_commas(&not_registered);
            reason.append(listed.as_str());
            Frame::create_err_frame(frame, NOT_FOUND, reason)
        }
    }

    /// Handles one event, and says what is to be done then: nothing, a frame
    /// to send to the peer of the event, or data to extract for it.
    pub fn handle_event(&mut self, event: Event) -> (action: Action)
        requires
            old(self).wf(),
            event@.data matches EventDataView::NewClient(client) ==> client.settled(),
        ensures
            (final(self)@, action@) == step(old(self)@, event@),
            final(self).wf(),
    {
        let addr = event.addr;
        proof {
            lemma_step_keeps_wf(self@, event@);
        }
        match event.event_data() {
            EventData::NewClient(client) => {
                self.insert_session(addr, client);
                Action::Idle
            },
            EventData::Disconnect => {
                self.remove_session(addr);
                Action::Idle
            },
            EventData::ClientFrame(frame) => {
                match self.position(addr) {
                    None => Action::Idle,
                    Some(p) => {
                        match frame.data() {
                            FrameData::Subscribe { channels } => {
                                let response = self.manage_subscription(
                                    addr,
                                    &frame,
                                    channels,
                                    ManageSubscription::Subscribe,
                                );
                                Action::Send { addr, frame: response }
                            },
                            FrameData::Unsubscribe { channels } => {
                                let response = self.manage_subscription(
                                    addr,
                                    &frame,
                                    channels,
                                    ManageSubscription::Unsubscribe,
                                );
                                Action::Send { addr, frame: response }
                            },
                            FrameData::Ready => {
                                let channels = clone_names(self.client_map[p].1.channels());
                                Action::Fetch { addr, frame, channels }
                            },
                            _ => Action::Idle,
                        }
                    },
                }
            },
        }
    }
}

impl Broker {
    /// Gathers the payload of a peer from the results of an extraction.
    fn gather(&self, p: usize, results: Vec<(String, Option<Json>)>) -> (r: JsonObject)
        requires
            p < self.client_map@.len(),
        ensures
            r@ == gathered(self.client_map@[p as int].1@.channels, results_view(results@)),
    {
        let ghost all = results_view(results@);
        let ghost raw = results@;
        let ghost subscriptions = self.client_map@[p as int].1@.channels;
        let mut payload = JsonObject::new();
        assert(all.take(0) =~= Seq::empty());
        for entry in it: results
            invariant
                it.seq() == raw,
                all == results_view(raw),
                p < self.client_map@.len(),
                subscriptions == self.client_map@[p as int].1@.channels,
                payload@ == gathered(subscriptions, all.take(it.index() as int)),
        {
            proof {
                lemma_take_push(all, it.index() as int);
            }
            let (name, outcome) = entry;
            match outcome {
                Some(value) => {
                    if self.client_map[p].1.is_subscribed(name.as_str()) {
                        payload.insert(name, value);
                    }
                },
                None => {},
            }
        }
        assert(all.take(all.len() as int) =~= all);
        payload
    }

    /// Answers a peer that is ready, with the results of the extraction that
    /// `handle_event` asked for: for each channel its name and its value, or
    /// `None` where the extraction failed. `frame` is the peer's request.
    pub fn fetch_data_from_channels(
        &mut self,
        addr: PeerAddr,
        frame: &Frame,
        results: Vec<(String, Option<Json>)>,
    ) -> (action: Action)
        requires
            old(self).wf(),
        ensures
            (final(self)@, action@) == answer(
                old(self)@,
                addr,
                frame@.cseq,
                results_view(results@),
            ),
            final(self).wf(),
    {
        proof {
            lemma_answer_keeps_wf(self@, addr, frame@.cseq, results_view(results@));
        }
        match self.position(addr) {
            None => Action::Idle,
            Some(p) => {
                let payload = Json::Object(self.gather(p, results));
                let held = self.client_map[p].1.take_last_message();
                let snapshot = held.unwrap();
                let delta = json_snapshot(&snapshot, &payload);
                match Frame::try_create_data_frame(frame, delta) {
                    Some(response) => {
                        self.client_map[p].1.set_last_message(payload);
                        proof {
                            lemma_session_changed(
                                old(self).client_map@,
                                self.client_map@,
                                p as int,
                            );
                        }
                        Action::Send { addr, frame: response }
                    },
                    None => {
                        self.client_map[p].1.set_last_message(snapshot);
                        proof {
                            lemma_session_changed(
                                old(self).client_map@,
                                self.client_map@,
                                p as int,
                            );
                            assert(self@.sessions =~= old(self)@.sessions);
                        }
                        Action::Idle
                    },
                }
            },
        }
    }
}

/// Answering a peer that is ready keeps every session at rest.
pub proof fn lemma_answer_keeps_wf(
    broker: BrokerView,
    addr: PeerAddr,
    cseq: u32,
    results: Seq<(Seq<char>, Option<JsonValue>)>,
)
    requires
        broker.wf(),
    ensures
        answer(broker, addr, cseq, results).0.wf(),
{
}

/// Handling an event keeps every session at rest, if the session that a new
/// client brings is at rest.
pub proof fn lemma_step_keeps_wf(broker: BrokerView, event: EventView)
    requires
        broker.wf(),
        event.data matches EventDataView::NewClient(client) ==> client.settled(),
    ensures
        step(broker, event).0.wf(),
{
}

/// A request that names a channel which is not registered has unknown names.
pub proof fn lemma_unknown_names_found(registry: Set<Seq<char>>, names: Seq<Seq<char>>, i: int)
    requires
        0 <= i < names.len(),
        !registry.contains(names[i]),
    ensures
        unknown_names(registry, names).len() > 0,
    decreases names.len(),
{
    reveal(Seq::filter);
    if i < names.len() - 1 {
        lemma_unknown_names_found(registry, names.drop_last(), i);
    }
}

/// All or nothing: a request to subscribe or unsubscribe that names a channel
/// which is not registered changes no subscription and nothing else, and is
/// answered with the code 404.
pub proof fn lemma_unknown_channel_changes_nothing(
    broker: BrokerView,
    addr: PeerAddr,
    cseq: u32,
    names: Seq<Seq<char>>,
    mode: ManageSubscription,
    i: int,
)
    requires
        0 <= i < names.len(),
        !broker.channels.contains(names[i]),
    ensures
        manage(broker, addr, cseq, names, mode).0 == broker,
        manage(broker, addr, cseq, names, mode).1 == (ActionView::Send {
            addr,
            frame: FrameView {
                cseq,
                data: FrameDataView::Error {
                    code: NOT_FOUND,
                    reason: not_found_reason(unknown_names(broker.channels, names)),
                },
            },
        }),
{
    lemma_unknown_names_found(broker.channels, names, i);
}

/// A frame that the broker sends or keeps in answer to a frame of a client
/// carries the tag of that frame.
pub proof fn lemma_step_echoes_cseq(broker: BrokerView, event: EventView)
    requires
        event.data is ClientFrame,
    ensures
        match step(broker, event).1 {
            ActionView::Send { frame, .. } => frame.cseq == event.data->ClientFrame_0.cseq,
            ActionView::Fetch { frame, .. } => frame == event.data->ClientFrame_0,
            ActionView::Idle => true,
        },
{
}

/// The data frame that answers a peer that is ready carries the tag of its
/// request.
pub proof fn lemma_answer_echoes_cseq(
    broker: BrokerView,
    addr: PeerAddr,
    cseq: u32,
    results: Seq<(Seq<char>, Option<JsonValue>)>,
)
    ensures
        answer(broker, addr, cseq, results).1 matches ActionView::Send { frame, .. }
            ==> frame.cseq == cseq && frame.data is Data,
{
}

/// Sessions are isolated: an event of one peer changes the session of no
/// other peer, and what is to be done then is addressed to the peer of the
/// event.
pub proof fn lemma_step_is_isolated(broker: BrokerView, event: EventView, other: PeerAddr)
    requires
        other != event.addr,
    ensures
        step(broker, event).0.sessions.dom().contains(other) == broker.sessions.dom().contains(
            other,
        ),
        broker.sessions.dom().contains(other) ==> step(broker, event).0.sessions[other]
            == broker.sessions[other],
        match step(broker, event).1 {
            ActionView::Send { addr, .. } => addr == event.addr,
            ActionView::Fetch { addr, .. } => addr == event.addr,
            ActionView::Idle => true,
        },
        step(broker, event).0.channels == broker.channels,
{
}

/// Sessions are isolated: the answer to a peer that is ready changes the
/// session of no other peer, and goes to that peer.
pub proof fn lemma_answer_is_isolated(
    broker: BrokerView,
    addr: PeerAddr,
    cseq: u32,
    results: Seq<(Seq<char>, Option<JsonValue>)>,
    other: PeerAddr,
)
    requires
        other != addr,
    ensures
        answer(broker, addr, cseq, results).0.sessions.dom().contains(other)
            == broker.sessions.dom().contains(other),
        broker.sessions.dom().contains(other) ==> answer(
            broker,
            addr,
            cseq,
            results,
        ).0.sessions[other] == broker.sessions[other],
        match answer(broker, addr, cseq, results).1 {
            ActionView::Send { addr: to, .. } => to == addr,
            ActionView::Fetch { .. } => false,
            ActionView::Idle => true,
        },
        answer(broker, addr, cseq, results).0.channels == broker.channels,
{
}

/// The payload gathered for a peer names subscribed channels only.
pub proof fn lemma_gathered_is_subscribed(
    subscriptions: Set<Seq<char>>,
    results: Seq<(Seq<char>, Option<JsonValue>)>,
)
    ensures
        gathered(subscriptions, results).dom().subset_of(subscriptions),
    decreases results.len(),
{
    if results.len() > 0 {
        lemma_gathered_is_subscribed(subscriptions, results.drop_last());
    }
}

/// A session lasts from the event that brings it to the disconnect of its
/// peer: after the first the peer has the session, after the second it has
/// none.
pub proof fn lemma_session_lifetime(broker: BrokerView, addr: PeerAddr, client: ClientView)
    ensures
        step(
            broker,
            EventView { addr, data: EventDataView::NewClient(client) },
        ).0.sessions.dom().contains(addr),
        step(broker, EventView { addr, data: EventDataView::NewClient(client) }).0.sessions[addr]
            == client,
        !step(broker, EventView { addr, data: EventDataView::Disconnect }).0.sessions.dom().contains(
            addr,
        ),
{
}

} // verus!
