use crate::broker::{Event, EventDataView, EventView};
use crate::client::{Client, ClientView, PeerAddr};
use crate::frame::{frame_of_message, Frame, Message, MessageView, ParseError};
use crate::json::JsonValue;
use vstd::prelude::*;

verus! {

/// What reading from the connection of a peer yields.
#[derive(Debug, PartialEq)]
pub enum Incoming {
    /// The next message.
    Message(Message),
    /// The transport failed to read.
    Failed,
    /// The peer has ended the stream.
    End,
}

/// The mathematical value of what reading yields.
pub enum IncomingView {
    Message(MessageView),
    Failed,
    End,
}

impl View for Incoming {
    type V = IncomingView;

    open spec fn view(&self) -> IncomingView {
        match self {
            Incoming::Message(message) => IncomingView::Message(message@),
            Incoming::Failed => IncomingView::Failed,
            Incoming::End => IncomingView::End,
        }
    }
}

/// What the handler of a connection does with what it has read.
#[derive(Debug)]
pub enum Reaction {
    /// Hand the event to the broker and read on.
    Forward(Event),
    /// The message carries no frame: report why and read on.
    Skip(ParseError),
    /// Hand the event to the broker and stop reading.
    Hangup(Event),
}

/// The mathematical value of what the handler does.
pub enum ReactionView {
    Forward(EventView),
    Skip(ParseError),
    Hangup(EventView),
}

impl View for Reaction {
    type V = ReactionView;

    open spec fn view(&self) -> ReactionView {
        match self {
            Reaction::Forward(event) => ReactionView::Forward(event@),
            Reaction::Skip(e) => ReactionView::Skip(*e),
            Reaction::Hangup(event) => ReactionView::Hangup(event@),
        }
    }
}

/// The event that opens the session of a peer: a new client without
/// subscriptions, whose snapshot is the empty object.
pub open spec fn greeting(addr: PeerAddr) -> EventView {
    EventView {
        addr,
        data: EventDataView::NewClient(
            ClientView {
                addr,
                last_message: Some(JsonValue::empty_object()),
                channels: Set::empty(),
            },
        ),
    }
}

/// What the handler does with what it has read: a message that carries a
/// frame is forwarded, any other message is skipped, and a failure or the end
/// of the stream makes the handler report the disconnect and stop.
pub open spec fn reaction(addr: PeerAddr, incoming: IncomingView) -> ReactionView {
    match incoming {
        IncomingView::Message(message) => match frame_of_message(message) {
            Ok(frame) => ReactionView::Forward(
                EventView { addr, data: EventDataView::ClientFrame(frame) },
            ),
            Err(e) => ReactionView::Skip(e),
        },
        _ => ReactionView::Hangup(EventView { addr, data: EventDataView::Disconnect }),
    }
}

/// The events that the handler reports while it reads, up to the disconnect.
pub open spec fn reported(addr: PeerAddr, inputs: Seq<IncomingView>) -> Seq<EventView>
    decreases inputs.len(),
{
    if inputs.len() == 0 {
        Seq::empty()
    } else {
        match reaction(addr, inputs.first()) {
            ReactionView::Forward(event) => seq![event] + reported(addr, inputs.drop_first()),
            ReactionView::Skip(_) => reported(addr, inputs.drop_first()),
            ReactionView::Hangup(event) => seq![event],
        }
    }
}

/// All events of the connection of a peer, from the greeting on.
pub open spec fn connection_events(addr: PeerAddr, inputs: Seq<IncomingView>) -> Seq<EventView> {
    seq![greeting(addr)] + reported(addr, inputs)
}

/// The event that a handler reports once the handshake with a peer is done.
pub fn greet(addr: PeerAddr) -> (r: Event)
    ensures
        r@ == greeting(addr),
{
    Event::new_client(addr, Client::new(addr))
}

/// Decides what the handler of a connection does with what it has read.
pub fn react(addr: PeerAddr, incoming: &Incoming) -> (r: Reaction)
    ensures
        r@ == reaction(addr, incoming@),
{
    match incoming {
        Incoming::Message(message) => match Frame::try_from(message) {
            Ok(frame) => Reaction::Forward(Event::new_client_frame(addr, frame)),
            Err(e) => Reaction::Skip(e),
        },
        _ => Reaction::Hangup(Event::disconnect(addr)),
    }
}

/// While the handler reads, it reports frames of its own peer and nothing
/// else; a disconnect can only be the last event it reports.
pub proof fn lemma_reported_frames(addr: PeerAddr, inputs: Seq<IncomingView>)
    ensures
        forall|i: int|
            0 <= i < reported(addr, inputs).len() ==> {
                let event = #[trigger] reported(addr, inputs)[i];
                &&& event.addr == addr
                &&& !(event.data is NewClient)
                &&& event.data is Disconnect ==> i == reported(addr, inputs).len() - 1
            },
    decreases inputs.len(),
{
    if inputs.len() > 0 {
        lemma_reported_frames(addr, inputs.drop_first());
    }
}

/// A handler whose reading comes to a failure or to the end of the stream
/// reports the disconnect as its last event.
pub proof fn lemma_reported_ends_with_disconnect(
    addr: PeerAddr,
    inputs: Seq<IncomingView>,
    stop: int,
)
    requires
        0 <= stop < inputs.len(),
        !(inputs[stop] is Message),
    ensures
        reported(addr, inputs).len() > 0,
        reported(addr, inputs).last() == (EventView { addr, data: EventDataView::Disconnect }),
    decreases inputs.len(),
{
    if inputs.first() is Message {
        let rest = inputs.drop_first();
        assert(rest[stop - 1] == inputs[stop]);
        lemma_reported_ends_with_disconnect(addr, rest, stop - 1);
    }
}

/// Every connection ends with exactly one disconnect. For a handler whose
/// reading comes to a failure or to the end of the stream, the events of the
/// connection all bear the address of the peer; the first of them is the
/// greeting, and no other brings a client; the last of them is the disconnect,
/// and no other is one.
pub proof fn lemma_one_disconnect(addr: PeerAddr, inputs: Seq<IncomingView>, stop: int)
    requires
        0 <= stop < inputs.len(),
        !(inputs[stop] is Message),
    ensures
        connection_events(addr, inputs).len() >= 2,
        connection_events(addr, inputs).first() == greeting(addr),
        connection_events(addr, inputs).last() == (EventView {
            addr,
            data: EventDataView::Disconnect,
        }),
        forall|i: int|
            0 <= i < connection_events(addr, inputs).len() ==> {
                let event = #[trigger] connection_events(addr, inputs)[i];
                &&& event.addr == addr
                &&& event.data is NewClient <==> i == 0
                &&& event.data is Disconnect <==> i == connection_events(addr, inputs).len() - 1
            },
{
    lemma_reported_frames(addr, inputs);
    lemma_reported_ends_with_disconnect(addr, inputs, stop);
    let tail = reported(addr, inputs);
    let all = connection_events(addr, inputs);
    assert forall|i: int| 0 <= i < all.len() implies {
        let event = #[trigger] all[i];
        &&& event.addr == addr
        &&& event.data is NewClient <==> i == 0
        &&& event.data is Disconnect <==> i == all.len() - 1
    } by {
        if i > 0 {
            assert(all[i] == tail[i - 1]);
        }
    }
}

} // verus!
