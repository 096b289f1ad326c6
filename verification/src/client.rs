use crate::json::{Json, JsonValue};
use crate::text::str_eq;
use vstd::prelude::*;

verus! {

/// The socket address of a peer: an IPv4 or IPv6 address with its port.
#[derive(Debug, Clone, Copy, PartialEq, Eq, Hash, Structural)]
#[allow(inconsistent_fields)]
pub enum PeerAddr {
    V4 { ip: u32, port: u16 },
    V6 { ip: u128, port: u16, flowinfo: u32, scope_id: u32 },
}

/// The names in a list.
pub open spec fn name_set(names: Seq<String>) -> Set<Seq<char>> {
    Set::new(
        |name: Seq<char>| exists|i: int| 0 <= i < names.len() && (#[trigger] names[i])@ == name,
    )
}

/// The value of a snapshot that may be absent.
pub open spec fn snapshot_view(snapshot: Option<Json>) -> Option<JsonValue> {
    match snapshot {
        Some(value) => Some(value@),
        None => None,
    }
}

/// The session of one peer: the channels it has subscribed to and the
/// snapshot that was last delivered to it.
#[derive(Debug)]
pub struct Client {
    addr: PeerAddr,
    last_message: Option<Json>,
    channels: Vec<String>,
}

/// The mathematical value of a session.
pub struct ClientView {
    pub addr: PeerAddr,
    pub last_message: Option<JsonValue>,
    pub channels: Set<Seq<char>>,
}

impl ClientView {
    /// A session at rest holds a snapshot that is an object.
    pub open spec fn settled(self) -> bool {
        self.last_message matches Some(JsonValue::Object(_))
    }
}

impl View for Client {
    type V = ClientView;

    closed spec fn view(&self) -> ClientView {
        ClientView {
            addr: self.addr,
            last_message: snapshot_view(self.last_message),
            channels: name_set(self.channels@),
        }
    }
}

impl Client {
    /// The session of a peer that has just connected: no subscription, and the
    /// empty object as its snapshot.
    pub fn new(addr: PeerAddr) -> (r: Client)
        ensures
            r@ == (ClientView {
                addr,
                last_message: Some(JsonValue::empty_object()),
                channels: Set::empty(),
            }),
    {
        let r = Client { addr, last_message: Some(Json::empty_object()), channels: Vec::new() };
        assert(name_set(r.channels@) =~= Set::empty());
        r
    }

    /// Whether the session is at rest: it holds a snapshot, and that snapshot
    /// is an object.
    pub fn is_settled(&self) -> (r: bool)
        ensures
            r == self@.settled(),
    {
        match &self.last_message {
            Some(Json::Object(_)) => true,
            _ => false,
        }
    }

    /// Whether the peer has subscribed to a channel.
    pub fn is_subscribed(&self, channel: &str) -> (r: bool)
        ensures
            r == self@.channels.contains(channel@),
    {
        let mut i: usize = 0;
        while i < self.channels.len()
            invariant
                i <= self.channels@.len(),
                forall|j: int| 0 <= j < i ==> (#[trigger] self.channels@[j])@ != channel@,
            decreases self.channels@.len() - i,
        {
            if str_eq(self.channels[i].as_str(), channel) {
                return true;
            }
            i += 1;
        }
        false
    }

    /// Subscribes to a channel. A second subscription changes nothing.
    pub fn subscribe(&mut self, channel: String)
        ensures
            final(self)@ == (ClientView {
                channels: old(self)@.channels.insert(channel@),
                ..old(self)@
            }),
    {
        if !self.is_subscribed(channel.as_str()) {
            self.channels.push(channel);
            assert forall|name: Seq<char>|
                name_set(self.channels@).contains(name) == name_set(
                    old(self).channels@,
                ).insert(channel@).contains(name) by {
                if name_set(self.channels@).contains(name) {
                    let i = choose|i: int|
                        0 <= i < self.channels@.len() && (#[trigger] self.channels@[i])@ == name;
                    if i < old(self).channels@.len() {
                        assert(old(self).channels@[i]@ == name);
                    }
                }
                if name_set(old(self).channels@).contains(name) {
                    let i = choose|i: int|
                        0 <= i < old(self).channels@.len() && (#[trigger] old(self).channels@[i])@
                            == name;
                    assert(self.channels@[i]@ == name);
                }
                if name == channel@ {
                    assert(self.channels@[self.channels@.len() - 1]@ == name);
                }
            }
            assert(name_set(self.channels@) =~= name_set(old(self).channels@).insert(channel@));
        } else {
            assert(name_set(self.channels@) =~= name_set(old(self).channels@).insert(channel@));
        }
    }

    /// Gives a channel up. Giving up a channel that was not subscribed to
    /// changes nothing.
    pub fn unsubscribe(&mut self, channel: &str)
        ensures
            final(self)@ == (ClientView {
                channels: old(self)@.channels.remove(channel@),
                ..old(self)@
            }),
    {
        let mut kept: Vec<String> = Vec::new();
        let mut i: usize = 0;
        while i < self.channels.len()
            invariant
                i <= self.channels@.len(),
                name_set(kept@) == name_set(self.channels@.take(i as int)).remove(channel@),
            decreases self.channels@.len() - i,
        {
            let ghost before = kept@;
            let ghost seen = self.channels@.take(i as int);
            let ghost more = self.channels@.take(i + 1);
            let ghost name = self.channels@[i as int]@;
            assert(more =~= seen.push(self.channels@[i as int]));
            if !str_eq(self.channels[i].as_str(), channel) {
                kept.push(self.channels[i].clone());
                proof {
                    lemma_name_set_push(before, kept@[kept@.len() - 1]);
                    lemma_name_set_push(seen, self.channels@[i as int]);
                    assert(kept@ =~= before.push(kept@[kept@.len() - 1]));
                    assert(name_set(kept@) =~= name_set(more).remove(channel@));
                }
            } else {
                proof {
                    lemma_name_set_push(seen, self.channels@[i as int]);
                    assert(name_set(kept@) =~= name_set(more).remove(channel@));
                }
            }
            i += 1;
        }
        assert(self.channels@.take(i as int) =~= self.channels@);
        self.channels = kept;
    }

    /// The address of the peer.
    pub fn addr(&self) -> (r: PeerAddr)
        ensures
            r == self@.addr,
    {
        self.addr
    }

    /// The names of the channels subscribed to.
    pub fn channels(&self) -> (r: &Vec<String>)
        ensures
            name_set(r@) == self@.channels,
    {
        &self.channels
    }

    /// Takes the snapshot out of the session, which then holds none.
    pub fn take_last_message(&mut self) -> (r: Option<Json>)
        ensures
            snapshot_view(r) == old(self)@.last_message,
            final(self)@ == (ClientView { last_message: None, ..old(self)@ }),
    {
        self.last_message.take()
    }

    /// Puts a snapshot into the session.
    pub fn set_last_message(&mut self, last_message: Json)
        ensures
            final(self)@ == (ClientView { last_message: Some(last_message@), ..old(self)@ }),
    {
        self.last_message = Some(last_message)
    }
}

/// The names in a list with one more string are the names in the list and the
/// text of that string.
pub proof fn lemma_name_set_push(names: Seq<String>, name: String)
    ensures
        name_set(names.push(name)) == name_set(names).insert(name@),
{
    let longer = names.push(name);
    assert forall|n: Seq<char>| name_set(longer).contains(n) == name_set(names).insert(
        name@,
    ).contains(n) by {
        if name_set(longer).contains(n) {
            let i = choose|i: int| 0 <= i < longer.len() && (#[trigger] longer[i])@ == n;
            if i < names.len() {
                assert(names[i]@ == n);
            }
        }
        if name_set(names).contains(n) {
            let i = choose|i: int| 0 <= i < names.len() && (#[trigger] names[i])@ == n;
            assert(longer[i]@ == n);
        }
        if n == name@ {
            assert(longer[longer.len() - 1]@ == n);
        }
    }
    assert(name_set(longer) =~= name_set(names).insert(name@));
}

} // verus!
