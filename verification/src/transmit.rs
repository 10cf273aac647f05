use crate::payload;
use vstd::prelude::*;

verus! {

/// What the hub sends to a peer.
#[derive(Debug, PartialEq, Eq)]
pub enum Message {
    /// Another peer's session description.
    Offer(payload::Offer),
    /// The members of the peer's room.
    UpdateClientList(payload::UpdateClientList),
    /// The peer's own identity.
    UpdateIdentity(payload::UpdateIdentity),
}

/// What the hub sends to a peer, under the name the hub's own modules use.
pub type OutgoingMessage = Message;

impl Message {
    /// Whether `other` says the same as `self`: the same variant with the
    /// same text, the same identities and the same member list.
    pub open spec fn same_as(self, other: Message) -> bool {
        match (self, other) {
            (Message::Offer(a), Message::Offer(b)) => a == b,
            (Message::UpdateClientList(a), Message::UpdateClientList(b)) => a.props.clients@
                == b.props.clients@,
            (Message::UpdateIdentity(a), Message::UpdateIdentity(b)) => a == b,
            _ => false,
        }
    }
}

impl Clone for Message {
    fn clone(&self) -> (copy: Self)
        ensures
            self.same_as(copy),
    {
        match self {
            Message::Offer(offer) => Message::Offer(offer.clone()),
            Message::UpdateClientList(list) => Message::UpdateClientList(list.clone()),
            Message::UpdateIdentity(identity) => Message::UpdateIdentity(*identity),
        }
    }
}

} // verus!
