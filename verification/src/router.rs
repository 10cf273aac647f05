use crate::broadcast::roster::roster_in;
use crate::broadcast::v1;
use crate::channel::returned;
use crate::identity::Identity;
use crate::payload;
use crate::transmit::OutgoingMessage;
use vstd::prelude::*;

verus! {

/// What a peer sends to the hub.
#[derive(Debug, PartialEq, Eq)]
pub enum IncomingMessage {
    /// Session descriptions, each for one other peer.
    Offers(payload::Offers),
}

impl Clone for IncomingMessage {
    fn clone(&self) -> (copy: Self)
        ensures
            match (*self, copy) {
                (IncomingMessage::Offers(mine), IncomingMessage::Offers(other)) => {
                    mine.props.offers@ == other.props.offers@
                },
            },
    {
        match self {
            IncomingMessage::Offers(offers) => IncomingMessage::Offers(offers.clone()),
        }
    }
}

/// What the hub tells a sender's peers about one session description.
pub type Outcome = Result<(), v1::SendError<v1::Message<OutgoingMessage>>>;

/// The message that relays `target`'s session description: kind and SDP
/// text as the peer `who` sent them, with `who` as the initiator.
pub open spec fn relayed(target: payload::prop::OfferTarget, who: Identity) -> OutgoingMessage {
    OutgoingMessage::Offer(
        payload::Offer {
            props: payload::prop::Offer {
                _kind: target.offer._kind,
                sdp: target.offer.sdp,
                initiator_id: who,
            },
        },
    )
}

/// Turns one session description from the peer `who` into the message for
/// the peer it is meant for.
pub fn relay(target: payload::prop::OfferTarget, who: Identity) -> (forward: (
    Identity,
    OutgoingMessage,
))
    ensures
        forward == (target.id, relayed(target, who)),
{
    let offer = payload::Offer { props: target.offer.with_initiator(who) };
    (target.id, OutgoingMessage::Offer(offer))
}

/// Whether `outcome` is what sending `target`'s session description from
/// `who` may give, in an envelope written by `sender` and in a room whose
/// members are `roster`.
pub open spec fn relay_outcome(
    outcome: Outcome,
    target: payload::prop::OfferTarget,
    who: Identity,
    sender: Identity,
    roster: Seq<Identity>,
) -> bool {
    &&& outcome == Err::<(), v1::SendError<v1::Message<OutgoingMessage>>>(
        v1::SendError::NotFound,
    ) <==> !roster.contains(target.id)
    &&& outcome matches Err(v1::SendError::MpscError(failure)) ==> returned(failure)
        == (v1::Message { broadcaster_id: Some(sender), payload: relayed(target, who) })
}

/// Acts on one message from the peer `who`: each session description in it
/// is sent, tagged with `who` as its initiator, to the one peer it names, in
/// the order given. A failed delivery does not stop the others.
///
/// The result has one entry per session description: `NotFound` exactly for
/// a target that is not in the sender's room, else `Ok`, or the failure of
/// the target's inbox with the envelope that was not delivered.
pub fn handle(
    message: IncomingMessage,
    who: Identity,
    room_tx: &v1::RoomSender<OutgoingMessage>,
    hub: &v1::Broadcast<OutgoingMessage>,
) -> (outcomes: Vec<Outcome>)
    ensures
        message matches IncomingMessage::Offers(data) && outcomes@.len()
            == data.props.offers@.len() && forall|i: int|
            0 <= i < outcomes@.len() ==> relay_outcome(
                #[trigger] outcomes@[i],
                data.props.offers@[i],
                who,
                room_tx.id(),
                roster_in(hub@, room_tx.room()),
            ),
{
    let mut outcomes: Vec<Outcome> = Vec::new();
    match message {
        IncomingMessage::Offers(payload::Offers { props: data }) => {
            let ghost offers = data.offers@;
            for offer_target in iter: data.offers
                invariant
                    iter.seq() == offers,
                    outcomes@.len() == iter.index(),
                    forall|i: int|
                        0 <= i < outcomes@.len() ==> relay_outcome(
                            #[trigger] outcomes@[i],
                            offers[i],
                            who,
                            room_tx.id(),
                            roster_in(hub@, room_tx.room()),
                        ),
            {
                let (target, forward) = relay(offer_target, who);
                let outcome = room_tx.send_to(hub, target, forward);
                outcomes.push(outcome);
            }
        },
    }
    outcomes
}

} // verus!
