use crate::broadcast::roster::{
    after_join, after_leave, distinct_members, ends_after_join, ends_after_leave, roster_in,
};
use crate::broadcast::v1;
use crate::identity::Identity;
use crate::payload;
use crate::router::{handle, relay_outcome, IncomingMessage, Outcome};
use crate::transmit::OutgoingMessage;
use core::ops::ControlFlow;
use vstd::prelude::*;

verus! {

/// One frame from a peer's connection, as far as the hub cares about it.
#[derive(Debug, PartialEq, Eq)]
pub enum Frame {
    /// A text frame, with the message its text decodes to, if it decodes.
    Text(Option<IncomingMessage>),
    /// A binary frame.
    Binary,
    /// The peer closes the connection.
    Close,
    /// A ping.
    Ping,
    /// A pong.
    Pong,
}

/// The first message on every connection: it tells the peer the identity the
/// hub knows it by.
pub fn identity_update(who: Identity) -> (greeting: OutgoingMessage)
    ensures
        greeting == OutgoingMessage::UpdateIdentity(
            payload::UpdateIdentity { props: payload::prop::UpdateIdentity { your_id: who } },
        ),
{
    OutgoingMessage::UpdateIdentity(
        payload::UpdateIdentity { props: payload::prop::UpdateIdentity { your_id: who } },
    )
}

/// Brings the peer `who` into the room called `room_name`: it becomes a
/// member, and then the room's new roster is announced to every member, the
/// new one too. Every other member keeps its inbox, and every room that was
/// there its stream.
///
/// The result holds the peer's sending and receiving halves, and what became
/// of the announcement: the number of receivers it was handed to, or the
/// announcement itself if nobody was subscribed.
pub fn connect(
    hub: &mut v1::Broadcast<OutgoingMessage>,
    room_name: &str,
    who: Identity,
) -> (ends: (
    v1::RoomSender<OutgoingMessage>,
    v1::RoomReceiver<OutgoingMessage>,
    Result<usize, v1::Message<OutgoingMessage>>,
))
    ensures
        final(hub)@ == after_join(old(hub)@, room_name@, who),
        distinct_members(final(hub)@),
        final(hub).inboxes() == ends_after_join(
            old(hub).inboxes(),
            room_name@,
            who,
            final(hub).inboxes()[room_name@][who],
        ),
        final(hub).streams() == if old(hub)@.contains_key(room_name@) {
            old(hub).streams()
        } else {
            old(hub).streams().insert(room_name@, final(hub).streams()[room_name@])
        },
        ends.0.id() == who,
        ends.0.room() == room_name@,
        ends.1.id() == who,
        ends.1.room() == room_name@,
        ends.1.inbox_open(),
        ends.2 matches Ok(receivers) ==> receivers > 0,
        ends.2 matches Err(unsent) ==> v1::announces(unsent, final(hub)@[room_name@], None),
{
    let (room_tx, room_rx) = hub.join(room_name, who).split();
    match hub.broadcast_clients_list_update(room_name, None) {
        Some(announced) => (room_tx, room_rx, announced),
        None => {
            assert(hub@.contains_key(room_name@));
            vstd::pervasive::unreached()
        },
    }
}

/// Takes the peer `who` out of the room called `room_name`, and then
/// announces the room's roster to the members that remain. They keep their
/// inboxes, and every room its stream; `who` is served no more.
///
/// Nothing happens, and `None` is returned, where the room does not exist.
/// Else the result says what became of the announcement.
pub fn disconnect(
    hub: &mut v1::Broadcast<OutgoingMessage>,
    room_name: &str,
    who: Identity,
) -> (sent: Option<Result<usize, v1::Message<OutgoingMessage>>>)
    ensures
        final(hub)@ == after_leave(old(hub)@, room_name@, who),
        distinct_members(final(hub)@),
        final(hub).inboxes() == ends_after_leave(old(hub).inboxes(), room_name@, who),
        final(hub).streams() == old(hub).streams(),
        sent is Some <==> old(hub)@.contains_key(room_name@),
        sent matches Some(Ok(receivers)) ==> receivers > 0,
        sent matches Some(Err(unsent)) ==> v1::announces(unsent, final(hub)@[room_name@], None),
{
    hub.leave(room_name, who);
    hub.broadcast_clients_list_update(room_name, None)
}

/// Acts on one frame from the peer `who`.
///
/// A close frame ends the connection's reading: the result is `Break`. Any
/// other frame lets it go on. A text frame that decodes to a message is
/// acted on as `handle` says, and `Continue` holds what became of each
/// session description in it; for every other frame it holds nothing.
pub fn process_message(
    msg: Frame,
    who: Identity,
    room_tx: &v1::RoomSender<OutgoingMessage>,
    hub: &v1::Broadcast<OutgoingMessage>,
) -> (flow: ControlFlow<(), Vec<Outcome>>)
    ensures
        flow is Break <==> msg is Close,
        flow matches ControlFlow::Continue(outcomes) ==> match msg {
            Frame::Text(Some(IncomingMessage::Offers(data))) => {
                &&& outcomes@.len() == data.props.offers@.len()
                &&& forall|i: int|
                    0 <= i < outcomes@.len() ==> relay_outcome(
                        #[trigger] outcomes@[i],
                        data.props.offers@[i],
                        who,
                        room_tx.id(),
                        roster_in(hub@, room_tx.room()),
                    )
            },
            _ => outcomes@.len() == 0,
        },
{
    match msg {
        Frame::Text(Some(message)) => ControlFlow::Continue(handle(message, who, room_tx, hub)),
        Frame::Close => ControlFlow::Break(()),
        _ => ControlFlow::Continue(Vec::new()),
    }
}

} // verus!
