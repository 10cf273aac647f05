use core::ops::ControlFlow;
use signaling_hub::broadcast::v1::{Arrival, Broadcast, Message, Received, SendError};
use signaling_hub::handshake::{connect, disconnect, identity_update, process_message, Frame};
use signaling_hub::identity::Identity;
use signaling_hub::payload;
use signaling_hub::router::{handle, relay, IncomingMessage};
use signaling_hub::transmit::OutgoingMessage;
use tokio::sync::mpsc::error::TrySendError;

fn peer(last: u32) -> Identity {
    Identity::V6 {
        ip: 0xfe80_0000_0000_0000_0000_0000_0000_0000 + last as u128,
        port: 443,
        flowinfo: 0,
        scope_id: 2,
    }
}

fn description(sdp: &str) -> payload::webapi::Offer {
    payload::webapi::Offer { _kind: String::from("offer"), sdp: String::from(sdp) }
}

fn offers(targets: &[(Identity, &str)]) -> IncomingMessage {
    IncomingMessage::Offers(payload::Offers {
        props: payload::prop::Offers {
            offers: targets
                .iter()
                .map(|(id, sdp)| payload::prop::OfferTarget { id: *id, offer: description(sdp) })
                .collect(),
        },
    })
}

fn offer_from(initiator: Identity, sdp: &str) -> OutgoingMessage {
    OutgoingMessage::Offer(payload::Offer {
        props: payload::prop::Offer {
            _kind: String::from("offer"),
            sdp: String::from(sdp),
            initiator_id: initiator,
        },
    })
}

fn roster_of(clients: Vec<Identity>) -> OutgoingMessage {
    OutgoingMessage::UpdateClientList(payload::UpdateClientList {
        props: payload::prop::UpdateClientList { clients },
    })
}

#[test]
fn with_initiator_keeps_kind_and_text_and_adds_the_sender() {
    let tagged = description("v=0").with_initiator(peer(1));
    assert_eq!(tagged._kind, "offer");
    assert_eq!(tagged.sdp, "v=0");
    assert_eq!(tagged.initiator_id, peer(1));
}

#[test]
fn a_copy_of_a_payload_equals_it() {
    let message = offers(&[(peer(1), "a"), (peer(2), "b")]);
    assert_eq!(message.clone(), message);
    let offer = offer_from(peer(1), "x");
    assert_eq!(offer.clone(), offer);
    let roster = roster_of(vec![peer(1), peer(2)]);
    assert_eq!(roster.clone(), roster);
    let greeting = identity_update(peer(3));
    assert_eq!(greeting.clone(), greeting);
    let target = payload::prop::OfferTarget { id: peer(4), offer: description("y") };
    assert_eq!(target.clone(), target);
}

#[test]
fn the_greeting_tells_the_peer_its_identity() {
    assert_eq!(
        identity_update(peer(5)),
        OutgoingMessage::UpdateIdentity(payload::UpdateIdentity {
            props: payload::prop::UpdateIdentity { your_id: peer(5) },
        })
    );
}

#[test]
fn relay_addresses_the_target_and_names_the_initiator() {
    let target = payload::prop::OfferTarget { id: peer(2), offer: description("x") };
    assert_eq!(relay(target, peer(1)), (peer(2), offer_from(peer(1), "x")));
}

#[test]
fn handle_sends_each_description_to_its_target_only() {
    let mut hub: Broadcast<OutgoingMessage> = Broadcast::new();
    let (a_tx, mut a_rx) = hub.join("default", peer(1)).split();
    let (_b_tx, mut b_rx) = hub.join("default", peer(2)).split();
    let (_c_tx, mut c_rx) = hub.join("default", peer(3)).split();
    let message = offers(&[(peer(3), "for c"), (peer(9), "for nobody"), (peer(2), "for b")]);
    let outcomes = handle(message, peer(1), &a_tx, &hub);
    assert_eq!(outcomes, vec![Ok(()), Err(SendError::NotFound), Ok(())]);
    let for_b = b_rx.client_rx.try_recv().ok();
    assert_eq!(
        b_rx.recv(&hub, Arrival::Client(for_b)),
        Received::Payload(offer_from(peer(1), "for b"))
    );
    let for_c = c_rx.client_rx.try_recv().ok();
    assert_eq!(
        c_rx.recv(&hub, Arrival::Client(for_c)),
        Received::Payload(offer_from(peer(1), "for c"))
    );
    assert!(a_rx.client_rx.try_recv().is_err());
    assert!(b_rx.client_rx.try_recv().is_err());
    assert!(c_rx.client_rx.try_recv().is_err());
    assert!(b_rx.room_rx.try_recv().is_err());
}

#[test]
fn handle_goes_on_after_a_failed_delivery() {
    let mut hub: Broadcast<OutgoingMessage> = Broadcast::new();
    let (a_tx, _a_rx) = hub.join("default", peer(1)).split();
    let (_b_tx, b_rx) = hub.join("default", peer(2)).split();
    let (_c_tx, mut c_rx) = hub.join("default", peer(3)).split();
    drop(b_rx);
    let outcomes = handle(offers(&[(peer(2), "lost"), (peer(3), "kept")]), peer(1), &a_tx, &hub);
    assert_eq!(
        outcomes,
        vec![
            Err(SendError::MpscError(TrySendError::Closed(Message::new(
                Some(peer(1)),
                offer_from(peer(1), "lost")
            )))),
            Ok(()),
        ]
    );
    assert_eq!(
        c_rx.client_rx.try_recv(),
        Ok(Message::new(Some(peer(1)), offer_from(peer(1), "kept")))
    );
}

#[test]
fn handle_with_no_descriptions_sends_nothing() {
    let mut hub: Broadcast<OutgoingMessage> = Broadcast::new();
    let (a_tx, _a_rx) = hub.join("default", peer(1)).split();
    assert_eq!(handle(offers(&[]), peer(1), &a_tx, &hub), vec![]);
}

#[test]
fn a_close_frame_breaks_and_every_other_frame_continues() {
    let mut hub: Broadcast<OutgoingMessage> = Broadcast::new();
    let (a_tx, _a_rx) = hub.join("default", peer(1)).split();
    let (_b_tx, mut b_rx) = hub.join("default", peer(2)).split();
    assert_eq!(process_message(Frame::Close, peer(1), &a_tx, &hub), ControlFlow::Break(()));
    for frame in [Frame::Binary, Frame::Ping, Frame::Pong, Frame::Text(None)] {
        assert_eq!(process_message(frame, peer(1), &a_tx, &hub), ControlFlow::Continue(vec![]));
    }
    assert!(b_rx.client_rx.try_recv().is_err());
    let text = Frame::Text(Some(offers(&[(peer(2), "x"), (peer(7), "y")])));
    assert_eq!(
        process_message(text, peer(1), &a_tx, &hub),
        ControlFlow::Continue(vec![Ok(()), Err(SendError::NotFound)])
    );
    assert_eq!(
        b_rx.client_rx.try_recv(),
        Ok(Message::new(Some(peer(1)), offer_from(peer(1), "x")))
    );
}

#[test]
fn the_roster_announcement_lists_the_members_in_order() {
    let mut hub: Broadcast<OutgoingMessage> = Broadcast::new();
    assert_eq!(hub.clients_list_update("default", None), None);
    assert_eq!(hub.broadcast_clients_list_update("default", None), None);
    let (_a_tx, mut a_rx) = hub.join("default", peer(1)).split();
    let (_b_tx, mut b_rx) = hub.join("default", peer(2)).split();
    assert_eq!(
        hub.clients_list_update("default", None),
        Some(Message::new(None, roster_of(vec![peer(1), peer(2)])))
    );
    assert_eq!(
        hub.clients_list_update("default", Some(peer(2))),
        Some(Message::new(Some(peer(2)), roster_of(vec![peer(1), peer(2)])))
    );
    assert_eq!(hub.broadcast_clients_list_update("default", Some(peer(2))), Some(Ok(2)));
    let for_a = a_rx.room_rx.try_recv();
    let for_b = b_rx.room_rx.try_recv();
    assert_eq!(
        a_rx.recv(&hub, Arrival::Room(for_a.map_err(|_| unreachable!()))),
        Received::Payload(roster_of(vec![peer(1), peer(2)]))
    );
    assert_eq!(
        b_rx.recv(&hub, Arrival::Room(for_b.map_err(|_| unreachable!()))),
        Received::Nothing
    );
}

#[test]
fn an_announcement_nobody_listens_to_comes_back() {
    let mut hub: Broadcast<OutgoingMessage> = Broadcast::new();
    let a = hub.join("default", peer(1));
    drop(a);
    assert_eq!(
        hub.broadcast_clients_list_update("default", None),
        Some(Err(Message::new(None, roster_of(vec![peer(1)]))))
    );
}

#[test]
fn connect_joins_and_announces_and_disconnect_leaves_and_announces() {
    let mut hub: Broadcast<OutgoingMessage> = Broadcast::new();
    let (_a_tx, mut a_rx, announced) = connect(&mut hub, "default", peer(1));
    assert_eq!(announced, Ok(1));
    assert_eq!(a_rx.room_rx.try_recv(), Ok(Message::new(None, roster_of(vec![peer(1)]))));
    let (_b_tx, mut b_rx, announced) = connect(&mut hub, "default", peer(2));
    assert_eq!(announced, Ok(2));
    assert_eq!(
        a_rx.room_rx.try_recv(),
        Ok(Message::new(None, roster_of(vec![peer(1), peer(2)])))
    );
    assert_eq!(
        b_rx.room_rx.try_recv(),
        Ok(Message::new(None, roster_of(vec![peer(1), peer(2)])))
    );
    drop(a_rx);
    assert_eq!(disconnect(&mut hub, "default", peer(1)), Some(Ok(1)));
    assert_eq!(b_rx.room_rx.try_recv(), Ok(Message::new(None, roster_of(vec![peer(2)]))));
    assert_eq!(hub.roster("default"), Some(vec![peer(2)]));
    assert_eq!(disconnect(&mut hub, "nowhere", peer(1)), None);
    drop(b_rx);
    assert_eq!(
        disconnect(&mut hub, "default", peer(2)),
        Some(Err(Message::new(None, roster_of(vec![]))))
    );
}
