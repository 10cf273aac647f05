use signaling_hub::broadcast::v1::{
    delivery, Arrival, Broadcast, Message, Received, RoomReceiver, SendError, INBOX_CAPACITY,
    STREAM_CAPACITY,
};
use signaling_hub::identity::Identity;
use tokio::sync::broadcast::error::RecvError;
use tokio::sync::mpsc::error::TrySendError;

fn peer(last: u32) -> Identity {
    Identity::V4 { ip: 0x0a00_0000 + last, port: 5000 }
}

/// Everything that waits for the receiver right now, in the order it gets it.
fn drain(hub: &Broadcast<u32>, rx: &mut RoomReceiver<u32>) -> Vec<u32> {
    let mut got = Vec::new();
    while let Ok(envelope) = rx.room_rx.try_recv() {
        if let Received::Payload(payload) = rx.recv(hub, Arrival::Room(Ok(envelope))) {
            got.push(payload);
        }
    }
    while let Ok(envelope) = rx.client_rx.try_recv() {
        if let Received::Payload(payload) = rx.recv(hub, Arrival::Client(Some(envelope))) {
            got.push(payload);
        }
    }
    got
}

#[test]
fn an_envelope_holds_its_author_and_its_payload() {
    let envelope = Message::new(Some(peer(1)), 7u32);
    assert_eq!(envelope.broadcaster_id, Some(peer(1)));
    assert_eq!(envelope.payload, 7);
    let copy = envelope.clone();
    assert_eq!(copy, envelope);
    let from_the_hub = Message::new(None, 8u32);
    assert_eq!(from_the_hub.broadcaster_id, None);
}

#[test]
fn an_envelope_opens_for_everyone_but_its_author() {
    assert_eq!(Message::new(Some(peer(1)), 7u32).open(peer(1)), None);
    assert_eq!(Message::new(Some(peer(1)), 7u32).open(peer(2)), Some(7));
    assert_eq!(Message::new(None, 7u32).open(peer(1)), Some(7));
}

#[test]
fn a_broadcast_reaches_every_member_but_its_sender() {
    let mut hub: Broadcast<u32> = Broadcast::new();
    let (a_tx, mut a_rx) = hub.join("default", peer(1)).split();
    let (_b_tx, mut b_rx) = hub.join("default", peer(2)).split();
    let (_c_tx, mut c_rx) = hub.join("default", peer(3)).split();
    assert_eq!(a_tx.broadcast(&hub, 42), Some(Ok(3)));
    assert_eq!(drain(&hub, &mut a_rx), Vec::<u32>::new());
    assert_eq!(drain(&hub, &mut b_rx), vec![42]);
    assert_eq!(drain(&hub, &mut c_rx), vec![42]);
}

#[test]
fn the_sender_is_handed_its_own_broadcast_and_skips_it() {
    let mut hub: Broadcast<u32> = Broadcast::new();
    let (a_tx, mut a_rx) = hub.join("default", peer(1)).split();
    assert_eq!(a_tx.broadcast(&hub, 42), Some(Ok(1)));
    let own = a_rx.room_rx.try_recv().unwrap();
    assert_eq!(own, Message::new(Some(peer(1)), 42));
    assert_eq!(a_rx.recv(&hub, Arrival::Room(Ok(own))), Received::Nothing);
}

#[test]
fn broadcasts_of_one_sender_arrive_in_the_order_sent() {
    let mut hub: Broadcast<u32> = Broadcast::new();
    let (a_tx, _a_rx) = hub.join("default", peer(1)).split();
    let (_b_tx, mut b_rx) = hub.join("default", peer(2)).split();
    for n in 0..10u32 {
        assert_eq!(a_tx.broadcast(&hub, n), Some(Ok(2)));
    }
    assert_eq!(drain(&hub, &mut b_rx), (0..10u32).collect::<Vec<u32>>());
}

#[test]
fn a_member_that_joins_later_misses_earlier_broadcasts() {
    let mut hub: Broadcast<u32> = Broadcast::new();
    let (a_tx, _a_rx) = hub.join("default", peer(1)).split();
    assert_eq!(a_tx.broadcast(&hub, 1), Some(Ok(1)));
    let (_b_tx, mut b_rx) = hub.join("default", peer(2)).split();
    assert_eq!(a_tx.broadcast(&hub, 2), Some(Ok(2)));
    assert_eq!(drain(&hub, &mut b_rx), vec![2]);
}

#[test]
fn a_broadcast_stays_in_its_room() {
    let mut hub: Broadcast<u32> = Broadcast::new();
    let (a_tx, _a_rx) = hub.join("red", peer(1)).split();
    let (_b_tx, mut b_rx) = hub.join("blue", peer(2)).split();
    assert_eq!(a_tx.broadcast(&hub, 1), Some(Ok(1)));
    assert_eq!(drain(&hub, &mut b_rx), Vec::<u32>::new());
}

#[test]
fn a_broadcast_with_nobody_listening_comes_back() {
    let mut hub: Broadcast<u32> = Broadcast::new();
    let (a_tx, a_rx) = hub.join("default", peer(1)).split();
    drop(a_rx);
    assert_eq!(a_tx.broadcast(&hub, 42), Some(Err(Message::new(Some(peer(1)), 42))));
}

#[test]
fn a_broadcast_to_a_room_that_is_not_there_is_told_apart() {
    let mut hub: Broadcast<u32> = Broadcast::new();
    let (a_tx, a_rx) = hub.join("default", peer(1)).split();
    let elsewhere: Broadcast<u32> = Broadcast::new();
    assert_eq!(a_tx.broadcast(&elsewhere, 42), None);
    drop(a_rx);
    assert_eq!(a_tx.broadcast(&hub, 42), Some(Err(Message::new(Some(peer(1)), 42))));
}

#[test]
fn the_whole_end_broadcasts_and_receives_as_its_halves_do() {
    let mut hub: Broadcast<u32> = Broadcast::new();
    let mut a = hub.join("default", peer(1));
    let mut b = hub.join("default", peer(2));
    assert_eq!(a.broadcast(&hub, 42), Some(Ok(2)));
    let for_a = a.room_rx.try_recv().unwrap();
    let for_b = b.room_rx.try_recv().unwrap();
    assert_eq!(a.recv(&hub, Arrival::Room(Ok(for_a))), Received::Nothing);
    assert_eq!(b.recv(&hub, Arrival::Room(Ok(for_b))), Received::Payload(42));
    assert_eq!(a.recv(&hub, Arrival::Room(Err(RecvError::Closed))), Received::Closed);
}

#[test]
fn send_to_reaches_the_target_and_nobody_else() {
    let mut hub: Broadcast<u32> = Broadcast::new();
    let (a_tx, mut a_rx) = hub.join("default", peer(1)).split();
    let (_b_tx, mut b_rx) = hub.join("default", peer(2)).split();
    let (_c_tx, mut c_rx) = hub.join("default", peer(3)).split();
    assert_eq!(a_tx.send_to(&hub, peer(2), 7), Ok(()));
    assert_eq!(b_rx.client_rx.try_recv(), Ok(Message::new(Some(peer(1)), 7)));
    assert_eq!(drain(&hub, &mut a_rx), Vec::<u32>::new());
    assert_eq!(drain(&hub, &mut b_rx), Vec::<u32>::new());
    assert_eq!(drain(&hub, &mut c_rx), Vec::<u32>::new());
}

#[test]
fn send_to_a_stranger_is_not_found_and_delivers_nothing() {
    let mut hub: Broadcast<u32> = Broadcast::new();
    let (a_tx, mut a_rx) = hub.join("default", peer(1)).split();
    let (_b_tx, mut b_rx) = hub.join("default", peer(2)).split();
    let (_c_tx, _c_rx) = hub.join("other", peer(3)).split();
    assert_eq!(a_tx.send_to(&hub, peer(9), 7), Err(SendError::NotFound));
    assert_eq!(a_tx.send_to(&hub, peer(3), 7), Err(SendError::NotFound));
    assert_eq!(drain(&hub, &mut a_rx), Vec::<u32>::new());
    assert_eq!(drain(&hub, &mut b_rx), Vec::<u32>::new());
    let elsewhere: Broadcast<u32> = Broadcast::new();
    assert_eq!(a_tx.send_to(&elsewhere, peer(2), 7), Err(SendError::NotFound));
}

#[test]
fn send_to_after_the_target_left_is_not_found() {
    let mut hub: Broadcast<u32> = Broadcast::new();
    let (a_tx, _a_rx) = hub.join("default", peer(1)).split();
    let (_b_tx, _b_rx) = hub.join("default", peer(2)).split();
    hub.leave("default", peer(2));
    assert_eq!(a_tx.send_to(&hub, peer(2), 7), Err(SendError::NotFound));
}

#[test]
fn send_to_oneself_is_delivered_and_then_skipped() {
    let mut hub: Broadcast<u32> = Broadcast::new();
    let (a_tx, mut a_rx) = hub.join("default", peer(1)).split();
    assert_eq!(a_tx.send_to(&hub, peer(1), 7), Ok(()));
    let own = a_rx.client_rx.try_recv().ok();
    assert_eq!(own, Some(Message::new(Some(peer(1)), 7)));
    assert_eq!(a_rx.recv(&hub, Arrival::Client(own)), Received::Nothing);
}

#[test]
fn a_full_inbox_refuses_the_newest_envelope_and_hands_it_back() {
    let mut hub: Broadcast<u32> = Broadcast::new();
    let (a_tx, _a_rx) = hub.join("default", peer(1)).split();
    let (_b_tx, mut b_rx) = hub.join("default", peer(2)).split();
    assert_eq!(INBOX_CAPACITY, 16);
    for n in 0..16u32 {
        assert_eq!(a_tx.send_to(&hub, peer(2), n), Ok(()));
    }
    assert_eq!(
        a_tx.send_to(&hub, peer(2), 16),
        Err(SendError::MpscError(TrySendError::Full(Message::new(Some(peer(1)), 16))))
    );
    assert_eq!(drain(&hub, &mut b_rx), (0..16u32).collect::<Vec<u32>>());
    assert_eq!(a_tx.send_to(&hub, peer(2), 17), Ok(()));
    assert_eq!(drain(&hub, &mut b_rx), vec![17]);
}

#[test]
fn an_inbox_that_is_no_longer_read_hands_the_envelope_back() {
    let mut hub: Broadcast<u32> = Broadcast::new();
    let (a_tx, _a_rx) = hub.join("default", peer(1)).split();
    let (_b_tx, b_rx) = hub.join("default", peer(2)).split();
    drop(b_rx);
    assert_eq!(
        a_tx.send_to(&hub, peer(2), 7),
        Err(SendError::MpscError(TrySendError::Closed(Message::new(Some(peer(1)), 7))))
    );
}

#[test]
fn a_failed_send_to_one_member_does_not_touch_the_others() {
    let mut hub: Broadcast<u32> = Broadcast::new();
    let (a_tx, _a_rx) = hub.join("default", peer(1)).split();
    let (_b_tx, b_rx) = hub.join("default", peer(2)).split();
    let (_c_tx, mut c_rx) = hub.join("default", peer(3)).split();
    drop(b_rx);
    assert!(a_tx.send_to(&hub, peer(2), 1).is_err());
    assert_eq!(a_tx.send_to(&hub, peer(3), 2), Ok(()));
    assert_eq!(drain(&hub, &mut c_rx), vec![2]);
}

#[test]
fn the_room_itself_sends_as_the_halves_do() {
    let mut hub: Broadcast<u32> = Broadcast::new();
    let (_a_tx, mut a_rx) = hub.join("default", peer(1)).split();
    let (_b_tx, mut b_rx) = hub.join("default", peer(2)).split();
    let room = hub.room("default").unwrap();
    assert_eq!(room.roster(), vec![peer(1), peer(2)]);
    assert_eq!(room.broadcast(Message::new(None, 1)), Ok(2));
    assert_eq!(room.send_to(peer(2), Message::new(None, 2)), Ok(()));
    assert_eq!(room.send_to(peer(3), Message::new(None, 3)), Err(SendError::NotFound));
    assert_eq!(drain(&hub, &mut a_rx), vec![1]);
    assert_eq!(drain(&hub, &mut b_rx), vec![1, 2]);
}

#[test]
fn what_an_inbox_said_is_passed_on_unchanged() {
    assert_eq!(delivery::<u32>(Ok(())), Ok(()));
    assert_eq!(
        delivery(Err(TrySendError::Full(3u32))),
        Err(SendError::MpscError(TrySendError::Full(3u32)))
    );
    assert_eq!(
        delivery(Err(TrySendError::Closed(4u32))),
        Err(SendError::MpscError(TrySendError::Closed(4u32)))
    );
}

#[test]
fn the_end_of_the_stream_ends_the_messages() {
    let mut hub: Broadcast<u32> = Broadcast::new();
    let (_a_tx, mut a_rx) = hub.join("default", peer(1)).split();
    assert_eq!(a_rx.recv(&hub, Arrival::Room(Err(RecvError::Closed))), Received::Closed);
    drop(hub);
    let end = a_rx.room_rx.try_recv();
    assert_eq!(end, Err(tokio::sync::broadcast::error::TryRecvError::Closed));
}

#[test]
fn a_closed_inbox_and_a_lag_give_nothing_and_do_not_end_the_messages() {
    let mut hub: Broadcast<u32> = Broadcast::new();
    let (_a_tx, mut a_rx) = hub.join("default", peer(1)).split();
    assert_eq!(a_rx.recv(&hub, Arrival::Client(None)), Received::Nothing);
    assert_eq!(a_rx.recv(&hub, Arrival::Room(Err(RecvError::Lagged(3)))), Received::Nothing);
}

#[test]
fn an_inbox_is_waited_on_until_it_is_found_closed() {
    let mut hub: Broadcast<u32> = Broadcast::new();
    let a = hub.join("default", peer(1));
    assert!(a.listens_to_inbox());
    let (_a_tx, mut a_rx) = a.split();
    assert!(a_rx.listens_to_inbox());
    assert_eq!(a_rx.recv(&hub, Arrival::Client(Some(Message::new(None, 1)))), Received::Payload(1));
    assert_eq!(a_rx.recv(&hub, Arrival::Room(Ok(Message::new(None, 2)))), Received::Payload(2));
    assert_eq!(a_rx.recv(&hub, Arrival::Room(Err(RecvError::Lagged(1)))), Received::Nothing);
    assert!(a_rx.listens_to_inbox());
    let (_again_tx, _again_rx) = hub.join("default", peer(1)).split();
    assert!(a_rx.client_rx.try_recv().is_err());
    assert_eq!(a_rx.recv(&hub, Arrival::Client(None)), Received::Nothing);
    assert!(!a_rx.listens_to_inbox());
    assert_eq!(a_rx.recv(&hub, Arrival::Room(Ok(Message::new(None, 3)))), Received::Payload(3));
    assert!(!a_rx.listens_to_inbox());

    let mut whole = hub.join("default", peer(2));
    assert_eq!(whole.recv(&hub, Arrival::Client(None)), Received::Nothing);
    assert!(!whole.listens_to_inbox());
    let (_tx, rx) = whole.split();
    assert!(!rx.listens_to_inbox());
}

#[test]
fn a_slow_receiver_loses_the_oldest_broadcasts_and_goes_on() {
    let mut hub: Broadcast<u32> = Broadcast::new();
    let (a_tx, _a_rx) = hub.join("default", peer(1)).split();
    let (_b_tx, mut b_rx) = hub.join("default", peer(2)).split();
    assert_eq!(STREAM_CAPACITY, 64);
    for n in 0..70u32 {
        assert_eq!(a_tx.broadcast(&hub, n), Some(Ok(2)));
    }
    let lagged = b_rx.room_rx.try_recv();
    assert_eq!(lagged, Err(tokio::sync::broadcast::error::TryRecvError::Lagged(6)));
    assert_eq!(b_rx.recv(&hub, Arrival::Room(Err(RecvError::Lagged(6)))), Received::Nothing);
    assert_eq!(drain(&hub, &mut b_rx), (6..70u32).collect::<Vec<u32>>());
}

#[test]
fn a_peer_that_left_is_handed_nothing_more() {
    let mut hub: Broadcast<u32> = Broadcast::new();
    let (_a_tx, mut a_rx) = hub.join("default", peer(1)).split();
    let (b_tx, mut b_rx) = hub.join("default", peer(2)).split();
    assert_eq!(b_tx.broadcast(&hub, 1), Some(Ok(2)));
    assert_eq!(drain(&hub, &mut a_rx), vec![1]);
    hub.leave("default", peer(1));
    assert!(!hub.is_member("default", peer(1)));
    assert!(hub.is_member("default", peer(2)));
    assert_eq!(b_tx.broadcast(&hub, 2), Some(Ok(2)));
    let late = a_rx.room_rx.try_recv().unwrap();
    assert_eq!(late, Message::new(Some(peer(2)), 2));
    assert_eq!(a_rx.recv(&hub, Arrival::Room(Ok(late))), Received::Closed);
    assert_eq!(a_rx.recv(&hub, Arrival::Room(Ok(Message::new(None, 3)))), Received::Closed);
    assert_eq!(a_rx.recv(&hub, Arrival::Client(Some(Message::new(None, 4)))), Received::Closed);
    assert_eq!(b_rx.recv(&hub, Arrival::Room(Ok(Message::new(None, 3)))), Received::Payload(3));
    let nowhere: Broadcast<u32> = Broadcast::new();
    assert!(!nowhere.is_member("default", peer(2)));
    assert_eq!(b_rx.recv(&nowhere, Arrival::Room(Ok(Message::new(None, 3)))), Received::Closed);
}

#[test]
fn a_half_holds_what_waited_before_the_split() {
    let mut hub: Broadcast<u32> = Broadcast::new();
    let a = hub.join("default", peer(1));
    let b = hub.join("default", peer(2));
    assert_eq!(a.broadcast(&hub, 4), Some(Ok(2)));
    let (a_tx, _a_rx) = a.split();
    assert_eq!(a_tx.send_to(&hub, peer(2), 5), Ok(()));
    let (_b_tx, mut b_rx) = b.split();
    assert_eq!(drain(&hub, &mut b_rx), vec![4, 5]);
    assert_eq!(hub.roster("default"), Some(vec![peer(1), peer(2)]));
}

#[test]
fn the_room_hands_out_the_inbox_of_a_member_and_its_stream() {
    let mut hub: Broadcast<u32> = Broadcast::new();
    let (_a_tx, mut a_rx) = hub.join("default", peer(1)).split();
    let (_b_tx, mut b_rx) = hub.join("default", peer(2)).split();
    let room = hub.room("default").unwrap();
    assert!(room.has_member(peer(1)));
    assert!(!room.has_member(peer(3)));
    assert!(room.inbox(peer(3)).is_none());
    assert!(room.inbox(peer(2)).unwrap().try_send(Message::new(None, 6)).is_ok());
    assert_eq!(room.stream_end().send(Message::new(None, 7)).ok(), Some(2));
    assert_eq!(drain(&hub, &mut a_rx), vec![7]);
    assert_eq!(drain(&hub, &mut b_rx), vec![7, 6]);
}

#[test]
fn messages_of_the_hub_reach_everyone() {
    let mut hub: Broadcast<u32> = Broadcast::new();
    let (_a_tx, mut a_rx) = hub.join("default", peer(1)).split();
    assert_eq!(a_rx.recv(&hub, Arrival::Room(Ok(Message::new(None, 5)))), Received::Payload(5));
    assert_eq!(a_rx.recv(&hub, Arrival::Client(Some(Message::new(None, 6)))), Received::Payload(6));
    assert_eq!(
        a_rx.recv(&hub, Arrival::Room(Ok(Message::new(Some(peer(2)), 7)))),
        Received::Payload(7)
    );
}
