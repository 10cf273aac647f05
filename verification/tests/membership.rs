use signaling_hub::broadcast::v1::Broadcast;
use signaling_hub::identity::Identity;
use tokio::sync::mpsc::error::TryRecvError;

fn peer(last: u32, port: u16) -> Identity {
    Identity::V4 { ip: 0x7f00_0000 + last, port }
}

#[test]
fn a_new_registry_has_no_rooms() {
    let hub: Broadcast<u32> = Broadcast::new();
    assert_eq!(hub.roster("default"), None);
    assert!(hub.room("default").is_none());
    let by_default: Broadcast<u32> = Broadcast::default();
    assert_eq!(by_default.roster("default"), None);
}

#[test]
fn join_creates_the_room_and_lists_members_in_order() {
    let mut hub: Broadcast<u32> = Broadcast::new();
    let _a = hub.join("default", peer(1, 4000));
    assert_eq!(hub.roster("default"), Some(vec![peer(1, 4000)]));
    let _b = hub.join("default", peer(2, 4000));
    let _c = hub.join("default", peer(3, 4000));
    assert_eq!(
        hub.roster("default"),
        Some(vec![peer(1, 4000), peer(2, 4000), peer(3, 4000)])
    );
    assert_eq!(hub.roster("other"), None);
    assert_eq!(hub.room("default").map(|room| room.roster()), hub.roster("default"));
}

#[test]
fn rooms_are_kept_apart() {
    let mut hub: Broadcast<u32> = Broadcast::new();
    let _a = hub.join("red", peer(1, 1));
    let _b = hub.join("blue", peer(2, 2));
    let _c = hub.join("red", peer(3, 3));
    assert_eq!(hub.roster("red"), Some(vec![peer(1, 1), peer(3, 3)]));
    assert_eq!(hub.roster("blue"), Some(vec![peer(2, 2)]));
    hub.leave("red", peer(2, 2));
    assert_eq!(hub.roster("blue"), Some(vec![peer(2, 2)]));
    hub.leave("blue", peer(2, 2));
    assert_eq!(hub.roster("blue"), Some(vec![]));
    assert_eq!(hub.roster("red"), Some(vec![peer(1, 1), peer(3, 3)]));
}

#[test]
fn identities_differ_by_every_component() {
    let mut hub: Broadcast<u32> = Broadcast::new();
    let v4 = Identity::V4 { ip: 1, port: 80 };
    let other_port = Identity::V4 { ip: 1, port: 81 };
    let v6 = Identity::V6 { ip: 1, port: 80, flowinfo: 0, scope_id: 0 };
    let scoped = Identity::V6 { ip: 1, port: 80, flowinfo: 0, scope_id: 7 };
    let _1 = hub.join("default", v4);
    let _2 = hub.join("default", other_port);
    let _3 = hub.join("default", v6);
    let _4 = hub.join("default", scoped);
    assert_eq!(hub.roster("default"), Some(vec![v4, other_port, v6, scoped]));
}

#[test]
fn joining_again_keeps_one_entry_in_its_place_and_replaces_the_inbox() {
    let mut hub: Broadcast<u32> = Broadcast::new();
    let a = peer(1, 1);
    let b = peer(2, 2);
    let (_old_tx, mut old_rx) = hub.join("default", a).split();
    let (b_tx, _b_rx) = hub.join("default", b).split();
    let (_new_tx, mut new_rx) = hub.join("default", a).split();
    assert_eq!(hub.roster("default"), Some(vec![a, b]));
    assert_eq!(old_rx.client_rx.try_recv(), Err(TryRecvError::Disconnected));
    assert!(b_tx.send_to(&hub, a, 5).is_ok());
    assert_eq!(new_rx.client_rx.try_recv().map(|envelope| envelope.payload), Ok(5));
}

#[test]
fn leave_removes_the_member_and_keeps_the_order_of_the_rest() {
    let mut hub: Broadcast<u32> = Broadcast::new();
    let _a = hub.join("default", peer(1, 1));
    let _b = hub.join("default", peer(2, 2));
    let _c = hub.join("default", peer(3, 3));
    hub.leave("default", peer(2, 2));
    assert_eq!(hub.roster("default"), Some(vec![peer(1, 1), peer(3, 3)]));
    hub.leave("default", peer(1, 1));
    assert_eq!(hub.roster("default"), Some(vec![peer(3, 3)]));
}

#[test]
fn those_who_stay_keep_their_inboxes_and_the_room_its_stream() {
    let mut hub: Broadcast<u32> = Broadcast::new();
    let (a_tx, mut a_rx) = hub.join("default", peer(1, 1)).split();
    let (_b_tx, mut b_rx) = hub.join("default", peer(2, 2)).split();
    assert_eq!(a_tx.send_to(&hub, peer(2, 2), 1), Ok(()));
    let (_c_tx, _c_rx) = hub.join("default", peer(3, 3)).split();
    assert_eq!(a_tx.send_to(&hub, peer(2, 2), 2), Ok(()));
    hub.leave("default", peer(3, 3));
    hub.leave("default", peer(3, 3));
    assert_eq!(a_tx.send_to(&hub, peer(2, 2), 3), Ok(()));
    assert_eq!(a_tx.broadcast(&hub, 4), Some(Ok(3)));
    for expected in 1..=3u32 {
        assert_eq!(b_rx.client_rx.try_recv().map(|envelope| envelope.payload), Ok(expected));
    }
    assert_eq!(b_rx.room_rx.try_recv().map(|envelope| envelope.payload), Ok(4));
    assert_eq!(a_rx.room_rx.try_recv().map(|envelope| envelope.payload), Ok(4));
}

#[test]
fn leaving_twice_is_a_no_op_the_second_time() {
    let mut hub: Broadcast<u32> = Broadcast::new();
    let _a = hub.join("default", peer(1, 1));
    let _b = hub.join("default", peer(2, 2));
    hub.leave("default", peer(1, 1));
    assert_eq!(hub.roster("default"), Some(vec![peer(2, 2)]));
    hub.leave("default", peer(1, 1));
    assert_eq!(hub.roster("default"), Some(vec![peer(2, 2)]));
}

#[test]
fn leaving_without_having_joined_is_a_no_op() {
    let mut hub: Broadcast<u32> = Broadcast::new();
    hub.leave("default", peer(1, 1));
    assert_eq!(hub.roster("default"), None);
    let _a = hub.join("default", peer(1, 1));
    hub.leave("default", peer(9, 9));
    hub.leave("nowhere", peer(1, 1));
    assert_eq!(hub.roster("default"), Some(vec![peer(1, 1)]));
    assert_eq!(hub.roster("nowhere"), None);
}

#[test]
fn an_emptied_room_stays_and_can_be_joined_again() {
    let mut hub: Broadcast<u32> = Broadcast::new();
    let _a = hub.join("default", peer(1, 1));
    hub.leave("default", peer(1, 1));
    assert_eq!(hub.roster("default"), Some(vec![]));
    let _b = hub.join("default", peer(2, 2));
    assert_eq!(hub.roster("default"), Some(vec![peer(2, 2)]));
}

#[test]
fn the_roster_follows_any_run_of_joins_and_leaves() {
    let mut hub: Broadcast<u32> = Broadcast::new();
    let mut kept = Vec::new();
    for round in 0..4u32 {
        for last in 1..=6u32 {
            kept.push(hub.join("default", peer(last, 1)));
            if (last + round) % 3 == 0 {
                hub.leave("default", peer(last, 1));
            }
        }
        hub.leave("default", peer(round + 1, 1));
    }
    // The last round is round 3: peers 3 and 6 left in it, and then peer 4.
    // Who left in an earlier round came back at the end of the list.
    let roster = hub.roster("default").unwrap();
    let mut without_duplicates = roster.clone();
    without_duplicates.dedup();
    assert_eq!(roster.len(), without_duplicates.len());
    for last in [1u32, 2, 5] {
        assert_eq!(roster.iter().filter(|id| **id == peer(last, 1)).count(), 1);
    }
    for last in [3u32, 4, 6] {
        assert!(!roster.contains(&peer(last, 1)));
    }
    assert_eq!(roster.len(), 3);
}
