use crate::broadcast::registry::{
    lemma_paired_at, lemma_paired_push, lemma_paired_remove, lemma_paired_update, paired,
};
use crate::broadcast::roster::{
    after_join, after_leave, departed, distinct_members, ends_after_join, ends_after_leave,
    ends_fit, joined, lemma_departed, lemma_departed_at, lemma_departed_push, lemma_joined,
    recipients, roster_in,
};
use crate::identity::Identity;
use crate::transmit::Message;
use vstd::prelude::*;

verus! {

/// How many messages a member's mailbox holds before it is full.
pub const MAILBOX_CAPACITY: usize = 64;

/// Why a mailbox did not take a message. The message is inside.
#[derive(Debug, PartialEq, Eq)]
pub enum Undelivered {
    /// The mailbox is full: its owner reads too slowly.
    Full(Message),
    /// Nobody reads the mailbox any more.
    Closed(Message),
}

impl Undelivered {
    /// The message that was not delivered.
    pub open spec fn message(self) -> Message {
        match self {
            Undelivered::Full(m) => m,
            Undelivered::Closed(m) => m,
        }
    }
}

/// What the sender is told after a mailbox has taken or refused a message.
pub fn receipt(outcome: Result<(), tokio::sync::mpsc::error::TrySendError<Message>>) -> (sent:
    Result<(), Undelivered>)
    ensures
        sent == match outcome {
            Ok(()) => Ok::<(), Undelivered>(()),
            Err(tokio::sync::mpsc::error::TrySendError::Full(m)) => Err(Undelivered::Full(m)),
            Err(tokio::sync::mpsc::error::TrySendError::Closed(m)) => Err(Undelivered::Closed(m)),
        },
{
    match outcome {
        Ok(()) => Ok(()),
        Err(tokio::sync::mpsc::error::TrySendError::Full(m)) => Err(Undelivered::Full(m)),
        Err(tokio::sync::mpsc::error::TrySendError::Closed(m)) => Err(Undelivered::Closed(m)),
    }
}

/// What became of a broadcast for one recipient: who it was for, and whether
/// the recipient's mailbox took the copy or handed it back.
pub type Delivery = (Identity, Result<(), Undelivered>);

/// The identities that the deliveries of a broadcast were for, in order.
pub open spec fn addressees(report: Seq<Delivery>) -> Seq<Identity> {
    report.map_values(|delivery: Delivery| delivery.0)
}

/// Whether every copy that came back in `report` says the same as `m`.
pub open spec fn returns_copies_of(report: Seq<Delivery>, m: Message) -> bool {
    forall|i: int|
        0 <= i < report.len() ==> ((#[trigger] report[i]).1 matches Err(failure) ==> m.same_as(
            failure.message(),
        ))
}

/// One member of a room: its identity and the sending end of its mailbox.
#[derive(Debug)]
pub struct RoomTx(pub Identity, pub tokio::sync::mpsc::Sender<Message>);

impl RoomTx {
    /// Puts `m` into the member's mailbox without waiting for room in it;
    /// a mailbox that is full or no longer read hands `m` back.
    pub fn send(&self, m: Message) -> (sent: Result<(), Undelivered>)
        ensures
            sent matches Err(failure) ==> failure.message() == m,
    {
        receipt(self.1.try_send(m))
    }
}

/// The identities of `sockets`, in the same order.
spec fn ids(sockets: Seq<RoomTx>) -> Seq<Identity> {
    sockets.map_values(|socket: RoomTx| socket.0)
}

/// The mailboxes of `sockets`, in the same order.
spec fn senders(sockets: Seq<RoomTx>) -> Seq<tokio::sync::mpsc::Sender<Message>> {
    sockets.map_values(|socket: RoomTx| socket.1)
}

/// A group of peers, each with a mailbox of its own. A broadcast is handed to
/// every mailbox but the sender's, so no peer has to sort out its own
/// messages.
#[derive(Debug)]
pub struct Room {
    sockets: Vec<RoomTx>,
}

impl Room {
    /// The identities of the members, in the order they joined.
    pub closed spec fn members(&self) -> Seq<Identity> {
        ids(self.sockets@)
    }

    /// The sending end of each member's mailbox.
    pub closed spec fn mailboxes(&self) -> Map<Identity, tokio::sync::mpsc::Sender<Message>> {
        paired(ids(self.sockets@), senders(self.sockets@))
    }

    #[verifier::type_invariant]
    spec fn members_are_distinct(&self) -> bool {
        self.members().no_duplicates()
    }

    /// A mailbox is kept for each member and for nobody else.
    pub proof fn lemma_mailboxes_are_the_members(self)
        ensures
            forall|id: Identity|
                #[trigger] self.mailboxes().contains_key(id) <==> self.members().contains(id),
    {
    }

    /// A room without members.
    pub fn new() -> (room: Self)
        ensures
            room.members() == Seq::<Identity>::empty(),
            room.mailboxes() == Map::<Identity, tokio::sync::mpsc::Sender<Message>>::empty(),
    {
        let room = Room { sockets: Vec::new() };
        assert(room.members() =~= Seq::<Identity>::empty());
        assert(room.mailboxes() =~= Map::<Identity, tokio::sync::mpsc::Sender<Message>>::empty());
        room
    }

    /// Where `id` stands among the members.
    fn position(&self, id: &Identity) -> (found: Option<usize>)
        ensures
            match found {
                Some(at) => at < self.members().len() && self.members()[at as int] == *id,
                None => !self.members().contains(*id),
            },
    {
        let mut at: usize = 0;
        while at < self.sockets.len()
            invariant
                at <= self.sockets.len(),
                forall|i: int| 0 <= i < at ==> self.members()[i] != *id,
            decreases self.sockets.len() - at,
        {
            if self.sockets[at].0 == *id {
                return Some(at);
            }
            at += 1;
        }
        None
    }

    /// How many members the room has.
    pub fn len(&self) -> (count: usize)
        ensures
            count == self.members().len(),
    {
        self.sockets.len()
    }

    /// The member that joined as number `at`, with the mailbox that the room
    /// keeps for it.
    pub fn member(&self, at: usize) -> (socket: Option<&RoomTx>)
        ensures
            match socket {
                Some(found) => {
                    &&& at < self.members().len()
                    &&& found.0 == self.members()[at as int]
                    &&& self.mailboxes().contains_key(found.0)
                    &&& found.1 == self.mailboxes()[found.0]
                },
                None => at >= self.members().len(),
            },
    {
        proof {
            use_type_invariant(self);
        }
        if at < self.sockets.len() {
            proof {
                lemma_paired_at(ids(self.sockets@), senders(self.sockets@), at as int);
            }
            Some(&self.sockets[at])
        } else {
            None
        }
    }

    /// Hands a copy of `m` to the mailbox of every member but `exclude`, in
    /// the order the members joined, without waiting on any of them: a
    /// mailbox that is full or no longer read is passed over and does not
    /// keep the copy from the others.
    ///
    /// The report has one entry for each member but `exclude`, in that
    /// order, and none for `exclude`.
    pub fn broadcast(&self, m: &Message, exclude: &Identity) -> (report: Vec<Delivery>)
        ensures
            addressees(report@) == recipients(self.members(), *exclude),
            returns_copies_of(report@, *m),
    {
        let mut report: Vec<Delivery> = Vec::new();
        let mut at: usize = 0;
        assert(self.members().take(0) =~= Seq::<Identity>::empty());
        assert(addressees(report@) =~= recipients(Seq::<Identity>::empty(), *exclude)) by {
            reveal(Seq::filter);
        }
        while at < self.len()
            invariant
                at <= self.members().len(),
                addressees(report@) == recipients(self.members().take(at as int), *exclude),
                returns_copies_of(report@, *m),
            decreases self.members().len() - at,
        {
            let ghost before = report@;
            proof {
                lemma_departed_push(
                    self.members().take(at as int),
                    self.members()[at as int],
                    *exclude,
                );
                assert(self.members().take(at + 1) =~= self.members().take(at as int).push(
                    self.members()[at as int],
                ));
            }
            match self.member(at) {
                Some(socket) => {
                    if socket.0 != *exclude {
                        let sent = socket.send(m.clone());
                        report.push((socket.0, sent));
                        assert(addressees(report@) =~= addressees(before).push(socket.0));
                    }
                },
                None => {},
            }
            at += 1;
        }
        assert(self.members().take(at as int) =~= self.members());
        report
    }

    /// Makes `id` a member and hands back the reading end of its new
    /// mailbox. For a member of that identity the mailbox takes the place of
    /// the one it had, and the order of the members stays. Every other
    /// member keeps its mailbox.
    pub fn subscribe(&mut self, id: &Identity) -> (rx: tokio::sync::mpsc::Receiver<Message>)
        ensures
            final(self).members() == joined(old(self).members(), *id),
            final(self).mailboxes().contains_key(*id),
            final(self).mailboxes() == old(self).mailboxes().insert(
                *id,
                final(self).mailboxes()[*id],
            ),
    {
        proof {
            use_type_invariant(&*self);
            lemma_joined(self.members(), *id);
        }
        let (tx, rx) = tokio::sync::mpsc::channel(MAILBOX_CAPACITY);
        let found = self.position(id);
        // A field of a type with an invariant cannot be lent to a call that
        // may unwind, so the list is taken out, changed and put back.
        let mut sockets: Vec<RoomTx> = Vec::new();
        core::mem::swap(&mut self.sockets, &mut sockets);
        assert(self.members() =~= Seq::<Identity>::empty());
        let ghost before = sockets@;
        match found {
            Some(at) => {
                sockets.set(at, RoomTx(*id, tx));
                proof {
                    assert(ids(sockets@) =~= ids(before));
                    assert(senders(sockets@) =~= senders(before).update(at as int, tx));
                    lemma_paired_update(ids(before), senders(before), at as int, tx);
                }
            },
            None => {
                sockets.push(RoomTx(*id, tx));
                proof {
                    assert(ids(sockets@) =~= ids(before).push(*id));
                    assert(senders(sockets@) =~= senders(before).push(tx));
                    lemma_paired_push(ids(before), senders(before), *id, tx);
                }
            },
        }
        core::mem::swap(&mut self.sockets, &mut sockets);
        rx
    }

    /// Drops `id` from the members, if it is one, and its mailbox with it.
    /// Every other member keeps its mailbox.
    pub fn unsubscribe(&mut self, id: &Identity)
        ensures
            final(self).members() == departed(old(self).members(), *id),
            final(self).mailboxes() == old(self).mailboxes().remove(*id),
    {
        proof {
            use_type_invariant(&*self);
            lemma_departed(self.members(), *id);
        }
        match self.position(id) {
            Some(at) => {
                proof {
                    lemma_departed_at(self.members(), at as int);
                }
                let mut sockets: Vec<RoomTx> = Vec::new();
                core::mem::swap(&mut self.sockets, &mut sockets);
                assert(self.members() =~= Seq::<Identity>::empty());
                let ghost before = sockets@;
                sockets.remove(at);
                proof {
                    assert(ids(sockets@) =~= ids(before).remove(at as int));
                    assert(senders(sockets@) =~= senders(before).remove(at as int));
                    lemma_paired_remove(ids(before), senders(before), at as int);
                }
                core::mem::swap(&mut self.sockets, &mut sockets);
            },
            None => {
                assert(self.mailboxes() =~= self.mailboxes().remove(*id));
            },
        }
    }

    /// The identities of the members, in the order they joined.
    pub fn roster(&self) -> (list: Vec<Identity>)
        ensures
            list@ == self.members(),
            list@.no_duplicates(),
    {
        proof {
            use_type_invariant(self);
        }
        let mut list: Vec<Identity> = Vec::new();
        let mut at: usize = 0;
        while at < self.sockets.len()
            invariant
                at <= self.sockets.len(),
                list@ == self.members().take(at as int),
            decreases self.sockets.len() - at,
        {
            list.push(self.sockets[at].0);
            assert(self.members().take(at + 1) =~= self.members().take(at as int).push(
                self.members()[at as int],
            ));
            at += 1;
        }
        assert(self.members().take(at as int) =~= self.members());
        list
    }
}

/// The names of `rooms`, in the same order.
spec fn names(rooms: Seq<(String, Room)>) -> Seq<Seq<char>> {
    rooms.map_values(|room: (String, Room)| room.0@)
}

/// The rosters of `rooms`, in the same order.
spec fn rosters(rooms: Seq<(String, Room)>) -> Seq<Seq<Identity>> {
    rooms.map_values(|room: (String, Room)| room.1.members())
}

/// The members' mailboxes of `rooms`, in the same order.
spec fn mailbox_maps(rooms: Seq<(String, Room)>) -> Seq<
    Map<Identity, tokio::sync::mpsc::Sender<Message>>,
> {
    rooms.map_values(|room: (String, Room)| room.1.mailboxes())
}

/// No two of `rooms` share a name, and none lists a member twice.
spec fn rooms_are_distinct(rooms: Seq<(String, Room)>) -> bool {
    &&& names(rooms).no_duplicates()
    &&& forall|i: int| 0 <= i < rooms.len() ==> (#[trigger] rooms[i]).1.members().no_duplicates()
}

/// Rooms that list nobody twice give rosters without duplicates.
proof fn lemma_rosters_distinct(rooms: Seq<(String, Room)>)
    requires
        rooms_are_distinct(rooms),
    ensures
        distinct_members(paired(names(rooms), rosters(rooms))),
{
    assert forall|name: Seq<char>| #[trigger]
        paired(names(rooms), rosters(rooms)).contains_key(name) implies paired(
        names(rooms),
        rosters(rooms),
    )[name].no_duplicates() by {
        let at = names(rooms).index_of(name);
        assert(0 <= at < rooms.len() && names(rooms)[at] == name);
        assert(rooms[at].1.members().no_duplicates());
    }
}

/// A room of the same name in the place of another changes what is kept
/// under that name and nothing else.
proof fn lemma_room_replaced(rooms: Seq<(String, Room)>, at: int, room: (String, Room))
    requires
        rooms_are_distinct(rooms),
        0 <= at < rooms.len(),
        room.0@ == rooms[at].0@,
        room.1.members().no_duplicates(),
    ensures
        rooms_are_distinct(rooms.update(at, room)),
        names(rooms.update(at, room)) == names(rooms),
        paired(names(rooms), rosters(rooms.update(at, room))) == paired(
            names(rooms),
            rosters(rooms),
        ).insert(room.0@, room.1.members()),
        paired(names(rooms), mailbox_maps(rooms.update(at, room))) == paired(
            names(rooms),
            mailbox_maps(rooms),
        ).insert(room.0@, room.1.mailboxes()),
{
    let after = rooms.update(at, room);
    assert(names(after) =~= names(rooms));
    assert(rosters(after) =~= rosters(rooms).update(at, room.1.members()));
    assert(mailbox_maps(after) =~= mailbox_maps(rooms).update(at, room.1.mailboxes()));
    lemma_paired_update(names(rooms), rosters(rooms), at, room.1.members());
    lemma_paired_update(names(rooms), mailbox_maps(rooms), at, room.1.mailboxes());
    assert forall|i: int| 0 <= i < after.len() implies (#[trigger] after[i])
        .1.members().no_duplicates() by {
        if i != at {
            assert(rooms[i].1.members().no_duplicates());
        }
    }
}

/// A room under a new name adds what is kept under that name and changes
/// nothing else.
proof fn lemma_room_added(rooms: Seq<(String, Room)>, room: (String, Room))
    requires
        rooms_are_distinct(rooms),
        !names(rooms).contains(room.0@),
        room.1.members().no_duplicates(),
    ensures
        rooms_are_distinct(rooms.push(room)),
        paired(names(rooms.push(room)), rosters(rooms.push(room))) == paired(
            names(rooms),
            rosters(rooms),
        ).insert(room.0@, room.1.members()),
        paired(names(rooms.push(room)), mailbox_maps(rooms.push(room))) == paired(
            names(rooms),
            mailbox_maps(rooms),
        ).insert(room.0@, room.1.mailboxes()),
{
    let after = rooms.push(room);
    assert(names(after) =~= names(rooms).push(room.0@));
    assert(rosters(after) =~= rosters(rooms).push(room.1.members()));
    assert(mailbox_maps(after) =~= mailbox_maps(rooms).push(room.1.mailboxes()));
    lemma_paired_push(names(rooms), rosters(rooms), room.0@, room.1.members());
    lemma_paired_push(names(rooms), mailbox_maps(rooms), room.0@, room.1.mailboxes());
    assert forall|i: int| 0 <= i < after.len() implies (#[trigger] after[i])
        .1.members().no_duplicates() by {
        if i < rooms.len() {
            assert(rooms[i].1.members().no_duplicates());
        }
    }
}

/// The registry of rooms whose members each have a mailbox of their own.
///
/// Its view is the roster of every room, by the room's name. No room lists a
/// member twice. Beside the rosters stand the members' mailboxes.
#[derive(Debug)]
pub struct Broadcast {
    rooms: Vec<(String, Room)>,
}

impl View for Broadcast {
    type V = Map<Seq<char>, Seq<Identity>>;

    closed spec fn view(&self) -> Map<Seq<char>, Seq<Identity>> {
        paired(names(self.rooms@), rosters(self.rooms@))
    }
}

impl Default for Broadcast {
    fn default() -> (hub: Self)
        ensures
            hub@ == Map::<Seq<char>, Seq<Identity>>::empty(),
            hub.mailboxes() == Map::<
                Seq<char>,
                Map<Identity, tokio::sync::mpsc::Sender<Message>>,
            >::empty(),
    {
        Broadcast::new()
    }
}

impl Broadcast {
    /// The sending end of each member's mailbox, by room and member.
    pub closed spec fn mailboxes(&self) -> Map<
        Seq<char>,
        Map<Identity, tokio::sync::mpsc::Sender<Message>>,
    > {
        paired(names(self.rooms@), mailbox_maps(self.rooms@))
    }

    #[verifier::type_invariant]
    spec fn rooms_are_distinct(&self) -> bool {
        rooms_are_distinct(self.rooms@)
    }

    /// A mailbox is kept for each member of each room, and for nobody else.
    pub proof fn mailboxes_fit_the_rosters(self)
        ensures
            ends_fit(self@, self.mailboxes()),
    {
        assert forall|room: Seq<char>, id: Identity| self@.contains_key(room) implies (
        self@[room].contains(id) <==> #[trigger] self.mailboxes()[room].contains_key(id)) by {
            let at = names(self.rooms@).index_of(room);
            assert(0 <= at < self.rooms@.len());
            self.rooms@[at].1.lemma_mailboxes_are_the_members();
        }
    }

    /// A registry without rooms.
    pub fn new() -> (hub: Self)
        ensures
            hub@ == Map::<Seq<char>, Seq<Identity>>::empty(),
            hub.mailboxes() == Map::<
                Seq<char>,
                Map<Identity, tokio::sync::mpsc::Sender<Message>>,
            >::empty(),
    {
        let hub = Broadcast { rooms: Vec::new() };
        assert(names(hub.rooms@) =~= Seq::<Seq<char>>::empty());
        assert(hub@ =~= Map::<Seq<char>, Seq<Identity>>::empty());
        assert(hub.mailboxes() =~= Map::<
            Seq<char>,
            Map<Identity, tokio::sync::mpsc::Sender<Message>>,
        >::empty());
        hub
    }

    /// Where the room called `room_name` stands.
    fn find(&self, room_name: &str) -> (found: Option<usize>)
        ensures
            match found {
                Some(at) => at < self.rooms@.len() && names(self.rooms@)[at as int] == room_name@,
                None => !names(self.rooms@).contains(room_name@),
            },
    {
        let wanted = room_name.to_owned();
        let mut at: usize = 0;
        while at < self.rooms.len()
            invariant
                at <= self.rooms.len(),
                wanted@ == room_name@,
                forall|i: int| 0 <= i < at ==> names(self.rooms@)[i] != room_name@,
            decreases self.rooms.len() - at,
        {
            if self.rooms[at].0 == wanted {
                return Some(at);
            }
            at += 1;
        }
        None
    }

    /// The room called `room_name`, if there is one, with the members and
    /// the mailboxes that the registry keeps under that name.
    pub fn room(&self, room_name: &str) -> (found: Option<&Room>)
        ensures
            match found {
                Some(room) => {
                    &&& self@.contains_key(room_name@)
                    &&& room.members() == self@[room_name@]
                    &&& room.mailboxes() == self.mailboxes()[room_name@]
                },
                None => !self@.contains_key(room_name@),
            },
    {
        proof {
            use_type_invariant(self);
        }
        match self.find(room_name) {
            Some(at) => {
                proof {
                    lemma_paired_at(names(self.rooms@), rosters(self.rooms@), at as int);
                    lemma_paired_at(names(self.rooms@), mailbox_maps(self.rooms@), at as int);
                }
                Some(&self.rooms[at].1)
            },
            None => None,
        }
    }

    /// The members of the room called `room_name`, in the order they
    /// joined; `None` where there is no such room.
    pub fn roster(&self, room_name: &str) -> (members: Option<Vec<Identity>>)
        ensures
            match members {
                Some(list) => self@.contains_key(room_name@) && list@ == self@[room_name@]
                    && list@.no_duplicates(),
                None => !self@.contains_key(room_name@),
            },
    {
        match self.room(room_name) {
            Some(room) => Some(room.roster()),
            None => None,
        }
    }

    /// Hands a copy of `m` to every member of the room called `room_name`
    /// but `exclude`; nothing happens where there is no such room.
    ///
    /// The report has one entry for each member but `exclude`, in the order
    /// the members joined, and none for `exclude`.
    pub fn broadcast(&self, room_name: &str, m: Message, exclude: &Identity) -> (report: Vec<
        Delivery,
    >)
        ensures
            addressees(report@) == recipients(roster_in(self@, room_name@), *exclude),
            returns_copies_of(report@, m),
    {
        match self.room(room_name) {
            Some(room) => room.broadcast(&m, exclude),
            None => {
                let report: Vec<Delivery> = Vec::new();
                assert(addressees(report@) =~= recipients(Seq::<Identity>::empty(), *exclude)) by {
                    reveal(Seq::filter);
                }
                report
            },
        }
    }

    /// Makes `identity` a member of the room called `room_name`, creating
    /// the room if this is its first member, and hands back the reading end
    /// of the member's mailbox. Every other member, in this room and in
    /// every other, keeps its mailbox.
    pub fn join_room(&mut self, room_name: &str, identity: &Identity) -> (rx:
        tokio::sync::mpsc::Receiver<Message>)
        ensures
            final(self)@ == after_join(old(self)@, room_name@, *identity),
            distinct_members(final(self)@),
            final(self).mailboxes() == ends_after_join(
                old(self).mailboxes(),
                room_name@,
                *identity,
                final(self).mailboxes()[room_name@][*identity],
            ),
    {
        proof {
            use_type_invariant(&*self);
        }
        let found = self.find(room_name);
        let mut rooms: Vec<(String, Room)> = Vec::new();
        core::mem::swap(&mut self.rooms, &mut rooms);
        assert(names(self.rooms@) =~= Seq::<Seq<char>>::empty());
        let ghost before = rooms@;
        let rx = match found {
            Some(at) => {
                proof {
                    lemma_paired_at(names(before), rosters(before), at as int);
                    lemma_paired_at(names(before), mailbox_maps(before), at as int);
                }
                let (name, mut room) = rooms.remove(at);
                let rx = room.subscribe(identity);
                proof {
                    use_type_invariant(&room);
                    lemma_room_replaced(before, at as int, (name, room));
                }
                rooms.insert(at, (name, room));
                assert(rooms@ =~= before.update(at as int, (name, room)));
                rx
            },
            None => {
                let mut room = Room::new();
                let rx = room.subscribe(identity);
                let name = room_name.to_owned();
                proof {
                    use_type_invariant(&room);
                    lemma_room_added(before, (name, room));
                }
                rooms.push((name, room));
                rx
            },
        };
        core::mem::swap(&mut self.rooms, &mut rooms);
        proof {
            lemma_rosters_distinct(self.rooms@);
        }
        rx
    }

    /// Takes `identity` out of the room called `room_name`, and its mailbox
    /// with it. Nothing happens where the room does not exist or `identity`
    /// is not in it; a room stays when its last member leaves. Every other
    /// member keeps its mailbox.
    pub fn leave(&mut self, room_name: &str, identity: &Identity)
        ensures
            final(self)@ == after_leave(old(self)@, room_name@, *identity),
            distinct_members(final(self)@),
            final(self).mailboxes() == ends_after_leave(
                old(self).mailboxes(),
                room_name@,
                *identity,
            ),
    {
        proof {
            use_type_invariant(&*self);
            lemma_rosters_distinct(self.rooms@);
        }
        match self.find(room_name) {
            Some(at) => {
                let mut rooms: Vec<(String, Room)> = Vec::new();
                core::mem::swap(&mut self.rooms, &mut rooms);
                assert(names(self.rooms@) =~= Seq::<Seq<char>>::empty());
                let ghost before = rooms@;
                proof {
                    lemma_paired_at(names(before), rosters(before), at as int);
                    lemma_paired_at(names(before), mailbox_maps(before), at as int);
                }
                let (name, mut room) = rooms.remove(at);
                room.unsubscribe(identity);
                proof {
                    use_type_invariant(&room);
                    lemma_room_replaced(before, at as int, (name, room));
                }
                rooms.insert(at, (name, room));
                assert(rooms@ =~= before.update(at as int, (name, room)));
                core::mem::swap(&mut self.rooms, &mut rooms);
                proof {
                    lemma_rosters_distinct(self.rooms@);
                }
            },
            None => {},
        }
    }
}

} // verus!
