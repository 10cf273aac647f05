use crate::broadcast::registry::{
    lemma_paired_at, lemma_paired_push, lemma_paired_remove, lemma_paired_update, paired,
};
use crate::broadcast::roster::{
    after_join, after_leave, departed, distinct_members, ends_after_join, ends_after_leave,
    ends_fit, joined, lemma_departed, lemma_departed_at, lemma_joined, recipients, roster_in,
};
use crate::channel::{publish, returned};
use crate::identity::Identity;
use crate::payload;
use crate::transmit;
use vstd::prelude::*;

verus! {

/// The envelope every payload travels in: the payload and, unless the hub
/// itself is the author, the identity of the peer that sent it.
#[derive(Debug, PartialEq, Eq)]
pub struct Message<T: Clone> {
    /// The peer that sent the payload; `None` for a message of the hub's own.
    pub broadcaster_id: Option<Identity>,
    /// What the envelope carries.
    pub payload: T,
}

impl<T: Clone> Message<T> {
    /// Puts `payload` into an envelope written by `broadcaster_id`.
    pub fn new(broadcaster_id: Option<Identity>, payload: T) -> (envelope: Self)
        ensures
            envelope == (Message { broadcaster_id, payload }),
    {
        Message { broadcaster_id, payload }
    }

    /// Takes the payload out for the peer `me`, unless `me` wrote the
    /// envelope: nobody is handed what they sent themselves.
    pub fn open(self, me: Identity) -> (payload: Option<T>)
        ensures
            payload == if self.broadcaster_id == Some(me) {
                None
            } else {
                Some(self.payload)
            },
    {
        match self.broadcaster_id {
            Some(author) => {
                if author == me {
                    None
                } else {
                    Some(self.payload)
                }
            },
            None => Some(self.payload),
        }
    }
}

impl<T: Clone> Clone for Message<T> {
    fn clone(&self) -> (copy: Self)
        ensures
            copy.broadcaster_id == self.broadcaster_id,
            cloned(self.payload, copy.payload),
    {
        Message { broadcaster_id: self.broadcaster_id, payload: self.payload.clone() }
    }
}

/// Why an envelope did not reach the peer it was meant for.
#[derive(Debug, PartialEq, Eq)]
#[verifier::reject_recursive_types(T)]
pub enum SendError<T> {
    /// The target is not a member of the room.
    NotFound,
    /// The target is a member, but its inbox is full or no longer read.
    MpscError(tokio::sync::mpsc::error::TrySendError<T>),
}

/// What the sender is told after an inbox has taken or refused an envelope.
pub fn delivery<T>(outcome: Result<(), tokio::sync::mpsc::error::TrySendError<T>>) -> (sent: Result<
    (),
    SendError<T>,
>)
    ensures
        sent == match outcome {
            Ok(()) => Ok::<(), SendError<T>>(()),
            Err(failure) => Err(SendError::MpscError(failure)),
        },
{
    match outcome {
        Ok(()) => Ok(()),
        Err(failure) => Err(SendError::MpscError(failure)),
    }
}

/// One member of a room: its identity and the sending end of its private
/// inbox.
#[derive(Debug)]
#[verifier::reject_recursive_types(T)]
struct Member<T: Clone> {
    id: Identity,
    inbox: tokio::sync::mpsc::Sender<Message<T>>,
}

/// The identities of `clients`, in the same order.
spec fn ids<T: Clone>(clients: Seq<Member<T>>) -> Seq<Identity> {
    clients.map_values(|member: Member<T>| member.id)
}

/// The inboxes of `clients`, in the same order.
spec fn senders<T: Clone>(clients: Seq<Member<T>>) -> Seq<
    tokio::sync::mpsc::Sender<Message<T>>,
> {
    clients.map_values(|member: Member<T>| member.inbox)
}

/// A named group of peers that share one broadcast stream.
#[derive(Debug)]
#[verifier::reject_recursive_types(T)]
pub struct Room<T: Clone> {
    name: String,
    clients: Vec<Member<T>>,
    tx: tokio::sync::broadcast::Sender<Message<T>>,
}

impl<T: Clone> Room<T> {
    /// The room's name.
    pub closed spec fn name(&self) -> Seq<char> {
        self.name@
    }

    /// The identities of the members, in the order they joined.
    pub closed spec fn members(&self) -> Seq<Identity> {
        ids(self.clients@)
    }

    /// The sending end of each member's private inbox.
    pub closed spec fn inboxes(&self) -> Map<Identity, tokio::sync::mpsc::Sender<Message<T>>> {
        paired(ids(self.clients@), senders(self.clients@))
    }

    /// The sending end of the room's broadcast stream.
    pub closed spec fn stream(&self) -> tokio::sync::broadcast::Sender<Message<T>> {
        self.tx
    }

    #[verifier::type_invariant]
    spec fn members_are_distinct(&self) -> bool {
        self.members().no_duplicates()
    }

    /// An inbox is kept for each member and for nobody else.
    pub proof fn lemma_inboxes_are_the_members(self)
        ensures
            forall|id: Identity|
                #[trigger] self.inboxes().contains_key(id) <==> self.members().contains(id),
    {
    }

    /// An empty room that broadcasts through `tx`.
    fn new(name: String, tx: tokio::sync::broadcast::Sender<Message<T>>) -> (room: Self)
        ensures
            room.name() == name@,
            room.members() == Seq::<Identity>::empty(),
            room.inboxes() == Map::<Identity, tokio::sync::mpsc::Sender<Message<T>>>::empty(),
            room.stream() == tx,
    {
        let room = Room { name, clients: Vec::new(), tx };
        assert(room.members() =~= Seq::<Identity>::empty());
        assert(room.inboxes() =~= Map::<Identity, tokio::sync::mpsc::Sender<Message<T>>>::empty());
        room
    }

    /// Where `id` stands in the roster.
    fn position(&self, id: Identity) -> (found: Option<usize>)
        ensures
            match found {
                Some(at) => at < self.members().len() && self.members()[at as int] == id,
                None => !self.members().contains(id),
            },
    {
        let mut at: usize = 0;
        while at < self.clients.len()
            invariant
                at <= self.clients.len(),
                forall|i: int| 0 <= i < at ==> self.members()[i] != id,
            decreases self.clients.len() - at,
        {
            if self.clients[at].id == id {
                return Some(at);
            }
            at += 1;
        }
        None
    }

    /// Whether `id` is a member.
    pub fn has_member(&self, id: Identity) -> (found: bool)
        ensures
            found == self.members().contains(id),
    {
        self.position(id).is_some()
    }

    /// Makes `id` a member that is reached through `inbox`. For a member of
    /// that identity the inbox takes the place of the one it had. Every
    /// other member keeps its inbox, and the room its stream.
    fn enroll(&mut self, id: Identity, inbox: tokio::sync::mpsc::Sender<Message<T>>)
        ensures
            final(self).name() == old(self).name(),
            final(self).members() == joined(old(self).members(), id),
            final(self).inboxes() == old(self).inboxes().insert(id, inbox),
            final(self).stream() == old(self).stream(),
    {
        proof {
            use_type_invariant(&*self);
            lemma_joined(self.members(), id);
        }
        let found = self.position(id);
        // A field of a type with an invariant cannot be lent to a call that
        // may unwind, so the list is taken out, changed and put back.
        let mut clients: Vec<Member<T>> = Vec::new();
        core::mem::swap(&mut self.clients, &mut clients);
        assert(self.members() =~= Seq::<Identity>::empty());
        let ghost before = clients@;
        match found {
            Some(at) => {
                clients.set(at, Member { id, inbox });
                proof {
                    assert(ids(clients@) =~= ids(before));
                    assert(senders(clients@) =~= senders(before).update(at as int, inbox));
                    lemma_paired_update(ids(before), senders(before), at as int, inbox);
                }
            },
            None => {
                clients.push(Member { id, inbox });
                proof {
                    assert(ids(clients@) =~= ids(before).push(id));
                    assert(senders(clients@) =~= senders(before).push(inbox));
                    lemma_paired_push(ids(before), senders(before), id, inbox);
                }
            },
        }
        core::mem::swap(&mut self.clients, &mut clients);
    }

    /// Drops `id` from the members, if it is one, and its inbox with it.
    /// Every other member keeps its inbox, and the room its stream.
    fn remove(&mut self, id: Identity)
        ensures
            final(self).name() == old(self).name(),
            final(self).members() == departed(old(self).members(), id),
            final(self).inboxes() == old(self).inboxes().remove(id),
            final(self).stream() == old(self).stream(),
    {
        proof {
            use_type_invariant(&*self);
            lemma_departed(self.members(), id);
        }
        match self.position(id) {
            Some(at) => {
                proof {
                    lemma_departed_at(self.members(), at as int);
                }
                let mut clients: Vec<Member<T>> = Vec::new();
                core::mem::swap(&mut self.clients, &mut clients);
                assert(self.members() =~= Seq::<Identity>::empty());
                let ghost before = clients@;
                clients.remove(at);
                proof {
                    assert(ids(clients@) =~= ids(before).remove(at as int));
                    assert(senders(clients@) =~= senders(before).remove(at as int));
                    lemma_paired_remove(ids(before), senders(before), at as int);
                }
                core::mem::swap(&mut self.clients, &mut clients);
            },
            None => {
                assert(self.inboxes() =~= self.inboxes().remove(id));
            },
        }
    }

    /// The sending end of the private inbox of the member `target`; `None`
    /// exactly when `target` is not a member.
    pub fn inbox(&self, target: Identity) -> (found: Option<
        &tokio::sync::mpsc::Sender<Message<T>>,
    >)
        ensures
            match found {
                Some(tx) => self.members().contains(target) && self.inboxes().contains_key(target)
                    && *tx == self.inboxes()[target],
                None => !self.members().contains(target) && !self.inboxes().contains_key(target),
            },
    {
        proof {
            use_type_invariant(self);
        }
        match self.position(target) {
            Some(at) => {
                proof {
                    lemma_paired_at(ids(self.clients@), senders(self.clients@), at as int);
                }
                Some(&self.clients[at].inbox)
            },
            None => None,
        }
    }

    /// The sending end of the room's broadcast stream.
    pub fn stream_end(&self) -> (tx: &tokio::sync::broadcast::Sender<Message<T>>)
        ensures
            *tx == self.stream(),
    {
        &self.tx
    }

    /// Hands `envelope` to the room's broadcast stream, from which every
    /// subscribed receiver reads it. `Ok` holds the number of receivers that
    /// were subscribed, at least one; with none subscribed the envelope comes
    /// back in the error.
    pub fn broadcast(&self, envelope: Message<T>) -> (sent: Result<usize, Message<T>>)
        ensures
            sent matches Ok(receivers) ==> receivers > 0,
            sent matches Err(unsent) ==> unsent == envelope,
    {
        publish(self.stream_end(), envelope)
    }

    /// Puts `envelope` into the inbox of the member `target` and of nobody
    /// else, without waiting for room in it.
    ///
    /// The result is `NotFound` exactly when `target` is not a member. For a
    /// member it is `Ok`, or `MpscError` with the envelope inside when the
    /// inbox is full or its reading end is gone.
    pub fn send_to(&self, target: Identity, envelope: Message<T>) -> (sent: Result<
        (),
        SendError<Message<T>>,
    >)
        ensures
            sent == Err::<(), SendError<Message<T>>>(SendError::NotFound)
                <==> !self.members().contains(target),
            sent matches Err(SendError::MpscError(failure)) ==> returned(failure) == envelope,
    {
        match self.inbox(target) {
            Some(tx) => delivery(tx.try_send(envelope)),
            None => Err(SendError::NotFound),
        }
    }

    /// The identities of the members, in the order they joined.
    pub fn roster(&self) -> (list: Vec<Identity>)
        ensures
            list@ == self.members(),
            list@.no_duplicates(),
    {
        proof {
            use_type_invariant(self);
        }
        let mut list: Vec<Identity> = Vec::new();
        let mut at: usize = 0;
        while at < self.clients.len()
            invariant
                at <= self.clients.len(),
                list@ == self.members().take(at as int),
            decreases self.clients.len() - at,
        {
            list.push(self.clients[at].id);
            assert(self.members().take(at + 1) =~= self.members().take(at as int).push(
                self.members()[at as int],
            ));
            at += 1;
        }
        assert(self.members().take(at as int) =~= self.members());
        list
    }
}

/// How many envelopes a member's private inbox holds before it is full.
pub const INBOX_CAPACITY: usize = 16;

/// How many envelopes a room's broadcast stream keeps for a slow receiver.
pub const STREAM_CAPACITY: usize = 64;

/// The names of `rooms`, in the same order.
spec fn names<T: Clone>(rooms: Seq<Room<T>>) -> Seq<Seq<char>> {
    rooms.map_values(|room: Room<T>| room.name())
}

/// The rosters of `rooms`, in the same order.
spec fn rosters<T: Clone>(rooms: Seq<Room<T>>) -> Seq<Seq<Identity>> {
    rooms.map_values(|room: Room<T>| room.members())
}

/// The members' inboxes of `rooms`, in the same order.
spec fn inbox_maps<T: Clone>(rooms: Seq<Room<T>>) -> Seq<
    Map<Identity, tokio::sync::mpsc::Sender<Message<T>>>,
> {
    rooms.map_values(|room: Room<T>| room.inboxes())
}

/// The streams of `rooms`, in the same order.
spec fn stream_ends<T: Clone>(rooms: Seq<Room<T>>) -> Seq<
    tokio::sync::broadcast::Sender<Message<T>>,
> {
    rooms.map_values(|room: Room<T>| room.stream())
}

/// No two of `rooms` share a name, and none lists a member twice.
spec fn rooms_are_distinct<T: Clone>(rooms: Seq<Room<T>>) -> bool {
    &&& names(rooms).no_duplicates()
    &&& forall|i: int| 0 <= i < rooms.len() ==> (#[trigger] rooms[i]).members().no_duplicates()
}

/// Rooms that list nobody twice give rosters without duplicates.
proof fn lemma_rosters_distinct<T: Clone>(rooms: Seq<Room<T>>)
    requires
        rooms_are_distinct(rooms),
    ensures
        distinct_members(paired(names(rooms), rosters(rooms))),
{
    assert forall|name: Seq<char>| #[trigger]
        paired(names(rooms), rosters(rooms)).contains_key(name) implies paired(
        names(rooms),
        rosters(rooms),
    )[name].no_duplicates() by {
        let at = names(rooms).index_of(name);
        assert(0 <= at < rooms.len() && names(rooms)[at] == name);
        assert(rooms[at].members().no_duplicates());
    }
}

/// A room of the same name in the place of another changes what is kept
/// under that name and nothing else.
proof fn lemma_room_replaced<T: Clone>(rooms: Seq<Room<T>>, at: int, room: Room<T>)
    requires
        rooms_are_distinct(rooms),
        0 <= at < rooms.len(),
        room.name() == rooms[at].name(),
        room.members().no_duplicates(),
    ensures
        rooms_are_distinct(rooms.update(at, room)),
        names(rooms.update(at, room)) == names(rooms),
        paired(names(rooms), rosters(rooms.update(at, room))) == paired(
            names(rooms),
            rosters(rooms),
        ).insert(room.name(), room.members()),
        paired(names(rooms), inbox_maps(rooms.update(at, room))) == paired(
            names(rooms),
            inbox_maps(rooms),
        ).insert(room.name(), room.inboxes()),
        paired(names(rooms), stream_ends(rooms.update(at, room))) == paired(
            names(rooms),
            stream_ends(rooms),
        ).insert(room.name(), room.stream()),
{
    let after = rooms.update(at, room);
    assert(names(after) =~= names(rooms));
    assert(rosters(after) =~= rosters(rooms).update(at, room.members()));
    assert(inbox_maps(after) =~= inbox_maps(rooms).update(at, room.inboxes()));
    assert(stream_ends(after) =~= stream_ends(rooms).update(at, room.stream()));
    lemma_paired_update(names(rooms), rosters(rooms), at, room.members());
    lemma_paired_update(names(rooms), inbox_maps(rooms), at, room.inboxes());
    lemma_paired_update(names(rooms), stream_ends(rooms), at, room.stream());
    assert forall|i: int| 0 <= i < after.len() implies (#[trigger] after[i])
        .members().no_duplicates() by {
        if i != at {
            assert(rooms[i].members().no_duplicates());
        }
    }
}

/// A room under a new name adds what is kept under that name and changes
/// nothing else.
proof fn lemma_room_added<T: Clone>(rooms: Seq<Room<T>>, room: Room<T>)
    requires
        rooms_are_distinct(rooms),
        !names(rooms).contains(room.name()),
        room.members().no_duplicates(),
    ensures
        rooms_are_distinct(rooms.push(room)),
        paired(names(rooms.push(room)), rosters(rooms.push(room))) == paired(
            names(rooms),
            rosters(rooms),
        ).insert(room.name(), room.members()),
        paired(names(rooms.push(room)), inbox_maps(rooms.push(room))) == paired(
            names(rooms),
            inbox_maps(rooms),
        ).insert(room.name(), room.inboxes()),
        paired(names(rooms.push(room)), stream_ends(rooms.push(room))) == paired(
            names(rooms),
            stream_ends(rooms),
        ).insert(room.name(), room.stream()),
{
    let after = rooms.push(room);
    assert(names(after) =~= names(rooms).push(room.name()));
    assert(rosters(after) =~= rosters(rooms).push(room.members()));
    assert(inbox_maps(after) =~= inbox_maps(rooms).push(room.inboxes()));
    assert(stream_ends(after) =~= stream_ends(rooms).push(room.stream()));
    lemma_paired_push(names(rooms), rosters(rooms), room.name(), room.members());
    lemma_paired_push(names(rooms), inbox_maps(rooms), room.name(), room.inboxes());
    lemma_paired_push(names(rooms), stream_ends(rooms), room.name(), room.stream());
    assert forall|i: int| 0 <= i < after.len() implies (#[trigger] after[i])
        .members().no_duplicates() by {
        if i < rooms.len() {
            assert(rooms[i].members().no_duplicates());
        }
    }
}

/// The registry of rooms: every room by its name, each with its members.
///
/// Its view is the roster of every room, by the room's name. No room lists a
/// member twice. Beside the rosters stand the endpoints: the stream of each
/// room and the inbox of each member.
#[derive(Debug)]
#[verifier::reject_recursive_types(T)]
pub struct Broadcast<T: Clone> {
    rooms: Vec<Room<T>>,
}

impl<T: Clone> View for Broadcast<T> {
    type V = Map<Seq<char>, Seq<Identity>>;

    closed spec fn view(&self) -> Map<Seq<char>, Seq<Identity>> {
        paired(names(self.rooms@), rosters(self.rooms@))
    }
}

impl<T: Clone> Default for Broadcast<T> {
    fn default() -> (hub: Self)
        ensures
            hub@ == Map::<Seq<char>, Seq<Identity>>::empty(),
            hub.inboxes() == Map::<
                Seq<char>,
                Map<Identity, tokio::sync::mpsc::Sender<Message<T>>>,
            >::empty(),
            hub.streams() == Map::<Seq<char>, tokio::sync::broadcast::Sender<Message<T>>>::empty(),
    {
        Broadcast::new()
    }
}

impl<T: Clone> Broadcast<T> {
    /// The sending end of each member's private inbox, by room and member.
    pub closed spec fn inboxes(&self) -> Map<
        Seq<char>,
        Map<Identity, tokio::sync::mpsc::Sender<Message<T>>>,
    > {
        paired(names(self.rooms@), inbox_maps(self.rooms@))
    }

    /// The sending end of each room's broadcast stream, by room.
    pub closed spec fn streams(&self) -> Map<
        Seq<char>,
        tokio::sync::broadcast::Sender<Message<T>>,
    > {
        paired(names(self.rooms@), stream_ends(self.rooms@))
    }

    #[verifier::type_invariant]
    spec fn rooms_are_distinct(&self) -> bool {
        rooms_are_distinct(self.rooms@)
    }

    /// A stream is kept for each room and an inbox for each member, and
    /// none for anybody else.
    pub proof fn endpoints_fit_the_rosters(self)
        ensures
            ends_fit(self@, self.inboxes()),
            forall|room: Seq<char>|
                #[trigger] self.streams().contains_key(room) <==> self@.contains_key(room),
    {
        assert forall|room: Seq<char>, id: Identity| self@.contains_key(room) implies (
        self@[room].contains(id) <==> #[trigger] self.inboxes()[room].contains_key(id)) by {
            let at = names(self.rooms@).index_of(room);
            assert(0 <= at < self.rooms@.len());
            self.rooms@[at].lemma_inboxes_are_the_members();
        }
    }

    /// A registry without rooms.
    pub fn new() -> (hub: Self)
        ensures
            hub@ == Map::<Seq<char>, Seq<Identity>>::empty(),
            hub.inboxes() == Map::<
                Seq<char>,
                Map<Identity, tokio::sync::mpsc::Sender<Message<T>>>,
            >::empty(),
            hub.streams() == Map::<Seq<char>, tokio::sync::broadcast::Sender<Message<T>>>::empty(),
    {
        let hub = Broadcast { rooms: Vec::new() };
        assert(names(hub.rooms@) =~= Seq::<Seq<char>>::empty());
        assert(hub@ =~= Map::<Seq<char>, Seq<Identity>>::empty());
        assert(hub.inboxes() =~= Map::<
            Seq<char>,
            Map<Identity, tokio::sync::mpsc::Sender<Message<T>>>,
        >::empty());
        assert(hub.streams() =~= Map::<
            Seq<char>,
            tokio::sync::broadcast::Sender<Message<T>>,
        >::empty());
        hub
    }

    /// Where the room called `room_name` stands.
    fn find(&self, room_name: &str) -> (found: Option<usize>)
        ensures
            match found {
                Some(at) => at < self.rooms@.len() && names(self.rooms@)[at as int] == room_name@,
                None => !names(self.rooms@).contains(room_name@),
            },
    {
        let wanted = room_name.to_owned();
        let mut at: usize = 0;
        while at < self.rooms.len()
            invariant
                at <= self.rooms.len(),
                wanted@ == room_name@,
                forall|i: int| 0 <= i < at ==> names(self.rooms@)[i] != room_name@,
            decreases self.rooms.len() - at,
        {
            if self.rooms[at].name == wanted {
                return Some(at);
            }
            at += 1;
        }
        None
    }

    /// The room called `room_name`, if there is one, with the members, the
    /// inboxes and the stream that the registry keeps under that name.
    pub fn room(&self, room_name: &str) -> (found: Option<&Room<T>>)
        ensures
            match found {
                Some(room) => {
                    &&& self@.contains_key(room_name@)
                    &&& room.name() == room_name@
                    &&& room.members() == self@[room_name@]
                    &&& room.inboxes() == self.inboxes()[room_name@]
                    &&& room.stream() == self.streams()[room_name@]
                },
                None => !self@.contains_key(room_name@),
            },
    {
        proof {
            use_type_invariant(self);
        }
        match self.find(room_name) {
            Some(at) => {
                proof {
                    lemma_paired_at(names(self.rooms@), rosters(self.rooms@), at as int);
                    lemma_paired_at(names(self.rooms@), inbox_maps(self.rooms@), at as int);
                    lemma_paired_at(names(self.rooms@), stream_ends(self.rooms@), at as int);
                }
                Some(&self.rooms[at])
            },
            None => None,
        }
    }

    /// The members of the room called `room_name`, in the order they
    /// joined; `None` where there is no such room.
    pub fn roster(&self, room_name: &str) -> (members: Option<Vec<Identity>>)
        ensures
            match members {
                Some(list) => self@.contains_key(room_name@) && list@ == self@[room_name@]
                    && list@.no_duplicates(),
                None => !self@.contains_key(room_name@),
            },
    {
        match self.room(room_name) {
            Some(room) => Some(room.roster()),
            None => None,
        }
    }

    /// Whether `id` is a member of the room called `room_name`; a room that
    /// does not exist has no members.
    pub fn is_member(&self, room_name: &str, id: Identity) -> (found: bool)
        ensures
            found == roster_in(self@, room_name@).contains(id),
    {
        match self.room(room_name) {
            Some(room) => room.has_member(id),
            None => false,
        }
    }

    /// Broadcasts `message` to the room called `room_name`, in an envelope
    /// that names `author` as its author.
    fn broadcast_from(&self, room_name: &str, author: Identity, message: T) -> (sent: Option<
        Result<usize, Message<T>>,
    >)
        ensures
            sent is Some <==> self@.contains_key(room_name@),
            sent matches Some(Ok(receivers)) ==> receivers > 0,
            sent matches Some(Err(unsent)) ==> unsent == (Message {
                broadcaster_id: Some(author),
                payload: message,
            }),
    {
        match self.room(room_name) {
            Some(room) => Some(room.broadcast(Message::new(Some(author), message))),
            None => None,
        }
    }

    /// Makes `id` a member of the room called `room_name`, creating the room
    /// if this is its first member, and hands back the peer's end of the
    /// room: the stream of the room's broadcasts and the peer's private inbox.
    ///
    /// Where `id` is a member already, its place in the roster stays and the
    /// new inbox replaces the old one. Every other member, in this room and
    /// in every other, keeps its inbox, and every room that was there keeps
    /// its stream.
    pub fn join(&mut self, room_name: &str, id: Identity) -> (remote: BroadcastRemote<T>)
        ensures
            final(self)@ == after_join(old(self)@, room_name@, id),
            distinct_members(final(self)@),
            final(self).inboxes() == ends_after_join(
                old(self).inboxes(),
                room_name@,
                id,
                final(self).inboxes()[room_name@][id],
            ),
            final(self).streams() == if old(self)@.contains_key(room_name@) {
                old(self).streams()
            } else {
                old(self).streams().insert(room_name@, final(self).streams()[room_name@])
            },
            remote.id() == id,
            remote.room() == room_name@,
            remote.inbox_open(),
    {
        proof {
            use_type_invariant(&*self);
        }
        let (client_tx, client_rx) = tokio::sync::mpsc::channel(INBOX_CAPACITY);
        let found = self.find(room_name);
        let mut rooms: Vec<Room<T>> = Vec::new();
        core::mem::swap(&mut self.rooms, &mut rooms);
        assert(names(self.rooms@) =~= Seq::<Seq<char>>::empty());
        let ghost before = rooms@;
        let room_rx = match found {
            Some(at) => {
                proof {
                    lemma_paired_at(names(before), rosters(before), at as int);
                    lemma_paired_at(names(before), inbox_maps(before), at as int);
                    lemma_paired_at(names(before), stream_ends(before), at as int);
                }
                let mut room = rooms.remove(at);
                let room_rx = room.stream_end().subscribe();
                room.enroll(id, client_tx);
                proof {
                    use_type_invariant(&room);
                    lemma_room_replaced(before, at as int, room);
                }
                rooms.insert(at, room);
                proof {
                    assert(rooms@ =~= before.update(at as int, room));
                    assert(paired(names(before), stream_ends(before)).insert(
                        room_name@,
                        room.stream(),
                    ) =~= paired(names(before), stream_ends(before)));
                }
                room_rx
            },
            None => {
                let (room_tx, room_rx) = tokio::sync::broadcast::channel(STREAM_CAPACITY);
                let mut room = Room::new(room_name.to_owned(), room_tx);
                room.enroll(id, client_tx);
                proof {
                    use_type_invariant(&room);
                    lemma_room_added(before, room);
                }
                rooms.push(room);
                room_rx
            },
        };
        core::mem::swap(&mut self.rooms, &mut rooms);
        proof {
            lemma_rosters_distinct(self.rooms@);
        }
        BroadcastRemote::new(room_rx, client_rx, id, room_name.to_owned())
    }

    /// Takes `id` out of the room called `room_name`, and its inbox with
    /// it. Nothing happens where the room does not exist or `id` is not in
    /// it; a room stays when its last member leaves. Every other member
    /// keeps its inbox, and every room its stream.
    pub fn leave(&mut self, room_name: &str, id: Identity)
        ensures
            final(self)@ == after_leave(old(self)@, room_name@, id),
            distinct_members(final(self)@),
            final(self).inboxes() == ends_after_leave(old(self).inboxes(), room_name@, id),
            final(self).streams() == old(self).streams(),
    {
        proof {
            use_type_invariant(&*self);
            lemma_rosters_distinct(self.rooms@);
        }
        match self.find(room_name) {
            Some(at) => {
                let mut rooms: Vec<Room<T>> = Vec::new();
                core::mem::swap(&mut self.rooms, &mut rooms);
                assert(names(self.rooms@) =~= Seq::<Seq<char>>::empty());
                let ghost before = rooms@;
                proof {
                    lemma_paired_at(names(before), rosters(before), at as int);
                    lemma_paired_at(names(before), inbox_maps(before), at as int);
                    lemma_paired_at(names(before), stream_ends(before), at as int);
                }
                let mut room = rooms.remove(at);
                room.remove(id);
                proof {
                    use_type_invariant(&room);
                    lemma_room_replaced(before, at as int, room);
                }
                rooms.insert(at, room);
                proof {
                    assert(rooms@ =~= before.update(at as int, room));
                    assert(paired(names(before), stream_ends(before)).insert(
                        room_name@,
                        room.stream(),
                    ) =~= paired(names(before), stream_ends(before)));
                }
                core::mem::swap(&mut self.rooms, &mut rooms);
                proof {
                    lemma_rosters_distinct(self.rooms@);
                }
            },
            None => {},
        }
    }
}

/// Whether `envelope` announces `roster` as a room's members, written by
/// `exclude`.
pub open spec fn announces(
    envelope: Message<transmit::Message>,
    roster: Seq<Identity>,
    exclude: Option<Identity>,
) -> bool {
    &&& envelope.broadcaster_id == exclude
    &&& envelope.payload matches transmit::Message::UpdateClientList(list)
    &&& list.props.clients@ == roster
}

impl Broadcast<transmit::Message> {
    /// The announcement of the current members of the room called
    /// `room_name`, in the order they joined and each once; `None` where
    /// there is no such room.
    ///
    /// The envelope names `exclude` as its author, so that a peer of that
    /// identity does not get it; with `None` every member does.
    pub fn clients_list_update(&self, room_name: &str, exclude: Option<Identity>) -> (update:
        Option<Message<transmit::Message>>)
        ensures
            match update {
                Some(envelope) => self@.contains_key(room_name@) && announces(
                    envelope,
                    self@[room_name@],
                    exclude,
                ),
                None => !self@.contains_key(room_name@),
            },
    {
        match self.roster(room_name) {
            Some(clients) => {
                let list = payload::UpdateClientList {
                    props: payload::prop::UpdateClientList { clients },
                };
                Some(Message::new(exclude, transmit::Message::UpdateClientList(list)))
            },
            None => None,
        }
    }

    /// Announces the current members of the room called `room_name` on the
    /// room's broadcast stream; nothing is sent, and `None` returned, where
    /// there is no such room.
    ///
    /// `Some(Ok(..))` holds the number of receivers the stream had, at least
    /// one. With none subscribed the announcement comes back.
    pub fn broadcast_clients_list_update(
        &self,
        room_name: &str,
        exclude: Option<Identity>,
    ) -> (sent: Option<Result<usize, Message<transmit::Message>>>)
        ensures
            sent is Some <==> self@.contains_key(room_name@),
            sent matches Some(Ok(receivers)) ==> receivers > 0,
            sent matches Some(Err(unsent)) ==> announces(unsent, self@[room_name@], exclude),
    {
        match self.clients_list_update(room_name, exclude) {
            Some(envelope) => {
                match self.room(room_name) {
                    Some(room) => Some(room.broadcast(envelope)),
                    None => None,
                }
            },
            None => None,
        }
    }
}

/// A peer's end of a room, as `join` hands it out: the room's broadcast
/// stream, the peer's private inbox, and who and where the peer is.
#[verifier::reject_recursive_types(T)]
pub struct BroadcastRemote<T: Clone> {
    pub room_rx: tokio::sync::broadcast::Receiver<Message<T>>,
    pub client_rx: tokio::sync::mpsc::Receiver<Message<T>>,
    my_id: Identity,
    current_room: String,
    inbox_open: bool,
}

impl<T: Clone> BroadcastRemote<T> {
    /// The peer this end belongs to.
    pub closed spec fn id(&self) -> Identity {
        self.my_id
    }

    /// The name of the room this end belongs to.
    pub closed spec fn room(&self) -> Seq<char> {
        self.current_room@
    }

    /// Whether the private inbox may still bring something.
    pub closed spec fn inbox_open(&self) -> bool {
        self.inbox_open
    }

    /// The receiver on the room's broadcast stream, `room_rx`.
    pub closed spec fn stream_receiver(&self) -> tokio::sync::broadcast::Receiver<Message<T>> {
        self.room_rx
    }

    /// The reading end of the private inbox, `client_rx`.
    pub closed spec fn inbox_receiver(&self) -> tokio::sync::mpsc::Receiver<Message<T>> {
        self.client_rx
    }

    fn new(
        room_rx: tokio::sync::broadcast::Receiver<Message<T>>,
        client_rx: tokio::sync::mpsc::Receiver<Message<T>>,
        my_id: Identity,
        current_room: String,
    ) -> (remote: Self)
        ensures
            remote.id() == my_id,
            remote.room() == current_room@,
            remote.inbox_open(),
            remote.stream_receiver() == room_rx,
            remote.inbox_receiver() == client_rx,
    {
        BroadcastRemote { room_rx, client_rx, my_id, current_room, inbox_open: true }
    }

    /// Whether to go on waiting on the private inbox: `false` once it has
    /// been found closed, after which only the room's stream is waited on.
    pub fn listens_to_inbox(&self) -> (open: bool)
        ensures
            open == self.inbox_open(),
    {
        self.inbox_open
    }

    /// Broadcasts `message` to the peer's room in `hub`, in an envelope that
    /// names the peer as its author.
    ///
    /// The result is `None` exactly when the room does not exist in `hub`.
    /// Else `Ok` holds the number of receivers the stream had, at least one;
    /// with nobody subscribed the envelope comes back.
    pub fn broadcast(&self, hub: &Broadcast<T>, message: T) -> (sent: Option<
        Result<usize, Message<T>>,
    >)
        ensures
            sent is Some <==> hub@.contains_key(self.room()),
            sent matches Some(Ok(receivers)) ==> receivers > 0,
            sent matches Some(Err(unsent)) ==> unsent == (Message {
                broadcaster_id: Some(self.id()),
                payload: message,
            }),
    {
        hub.broadcast_from(self.current_room.as_str(), self.my_id, message)
    }

    /// What the peer gets from one arrival on either of its channels, the
    /// rooms being as `hub` has them. A peer that is no member of its room
    /// gets nothing more. An inbox that is found closed is not waited on
    /// again. Both receivers stay the ones they were.
    pub fn recv(&mut self, hub: &Broadcast<T>, arrival: Arrival<T>) -> (received: Received<T>)
        ensures
            received == received_by(
                old(self).id(),
                roster_in(hub@, old(self).room()).contains(old(self).id()),
                arrival,
            ),
            final(self).id() == old(self).id(),
            final(self).room() == old(self).room(),
            final(self).inbox_open() == (old(self).inbox_open() && !closes_inbox(arrival)),
            final(self).stream_receiver() == old(self).stream_receiver(),
            final(self).inbox_receiver() == old(self).inbox_receiver(),
    {
        if ends_inbox(&arrival) {
            self.inbox_open = false;
        }
        let member = hub.is_member(self.current_room.as_str(), self.my_id);
        receive(self.my_id, member, arrival)
    }

    /// Parts the end into its sending and its receiving half, so that two
    /// tasks can own one each. The receiving half holds the two receivers
    /// of this end, with whatever waits in them.
    pub fn split(self) -> (halves: (RoomSender<T>, RoomReceiver<T>))
        ensures
            halves.0.id() == self.id(),
            halves.0.room() == self.room(),
            halves.1.id() == self.id(),
            halves.1.room() == self.room(),
            halves.1.inbox_open() == self.inbox_open(),
            halves.1.stream_receiver() == self.stream_receiver(),
            halves.1.inbox_receiver() == self.inbox_receiver(),
    {
        let BroadcastRemote { room_rx, client_rx, my_id, current_room, inbox_open } = self;
        let room = current_room.clone();
        let tx = RoomSender { current_room, my_id, payload: core::marker::PhantomData };
        let rx = RoomReceiver { room_rx, client_rx, my_id, current_room: room, inbox_open };
        (tx, rx)
    }
}

/// One arrival on a peer's channels, as the task that waits on both hands it
/// over.
#[verifier::reject_recursive_types(T)]
pub enum Arrival<T: Clone> {
    /// What the room's broadcast stream gave: an envelope, or why not.
    Room(Result<Message<T>, tokio::sync::broadcast::error::RecvError>),
    /// What the private inbox gave: an envelope, or `None` once it is closed.
    Client(Option<Message<T>>),
}

/// What a peer gets from one arrival.
#[derive(Debug, PartialEq, Eq)]
pub enum Received<T> {
    /// A payload for the peer.
    Payload(T),
    /// Nothing for the peer; it goes on waiting.
    Nothing,
    /// No more messages: the room's stream has ended, or the peer is no
    /// member of the room.
    Closed,
}

/// What the peer `me` gets from `arrival`, `member` saying whether it is a
/// member of its room.
///
/// Only members are served: for anybody else the messages have ended. For a
/// member, an envelope gives its payload unless `me` wrote it, and the end
/// of the room's stream ends the messages. Envelopes that the peer was too
/// slow for, and a closed private inbox, give nothing.
pub open spec fn received_by<T: Clone>(me: Identity, member: bool, arrival: Arrival<T>) -> Received<
    T,
> {
    if !member {
        Received::Closed
    } else {
        match arrival {
            Arrival::Room(Ok(envelope)) | Arrival::Client(Some(envelope)) => {
                if envelope.broadcaster_id == Some(me) {
                    Received::Nothing
                } else {
                    Received::Payload(envelope.payload)
                }
            },
            Arrival::Room(Err(tokio::sync::broadcast::error::RecvError::Closed)) => {
                Received::Closed
            },
            Arrival::Room(Err(tokio::sync::broadcast::error::RecvError::Lagged(_))) => {
                Received::Nothing
            },
            Arrival::Client(None) => Received::Nothing,
        }
    }
}

/// Whether `arrival` says that the private inbox is closed for good.
pub open spec fn closes_inbox<T: Clone>(arrival: Arrival<T>) -> bool {
    arrival matches Arrival::Client(None)
}

/// Tells whether `arrival` says that the private inbox is closed for good.
fn ends_inbox<T: Clone>(arrival: &Arrival<T>) -> (ends: bool)
    ensures
        ends == closes_inbox(*arrival),
{
    match arrival {
        Arrival::Client(None) => true,
        _ => false,
    }
}

/// Decides what the peer `me` gets from `arrival`.
fn receive<T: Clone>(me: Identity, member: bool, arrival: Arrival<T>) -> (received: Received<T>)
    ensures
        received == received_by(me, member, arrival),
{
    if !member {
        return Received::Closed;
    }
    let envelope = match arrival {
        Arrival::Room(Ok(envelope)) => envelope,
        Arrival::Room(Err(tokio::sync::broadcast::error::RecvError::Closed)) => {
            return Received::Closed;
        },
        Arrival::Room(Err(tokio::sync::broadcast::error::RecvError::Lagged(_))) => {
            return Received::Nothing;
        },
        Arrival::Client(Some(envelope)) => envelope,
        Arrival::Client(None) => {
            return Received::Nothing;
        },
    };
    match envelope.open(me) {
        Some(payload) => Received::Payload(payload),
        None => Received::Nothing,
    }
}

/// The sending half of a peer's end of a room.
#[verifier::reject_recursive_types(T)]
pub struct RoomSender<T: Clone> {
    current_room: String,
    my_id: Identity,
    payload: core::marker::PhantomData<T>,
}

/// The receiving half of a peer's end of a room.
#[verifier::reject_recursive_types(T)]
pub struct RoomReceiver<T: Clone> {
    pub room_rx: tokio::sync::broadcast::Receiver<Message<T>>,
    pub client_rx: tokio::sync::mpsc::Receiver<Message<T>>,
    my_id: Identity,
    current_room: String,
    inbox_open: bool,
}

impl<T: Clone> RoomSender<T> {
    /// The peer this half belongs to.
    pub closed spec fn id(&self) -> Identity {
        self.my_id
    }

    /// The name of the room this half belongs to.
    pub closed spec fn room(&self) -> Seq<char> {
        self.current_room@
    }

    /// Broadcasts `message` to the peer's room in `hub`, in an envelope that
    /// names the peer as its author.
    ///
    /// The result is `None` exactly when the room does not exist in `hub`.
    /// Else `Ok` holds the number of receivers the stream had, at least one;
    /// with nobody subscribed the envelope comes back.
    pub fn broadcast(&self, hub: &Broadcast<T>, message: T) -> (sent: Option<
        Result<usize, Message<T>>,
    >)
        ensures
            sent is Some <==> hub@.contains_key(self.room()),
            sent matches Some(Ok(receivers)) ==> receivers > 0,
            sent matches Some(Err(unsent)) ==> unsent == (Message {
                broadcaster_id: Some(self.id()),
                payload: message,
            }),
    {
        hub.broadcast_from(self.current_room.as_str(), self.my_id, message)
    }

    /// Sends `message` to the member `target_client` of the peer's room in
    /// `hub` and to nobody else, in an envelope that names the peer as its
    /// author.
    ///
    /// The result is `NotFound` exactly when `target_client` is not a member
    /// of the room, which includes that the room does not exist. For a member
    /// it is `Ok`, or `MpscError` with the envelope inside when the member's
    /// inbox is full or no longer read.
    pub fn send_to(&self, hub: &Broadcast<T>, target_client: Identity, message: T) -> (sent: Result<
        (),
        SendError<Message<T>>,
    >)
        ensures
            sent == Err::<(), SendError<Message<T>>>(SendError::NotFound) <==> !roster_in(
                hub@,
                self.room(),
            ).contains(target_client),
            sent matches Err(SendError::MpscError(failure)) ==> returned(failure) == (Message {
                broadcaster_id: Some(self.id()),
                payload: message,
            }),
    {
        let envelope = Message::new(Some(self.my_id), message);
        match hub.room(self.current_room.as_str()) {
            Some(room) => room.send_to(target_client, envelope),
            None => Err(SendError::NotFound),
        }
    }
}

impl<T: Clone> RoomReceiver<T> {
    /// The peer this half belongs to.
    pub closed spec fn id(&self) -> Identity {
        self.my_id
    }

    /// The name of the room this half belongs to.
    pub closed spec fn room(&self) -> Seq<char> {
        self.current_room@
    }

    /// Whether the private inbox may still bring something.
    pub closed spec fn inbox_open(&self) -> bool {
        self.inbox_open
    }

    /// The receiver on the room's broadcast stream, `room_rx`.
    pub closed spec fn stream_receiver(&self) -> tokio::sync::broadcast::Receiver<Message<T>> {
        self.room_rx
    }

    /// The reading end of the private inbox, `client_rx`.
    pub closed spec fn inbox_receiver(&self) -> tokio::sync::mpsc::Receiver<Message<T>> {
        self.client_rx
    }

    /// Whether to go on waiting on the private inbox: `false` once it has
    /// been found closed, after which only the room's stream is waited on.
    pub fn listens_to_inbox(&self) -> (open: bool)
        ensures
            open == self.inbox_open(),
    {
        self.inbox_open
    }

    /// What the peer gets from one arrival on either of its channels, the
    /// rooms being as `hub` has them. A peer that is no member of its room
    /// gets nothing more. An inbox that is found closed is not waited on
    /// again. Both receivers stay the ones they were.
    pub fn recv(&mut self, hub: &Broadcast<T>, arrival: Arrival<T>) -> (received: Received<T>)
        ensures
            received == received_by(
                old(self).id(),
                roster_in(hub@, old(self).room()).contains(old(self).id()),
                arrival,
            ),
            final(self).id() == old(self).id(),
            final(self).room() == old(self).room(),
            final(self).inbox_open() == (old(self).inbox_open() && !closes_inbox(arrival)),
            final(self).stream_receiver() == old(self).stream_receiver(),
            final(self).inbox_receiver() == old(self).inbox_receiver(),
    {
        if ends_inbox(&arrival) {
            self.inbox_open = false;
        }
        let member = hub.is_member(self.current_room.as_str(), self.my_id);
        receive(self.my_id, member, arrival)
    }
}

/// A peer never gets what it sent itself, whichever channel brings it and
/// whether it is a member or not.
pub proof fn own_message_is_never_received<T: Clone>(me: Identity, member: bool, payload: T)
    ensures
        received_by(me, member, Arrival::Room(Ok(Message { broadcaster_id: Some(me), payload })))
            !is Payload,
        received_by(
            me,
            member,
            Arrival::Client(Some(Message { broadcaster_id: Some(me), payload })),
        ) !is Payload,
{
}

/// Every member but the author gets the payload of an envelope that reaches
/// it, whichever channel brings it; the hub's own messages reach every
/// member.
pub proof fn message_of_another_is_received<T: Clone>(
    me: Identity,
    author: Option<Identity>,
    payload: T,
)
    requires
        author != Some(me),
    ensures
        received_by(me, true, Arrival::Room(Ok(Message { broadcaster_id: author, payload })))
            == Received::Payload(payload),
        received_by(me, true, Arrival::Client(Some(Message { broadcaster_id: author, payload })))
            == Received::Payload(payload),
{
}

/// Of the members of a room, those that get a broadcast from the room's
/// stream are those that a fan-out would serve: every member but the sender.
pub proof fn stream_serves_the_recipients<T: Clone>(
    roster: Seq<Identity>,
    sender: Identity,
    payload: T,
    member: Identity,
)
    requires
        roster.contains(member),
    ensures
        recipients(roster, sender).contains(member) <==> received_by(
            member,
            true,
            Arrival::Room(Ok(Message { broadcaster_id: Some(sender), payload })),
        ) == Received::Payload(payload),
        !recipients(roster, sender).contains(member) <==> received_by(
            member,
            true,
            Arrival::Room(Ok(Message { broadcaster_id: Some(sender), payload })),
        ) == Received::<T>::Nothing,
{
    lemma_departed(roster, sender);
}

/// A peer that has left its room is handed nothing more, whatever arrives
/// on the channels it still holds.
pub proof fn nothing_is_received_after_leaving<T: Clone>(
    rooms: Map<Seq<char>, Seq<Identity>>,
    room: Seq<char>,
    id: Identity,
    arrival: Arrival<T>,
)
    ensures
        received_by(id, roster_in(after_leave(rooms, room, id), room).contains(id), arrival)
            == Received::<T>::Closed,
{
    if rooms.contains_key(room) {
        lemma_departed(rooms[room], id);
    }
}

} // verus!
