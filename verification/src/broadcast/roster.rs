use crate::identity::Identity;
use vstd::prelude::*;

verus! {

/// The roster after `id` has joined: unchanged if `id` is a member already,
/// else with `id` at the end.
pub open spec fn joined(roster: Seq<Identity>, id: Identity) -> Seq<Identity> {
    if roster.contains(id) {
        roster
    } else {
        roster.push(id)
    }
}

/// The roster after `id` has left: every other member, in the same order.
pub open spec fn departed(roster: Seq<Identity>, id: Identity) -> Seq<Identity> {
    roster.filter(|member: Identity| member != id)
}

/// The members a broadcast is fanned out to: everyone but `exclude`.
pub open spec fn recipients(roster: Seq<Identity>, exclude: Identity) -> Seq<Identity> {
    departed(roster, exclude)
}

/// The roster of `room`, empty where no such room exists.
pub open spec fn roster_in(rooms: Map<Seq<char>, Seq<Identity>>, room: Seq<char>) -> Seq<
    Identity,
> {
    if rooms.contains_key(room) {
        rooms[room]
    } else {
        Seq::empty()
    }
}

/// The rooms after `id` has joined `room`; the room is created if need be.
pub open spec fn after_join(
    rooms: Map<Seq<char>, Seq<Identity>>,
    room: Seq<char>,
    id: Identity,
) -> Map<Seq<char>, Seq<Identity>> {
    rooms.insert(room, joined(roster_in(rooms, room), id))
}

/// The rooms after `id` has left `room`; a room stays when its last member
/// leaves, and nothing changes where the room does not exist.
pub open spec fn after_leave(
    rooms: Map<Seq<char>, Seq<Identity>>,
    room: Seq<char>,
    id: Identity,
) -> Map<Seq<char>, Seq<Identity>> {
    if rooms.contains_key(room) {
        rooms.insert(room, departed(rooms[room], id))
    } else {
        rooms
    }
}

/// No room lists a member twice.
pub open spec fn distinct_members(rooms: Map<Seq<char>, Seq<Identity>>) -> bool {
    forall|room: Seq<char>| #[trigger] rooms.contains_key(room) ==> rooms[room].no_duplicates()
}

/// The endpoints kept for the members of `room`, none where no such room
/// exists.
pub open spec fn ends_in<E>(ends: Map<Seq<char>, Map<Identity, E>>, room: Seq<char>) -> Map<
    Identity,
    E,
> {
    if ends.contains_key(room) {
        ends[room]
    } else {
        Map::empty()
    }
}

/// The endpoints after `id` has joined `room` and is reached through `end`:
/// `end` is kept for `id` in `room`, in the place of what was kept for it,
/// and every other endpoint is the one it was.
pub open spec fn ends_after_join<E>(
    ends: Map<Seq<char>, Map<Identity, E>>,
    room: Seq<char>,
    id: Identity,
    end: E,
) -> Map<Seq<char>, Map<Identity, E>> {
    ends.insert(room, ends_in(ends, room).insert(id, end))
}

/// The endpoints after `id` has left `room`: none is kept for `id` in
/// `room`, and every other endpoint is the one it was.
pub open spec fn ends_after_leave<E>(
    ends: Map<Seq<char>, Map<Identity, E>>,
    room: Seq<char>,
    id: Identity,
) -> Map<Seq<char>, Map<Identity, E>> {
    if ends.contains_key(room) {
        ends.insert(room, ends[room].remove(id))
    } else {
        ends
    }
}

/// Whether `ends` keeps an endpoint for each member that `rooms` lists and
/// for nobody else.
pub open spec fn ends_fit<E>(
    rooms: Map<Seq<char>, Seq<Identity>>,
    ends: Map<Seq<char>, Map<Identity, E>>,
) -> bool {
    &&& forall|room: Seq<char>| #[trigger] rooms.contains_key(room) <==> ends.contains_key(room)
    &&& forall|room: Seq<char>, id: Identity|
        rooms.contains_key(room) ==> (rooms[room].contains(id) <==> (
        #[trigger] ends[room].contains_key(id)))
}

/// One more element at the end of a roster adds it to what has left if it is
/// not the one leaving.
pub proof fn lemma_departed_push(roster: Seq<Identity>, last: Identity, id: Identity)
    ensures
        departed(roster.push(last), id) == if last != id {
            departed(roster, id).push(last)
        } else {
            departed(roster, id)
        },
{
    reveal(Seq::filter);
    assert(roster.push(last).drop_last() =~= roster);
}

/// Who is in a roster after a member has left, and that leaving keeps the
/// order and the absence of duplicates.
pub proof fn lemma_departed(roster: Seq<Identity>, id: Identity)
    ensures
        forall|member: Identity|
            #[trigger] departed(roster, id).contains(member) <==> roster.contains(member) && member
                != id,
        roster.no_duplicates() ==> departed(roster, id).no_duplicates(),
        departed(roster, id).len() <= roster.len(),
        !roster.contains(id) ==> departed(roster, id) == roster,
    decreases roster.len(),
{
    reveal(Seq::filter);
    if roster.len() > 0 {
        let front = roster.drop_last();
        let last = roster.last();
        lemma_departed(front, id);
        assert(roster =~= front.push(last));
        lemma_departed_push(front, last, id);
        assert forall|member: Identity|
            #[trigger] departed(roster, id).contains(member) <==> roster.contains(member) && member
                != id by {
            if roster.contains(member) && member != id {
                let i = choose|i: int| 0 <= i < roster.len() && roster[i] == member;
                if i < front.len() {
                    assert(front[i] == member);
                    assert(front.contains(member));
                    assert(departed(front, id).contains(member));
                    let j = choose|j: int|
                        0 <= j < departed(front, id).len() && departed(front, id)[j] == member;
                    assert(departed(roster, id)[j] == member);
                } else {
                    assert(member == last);
                    assert(departed(roster, id).last() == member);
                }
            }
            if departed(roster, id).contains(member) {
                let j = choose|j: int|
                    0 <= j < departed(roster, id).len() && departed(roster, id)[j] == member;
                if j < departed(front, id).len() {
                    assert(departed(front, id)[j] == member);
                    assert(departed(front, id).contains(member));
                    let i = choose|i: int| 0 <= i < front.len() && front[i] == member;
                    assert(roster[i] == member);
                } else {
                    assert(member == last);
                    assert(roster[roster.len() - 1] == member);
                }
            }
        }
        if roster.no_duplicates() {
            assert(front.no_duplicates());
            if last != id {
                assert(!front.contains(last)) by {
                    if front.contains(last) {
                        let i = choose|i: int| 0 <= i < front.len() && front[i] == last;
                        assert(roster[i] == roster[roster.len() - 1]);
                    }
                }
                assert(!departed(front, id).contains(last));
                assert(departed(roster, id).no_duplicates());
            }
        }
        if !roster.contains(id) {
            assert(!front.contains(id)) by {
                if front.contains(id) {
                    let i = choose|i: int| 0 <= i < front.len() && front[i] == id;
                    assert(roster[i] == id);
                }
            }
            assert(last != id) by {
                assert(roster[roster.len() - 1] == last);
            }
        }
    }
}

/// In a roster without duplicates, a member's leaving removes the one
/// position that holds it.
pub proof fn lemma_departed_at(roster: Seq<Identity>, at: int)
    requires
        roster.no_duplicates(),
        0 <= at < roster.len(),
    ensures
        departed(roster, roster[at]) == roster.remove(at),
    decreases roster.len(),
{
    let id = roster[at];
    let front = roster.drop_last();
    let last = roster.last();
    assert(roster =~= front.push(last));
    lemma_departed_push(front, last, id);
    if at == roster.len() - 1 {
        assert(!front.contains(id)) by {
            if front.contains(id) {
                let i = choose|i: int| 0 <= i < front.len() && front[i] == id;
                assert(roster[i] == roster[at]);
            }
        }
        lemma_departed(front, id);
        assert(roster.remove(at) =~= front);
    } else {
        lemma_departed_at(front, at);
        assert(last != id) by {
            assert(roster[roster.len() - 1] == last);
        }
        assert(roster.remove(at) =~= front.remove(at).push(last));
    }
}

/// Who is in a roster after a join, and that joining keeps the absence of
/// duplicates.
pub proof fn lemma_joined(roster: Seq<Identity>, id: Identity)
    ensures
        forall|member: Identity|
            #[trigger] joined(roster, id).contains(member) <==> roster.contains(member) || member
                == id,
        roster.no_duplicates() ==> joined(roster, id).no_duplicates(),
{
    if !roster.contains(id) {
        let after = roster.push(id);
        assert forall|member: Identity|
            #[trigger] after.contains(member) <==> roster.contains(member) || member == id by {
            if roster.contains(member) {
                let i = choose|i: int| 0 <= i < roster.len() && roster[i] == member;
                assert(after[i] == member);
            }
            if member == id {
                assert(after[after.len() - 1] == member);
            }
        }
    }
}

/// A broadcast is never fanned out to its sender.
pub proof fn sender_is_no_recipient(roster: Seq<Identity>, sender: Identity)
    ensures
        !recipients(roster, sender).contains(sender),
{
    lemma_departed(roster, sender);
}

/// A broadcast is fanned out to every member but its sender, and in a room
/// that lists nobody twice to each of them once.
pub proof fn every_other_member_is_a_recipient(
    roster: Seq<Identity>,
    sender: Identity,
    member: Identity,
)
    requires
        roster.contains(member),
        member != sender,
    ensures
        recipients(roster, sender).contains(member),
        roster.no_duplicates() ==> recipients(roster, sender).no_duplicates(),
{
    lemma_departed(roster, sender);
}

/// Leaving a room twice leaves the rooms as leaving it once does.
pub proof fn leaving_twice_is_leaving_once(
    rooms: Map<Seq<char>, Seq<Identity>>,
    room: Seq<char>,
    id: Identity,
)
    ensures
        after_leave(after_leave(rooms, room, id), room, id) == after_leave(rooms, room, id),
{
    if rooms.contains_key(room) {
        let once = departed(rooms[room], id);
        lemma_departed(rooms[room], id);
        lemma_departed(once, id);
        assert(after_leave(after_leave(rooms, room, id), room, id) =~= after_leave(
            rooms,
            room,
            id,
        ));
    }
}

/// Leaving a room one is not in, or a room that does not exist, changes
/// nothing.
pub proof fn leaving_without_being_in_changes_nothing(
    rooms: Map<Seq<char>, Seq<Identity>>,
    room: Seq<char>,
    id: Identity,
)
    requires
        !roster_in(rooms, room).contains(id),
    ensures
        after_leave(rooms, room, id) == rooms,
{
    if rooms.contains_key(room) {
        lemma_departed(rooms[room], id);
        assert(after_leave(rooms, room, id) =~= rooms);
    }
}

/// After leaving, one is not in the room, and everyone else is in the rooms
/// they were in.
pub proof fn leaving_removes_only_the_one_who_leaves(
    rooms: Map<Seq<char>, Seq<Identity>>,
    room: Seq<char>,
    id: Identity,
    other_room: Seq<char>,
    other: Identity,
)
    ensures
        !roster_in(after_leave(rooms, room, id), room).contains(id),
        (other_room != room || other != id) ==> (roster_in(
            after_leave(rooms, room, id),
            other_room,
        ).contains(other) <==> roster_in(rooms, other_room).contains(other)),
{
    if rooms.contains_key(room) {
        lemma_departed(rooms[room], id);
    }
}

/// After joining, one is in the room, and everyone else is in the rooms they
/// were in.
pub proof fn joining_adds_only_the_one_who_joins(
    rooms: Map<Seq<char>, Seq<Identity>>,
    room: Seq<char>,
    id: Identity,
    other_room: Seq<char>,
    other: Identity,
)
    ensures
        roster_in(after_join(rooms, room, id), room).contains(id),
        (other_room != room || other != id) ==> (roster_in(
            after_join(rooms, room, id),
            other_room,
        ).contains(other) <==> roster_in(rooms, other_room).contains(other)),
{
    lemma_joined(roster_in(rooms, room), id);
}

/// Leaving a room twice leaves every endpoint as leaving it once does.
pub proof fn leaving_twice_keeps_the_endpoints<E>(
    ends: Map<Seq<char>, Map<Identity, E>>,
    room: Seq<char>,
    id: Identity,
)
    ensures
        ends_after_leave(ends_after_leave(ends, room, id), room, id) == ends_after_leave(
            ends,
            room,
            id,
        ),
{
    if ends.contains_key(room) {
        assert(ends[room].remove(id).remove(id) =~= ends[room].remove(id));
        assert(ends_after_leave(ends_after_leave(ends, room, id), room, id) =~= ends_after_leave(
            ends,
            room,
            id,
        ));
    }
}

/// A leave takes away the endpoint of the one who leaves and no other:
/// every other member, in that room and in every other, keeps the endpoint
/// it had.
pub proof fn leaving_keeps_the_other_endpoints<E>(
    ends: Map<Seq<char>, Map<Identity, E>>,
    room: Seq<char>,
    id: Identity,
    other_room: Seq<char>,
    other: Identity,
)
    requires
        other_room != room || other != id,
    ensures
        !ends_in(ends_after_leave(ends, room, id), room).contains_key(id),
        ends_in(ends_after_leave(ends, room, id), other_room).contains_key(other) <==> ends_in(
            ends,
            other_room,
        ).contains_key(other),
        ends_in(ends, other_room).contains_key(other) ==> ends_in(
            ends_after_leave(ends, room, id),
            other_room,
        )[other] == ends_in(ends, other_room)[other],
{
}

/// A join sets the endpoint of the one who joins and no other: every other
/// member, in that room and in every other, keeps the endpoint it had.
pub proof fn joining_keeps_the_other_endpoints<E>(
    ends: Map<Seq<char>, Map<Identity, E>>,
    room: Seq<char>,
    id: Identity,
    end: E,
    other_room: Seq<char>,
    other: Identity,
)
    requires
        other_room != room || other != id,
    ensures
        ends_in(ends_after_join(ends, room, id, end), room).contains_key(id),
        ends_in(ends_after_join(ends, room, id, end), room)[id] == end,
        ends_in(ends_after_join(ends, room, id, end), other_room).contains_key(other) <==> ends_in(
            ends,
            other_room,
        ).contains_key(other),
        ends_in(ends, other_room).contains_key(other) ==> ends_in(
            ends_after_join(ends, room, id, end),
            other_room,
        )[other] == ends_in(ends, other_room)[other],
{
}

/// One change of membership.
pub enum Change {
    /// A peer joins a room.
    Join(Seq<char>, Identity),
    /// A peer leaves a room.
    Leave(Seq<char>, Identity),
}

/// The rooms after one change.
pub open spec fn changed(rooms: Map<Seq<char>, Seq<Identity>>, change: Change) -> Map<
    Seq<char>,
    Seq<Identity>,
> {
    match change {
        Change::Join(room, id) => after_join(rooms, room, id),
        Change::Leave(room, id) => after_leave(rooms, room, id),
    }
}

/// The rooms of a registry that started empty and saw `changes`, first to
/// last.
pub open spec fn replayed(changes: Seq<Change>) -> Map<Seq<char>, Seq<Identity>>
    decreases changes.len(),
{
    if changes.len() == 0 {
        Map::empty()
    } else {
        changed(replayed(changes.drop_last()), changes.last())
    }
}

/// Whether the last of `changes` that speaks of `id` and `room` is a join.
pub open spec fn last_joined(changes: Seq<Change>, room: Seq<char>, id: Identity) -> bool
    decreases changes.len(),
{
    if changes.len() == 0 {
        false
    } else if changes.last() == Change::Join(room, id) {
        true
    } else if changes.last() == Change::Leave(room, id) {
        false
    } else {
        last_joined(changes.drop_last(), room, id)
    }
}

/// Whatever joins and leaves a registry has seen, a room's roster holds
/// exactly the peers whose last change in that room was a join, each once:
/// nobody is missing, nobody is stale, nobody is listed twice.
pub proof fn roster_reflects_the_changes(changes: Seq<Change>, room: Seq<char>, id: Identity)
    ensures
        distinct_members(replayed(changes)),
        roster_in(replayed(changes), room).contains(id) <==> last_joined(changes, room, id),
    decreases changes.len(),
{
    if changes.len() > 0 {
        let before = replayed(changes.drop_last());
        roster_reflects_the_changes(changes.drop_last(), room, id);
        match changes.last() {
            Change::Join(in_room, who) => {
                joining_adds_only_the_one_who_joins(before, in_room, who, room, id);
                lemma_joined(roster_in(before, in_room), who);
                assert(roster_in(before, in_room).no_duplicates());
            },
            Change::Leave(in_room, who) => {
                leaving_removes_only_the_one_who_leaves(before, in_room, who, room, id);
                if before.contains_key(in_room) {
                    lemma_departed(before[in_room], who);
                }
            },
        }
    }
}

} // verus!
