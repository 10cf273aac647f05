//! A hub of the simplest kind: one list of the connected peers, each with
//! the writing end of its connection, for a caller that writes to the peers
//! itself.

use crate::identity::Identity;
use vstd::prelude::*;

verus! {

/// One connected peer: its address and the writing end of its connection.
#[derive(Debug)]
pub struct Client<S> {
    pub addr: Identity,
    pub tx: S,
}

impl<S> Client<S> {
    /// The peer at `addr` that is written to through `tx`.
    pub fn new(addr: Identity, tx: S) -> (client: Self)
        ensures
            client == (Client { addr, tx }),
    {
        Client { addr, tx }
    }
}

/// The connected peers, in the order they connected. An address may stand
/// in the list more than once.
///
/// The view is the list of addresses.
#[derive(Debug)]
pub struct Clients<S> {
    pub vec: Vec<Client<S>>,
}

impl<S> View for Clients<S> {
    type V = Seq<Identity>;

    open spec fn view(&self) -> Seq<Identity> {
        self.vec@.map_values(|client: Client<S>| client.addr)
    }
}

impl<S> Default for Clients<S> {
    fn default() -> (clients: Self)
        ensures
            clients@ == Seq::<Identity>::empty(),
    {
        let clients = Clients { vec: Vec::new() };
        assert(clients@ =~= Seq::<Identity>::empty());
        clients
    }
}

/// Whether `served` lists, in rising order, exactly the places in
/// `addresses` that hold another address than `exclude`.
pub open spec fn serves_all_but(
    served: Seq<usize>,
    addresses: Seq<Identity>,
    exclude: Option<Identity>,
) -> bool {
    &&& forall|i: int, j: int| 0 <= i < j < served.len() ==> served[i] < served[j]
    &&& forall|i: int|
        0 <= i < served.len() ==> served[i] < addresses.len() && Some(
            addresses[#[trigger] served[i] as int],
        ) != exclude
    &&& forall|at: int|
        0 <= at < addresses.len() && Some(#[trigger] addresses[at]) != exclude ==> exists|i: int|
            0 <= i < served.len() && served[i] == at
}

impl<S> Clients<S> {
    /// Adds the peer at `addr`, written to through `tx`, at the end.
    pub fn push(&mut self, addr: Identity, tx: S)
        ensures
            final(self).vec@ == old(self).vec@.push(Client { addr, tx }),
            final(self)@ == old(self)@.push(addr),
    {
        self.vec.push(Client::new(addr, tx));
        assert(self@ =~= old(self)@.push(addr));
    }

    /// The places of the peers that a message is written to: every peer in
    /// the list when `exclude` is `None`, else every peer at another address
    /// than `exclude`; in the order of the list.
    pub fn broadcast(&self, exclude: Option<Identity>) -> (served: Vec<usize>)
        ensures
            serves_all_but(served@, self@, exclude),
    {
        let mut served: Vec<usize> = Vec::new();
        let mut at: usize = 0;
        while at < self.vec.len()
            invariant
                at <= self.vec.len(),
                serves_all_but(served@, self@.take(at as int), exclude),
            decreases self.vec.len() - at,
        {
            let ghost before = served@;
            let skip = match exclude {
                Some(addr) => self.vec[at].addr == addr,
                None => false,
            };
            if !skip {
                served.push(at);
                assert forall|place: int|
                    0 <= place < at + 1 && Some(#[trigger] self@.take(at + 1)[place])
                        != exclude implies exists|i: int|
                    0 <= i < served@.len() && served@[i] == place by {
                    if place < at {
                        assert(Some(self@.take(at as int)[place]) != exclude);
                        let i = choose|i: int| 0 <= i < before.len() && before[i] == place;
                        assert(served@[i] == place);
                    } else {
                        assert(served@[before.len() as int] == place);
                    }
                }
            } else {
                assert forall|place: int|
                    0 <= place < at + 1 && Some(#[trigger] self@.take(at + 1)[place])
                        != exclude implies exists|i: int|
                    0 <= i < served@.len() && served@[i] == place by {
                    assert(Some(self@.take(at as int)[place]) != exclude);
                }
            }
            at += 1;
        }
        assert(self@.take(at as int) =~= self@);
        served
    }

    /// Takes the first peer at `addr` out of the list; nothing happens if
    /// there is none.
    pub fn remove(&mut self, addr: Identity)
        ensures
            final(self).vec@ == match old(self)@.index_of_first(addr) {
                Some(at) => old(self).vec@.remove(at),
                None => old(self).vec@,
            },
            final(self)@ == old(self)@.remove_value(addr),
    {
        let mut at: usize = 0;
        while at < self.vec.len()
            invariant
                at <= self.vec.len(),
                *self == *old(self),
                forall|i: int| 0 <= i < at ==> self@[i] != addr,
            decreases self.vec.len() - at,
        {
            if self.vec[at].addr == addr {
                proof {
                    self@.index_of_first_ensures(addr);
                    assert(self@[at as int] == addr);
                }
                self.vec.remove(at);
                assert(self@ =~= old(self)@.remove(at as int));
                return ;
            }
            at += 1;
        }
        proof {
            self@.index_of_first_ensures(addr);
        }
    }
}

/// One peer's use of the list of connected peers, for as long as its
/// connection is open.
#[derive(Debug)]
pub struct SocketClient {
    addr: Identity,
}

impl SocketClient {
    /// The address of the peer.
    pub closed spec fn addr(&self) -> Identity {
        self.addr
    }

    /// Enters the peer at `current_addr`, written to through `tx`, in
    /// `clients`.
    pub fn new<S>(current_addr: Identity, tx: S, clients: &mut Clients<S>) -> (client: Self)
        ensures
            client.addr() == current_addr,
            final(clients).vec@ == old(clients).vec@.push(Client { addr: current_addr, tx }),
            final(clients)@ == old(clients)@.push(current_addr),
    {
        clients.push(current_addr, tx);
        SocketClient { addr: current_addr }
    }

    /// The places of the peers that a message of this peer is written to:
    /// every peer at another address.
    pub fn broadcast<S>(&self, clients: &Clients<S>) -> (served: Vec<usize>)
        ensures
            serves_all_but(served@, clients@, Some(self.addr())),
    {
        clients.broadcast(Some(self.addr))
    }

    /// The places of the peers that a message to everyone is written to:
    /// every peer in the list, this one too.
    pub fn broadcast_all<S>(&self, clients: &Clients<S>) -> (served: Vec<usize>)
        ensures
            serves_all_but(served@, clients@, None),
    {
        clients.broadcast(None)
    }

    /// Takes the peer out of `clients` when its connection ends: the first
    /// entry at its address goes, with its writing end, and every other
    /// entry stays as it is.
    pub fn cleanup<S>(&self, clients: &mut Clients<S>)
        ensures
            final(clients).vec@ == match old(clients)@.index_of_first(self.addr()) {
                Some(at) => old(clients).vec@.remove(at),
                None => old(clients).vec@,
            },
            final(clients)@ == old(clients)@.remove_value(self.addr()),
    {
        clients.remove(self.addr);
    }
}

} // verus!
