use crate::identity::Identity;
use crate::payload::webapi;
use vstd::prelude::*;

verus! {

/// A session description on its way to a peer, with the peer that made it.
#[derive(Debug, PartialEq, Eq)]
pub struct Offer {
    pub _kind: String,
    pub sdp: String,
    pub initiator_id: Identity,
}

/// The members of a room, in the order they joined.
#[derive(Debug, PartialEq, Eq)]
pub struct UpdateClientList {
    pub clients: Vec<Identity>,
}

/// One session description per peer it is meant for.
#[derive(Debug, PartialEq, Eq)]
pub struct Offers {
    pub offers: Vec<OfferTarget>,
}

/// A session description and the peer it is meant for.
#[derive(Debug, PartialEq, Eq)]
pub struct OfferTarget {
    pub id: Identity,
    pub offer: webapi::Offer,
}

/// The identity the hub gave to a connection.
#[derive(Debug, Clone, Copy, PartialEq, Eq)]
pub struct UpdateIdentity {
    pub your_id: Identity,
}

impl Clone for Offer {
    fn clone(&self) -> (copy: Self)
        ensures
            copy == *self,
    {
        Offer { _kind: self._kind.clone(), sdp: self.sdp.clone(), initiator_id: self.initiator_id }
    }
}

impl Clone for UpdateClientList {
    fn clone(&self) -> (copy: Self)
        ensures
            copy.clients@ == self.clients@,
    {
        UpdateClientList { clients: self.clients.clone() }
    }
}

impl Clone for Offers {
    fn clone(&self) -> (copy: Self)
        ensures
            copy.offers@ == self.offers@,
    {
        let mut offers: Vec<OfferTarget> = Vec::new();
        let mut i: usize = 0;
        while i < self.offers.len()
            invariant
                i <= self.offers.len(),
                offers@ == self.offers@.take(i as int),
            decreases self.offers.len() - i,
        {
            offers.push(self.offers[i].clone());
            i += 1;
        }
        Offers { offers }
    }
}

impl Clone for OfferTarget {
    fn clone(&self) -> (copy: Self)
        ensures
            copy == *self,
    {
        OfferTarget { id: self.id, offer: self.offer.clone() }
    }
}

} // verus!
