use vstd::prelude::*;

pub mod prop;
pub mod webapi;

verus! {

/// A session description relayed to one peer.
#[derive(Debug, PartialEq, Eq)]
pub struct Offer {
    pub props: prop::Offer,
}

/// The announcement of a room's current members.
#[derive(Debug, PartialEq, Eq)]
pub struct UpdateClientList {
    pub props: prop::UpdateClientList,
}

/// A peer's session descriptions, one per target.
#[derive(Debug, PartialEq, Eq)]
pub struct Offers {
    pub props: prop::Offers,
}

/// The announcement of a connection's own identity.
#[derive(Debug, Clone, Copy, PartialEq, Eq)]
pub struct UpdateIdentity {
    pub props: prop::UpdateIdentity,
}

impl Clone for Offer {
    fn clone(&self) -> (copy: Self)
        ensures
            copy == *self,
    {
        Offer { props: self.props.clone() }
    }
}

impl Clone for UpdateClientList {
    fn clone(&self) -> (copy: Self)
        ensures
            copy.props.clients@ == self.props.clients@,
    {
        UpdateClientList { props: self.props.clone() }
    }
}

impl Clone for Offers {
    fn clone(&self) -> (copy: Self)
        ensures
            copy.props.offers@ == self.props.offers@,
    {
        Offers { props: self.props.clone() }
    }
}

} // verus!
