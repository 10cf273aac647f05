use crate::identity::Identity;
use crate::payload::prop;
use vstd::prelude::*;

verus! {

/// A session description as a browser's `RTCPeerConnection.createOffer`
/// returns it.
#[derive(Debug, PartialEq, Eq)]
pub struct Offer {
    pub _kind: String,
    pub sdp: String,
}

impl Clone for Offer {
    fn clone(&self) -> (copy: Self)
        ensures
            copy == *self,
    {
        Offer { _kind: self._kind.clone(), sdp: self.sdp.clone() }
    }
}

impl Offer {
    /// Tags the description with the peer that sent it, leaving kind and
    /// SDP text as they are.
    pub fn with_initiator(self, initiator_id: Identity) -> (tagged: prop::Offer)
        ensures
            tagged == (prop::Offer { _kind: self._kind, sdp: self.sdp, initiator_id }),
    {
        prop::Offer { _kind: self._kind, sdp: self.sdp, initiator_id }
    }
}

} // verus!
