use vstd::prelude::*;

verus! {

/// The identity of one connected peer: the socket address its connection
/// came from, held as plain numbers.
///
/// Two identities are equal exactly when every component is equal, which is
/// how socket addresses compare. A room keys its members by this value and a
/// receiver recognises its own broadcasts by it.
#[derive(Clone, Copy, Debug, PartialEq, Eq, Hash, Structural)]
#[allow(inconsistent_fields)]
pub enum Identity {
    /// An IPv4 socket address; `ip` holds the four octets, first octet in the
    /// most significant byte.
    V4 { ip: u32, port: u16 },
    /// An IPv6 socket address; `ip` holds the sixteen octets, first octet in
    /// the most significant byte.
    V6 { ip: u128, port: u16, flowinfo: u32, scope_id: u32 },
}

} // verus!
