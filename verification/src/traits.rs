//! Capability contracts the runtime depends on.

use vstd::prelude::*;

use crate::ident::{NetAddr, PeerId};

verus! {

/// What an application message type must provide so the runtime can transport
/// it generically: a fixed protocol identifier used to route the message to
/// the correct handler on the wire, and value semantics permitting cheap
/// duplication (one copy per destination peer during a broadcast). The
/// runtime never inspects the payload beyond these guarantees.
pub trait Message: Sized {
    /// The fixed protocol identifier under which this message type travels.
    fn protocol_id(&self) -> &'static str;

    /// Duplicate the message for one more destination; value semantics.
    fn dup(&self) -> (r: Self)
        ensures
            r == *self,
    ;
}

/// Management of peer connections and addresses. Applications can implement
/// this to customize how peers are stored and managed.
pub trait PeerManagement {
    fn get_peers(&self) -> Vec<PeerId>;

    fn add_peer_with_addr(&mut self, peer_id: PeerId, addr: NetAddr);
}

} // verus!
