//! The behavior composite's unified event stream: each sub-capability's
//! native event re-tagged, totally and order-preservingly, into one closed
//! union, so the node consumes a single stream instead of three.

use vstd::prelude::*;

use crate::ident::PeerId;

verus! {

/// An event of the discovery (routing-table) capability. The node reads
/// nothing from it; it exists so the unified stream is total.
#[derive(Debug)]
pub struct DiscoveryEvent {}

/// An event of the identify (liveness/metadata) capability. The node reads
/// nothing from it.
#[derive(Debug)]
pub struct IdentifyEvent {}

/// An event of the request/response capability: what the node reads from the
/// messaging sub-protocol.
#[derive(Debug)]
pub enum MessageEvent<M> {
    /// An inbound request and the correlation channel its response must use.
    Request { peer: PeerId, request: M, channel: u64 },
    /// An inbound response correlated to a request this node sent earlier.
    Response { peer: PeerId, response: M },
    /// Bookkeeping (delivery failures, response-sent notices) the node
    /// ignores.
    Other,
}

/// The one tagged event stream the node consumes: a closed union with one
/// variant per composed sub-capability, populated by the total conversions
/// below.
#[derive(Debug)]
pub enum Event<M> {
    Kad(DiscoveryEvent),
    Identify(IdentifyEvent),
    RequestResponse(MessageEvent<M>),
}

impl<M> From<DiscoveryEvent> for Event<M> {
    fn from(event: DiscoveryEvent) -> (r: Event<M>) {
        Event::Kad(event)
    }
}

impl<M> vstd::std_specs::convert::FromSpecImpl<DiscoveryEvent> for Event<M> {
    open spec fn obeys_from_spec() -> bool {
        true
    }

    open spec fn from_spec(event: DiscoveryEvent) -> Event<M> {
        Event::Kad(event)
    }
}

impl<M> From<IdentifyEvent> for Event<M> {
    fn from(event: IdentifyEvent) -> (r: Event<M>) {
        Event::Identify(event)
    }
}

impl<M> vstd::std_specs::convert::FromSpecImpl<IdentifyEvent> for Event<M> {
    open spec fn obeys_from_spec() -> bool {
        true
    }

    open spec fn from_spec(event: IdentifyEvent) -> Event<M> {
        Event::Identify(event)
    }
}

impl<M> From<MessageEvent<M>> for Event<M> {
    fn from(event: MessageEvent<M>) -> (r: Event<M>) {
        Event::RequestResponse(event)
    }
}

impl<M> vstd::std_specs::convert::FromSpecImpl<MessageEvent<M>> for Event<M> {
    open spec fn obeys_from_spec() -> bool {
        true
    }

    open spec fn from_spec(event: MessageEvent<M>) -> Event<M> {
        Event::RequestResponse(event)
    }
}

} // verus!
