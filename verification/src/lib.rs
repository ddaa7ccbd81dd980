//! A peer-to-peer node runtime: peer discovery, identity exchange and
//! request/response messaging composed into one event-driven node, with a
//! durable peer book and a best-effort broadcast primitive.

pub mod ident;

pub mod traits;

pub mod peer_manager;

pub mod behavior;

pub mod network;
