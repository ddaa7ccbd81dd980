//! Peer identities and network addresses, held as their canonical text.
//!
//! Both are opaque, externally defined encodings: what counts as well-formed
//! text, and what its canonical form is, belongs to libp2p. The library keeps
//! only the canonical text and leaves parsing to trusted wrappers.

use vstd::prelude::*;

verus! {

/// Whether libp2p accepts `s` as the text of a peer identity.
pub uninterp spec fn pid_ok(s: Seq<char>) -> bool;

/// The canonical base58 text of the peer identity that `s` denotes.
pub uninterp spec fn pid_canon(s: Seq<char>) -> Seq<char>;

/// Whether the multiaddr grammar accepts `s` as the text of a network address.
pub uninterp spec fn addr_ok(s: Seq<char>) -> bool;

/// The canonical text of the network address that `s` denotes.
pub uninterp spec fn addr_canon(s: Seq<char>) -> Seq<char>;

/// Relies on `libp2p_identity::PeerId::from_str` (base58 decode plus multihash
/// check) and `PeerId::to_base58`: parsing succeeds exactly on well-formed
/// peer-identity text, and re-encoding the parsed identity yields its
/// canonical text. Canonical text parses back to the same identity (that
/// crate's own test suite round-trips `to_base58` and `parse`), so canonical
/// text is a fixed point of canonicalization.
#[verifier::external_body]
fn parse_peer_id_text(s: &str) -> (r: Option<String>)
    ensures
        r is Some <==> pid_ok(s@),
        r matches Some(t) ==> t@ == pid_canon(s@) && pid_ok(pid_canon(s@)) && pid_canon(
            pid_canon(s@),
        ) == pid_canon(s@),
{
    match s.parse::<libp2p_identity::PeerId>() {
        Ok(p) => Some(p.to_base58()),
        Err(_) => None,
    }
}

/// Relies on `multiaddr::Multiaddr::from_str` and its `Display` form: parsing
/// succeeds exactly on well-formed multiaddr text, and printing the parsed
/// address yields its canonical text. Canonical text parses back to the same
/// address (that crate's test suite asserts that printing a parsed address
/// reproduces the source), so canonical text is a fixed point.
#[verifier::external_body]
fn parse_multiaddr_text(s: &str) -> (r: Option<String>)
    ensures
        r is Some <==> addr_ok(s@),
        r matches Some(t) ==> t@ == addr_canon(s@) && addr_ok(addr_canon(s@)) && addr_canon(
            addr_canon(s@),
        ) == addr_canon(s@),
{
    match s.parse::<multiaddr::Multiaddr>() {
        Ok(a) => Some(a.to_string()),
        Err(_) => None,
    }
}

/// An opaque, globally unique identity of a node, held as its canonical
/// base58 text. Equality is by value.
#[derive(Debug)]
pub struct PeerId {
    text: String,
}

impl View for PeerId {
    type V = Seq<char>;

    closed spec fn view(&self) -> Seq<char> {
        self.text@
    }
}

impl PeerId {
    #[verifier::type_invariant]
    spec fn inv(self) -> bool {
        pid_ok(self.text@) && pid_canon(self.text@) == self.text@
    }

    /// Parse peer-identity text; succeeds exactly on text libp2p accepts and
    /// yields the canonical identity.
    pub fn parse(s: &str) -> (r: Option<PeerId>)
        ensures
            r is Some <==> pid_ok(s@),
            r matches Some(p) ==> p@ == pid_canon(s@),
    {
        match parse_peer_id_text(s) {
            Some(t) => Some(PeerId { text: t }),
            None => None,
        }
    }

    /// The canonical base58 text of this identity; it is a fixed point of
    /// canonicalization, so it parses back to this same identity.
    pub fn to_base58(&self) -> (r: String)
        ensures
            r@ == self@,
            pid_ok(self@),
            pid_canon(self@) == self@,
    {
        proof {
            use_type_invariant(&*self);
        }
        self.text.clone()
    }

    /// An owned copy of this identity.
    pub fn duplicate(&self) -> (r: PeerId)
        ensures
            r@ == self@,
    {
        proof {
            use_type_invariant(&*self);
        }
        PeerId { text: self.text.clone() }
    }
}

impl PartialEq for PeerId {
    fn eq(&self, other: &PeerId) -> bool {
        self.text == other.text
    }
}

impl vstd::std_specs::cmp::PartialEqSpecImpl for PeerId {
    open spec fn obeys_eq_spec() -> bool {
        true
    }

    open spec fn eq_spec(&self, other: &Self) -> bool {
        self@ == other@
    }
}

/// A structured network address at which a peer may be dialed, held as its
/// canonical multiaddr text. Immutable value type.
#[derive(Debug)]
pub struct NetAddr {
    text: String,
}

impl View for NetAddr {
    type V = Seq<char>;

    closed spec fn view(&self) -> Seq<char> {
        self.text@
    }
}

impl NetAddr {
    #[verifier::type_invariant]
    spec fn inv(self) -> bool {
        addr_ok(self.text@) && addr_canon(self.text@) == self.text@
    }

    /// Parse multiaddr text; succeeds exactly on text the multiaddr grammar
    /// accepts and yields the canonical address.
    pub fn parse(s: &str) -> (r: Option<NetAddr>)
        ensures
            r is Some <==> addr_ok(s@),
            r matches Some(a) ==> a@ == addr_canon(s@),
    {
        match parse_multiaddr_text(s) {
            Some(t) => Some(NetAddr { text: t }),
            None => None,
        }
    }

    /// The canonical text of this address; it is a fixed point of
    /// canonicalization, so it parses back to this same address.
    pub fn to_text(&self) -> (r: String)
        ensures
            r@ == self@,
            addr_ok(self@),
            addr_canon(self@) == self@,
    {
        proof {
            use_type_invariant(&*self);
        }
        self.text.clone()
    }

    /// An owned copy of this address.
    pub fn duplicate(&self) -> (r: NetAddr)
        ensures
            r@ == self@,
    {
        proof {
            use_type_invariant(&*self);
        }
        NetAddr { text: self.text.clone() }
    }
}

impl PartialEq for NetAddr {
    fn eq(&self, other: &NetAddr) -> bool {
        self.text == other.text
    }
}

impl vstd::std_specs::cmp::PartialEqSpecImpl for NetAddr {
    open spec fn obeys_eq_spec() -> bool {
        true
    }

    open spec fn eq_spec(&self, other: &Self) -> bool {
        self@ == other@
    }
}

} // verus!
