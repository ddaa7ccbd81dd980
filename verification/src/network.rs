//! The node's decision core: lifecycle states, startup (listen, then a
//! bounded-retry bootstrap dial), per-event dispatch, and the broadcast
//! fan-out. The transport engine itself performs the dials, sends and
//! receives; these functions decide what it must do next.

use vstd::prelude::*;

use crate::behavior::{Event, MessageEvent};
use crate::ident::{addr_canon, addr_ok, NetAddr, PeerId};
use crate::peer_manager::PeerManager;
use crate::traits::Message;

verus! {

/// Startup configuration: the address to listen on, and an optional
/// bootstrap peer to dial once the listen socket is bound.
#[derive(Debug)]
pub struct NodeConfig {
    pub listen_addr: String,
    pub bootstrap_addr: Option<NetAddr>,
}

impl Default for NodeConfig {
    /// Listen on every interface at an ephemeral TCP port, with no bootstrap
    /// peer.
    fn default() -> (r: NodeConfig)
        ensures
            r.listen_addr@ == "/ip4/0.0.0.0/tcp/0"@,
            r.bootstrap_addr is None,
    {
        NodeConfig { listen_addr: "/ip4/0.0.0.0/tcp/0".to_string(), bootstrap_addr: None }
    }
}

/// The node lifecycle. `Stopped` is terminal, reached when the event source
/// is exhausted or the loop hits an unrecoverable error.
#[derive(Debug, PartialEq, Eq, Structural)]
pub enum NodeState {
    Constructed,
    Listening,
    BootstrapPending,
    Running,
    Stopped,
}

/// The fatal startup errors: everything else the node absorbs and at most
/// logs.
#[derive(Debug, PartialEq, Eq, Structural)]
pub enum StartError {
    /// The configured listen address does not parse.
    InvalidListenAddress,
    /// The listen socket could not be bound.
    ListenBindFailed,
    /// Every bootstrap dial attempt failed.
    BootstrapUnreachable,
}

/// Check the configured listen address before binding: a malformed address
/// is a fatal startup error.
pub fn validate_listen_addr(config: &NodeConfig) -> (r: Result<NetAddr, StartError>)
    ensures
        r is Ok <==> addr_ok(config.listen_addr@),
        r matches Ok(a) ==> a@ == addr_canon(config.listen_addr@),
        r matches Err(e) ==> e == StartError::InvalidListenAddress,
{
    match NetAddr::parse(config.listen_addr.as_str()) {
        Some(a) => Ok(a),
        None => Err(StartError::InvalidListenAddress),
    }
}

/// The lifecycle step after binding the listen socket: failure to bind is
/// fatal; otherwise a configured bootstrap address leads to the bounded-retry
/// dial, and its absence straight to the event loop.
pub fn after_listen(config: &NodeConfig, bound: bool) -> (r: Result<NodeState, StartError>)
    ensures
        !bound ==> r == Err::<NodeState, StartError>(StartError::ListenBindFailed),
        bound && config.bootstrap_addr is Some ==> r == Ok::<NodeState, StartError>(
            NodeState::BootstrapPending,
        ),
        bound && config.bootstrap_addr is None ==> r == Ok::<NodeState, StartError>(
            NodeState::Running,
        ),
{
    if !bound {
        Err(StartError::ListenBindFailed)
    } else if config.bootstrap_addr.is_some() {
        Ok(NodeState::BootstrapPending)
    } else {
        Ok(NodeState::Running)
    }
}

/// Bootstrap dial attempts allowed in total.
pub const MAX_DIAL_ATTEMPTS: u32 = 3;

/// The fixed backoff between bootstrap dial attempts, in seconds.
pub const RETRY_DELAY_SECS: u64 = 2;

/// What the node does after a failed bootstrap dial.
#[derive(Debug, PartialEq, Eq, Structural)]
pub enum RetryDecision {
    /// Wait the fixed backoff, then dial again.
    RetryAfterDelay { delay_secs: u64 },
    /// Every allowed attempt failed: bootstrap is unreachable and startup
    /// fails.
    GiveUp,
}

/// The bounded-retry dial policy: a fixed interval and a fixed attempt
/// count, intentionally simple because bootstrap is a one-time startup
/// action.
#[derive(Debug)]
pub struct BootstrapRetry {
    attempts: u32,
}

impl BootstrapRetry {
    /// Dial attempts made so far.
    pub closed spec fn attempts_spec(&self) -> u32 {
        self.attempts
    }

    pub fn new() -> (r: BootstrapRetry)
        ensures
            r.attempts_spec() == 0,
    {
        BootstrapRetry { attempts: 0 }
    }

    /// Whether another dial attempt is allowed.
    pub fn can_attempt(&self) -> (r: bool)
        ensures
            r == (self.attempts_spec() < MAX_DIAL_ATTEMPTS),
    {
        self.attempts < MAX_DIAL_ATTEMPTS
    }

    /// Record one failed dial attempt: the node waits the fixed backoff and
    /// retries, until the fixed total of attempts is used up.
    pub fn record_failure(&mut self) -> (d: RetryDecision)
        requires
            old(self).attempts_spec() < MAX_DIAL_ATTEMPTS,
        ensures
            final(self).attempts_spec() == old(self).attempts_spec() + 1,
            final(self).attempts_spec() < MAX_DIAL_ATTEMPTS ==> d == (RetryDecision::RetryAfterDelay {
                delay_secs: RETRY_DELAY_SECS,
            }),
            final(self).attempts_spec() == MAX_DIAL_ATTEMPTS ==> d == RetryDecision::GiveUp,
    {
        self.attempts = self.attempts + 1;
        if self.attempts < MAX_DIAL_ATTEMPTS {
            RetryDecision::RetryAfterDelay { delay_secs: RETRY_DELAY_SECS }
        } else {
            RetryDecision::GiveUp
        }
    }
}

/// How many dial attempts the policy can make given how many outcomes are
/// available: one per outcome, at most the fixed total.
pub open spec fn attempts_possible(outcomes: Seq<bool>) -> int {
    if outcomes.len() < MAX_DIAL_ATTEMPTS {
        outcomes.len() as int
    } else {
        MAX_DIAL_ATTEMPTS as int
    }
}

/// Whether the bounded-retry dial reaches a success.
pub open spec fn bootstrap_succeeds(outcomes: Seq<bool>) -> bool {
    exists|i: int| 0 <= i < attempts_possible(outcomes) && outcomes[i]
}

/// The result of driving the bootstrap policy to completion.
#[derive(Debug, PartialEq, Eq, Structural)]
pub struct BootstrapOutcome {
    /// Whether a dial succeeded before the attempts ran out.
    pub connected: bool,
    /// Dial attempts actually made.
    pub dials: u32,
    /// Fixed-interval waits taken: one after each failure that was retried.
    pub delays: u32,
}

/// Drive the bootstrap policy over the outcomes of successive dial attempts
/// (`outcomes[i]` is whether dial `i` succeeds; a missing entry means no
/// further dial can be made). Dialing stops at the first success, or once
/// the fixed total of attempts is used.
pub fn run_bootstrap(outcomes: &Vec<bool>) -> (r: BootstrapOutcome)
    ensures
        r.connected <==> bootstrap_succeeds(outcomes@),
        r.connected ==> 0 <= r.delays < attempts_possible(outcomes@) && outcomes@[
            r.delays as int
        ] && (forall|j: int| 0 <= j < r.delays ==> !outcomes@[j]) && r.dials == r.delays + 1,
        !r.connected ==> r.dials == attempts_possible(outcomes@) && (attempts_possible(outcomes@)
            < MAX_DIAL_ATTEMPTS ==> r.delays == r.dials) && (attempts_possible(outcomes@)
            == MAX_DIAL_ATTEMPTS ==> r.delays == MAX_DIAL_ATTEMPTS - 1),
{
    let mut retry = BootstrapRetry::new();
    let mut delays: u32 = 0;
    let mut i: usize = 0;
    while i < outcomes.len() && (i as u32) < MAX_DIAL_ATTEMPTS
        invariant
            i <= outcomes@.len(),
            i as int <= MAX_DIAL_ATTEMPTS as int,
            retry.attempts_spec() == i as u32,
            forall|j: int| 0 <= j < i ==> !outcomes@[j],
            delays == if (i as u32) < MAX_DIAL_ATTEMPTS {
                i as u32
            } else {
                (MAX_DIAL_ATTEMPTS - 1) as u32
            },
        decreases outcomes@.len() - i,
    {
        if outcomes[i] {
            return BootstrapOutcome { connected: true, dials: (i as u32) + 1, delays: i as u32 };
        }
        let d = retry.record_failure();
        match d {
            RetryDecision::RetryAfterDelay { .. } => {
                delays = delays + 1;
            },
            RetryDecision::GiveUp => {},
        }
        i += 1;
    }
    BootstrapOutcome { connected: false, dials: i as u32, delays }
}

/// The whole startup decision: the listen result and, when a bootstrap
/// address is configured, the dial outcomes, mapped to the state `start`
/// reaches or the fatal error it reports. The node reaches `Running` exactly
/// when the socket is bound and any configured bootstrap dial eventually
/// succeeds; otherwise it never runs.
pub fn start_outcome(config: &NodeConfig, bound: bool, dial_outcomes: &Vec<bool>) -> (r: Result<
    NodeState,
    StartError,
>)
    ensures
        !bound ==> r == Err::<NodeState, StartError>(StartError::ListenBindFailed),
        bound && config.bootstrap_addr is None ==> r == Ok::<NodeState, StartError>(
            NodeState::Running,
        ),
        bound && config.bootstrap_addr is Some && bootstrap_succeeds(dial_outcomes@) ==> r == Ok::<
            NodeState,
            StartError,
        >(NodeState::Running),
        bound && config.bootstrap_addr is Some && !bootstrap_succeeds(dial_outcomes@) ==> r
            == Err::<NodeState, StartError>(StartError::BootstrapUnreachable),
{
    match after_listen(config, bound) {
        Err(e) => Err(e),
        Ok(NodeState::BootstrapPending) => {
            let o = run_bootstrap(dial_outcomes);
            if o.connected {
                Ok(NodeState::Running)
            } else {
                Err(StartError::BootstrapUnreachable)
            }
        },
        Ok(st) => Ok(st),
    }
}

/// How a connection-established event attributes the remote address: only
/// the dialing side knows an address for the peer.
#[derive(Debug)]
pub enum ConnectionSide {
    /// The local node dialed the peer at this address.
    Dialer { address: NetAddr },
    /// The connection was inbound; no address can be attributed.
    Listener,
}

/// One transport event as the node's event loop sees it.
#[derive(Debug)]
pub enum NodeEvent<M> {
    /// A connection with `peer_id` was established.
    ConnectionEstablished { peer_id: PeerId, endpoint: ConnectionSide },
    /// An event of one of the composed sub-capabilities.
    Behaviour(Event<M>),
    /// Anything else the transport reports; the node ignores it.
    Other,
}

/// An outbound action the event loop must perform after dispatching one
/// event.
#[derive(Debug)]
pub enum NodeAction<M> {
    /// Echo `payload` back on correlation channel `channel`.
    SendResponse { channel: u64, payload: M },
}

/// Dispatch one transport event. A connection established by dialing records
/// the peer under the dialed address — and nothing else mutates the book; an
/// inbound request is answered by echoing its payload on its own correlation
/// channel; every other event is ignored.
pub fn handle_event<M: Message>(pm: &mut PeerManager, event: NodeEvent<M>) -> (action: Option<
    NodeAction<M>,
>)
    ensures
        final(pm).local_id() == old(pm).local_id(),
        match event {
            NodeEvent::ConnectionEstablished {
                peer_id,
                endpoint: ConnectionSide::Dialer { address },
            } => {
                &&& (peer_id@ == old(pm).local_id() ==> final(pm)@ == old(pm)@)
                &&& (peer_id@ != old(pm).local_id() ==> final(pm)@ == old(pm)@.insert(
                    peer_id@,
                    Some(address@),
                ))
                &&& (peer_id@ != old(pm).local_id() ==> final(pm)@.dom().contains(peer_id@)
                    && final(pm)@[peer_id@] == Some(address@))
                &&& action is None
            },
            NodeEvent::Behaviour(
                Event::RequestResponse(MessageEvent::Request { peer, request, channel }),
            ) => {
                &&& final(pm)@ == old(pm)@
                &&& action == Some(NodeAction::SendResponse { channel, payload: request })
            },
            _ => final(pm)@ == old(pm)@ && action is None,
        },
{
    match event {
        NodeEvent::ConnectionEstablished { peer_id, endpoint } => {
            match endpoint {
                ConnectionSide::Dialer { address } => {
                    pm.add_peer_with_addr(peer_id, address);
                    None
                },
                ConnectionSide::Listener => None,
            }
        },
        NodeEvent::Behaviour(ev) => {
            match ev {
                Event::RequestResponse(me) => {
                    match me {
                        MessageEvent::Request { peer: _, request, channel } => {
                            Some(NodeAction::SendResponse { channel, payload: request })
                        },
                        MessageEvent::Response { .. } => None,
                        MessageEvent::Other => None,
                    }
                },
                Event::Kad(_) => None,
                Event::Identify(_) => None,
            }
        },
        NodeEvent::Other => None,
    }
}

/// One outbound send of a broadcast fan-out.
#[derive(Debug)]
pub struct OutboundSend<M> {
    pub dest: PeerId,
    pub payload: M,
}

/// Fan `message` out: exactly one outbound send per entry of the
/// `get_peers()` snapshot taken at call time, each carrying its own copy of
/// the message. The book can change after the snapshot without affecting the
/// plan; sends are performed independently, best-effort, at most once per
/// peer.
pub fn broadcast_message<M: Message>(pm: &PeerManager, message: &M) -> (plan: Vec<OutboundSend<M>>)
    ensures
        pm@.dom().finite(),
        plan@.len() == pm@.dom().len(),
        forall|i: int| 0 <= i < plan@.len() ==> pm@.dom().contains(#[trigger] plan@[i].dest@),
        forall|i: int| 0 <= i < plan@.len() ==> #[trigger] plan@[i].payload == *message,
        forall|i: int, j: int|
            #![trigger plan@[i].dest@, plan@[j].dest@]
            0 <= i < j < plan@.len() ==> plan@[i].dest@ != plan@[j].dest@,
        forall|q: Seq<char>|
            #[trigger] pm@.dom().contains(q) ==> exists|i: int|
                0 <= i < plan@.len() && plan@[i].dest@ == q,
{
    let peers = pm.get_peers();
    let mut plan: Vec<OutboundSend<M>> = Vec::new();
    let mut i: usize = 0;
    while i < peers.len()
        invariant
            i <= peers@.len(),
            plan@.len() == i,
            forall|k: int| 0 <= k < i ==> #[trigger] plan@[k].dest@ == peers@[k]@,
            forall|k: int| 0 <= k < i ==> #[trigger] plan@[k].payload == *message,
        decreases peers@.len() - i,
    {
        plan.push(OutboundSend { dest: peers[i].duplicate(), payload: message.dup() });
        i += 1;
    }
    proof {
        assert forall|q: Seq<char>| #[trigger] pm@.dom().contains(q) implies exists|i: int|
            0 <= i < plan@.len() && plan@[i].dest@ == q by {
            let k = choose|k: int| 0 <= k < peers@.len() && peers@[k]@ == q;
            assert(plan@[k].dest@ == q);
        }
    }
    plan
}

} // verus!
