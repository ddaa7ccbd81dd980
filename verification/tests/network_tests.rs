use std::error::Error;

use p2plane::behavior::{Event, MessageEvent};
use p2plane::ident::{NetAddr, PeerId};
use p2plane::network::{
    after_listen, broadcast_message, handle_event, run_bootstrap, start_outcome,
    validate_listen_addr, BootstrapRetry, ConnectionSide, NodeAction, NodeConfig, NodeEvent,
    NodeState, RetryDecision, StartError, MAX_DIAL_ATTEMPTS, RETRY_DELAY_SECS,
};
use p2plane::peer_manager::PeerManager;
use p2plane::traits::Message;

#[derive(Debug, Clone, PartialEq)]
struct TestMessage(String);

impl Message for TestMessage {
    fn protocol_id(&self) -> &'static str {
        "/test/1.0.0"
    }

    fn dup(&self) -> TestMessage {
        TestMessage(self.0.clone())
    }
}

fn fresh_peer_id() -> PeerId {
    let keypair = libp2p_identity::Keypair::generate_ed25519();
    let text = keypair.public().to_peer_id().to_base58();
    PeerId::parse(&text).expect("a generated identity must parse")
}

fn addr(text: &str) -> NetAddr {
    NetAddr::parse(text).expect("a well-formed multiaddr must parse")
}

#[test]
fn test_node_config() -> Result<(), Box<dyn Error>> {
    let a: multiaddr::Multiaddr = "/ip4/127.0.0.1/tcp/8000".parse()?;
    let config = NodeConfig { listen_addr: a.to_string(), bootstrap_addr: None };

    assert_eq!(config.listen_addr, a.to_string());
    Ok(())
}

#[test]
fn default_config_listens_everywhere_without_bootstrap() {
    let config = NodeConfig::default();
    assert_eq!(config.listen_addr, "/ip4/0.0.0.0/tcp/0");
    assert!(config.bootstrap_addr.is_none());
}

#[test]
fn malformed_listen_address_is_fatal() {
    let config = NodeConfig { listen_addr: "nonsense".to_string(), bootstrap_addr: None };
    assert_eq!(
        validate_listen_addr(&config),
        Err(StartError::InvalidListenAddress)
    );

    let good = NodeConfig::default();
    let parsed = validate_listen_addr(&good).expect("the default listen address parses");
    assert_eq!(parsed.to_text(), "/ip4/0.0.0.0/tcp/0");
}

#[test]
fn listen_result_decides_the_next_state() {
    let plain = NodeConfig::default();
    assert_eq!(after_listen(&plain, false), Err(StartError::ListenBindFailed));
    assert_eq!(after_listen(&plain, true), Ok(NodeState::Running));

    let with_bootstrap = NodeConfig {
        listen_addr: "/ip4/0.0.0.0/tcp/0".to_string(),
        bootstrap_addr: Some(addr("/ip4/127.0.0.1/tcp/8000")),
    };
    assert_eq!(
        after_listen(&with_bootstrap, true),
        Ok(NodeState::BootstrapPending)
    );
}

#[test]
fn bootstrap_succeeds_on_third_attempt_after_two_delays() {
    let outcomes = vec![false, false, true];
    let o = run_bootstrap(&outcomes);
    assert!(o.connected);
    assert_eq!(o.dials, 3);
    assert_eq!(o.delays, 2);
}

#[test]
fn bootstrap_gives_up_after_all_attempts_fail() {
    let outcomes = vec![false, false, false];
    let o = run_bootstrap(&outcomes);
    assert!(!o.connected);
    assert_eq!(o.dials, MAX_DIAL_ATTEMPTS);

    let with_bootstrap = NodeConfig {
        listen_addr: "/ip4/0.0.0.0/tcp/0".to_string(),
        bootstrap_addr: Some(addr("/ip4/127.0.0.1/tcp/8000")),
    };
    assert_eq!(
        start_outcome(&with_bootstrap, true, &outcomes),
        Err(StartError::BootstrapUnreachable)
    );
}

#[test]
fn bootstrap_stops_at_the_first_success() {
    let o = run_bootstrap(&vec![true, false, false]);
    assert!(o.connected);
    assert_eq!(o.dials, 1);
    assert_eq!(o.delays, 0);
}

#[test]
fn retry_policy_waits_twice_then_gives_up() {
    assert_eq!(MAX_DIAL_ATTEMPTS, 3);
    assert_eq!(RETRY_DELAY_SECS, 2);

    let mut retry = BootstrapRetry::new();
    assert!(retry.can_attempt());
    assert_eq!(
        retry.record_failure(),
        RetryDecision::RetryAfterDelay { delay_secs: 2 }
    );
    assert_eq!(
        retry.record_failure(),
        RetryDecision::RetryAfterDelay { delay_secs: 2 }
    );
    assert_eq!(retry.record_failure(), RetryDecision::GiveUp);
    assert!(!retry.can_attempt());
}

#[test]
fn start_reaches_running_when_bootstrap_eventually_succeeds() {
    let with_bootstrap = NodeConfig {
        listen_addr: "/ip4/0.0.0.0/tcp/0".to_string(),
        bootstrap_addr: Some(addr("/ip4/127.0.0.1/tcp/8000")),
    };
    assert_eq!(
        start_outcome(&with_bootstrap, true, &vec![false, false, true]),
        Ok(NodeState::Running)
    );
    assert_eq!(
        start_outcome(&with_bootstrap, false, &vec![true, true, true]),
        Err(StartError::ListenBindFailed)
    );

    let plain = NodeConfig::default();
    assert_eq!(start_outcome(&plain, true, &vec![]), Ok(NodeState::Running));
}

#[test]
fn dialed_connection_updates_the_book() {
    let local = fresh_peer_id();
    let mut book = PeerManager::new(local);
    let p = fresh_peer_id();
    let a = addr("/ip4/10.1.2.3/tcp/4001");

    let action: Option<NodeAction<TestMessage>> = handle_event(
        &mut book,
        NodeEvent::ConnectionEstablished {
            peer_id: p.duplicate(),
            endpoint: ConnectionSide::Dialer { address: a.duplicate() },
        },
    );
    assert!(action.is_none());
    assert!(book.get_peers().contains(&p));
    assert_eq!(book.get_peer_address(&p), Some(&a));
}

#[test]
fn inbound_connection_is_not_recorded() {
    let local = fresh_peer_id();
    let mut book = PeerManager::new(local);
    let p = fresh_peer_id();

    let action: Option<NodeAction<TestMessage>> = handle_event(
        &mut book,
        NodeEvent::ConnectionEstablished {
            peer_id: p.duplicate(),
            endpoint: ConnectionSide::Listener,
        },
    );
    assert!(action.is_none());
    assert!(book.get_peers().is_empty());
}

#[test]
fn inbound_request_is_echoed_on_its_channel() {
    let local = fresh_peer_id();
    let mut book = PeerManager::new(local);
    let p = fresh_peer_id();

    let action = handle_event(
        &mut book,
        NodeEvent::Behaviour(Event::RequestResponse(MessageEvent::Request {
            peer: p,
            request: TestMessage("ping".to_string()),
            channel: 42,
        })),
    );
    match action {
        Some(NodeAction::SendResponse { channel, payload }) => {
            assert_eq!(channel, 42);
            assert_eq!(payload, TestMessage("ping".to_string()));
        }
        other => panic!("expected an echo response, got {:?}", other),
    }
    assert!(book.get_peers().is_empty());
}

#[test]
fn inbound_response_is_accepted_without_action() {
    let local = fresh_peer_id();
    let mut book = PeerManager::new(local);
    let p = fresh_peer_id();

    let action = handle_event(
        &mut book,
        NodeEvent::Behaviour(Event::RequestResponse(MessageEvent::Response {
            peer: p,
            response: TestMessage("pong".to_string()),
        })),
    );
    assert!(action.is_none());
    assert!(book.get_peers().is_empty());
}

#[test]
fn ignored_events_do_nothing() {
    let local = fresh_peer_id();
    let mut book = PeerManager::new(local);

    let action: Option<NodeAction<TestMessage>> = handle_event(&mut book, NodeEvent::Other);
    assert!(action.is_none());
    let action: Option<NodeAction<TestMessage>> = handle_event(
        &mut book,
        NodeEvent::Behaviour(Event::RequestResponse(MessageEvent::Other)),
    );
    assert!(action.is_none());
    assert!(book.get_peers().is_empty());
}

#[test]
fn broadcast_sends_once_per_known_peer() {
    let local = fresh_peer_id();
    let mut book = PeerManager::new(local);
    let p1 = fresh_peer_id();
    let p2 = fresh_peer_id();
    book.add_peer_with_addr(p1.duplicate(), addr("/ip4/10.0.0.1/tcp/4001"));
    book.add_peer_with_addr(p2.duplicate(), addr("/ip4/10.0.0.2/tcp/4002"));

    let message = TestMessage("hello".to_string());
    let plan = broadcast_message(&book, &message);
    assert_eq!(plan.len(), 2);
    let dests: Vec<&PeerId> = plan.iter().map(|s| &s.dest).collect();
    assert!(dests.contains(&&p1));
    assert!(dests.contains(&&p2));
    for send in &plan {
        assert_eq!(send.payload, message);
    }
}

#[test]
fn broadcast_on_an_empty_book_sends_nothing() {
    let local = fresh_peer_id();
    let book = PeerManager::new(local);
    let plan = broadcast_message(&book, &TestMessage("hello".to_string()));
    assert!(plan.is_empty());
}
