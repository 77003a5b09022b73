use hearsay::bridge::{BridgeEntry, BridgeRegistry};
use hearsay::broker::{
    extend_visited, subscribe_to_topic, unsubscribe_from_topic, BrokerAction, BrokerEvent, BrokerState, ForwardPayload,
    Report,
};
use hearsay::dedup::OriginTracker;
use hearsay::topics::TopicTable;
use hearsay::{BrokerContract, PeerEvent};

fn hello(state: &mut BrokerState, id: &str) -> Vec<BrokerAction> {
    assert!(state.has_room());
    state.handle_broker_event(BrokerEvent::Hello { id: id.to_string() })
}

fn peer(state: &mut BrokerState, event: PeerEvent) -> Vec<BrokerAction> {
    assert!(state.has_room());
    let event = BrokerEvent::Peer(event);
    state.handle_broker_event(event)
}

fn subscribe(state: &mut BrokerState, id: &str, topic: &str) {
    let actions = peer(state, PeerEvent::Subscribe { id: id.to_string(), topic: topic.to_string() });
    assert!(actions.is_empty());
}

fn publish(state: &mut BrokerState, id: &str, topic: &str, payload: &str, local_only: bool) -> Vec<BrokerAction> {
    peer(
        state,
        PeerEvent::PublishText {
            id: id.to_string(),
            topic: topic.to_string(),
            payload: payload.to_string(),
            local_only,
        },
    )
}

fn recipients(actions: &[BrokerAction]) -> Vec<(String, u64)> {
    let mut found = Vec::new();
    for action in actions {
        if let BrokerAction::Deliver { recipients, .. } = action {
            for recipient in recipients {
                found.push((recipient.peer.clone(), recipient.generation));
            }
        }
    }
    found
}

#[test]
fn hello_starts_a_writer_and_announces_the_peer() {
    let mut state = BrokerState::new("b1".to_string());
    let actions = hello(&mut state, "alice");
    assert_eq!(actions.len(), 2);
    assert!(matches!(&actions[0], BrokerAction::StartWriter { peer, generation: 1 } if peer == "alice"));
    match &actions[1] {
        BrokerAction::Announce { publisher, report: Report::PeerConnected { id }, visited, sequence } => {
            assert_eq!(publisher, "alice");
            assert_eq!(id, "alice");
            assert_eq!(visited, &vec!["b1".to_string()]);
            assert_eq!(*sequence, 1);
        }
        _ => panic!("expected an announcement"),
    }
}

#[test]
fn subscribers_receive_publications() {
    let mut state = BrokerState::new("b1".to_string());
    hello(&mut state, "alice");
    hello(&mut state, "bob");
    subscribe(&mut state, "alice", "news");
    let actions = publish(&mut state, "bob", "news", "hello", false);
    assert_eq!(recipients(&actions), vec![("alice".to_string(), 1)]);
    match actions.last() {
        Some(BrokerAction::Deliver { message, control, .. }) => {
            assert_eq!(message.topic, "news");
            assert_eq!(message.text(), Some("hello"));
            assert!(!control);
        }
        _ => panic!("expected a delivery"),
    }
}

#[test]
fn unsubscribed_peers_receive_nothing() {
    let mut state = BrokerState::new("b1".to_string());
    hello(&mut state, "alice");
    subscribe(&mut state, "alice", "news");
    let actions = peer(&mut state, PeerEvent::Unsubscribe { id: "alice".to_string(), topic: "news".to_string() });
    assert!(actions.is_empty());
    assert!(recipients(&publish(&mut state, "alice", "news", "hello", false)).is_empty());
}

#[test]
fn publication_without_subscribers_goes_nowhere() {
    let mut state = BrokerState::new("b1".to_string());
    hello(&mut state, "alice");
    assert!(publish(&mut state, "alice", "quiet", "x", false).is_empty());
}

#[test]
fn disconnected_peer_is_no_recipient() {
    let mut state = BrokerState::new("b1".to_string());
    hello(&mut state, "alice");
    hello(&mut state, "bob");
    subscribe(&mut state, "alice", "news");
    subscribe(&mut state, "bob", "news");
    let actions = state.handle_broker_event(BrokerEvent::Disconnected { name: "alice".to_string(), generation: 1 });
    assert!(actions.is_empty());
    assert_eq!(recipients(&publish(&mut state, "bob", "news", "x", false)), vec![("bob".to_string(), 2)]);
}

#[test]
fn stale_disconnection_keeps_the_new_connection() {
    let mut state = BrokerState::new("b1".to_string());
    hello(&mut state, "alice");
    hello(&mut state, "alice");
    subscribe(&mut state, "alice", "news");
    state.handle_broker_event(BrokerEvent::Disconnected { name: "alice".to_string(), generation: 1 });
    assert_eq!(recipients(&publish(&mut state, "alice", "news", "x", false)), vec![("alice".to_string(), 2)]);
}

#[test]
fn publications_cross_bridges_but_not_back() {
    let mut state = BrokerState::new("b1".to_string());
    hello(&mut state, "alice");
    state.register_bridge("bridge-1".to_string(), "127.0.0.1:9001".to_string());
    state.register_bridge("bridge-2".to_string(), "127.0.0.1:9002".to_string());
    let actions = publish(&mut state, "bridge-1", "news", "x", false);
    let forwards: Vec<String> = actions
        .iter()
        .filter_map(|action| match action {
            BrokerAction::Forward { bridge, visited, payload: ForwardPayload::Text(text), .. } => {
                assert_eq!(visited, &vec!["b1".to_string()]);
                assert_eq!(text, "x");
                Some(bridge.clone())
            }
            _ => None,
        })
        .collect();
    assert_eq!(forwards, vec!["bridge-2".to_string()]);
}

#[test]
fn local_publications_stay_local() {
    let mut state = BrokerState::new("b1".to_string());
    hello(&mut state, "alice");
    subscribe(&mut state, "alice", "news");
    state.register_bridge("bridge-1".to_string(), "127.0.0.1:9001".to_string());
    let actions = publish(&mut state, "alice", "news", "x", true);
    assert!(actions.iter().all(|action| !matches!(action, BrokerAction::Forward { .. })));
    assert_eq!(recipients(&actions), vec![("alice".to_string(), 1)]);
}

#[test]
fn forwards_that_visited_this_broker_are_dropped() {
    let mut state = BrokerState::new("b1".to_string());
    hello(&mut state, "alice");
    subscribe(&mut state, "alice", "news");
    let forward = PeerEvent::ForwardText {
        id: "bridge-9".to_string(),
        topic: "news".to_string(),
        payload: "x".to_string(),
        local_only: false,
        visited: vec!["b0".to_string(), "b1".to_string()],
        sequence: 5,
    };
    assert!(peer(&mut state, forward).is_empty());
}

#[test]
fn a_forwarded_publication_arrives_once() {
    let mut state = BrokerState::new("b1".to_string());
    hello(&mut state, "alice");
    subscribe(&mut state, "alice", "news");
    let forward = || PeerEvent::ForwardText {
        id: "bridge-9".to_string(),
        topic: "news".to_string(),
        payload: "x".to_string(),
        local_only: false,
        visited: vec!["b0".to_string()],
        sequence: 5,
    };
    assert_eq!(recipients(&peer(&mut state, forward())), vec![("alice".to_string(), 1)]);
    assert!(peer(&mut state, forward()).is_empty());
}

#[test]
fn introspection_requests_are_answered_by_the_broker() {
    let mut state = BrokerState::new("b1".to_string());
    hello(&mut state, "alice");
    subscribe(&mut state, "alice", "news");
    let actions = publish(&mut state, "alice", &BrokerContract::request_peers_topic(), "{}", false);
    let peers = actions.iter().find_map(|action| match action {
        BrokerAction::Announce { publisher, report: Report::Peers { peers }, .. } => {
            assert_eq!(publisher, "broker");
            Some(peers.clone())
        }
        _ => None,
    });
    assert_eq!(peers, Some(vec!["alice".to_string()]));
}

#[test]
fn closing_a_bridge_by_address_notifies_the_far_broker() {
    let mut bridges = BridgeRegistry::new();
    bridges.insert(BridgeEntry { id: "one".to_string(), target_address: "a:1".to_string() });
    bridges.insert(BridgeEntry { id: "two".to_string(), target_address: "b:2".to_string() });
    bridges.insert(BridgeEntry { id: "three".to_string(), target_address: "a:1".to_string() });
    let actions = bridges.close_by_address(&"a:1".to_string(), true);
    let closed: Vec<(String, bool)> = actions
        .iter()
        .map(|action| match action {
            BrokerAction::CloseBridge { bridge, notify_remote } => (bridge.clone(), *notify_remote),
            _ => panic!("expected a closing"),
        })
        .collect();
    assert_eq!(closed, vec![("one".to_string(), true), ("three".to_string(), true)]);
    assert_eq!(bridges.ids(), vec!["two".to_string()]);
    let actions = bridges.close_by_id(&"two".to_string());
    assert_eq!(actions.len(), 1);
    assert!(bridges.ids().is_empty());
}

#[test]
fn sequences_are_accepted_once_per_origin() {
    let mut tracker = OriginTracker::new();
    let origin = "b0".to_string();
    assert!(tracker.record_seen_message(&origin, 1));
    assert!(!tracker.record_seen_message(&origin, 1));
    assert!(tracker.record_seen_message(&origin, 3));
    assert!(tracker.record_seen_message(&origin, 2));
    assert!(!tracker.record_seen_message(&origin, 3));
    assert!(!tracker.record_seen_message(&origin, 0));
    assert!(tracker.record_seen_message(&"b2".to_string(), 1));
}

#[test]
fn visited_brokers_are_extended_once() {
    let visited = extend_visited(vec!["b0".to_string()], &"b1".to_string());
    assert_eq!(visited, vec!["b0".to_string(), "b1".to_string()]);
    let again = extend_visited(visited, &"b1".to_string());
    assert_eq!(again, vec!["b0".to_string(), "b1".to_string()]);
}

#[test]
fn topic_table_keeps_each_subscriber_once() {
    let mut table = TopicTable::new();
    subscribe_to_topic(&mut table, "alice".to_string(), "news".to_string());
    subscribe_to_topic(&mut table, "alice".to_string(), "news".to_string());
    subscribe_to_topic(&mut table, "bob".to_string(), "news".to_string());
    assert_eq!(table.subscribers(&"news".to_string()), Some(&vec!["alice".to_string(), "bob".to_string()]));
    unsubscribe_from_topic(&mut table, &"alice".to_string(), &"news".to_string());
    assert_eq!(table.subscribers(&"news".to_string()), Some(&vec!["bob".to_string()]));
    unsubscribe_from_topic(&mut table, &"bob".to_string(), &"news".to_string());
    assert_eq!(table.subscribers(&"news".to_string()), Some(&Vec::new()));
}

#[test]
fn a_fresh_origin_accepts_numbers_out_of_order() {
    let mut tracker = OriginTracker::new();
    let origin = "o".to_string();
    assert!(tracker.record_seen_message(&origin, 2));
    assert!(tracker.record_seen_message(&origin, 1));
    assert!(tracker.record_seen_message(&origin, 3));
    for sequence in [1, 2, 3, 0] {
        assert!(!tracker.record_seen_message(&origin, sequence));
    }
    let progress = &tracker.entries[0].progress;
    assert_eq!(progress.watermark, 3);
    assert!(progress.ahead.is_empty());
}

#[test]
fn the_largest_number_is_accepted_once() {
    let mut tracker = OriginTracker::new();
    let origin = "o".to_string();
    assert!(tracker.record_seen_message(&origin, u64::MAX));
    assert!(!tracker.record_seen_message(&origin, u64::MAX));
    assert!(tracker.record_seen_message(&origin, 5));
}

#[test]
fn a_full_window_gives_up_the_lowest_gap() {
    let mut tracker = OriginTracker::new();
    let origin = "o".to_string();
    for sequence in 0..1024u64 {
        assert!(tracker.record_seen_message(&origin, 3 + 2 * sequence));
    }
    assert_eq!(tracker.entries[0].progress.ahead.len(), 1024);
    assert!(tracker.record_seen_message(&origin, 5000));
    let progress = &tracker.entries[0].progress;
    assert_eq!(progress.watermark, 3);
    assert_eq!(progress.ahead.len(), 1024);
    assert!(!tracker.record_seen_message(&origin, 1));
    assert!(!tracker.record_seen_message(&origin, 2));
    assert!(tracker.record_seen_message(&origin, 4));
}
