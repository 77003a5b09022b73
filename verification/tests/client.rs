use hearsay::client::{
    client_id_for, next_attempt, next_backoff_millis, ClientSettings, ClientState, MAX_RECONNECTION_BACKOFF_MILLIS,
    RECONNECTION_INTERVAL_MILLIS,
};
use hearsay::{PeerEvent, Route};

#[test]
fn client_id_is_name_underscore_uuid() {
    let id = client_id_for("viewer");
    assert_eq!(id.len(), "viewer".len() + 37);
    assert!(id.starts_with("viewer_"));
    let uuid: Vec<char> = id["viewer_".len()..].chars().collect();
    assert_eq!(uuid.len(), 36);
    for (index, c) in uuid.iter().enumerate() {
        if [8, 13, 18, 23].contains(&index) {
            assert_eq!(*c, '-');
        } else {
            assert!(c.is_ascii_hexdigit() && !c.is_ascii_uppercase());
        }
    }
    assert_eq!(uuid[14], '4');
}

#[test]
fn two_clients_get_different_ids() {
    assert_ne!(client_id_for("window"), client_id_for("window"));
}

#[test]
fn default_settings_retry_a_hundred_times_and_reconnect() {
    let settings = ClientSettings::default();
    assert_eq!(settings.max_connection_attempts, Some(100));
    assert!(settings.autoreconnect);
    assert_eq!(settings.timeout_per_attempt, std::time::Duration::from_secs(2));
    assert!(settings.read_timeout.is_none());
}

#[test]
fn offline_subscription_waits_for_the_connection() {
    let mut state = ClientState::new("c".to_string());
    assert!(state.subscribe_request(&"news".to_string()).is_none());
    assert!(state.subscribe_request(&"news".to_string()).is_none());
    assert_eq!(state.pending_subscriptions, vec!["news".to_string()]);
    assert!(state.subscriptions.is_empty());
    assert_eq!(state.resubscription_topics(), vec!["news".to_string()]);
    state.mark_connected();
    state.subscription_confirmed(&"news".to_string());
    assert_eq!(state.subscriptions, vec!["news".to_string()]);
    assert!(state.pending_subscriptions.is_empty());
}

#[test]
fn online_subscription_sends_an_event() {
    let mut state = ClientState::new("c".to_string());
    state.mark_connected();
    match state.subscribe_request(&"news".to_string()) {
        Some(PeerEvent::Subscribe { id, topic }) => {
            assert_eq!(id, "c");
            assert_eq!(topic, "news");
        }
        _ => panic!("expected a subscription"),
    }
    state.subscribe_sent(&"news".to_string(), true);
    assert_eq!(state.subscriptions, vec!["news".to_string()]);
    state.subscribe_sent(&"sport".to_string(), false);
    assert_eq!(state.pending_subscriptions, vec!["sport".to_string()]);
}

#[test]
fn unsubscribed_topic_is_not_restored_on_reconnection() {
    let mut state = ClientState::new("c".to_string());
    state.subscribe_request(&"news".to_string());
    state.mark_connected();
    state.subscription_confirmed(&"news".to_string());
    match state.unsubscribe_request(&"news".to_string()) {
        Some(PeerEvent::Unsubscribe { id, topic }) => {
            assert_eq!(id, "c");
            assert_eq!(topic, "news");
        }
        _ => panic!("expected an unsubscription"),
    }
    state.mark_disconnected();
    assert!(state.resubscription_topics().is_empty());
}

#[test]
fn resubscription_lists_subscribed_then_waiting_topics_once() {
    let mut state = ClientState::new("c".to_string());
    state.subscriptions = vec!["a".to_string(), "b".to_string()];
    state.pending_subscriptions = vec!["b".to_string(), "c".to_string()];
    assert_eq!(state.resubscription_topics(), vec!["a".to_string(), "b".to_string(), "c".to_string()]);
}

#[test]
fn publications_carry_the_client_id_and_route() {
    let state = ClientState::new("c".to_string());
    match state.publish_json("t", "{}", Route::Local) {
        PeerEvent::PublishText { id, topic, payload, local_only } => {
            assert_eq!((id.as_str(), topic.as_str(), payload.as_str(), local_only), ("c", "t", "{}", true));
        }
        _ => panic!("expected a text publication"),
    }
    match state.publish_bytes("t", &[5, 6], Route::Global) {
        PeerEvent::PublishBinary { payload, local_only, .. } => {
            assert_eq!(payload, vec![5, 6]);
            assert!(!local_only);
        }
        _ => panic!("expected a binary publication"),
    }
    match state.close_bridge("127.0.0.1:1") {
        PeerEvent::CloseBridge { id, target_address, ack } => {
            assert_eq!(id, "");
            assert_eq!(target_address, "127.0.0.1:1");
            assert!(!ack);
        }
        _ => panic!("expected a bridge closing"),
    }
}

#[test]
fn connection_attempts_stop_at_the_limit() {
    assert_eq!(next_attempt(0, Some(0)), None);
    assert_eq!(next_attempt(0, Some(2)), Some(1));
    assert_eq!(next_attempt(2, Some(2)), None);
    assert_eq!(next_attempt(7, None), Some(8));
}

#[test]
fn reconnection_backoff_doubles_up_to_the_ceiling() {
    assert_eq!(next_backoff_millis(RECONNECTION_INTERVAL_MILLIS), 4000);
    assert_eq!(next_backoff_millis(16000), MAX_RECONNECTION_BACKOFF_MILLIS);
    assert_eq!(next_backoff_millis(MAX_RECONNECTION_BACKOFF_MILLIS), MAX_RECONNECTION_BACKOFF_MILLIS);
}
