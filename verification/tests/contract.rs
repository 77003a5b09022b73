use hearsay::contract::{is_control_topic, starts_with};
use hearsay::{BrokerContract, Error, Message, Route};

#[test]
fn text_message_has_text_and_no_bytes() {
    let message = Message::new_text("greetings".to_string(), "{\"text\":\"hi\"}".to_string());
    assert_eq!(message.text(), Some("{\"text\":\"hi\"}"));
    assert_eq!(message.bytes(), None);
}

#[test]
fn binary_message_has_bytes_and_no_text() {
    let message = Message::new_binary("blob".to_string(), vec![1, 2, 3]);
    assert_eq!(message.text(), None);
    assert_eq!(message.bytes(), Some(&[1u8, 2, 3][..]));
    assert_eq!(message.payload, "");
}

#[test]
fn default_message_is_empty_text() {
    let message = Message::default();
    assert_eq!(message.topic, "");
    assert_eq!(message.text(), Some(""));
}

#[test]
fn routes_default_to_global() {
    assert!(!Route::default().is_local());
    assert!(Route::Local.is_local());
}

#[test]
fn broker_topics_live_under_the_control_prefix() {
    assert_eq!(BrokerContract::peer_connected_topic(), "hearsay/peers/connected");
    assert_eq!(BrokerContract::request_peers_topic(), "hearsay/peers/request");
    assert_eq!(BrokerContract::report_peers_topic(), "hearsay/peers/report");
    assert_eq!(BrokerContract::request_subscriptions_topic(), "hearsay/subscriptions/request");
    assert_eq!(BrokerContract::report_subscriptions_topic(), "hearsay/subscriptions/report");
    assert_eq!(BrokerContract::bridge_created_topic(), "hearsay/bridges/created");
    assert_eq!(BrokerContract::request_bridges_topic(), "hearsay/bridges/request");
    assert_eq!(BrokerContract::report_bridges_topic(), "hearsay/bridges/report");
    assert!(is_control_topic(&BrokerContract::report_bridges_topic()));
    assert!(!is_control_topic("greetings"));
    assert!(!is_control_topic("hearsay"));
}

#[test]
fn prefixes_compare_by_characters() {
    assert!(starts_with("hearsay/peers", "hearsay/"));
    assert!(starts_with("abc", ""));
    assert!(!starts_with("ab", "abc"));
    assert!(!starts_with("héarsay", "hearsay"));
}

#[test]
fn errors_read_as_their_messages() {
    assert_eq!(Error::NotConnected.to_string(), "client is not connected");
    assert_eq!(Error::MaxConnectionAttempts.to_string(), "maximum connection attempts reached");
    assert_eq!(Error::AddressResolution.to_string(), "could not resolve address");
    assert_eq!(Error::FrameTooLarge.to_string(), "frame length exceeds maximum");
    assert_eq!(Error::AppNotFound("viewer".to_string()).to_string(), "app 'viewer' not found");
    assert_eq!(
        Error::AppAlreadyRunning("viewer".to_string()).to_string(),
        "app 'viewer' is already running"
    );
    assert_eq!(Error::Serialization("bad".to_string()).to_string(), "serialization error: bad");
    assert_eq!(Error::Transport("reset".to_string()).to_string(), "transport error: reset");
    assert_eq!(Error::Other("plain".to_string()).to_string(), "plain");
    assert!(matches!(Error::from("x".to_string()), Error::Other(text) if text == "x"));
    assert!(matches!(Error::other("y"), Error::Other(text) if text == "y"));
}
