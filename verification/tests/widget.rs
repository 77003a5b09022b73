use hearsay::files::{FileSystemCommand, FileSystemMessage, FileSystemResult, FileSystemSuccess};
use hearsay::modals::{ModalResult, ModalServiceMessage};
use hearsay::project::NotificationKind;
use hearsay::registry::BrokerServiceMessage;
use hearsay::widget_rpc::{has_prefix, sort_names, BusMessage, WidgetRpc};
use hearsay::window::WidgetContext;

fn topic(topic: &str, payload: &str, bytes: Option<Vec<u8>>) -> BusMessage {
    BusMessage::Topic { topic: topic.to_string(), payload: payload.to_string(), bytes }
}

fn file_result(tag: &str, path: &str) -> BusMessage {
    BusMessage::Filesystem {
        message: FileSystemMessage::Result(FileSystemResult::Success(FileSystemSuccess::File {
            path: path.to_string(),
            bytes: vec![1, 2],
            tag: tag.to_string(),
        })),
    }
}

fn subscribe_topics(message: &BusMessage) -> Option<(Vec<String>, String)> {
    match message {
        BusMessage::Broker { message: BrokerServiceMessage::Subscribe { topics, widget_id } } => {
            Some((topics.clone(), widget_id.clone()))
        }
        _ => None,
    }
}

#[test]
fn fresh_widgets_have_random_ids_and_nothing_kept() {
    let rpc = WidgetRpc::default();
    let id = rpc.widget_id();
    assert_eq!(id.len(), 36);
    assert_eq!(id.as_bytes()[14], b'4');
    assert!(!rpc.is_connected());
    assert!(!rpc.has_open_modal());
    assert!(rpc.subscribed_topics().is_empty());
    assert_ne!(WidgetRpc::default().widget_id(), id);
}

#[test]
fn payloads_are_kept_only_on_followed_topics() {
    let mut rpc = WidgetRpc::default();
    rpc.subscribe_to_topic("weather");
    rpc.receive_message(&topic("weather", "sunny", None));
    rpc.receive_message(&topic("news", "ignored", Some(vec![9])));
    rpc.receive_message(&topic("weather", "rain", Some(vec![7, 8])));
    assert_eq!(rpc.get_messages_for_topic("weather"), Some(&vec!["sunny".to_string(), "rain".to_string()]));
    assert_eq!(rpc.get_messages_for_topic("news"), None);
    assert_eq!(rpc.get_binary_messages_for_topic("weather"), Some(&vec![vec![7, 8]]));
    assert_eq!(rpc.get_binary_messages_for_topic("news"), None);
}

#[test]
fn subscribing_twice_asks_once() {
    let mut rpc = WidgetRpc::default();
    rpc.subscribe_to_topic("a");
    rpc.subscribe_to_topic("a");
    let drained = rpc.drain_messages();
    assert_eq!(drained.len(), 1);
    let (topics, widget) = subscribe_topics(&drained[0]).expect("a subscription request");
    assert_eq!(topics, vec!["a".to_string()]);
    assert_eq!(widget, rpc.widget_id());
    assert!(rpc.drain_messages().is_empty());
}

#[test]
fn subscribing_to_several_asks_for_each_new_topic() {
    let mut rpc = WidgetRpc::default();
    rpc.subscribe_to_topic("b");
    rpc.drain_messages();
    rpc.subscribe_to_topics(&["c".to_string(), "b".to_string(), "a".to_string(), "c".to_string()]);
    let asked: Vec<Vec<String>> = rpc.drain_messages().iter().filter_map(subscribe_topics).map(|(t, _)| t).collect();
    assert_eq!(asked, vec![vec!["c".to_string()], vec!["a".to_string()]]);
    assert_eq!(rpc.subscribed_topics(), vec!["a".to_string(), "b".to_string(), "c".to_string()]);
}

#[test]
fn unsubscribed_topics_stop_receiving() {
    let mut rpc = WidgetRpc::default();
    rpc.subscribe_to_topics(&["a".to_string(), "b".to_string()]);
    rpc.drain_messages();
    rpc.unsubscribe_from_topics(&["a".to_string()]);
    let drained = rpc.drain_messages();
    assert_eq!(drained.len(), 1);
    assert!(matches!(
        &drained[0],
        BusMessage::Broker { message: BrokerServiceMessage::Unsubscribe { topics, .. } } if topics == &vec!["a".to_string()]
    ));
    rpc.receive_message(&topic("a", "late", None));
    rpc.receive_message(&topic("b", "kept", None));
    assert_eq!(rpc.get_messages_for_topic("a"), None);
    assert_eq!(rpc.get_messages_for_topic("b"), Some(&vec!["kept".to_string()]));
    assert_eq!(rpc.subscribed_topics(), vec!["b".to_string()]);
}

#[test]
fn reconnecting_asks_for_followed_topics_again() {
    let mut rpc = WidgetRpc::default();
    rpc.subscribe_to_topic("a");
    rpc.drain_messages();
    assert!(rpc.update(&WidgetContext { is_connected: true }));
    let drained = rpc.drain_messages();
    assert_eq!(drained.len(), 1);
    assert_eq!(subscribe_topics(&drained[0]).map(|(t, _)| t), Some(vec!["a".to_string()]));
    assert!(rpc.update(&WidgetContext { is_connected: true }));
    assert!(rpc.drain_messages().is_empty());
    assert!(!rpc.update(&WidgetContext { is_connected: false }));
    rpc.receive_message(&BusMessage::ConnectionStatus { connected: true });
    assert!(rpc.is_connected());
}

#[test]
fn connecting_with_no_topics_asks_nothing() {
    let mut rpc = WidgetRpc::default();
    assert!(rpc.update(&WidgetContext { is_connected: true }));
    assert!(rpc.drain_messages().is_empty());
}

#[test]
fn cleared_topics_forget_their_payloads() {
    let mut rpc = WidgetRpc::default();
    rpc.subscribe_to_topics(&["a".to_string(), "b".to_string()]);
    rpc.receive_message(&topic("a", "1", Some(vec![1])));
    rpc.receive_message(&topic("b", "2", Some(vec![2])));
    rpc.clear_topic_messages(&["a"]);
    assert_eq!(rpc.get_messages_for_topic("a"), None);
    assert_eq!(rpc.get_messages_for_topic("b"), Some(&vec!["2".to_string()]));
    assert_eq!(rpc.get_binary_messages_for_topic("a"), Some(&vec![vec![1]]));
    rpc.clear_binary_topic_messages(&["a", "b"]);
    assert_eq!(rpc.get_binary_messages_for_topic("a"), None);
    assert_eq!(rpc.get_binary_messages_for_topic("b"), None);
}

#[test]
fn file_results_reach_only_their_widget_in_order() {
    let mut rpc = WidgetRpc::default();
    let own = rpc.scoped_tag("pick");
    assert_eq!(own, format!("{}::pick", rpc.widget_id()));
    rpc.receive_message(&file_result(&own, "/first"));
    rpc.receive_message(&file_result("someone-else::pick", "/foreign"));
    rpc.receive_message(&file_result(&own, "/second"));
    match rpc.next_file_result("pick") {
        Some(FileSystemSuccess::File { path, bytes, tag }) => {
            assert_eq!(path, "/first");
            assert_eq!(bytes, vec![1, 2]);
            assert_eq!(tag, own);
        }
        _ => panic!("expected the first file"),
    }
    assert!(matches!(rpc.next_file_result("pick"), Some(FileSystemSuccess::File { path, .. }) if path == "/second"));
    assert!(rpc.next_file_result("pick").is_none());
    assert!(rpc.next_file_result("other").is_none());
}

#[test]
fn file_requests_carry_the_scoped_tag() {
    let mut rpc = WidgetRpc::default();
    rpc.pick_file("doc", "Text", vec!["txt".to_string()]);
    rpc.pick_directory("dir");
    rpc.save_file("out", vec![5], "Data", vec!["bin".to_string()]);
    let drained = rpc.drain_messages();
    let id = rpc.widget_id().to_string();
    match &drained[0] {
        BusMessage::Filesystem { message: FileSystemMessage::Command(FileSystemCommand::PickFile { tag, filter_name, extensions }) } => {
            assert_eq!(tag, &format!("{id}::doc"));
            assert_eq!(filter_name, "Text");
            assert_eq!(extensions, &vec!["txt".to_string()]);
        }
        _ => panic!("expected a pick request"),
    }
    assert!(matches!(
        &drained[1],
        BusMessage::Filesystem { message: FileSystemMessage::Command(FileSystemCommand::PickFolder { tag }) } if tag == &format!("{id}::dir")
    ));
    assert!(matches!(
        &drained[2],
        BusMessage::Filesystem { message: FileSystemMessage::Command(FileSystemCommand::SaveFile { tag, bytes, .. }) }
            if tag == &format!("{id}::out") && bytes == &vec![5]
    ));
}

#[test]
fn dialogs_count_up_and_answers_are_taken_once() {
    let mut rpc = WidgetRpc::default();
    let id = rpc.widget_id().to_string();
    rpc.show_modal("Delete?", "Really?", Some("Yes".to_string()), None);
    rpc.show_modal("Sure?", "Again", None, None);
    assert!(rpc.has_open_modal());
    let drained = rpc.drain_messages();
    let ids: Vec<String> = drained
        .iter()
        .filter_map(|message| match message {
            BusMessage::Modal { message: ModalServiceMessage::ShowConfirm { id, .. } } => Some(id.clone()),
            _ => None,
        })
        .collect();
    assert_eq!(ids, vec![format!("modal_{id}_1"), format!("modal_{id}_2")]);
    assert_eq!(rpc.take_modal_result(), None);
    rpc.receive_message(&BusMessage::Modal {
        message: ModalServiceMessage::ModalResult { id: format!("modal_{id}_1"), confirmed: true },
    });
    assert_eq!(rpc.take_modal_result(), None);
    rpc.receive_message(&BusMessage::Modal {
        message: ModalServiceMessage::ModalResult { id: format!("modal_{id}_2"), confirmed: true },
    });
    assert_eq!(rpc.take_modal_result(), Some(ModalResult::Confirmed));
    assert!(!rpc.has_open_modal());
    assert_eq!(rpc.take_modal_result(), None);
    rpc.receive_message(&BusMessage::Modal {
        message: ModalServiceMessage::ModalResult { id: format!("modal_{id}_2"), confirmed: false },
    });
    assert_eq!(rpc.take_modal_result(), None);
}

#[test]
fn publications_and_notices_are_queued() {
    let mut rpc = WidgetRpc::default();
    rpc.publish_json("t", "{\"a\":1}");
    rpc.publish_bytes("b", &[1, 2, 3]);
    rpc.notify("hello", NotificationKind::Success, 3);
    let drained = rpc.drain_messages();
    assert!(matches!(
        &drained[0],
        BusMessage::Broker { message: BrokerServiceMessage::Publish { topic, message } } if topic == "t" && message == "{\"a\":1}"
    ));
    assert!(matches!(
        &drained[1],
        BusMessage::Broker { message: BrokerServiceMessage::PublishBytes { topic, bytes } } if topic == "b" && bytes == &vec![1, 2, 3]
    ));
    assert!(matches!(
        &drained[2],
        BusMessage::Notify { message } if message.text == "hello" && message.kind == NotificationKind::Success && message.seconds == 3
    ));
}

#[test]
fn prefixes_and_name_order() {
    assert!(has_prefix("abc::x", "abc::"));
    assert!(has_prefix("abc", ""));
    assert!(!has_prefix("ab", "abc"));
    assert!(!has_prefix("abd::", "abc::"));
    assert_eq!(
        sort_names(vec!["b".to_string(), "B".to_string(), "a".to_string(), "ab".to_string()]),
        vec!["B".to_string(), "a".to_string(), "ab".to_string(), "b".to_string()]
    );
}
