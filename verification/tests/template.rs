use hearsay::files::{FileSystemMessage, FileSystemResult, FileSystemSuccess};
use hearsay::modals::{ModalResult, ModalServiceMessage};
use hearsay::project::NotificationKind;
use hearsay::registry::BrokerServiceMessage;
use hearsay::template::{binary_topic, template_note, text_topic, TemplateWidget};
use hearsay::widget_rpc::BusMessage;

fn arrive(widget: &mut TemplateWidget, topic: &str, payload: &str, bytes: Option<Vec<u8>>) {
    widget.receive_message(&BusMessage::Topic { topic: topic.to_string(), payload: payload.to_string(), bytes });
}

fn result(success: FileSystemSuccess) -> BusMessage {
    BusMessage::Filesystem { message: FileSystemMessage::Result(FileSystemResult::Success(success)) }
}

#[test]
fn topics_are_named() {
    assert_eq!(text_topic(), "template/text");
    assert_eq!(binary_topic(), "template/binary");
}

#[test]
fn connecting_follows_the_template_topics() {
    let mut widget = TemplateWidget::new();
    assert!(!widget.update(false));
    assert!(!widget.subscribed);
    assert!(widget.update(true));
    assert!(widget.subscribed);
    assert_eq!(widget.rpc.subscribed_topics(), vec!["template/binary".to_string(), "template/text".to_string()]);
    let drained = widget.drain_messages();
    assert!(!drained.is_empty());
    assert!(drained.iter().all(|message| matches!(
        message,
        BusMessage::Broker { message: BrokerServiceMessage::Subscribe { .. } }
    )));
}

#[test]
fn letting_topics_go_stops_automatic_subscription() {
    let mut widget = TemplateWidget::new();
    widget.update(true);
    widget.toggle_subscription();
    assert!(!widget.subscribed);
    assert!(widget.auto_subscribe_pending);
    assert!(widget.rpc.subscribed_topics().is_empty());
    widget.update(true);
    assert!(!widget.subscribed);
    widget.toggle_subscription();
    assert!(widget.subscribed);
    assert!(!widget.auto_subscribe_pending);
}

#[test]
fn the_latest_twenty_five_texts_are_shown() {
    let mut widget = TemplateWidget::new();
    widget.update(true);
    for index in 0..30 {
        arrive(&mut widget, "template/text", &format!("m{index}"), None);
    }
    arrive(&mut widget, "template/binary", "", Some(vec![1, 2, 3]));
    arrive(&mut widget, "template/binary", "", Some(vec![4]));
    widget.update(true);
    assert_eq!(widget.received_text.len(), 25);
    assert_eq!(widget.received_text.first().map(String::as_str), Some("m5"));
    assert_eq!(widget.received_text.last().map(String::as_str), Some("m29"));
    assert_eq!(widget.received_binary_count, 2);
    assert_eq!(widget.last_binary_length, 1);
    assert_eq!(widget.rpc.get_messages_for_topic("template/text"), None);
    widget.clear_received();
    assert!(widget.received_text.is_empty());
    assert_eq!(widget.received_binary_count, 0);
    assert_eq!(widget.last_binary_length, 0);
}

#[test]
fn file_results_fill_the_file_labels() {
    let mut widget = TemplateWidget::new();
    let file_tag = widget.rpc.scoped_tag("template-file");
    let folder_tag = widget.rpc.scoped_tag("template-folder");
    let save_tag = widget.rpc.scoped_tag("template-save");
    widget.receive_message(&result(FileSystemSuccess::File { path: "/a.txt".to_string(), bytes: vec![0; 4], tag: file_tag.clone() }));
    widget.receive_message(&result(FileSystemSuccess::File { path: "/b.txt".to_string(), bytes: vec![0; 7], tag: file_tag.clone() }));
    widget.receive_message(&result(FileSystemSuccess::Folder { path: "/docs".to_string(), tag: folder_tag.clone() }));
    widget.receive_message(&result(FileSystemSuccess::File { path: "/out.txt".to_string(), bytes: Vec::new(), tag: save_tag.clone() }));
    widget.process_file_results();
    assert_eq!(widget.picked_file, Some(("/b.txt".to_string(), 7)));
    assert_eq!(widget.picked_folder, Some("/docs".to_string()));
    assert_eq!(widget.saved_file, Some("/out.txt".to_string()));
    assert!(widget.rpc.next_file_result("template-file").is_none());
}

#[test]
fn controls_queue_their_requests() {
    let mut widget = TemplateWidget::new();
    widget.edit_message("say \"hi\"".to_string());
    widget.publish_raw();
    widget.publish_typed();
    widget.publish_binary();
    widget.notify_kind(NotificationKind::Warning);
    widget.request_file();
    widget.request_folder();
    widget.request_save();
    let drained = widget.drain_messages();
    assert_eq!(drained.len(), 7);
    match &drained[0] {
        BusMessage::Broker { message: BrokerServiceMessage::Publish { topic, message } } => {
            assert_eq!(topic, "template/text");
            assert_eq!(message, "{\"raw\":\"say \"hi\"\"}");
        }
        _ => panic!("expected a raw publication"),
    }
    match &drained[1] {
        BusMessage::Broker { message: BrokerServiceMessage::Publish { message, .. } } => {
            let value: serde_json::Value = serde_json::from_str(message).expect("valid JSON");
            assert_eq!(value["text"], serde_json::Value::String("say \"hi\"".to_string()));
            assert_eq!(message, "{\"text\":\"say \\\"hi\\\"\"}");
        }
        _ => panic!("expected a typed publication"),
    }
    assert!(matches!(
        &drained[2],
        BusMessage::Broker { message: BrokerServiceMessage::PublishBytes { topic, bytes } }
            if topic == "template/binary" && bytes == &b"say \"hi\"".to_vec()
    ));
    assert!(matches!(
        &drained[3],
        BusMessage::Notify { message } if message.text == "A warning toast" && message.seconds == 3
    ));
}

#[test]
fn typed_notes_are_json_objects() {
    assert_eq!(template_note("plain"), "{\"text\":\"plain\"}");
    assert_eq!(template_note("line\nbreak"), "{\"text\":\"line\\nbreak\"}");
}

#[test]
fn the_confirmation_dialog_opens_once_and_its_answer_is_shown() {
    let mut widget = TemplateWidget::new();
    assert_eq!(widget.modal_result_text(), "No modal result yet");
    widget.request_confirmation();
    widget.request_confirmation();
    let drained = widget.drain_messages();
    assert_eq!(drained.len(), 1);
    let id = match &drained[0] {
        BusMessage::Modal { message: ModalServiceMessage::ShowConfirm { id, title, confirm_text, cancel_text, .. } } => {
            assert_eq!(title, "Template Modal");
            assert_eq!(confirm_text.as_deref(), Some("Yes, proceed"));
            assert_eq!(cancel_text.as_deref(), Some("No, cancel"));
            id.clone()
        }
        _ => panic!("expected a dialog"),
    };
    widget.receive_message(&BusMessage::Modal { message: ModalServiceMessage::ModalResult { id, confirmed: false } });
    widget.update(false);
    assert_eq!(widget.last_modal_result, Some(ModalResult::Cancelled));
    assert_eq!(widget.modal_result_text(), "Last result: cancelled");
    assert!(!widget.rpc.has_open_modal());
    assert_eq!(widget.title(), "Template");
}

#[test]
fn typed_notes_escape_as_serde_json_does() {
    for text in ["tab\there", "back\\slash", "bell\u{7}", "ctl\u{1f}", "\u{8}\u{c}\r", "é ü 中", "/"] {
        let expected = format!("{{\"text\":{}}}", serde_json::to_string(text).expect("a string"));
        assert_eq!(template_note(text), expected);
    }
    assert_eq!(template_note("\u{1}"), "{\"text\":\"\\u0001\"}");
}
