use hearsay::chrome::{picker_entries, picker_matches, project_menu_builder, ApiPanel, Chrome, MenuEntry, Visibility};
use hearsay::files::{
    take_received, build_dialog, FileSystemResult, FileSystemSuccess, FilesystemError, PickFileTask, PickFolderTask, SaveFileTask,
};
use hearsay::modals::{receive_messages, ActiveModals, ModalResult, ModalService, ModalServiceMessage};
use hearsay::registry::{process_broker_service_message, BrokerServiceMessage, RuntimeCommand, SubscriptionRegistry};
use hearsay::settings::{blank, derive_project_name, listed_project_name, recent_project_name, UserSettings};
use hearsay::window::{
    apply_runtime_event, decimal_text, next_window_name, BrokerConnectionStatus, RuntimeEvent, WidgetContext,
    WindowRole,
};

fn strings(items: &[&str]) -> Vec<String> {
    items.iter().map(|item| item.to_string()).collect()
}

fn subscribe(registry: &mut SubscriptionRegistry, widget: &str, topics: &[&str]) -> Option<RuntimeCommand> {
    let message = BrokerServiceMessage::Subscribe { topics: strings(topics), widget_id: widget.to_string() };
    process_broker_service_message(&message, registry)
}

fn unsubscribe(registry: &mut SubscriptionRegistry, widget: &str, topics: &[&str]) -> Option<RuntimeCommand> {
    let message = BrokerServiceMessage::Unsubscribe { topics: strings(topics), widget_id: widget.to_string() };
    process_broker_service_message(&message, registry)
}

fn unsubscribed_topics(command: Option<RuntimeCommand>) -> Option<Vec<String>> {
    match command {
        Some(RuntimeCommand::Unsubscribe { topics }) => Some(topics),
        None => None,
        _ => panic!("expected an unsubscription"),
    }
}

#[test]
fn subscriptions_pass_through_whole() {
    let mut registry = SubscriptionRegistry::new();
    match subscribe(&mut registry, "w1", &["a", "b"]) {
        Some(RuntimeCommand::Subscribe { topics }) => assert_eq!(topics, strings(&["a", "b"])),
        _ => panic!("expected a subscription"),
    }
    subscribe(&mut registry, "w2", &["a"]);
    assert_eq!(
        registry.topic_subscribers.subscribers(&"a".to_string()),
        Some(&strings(&["w1", "w2"]))
    );
}

#[test]
fn topic_is_unsubscribed_only_when_no_widget_wants_it() {
    let mut registry = SubscriptionRegistry::new();
    subscribe(&mut registry, "w1", &["a", "b"]);
    subscribe(&mut registry, "w2", &["a"]);
    assert_eq!(unsubscribed_topics(unsubscribe(&mut registry, "w1", &["a", "b", "b"])), Some(strings(&["b"])));
    assert_eq!(registry.topic_subscribers.subscribers(&"a".to_string()), Some(&strings(&["w2"])));
    assert!(registry.topic_subscribers.subscribers(&"b".to_string()).is_none());
    assert_eq!(unsubscribed_topics(unsubscribe(&mut registry, "w1", &["a"])), None);
}

#[test]
fn removed_widget_releases_its_topics() {
    let mut registry = SubscriptionRegistry::new();
    subscribe(&mut registry, "w1", &["a", "b", "c"]);
    subscribe(&mut registry, "w2", &["b"]);
    let message = BrokerServiceMessage::WidgetRemoved { widget_id: "w1".to_string() };
    let mut released = unsubscribed_topics(process_broker_service_message(&message, &mut registry)).unwrap();
    released.sort();
    assert_eq!(released, strings(&["a", "c"]));
    assert_eq!(registry.topic_subscribers.subscribers(&"b".to_string()), Some(&strings(&["w2"])));
    assert!(process_broker_service_message(&message, &mut registry).is_none());
}

#[test]
fn publications_and_spawns_pass_through() {
    let mut registry = SubscriptionRegistry::default();
    let publish = BrokerServiceMessage::Publish { topic: "t".to_string(), message: "{}".to_string() };
    assert!(matches!(
        process_broker_service_message(&publish, &mut registry),
        Some(RuntimeCommand::Publish { topic, message }) if topic == "t" && message == "{}"
    ));
    let bytes = BrokerServiceMessage::PublishBytes { topic: "t".to_string(), bytes: vec![1] };
    assert!(matches!(
        process_broker_service_message(&bytes, &mut registry),
        Some(RuntimeCommand::PublishBytes { bytes, .. }) if bytes == vec![1]
    ));
    assert!(matches!(
        process_broker_service_message(&BrokerServiceMessage::SpawnWindow, &mut registry),
        Some(RuntimeCommand::SpawnWindow)
    ));
    assert!(process_broker_service_message(&BrokerServiceMessage::default(), &mut registry).is_none());
}

#[test]
fn window_role_follows_the_environment() {
    assert!(WindowRole::from_broker_address(None).is_primary());
    let child = WindowRole::from_broker_address(Some("127.0.0.1:9612".to_string()));
    assert!(!child.is_primary());
}

#[test]
fn runtime_events_update_the_connection() {
    let mut status = BrokerConnectionStatus::default();
    let child = WindowRole::Child { broker_address: "x".to_string() };
    let reaction = apply_runtime_event(
        &mut status,
        &child,
        RuntimeEvent::Connected { client_id: "window_1".to_string(), address: "127.0.0.1:9612".to_string() },
    );
    assert_eq!(reaction.connection, Some(true));
    assert!(status.connected);
    assert_eq!(status.client_id, "window_1");
    assert!(WidgetContext::from_status(&status).is_connected);
    let reaction = apply_runtime_event(&mut status, &child, RuntimeEvent::Failed { reason: "refused".to_string() });
    assert_eq!(reaction.failure.as_deref(), Some("Broker runtime failed: refused"));
    assert!(reaction.exit);
    assert!(!status.connected);
    let reaction = apply_runtime_event(&mut status, &WindowRole::Primary, RuntimeEvent::Disconnected);
    assert_eq!(reaction.connection, Some(false));
    assert!(!reaction.exit);
    let reaction = apply_runtime_event(
        &mut status,
        &WindowRole::Primary,
        RuntimeEvent::Inbound { topic: "t".to_string(), payload: "p".to_string(), bytes: None },
    );
    let inbound = reaction.inbound.unwrap();
    assert_eq!((inbound.topic.as_str(), inbound.payload.as_str()), ("t", "p"));
    assert!(!WidgetContext::default().is_connected);
}

#[test]
fn windows_are_numbered_in_decimal() {
    assert_eq!(decimal_text(0), "0");
    assert_eq!(decimal_text(4_294_967_295), "4294967295");
    let mut counter = 9;
    assert_eq!(next_window_name(&mut counter), "window-10");
    assert_eq!(counter, 10);
}

#[test]
fn recent_projects_put_the_latest_first() {
    let mut settings = UserSettings::default();
    for index in 0..12 {
        settings.add_recent_project(format!("/p/{index}.project.json"));
    }
    assert_eq!(settings.recent_projects.len(), 10);
    assert_eq!(settings.recent_projects[0], "/p/11.project.json");
    assert_eq!(settings.recent_projects[9], "/p/2.project.json");
    settings.add_recent_project("/p/5.project.json".to_string());
    assert_eq!(settings.recent_projects[0], "/p/5.project.json");
    assert_eq!(settings.recent_projects.len(), 10);
    assert_eq!(settings.recent_projects.iter().filter(|path| *path == "/p/5.project.json").count(), 1);
}

#[test]
fn clearing_recent_projects_keeps_the_startup_one() {
    let mut settings = UserSettings::default();
    settings.add_recent_project("/a".to_string());
    settings.add_recent_project("/b".to_string());
    settings.clear_recent_projects();
    assert!(settings.recent_projects.is_empty());
    settings.set_startup_project("/b".to_string());
    settings.add_recent_project("/c".to_string());
    settings.clear_recent_projects();
    assert_eq!(settings.recent_projects, strings(&["/b"]));
    assert_eq!(settings.default_project_path.as_deref(), Some("/b"));
}

#[test]
fn project_names_fall_back_to_the_file() {
    assert_eq!(derive_project_name(Some("Plant".to_string()), Some("file".to_string())), "Plant");
    assert_eq!(derive_project_name(Some(" \t ".to_string()), Some("file".to_string())), "file");
    assert_eq!(derive_project_name(None, None), "Untitled Project");
    assert!(blank("\u{2028} \u{3000}"));
    assert!(!blank(" x "));
    assert_eq!(recent_project_name(None, None), "Unknown Project");
}

#[test]
fn listed_project_names_come_from_the_file_contents() {
    let json = "{\"version\":\"1\",\"project_name\":\"Plant\"}".to_string();
    assert_eq!(listed_project_name(Some(json), Some("stem".to_string())), "Plant");
    let unnamed = "{\"version\":\"1\"}".to_string();
    assert_eq!(listed_project_name(Some(unnamed), Some("stem".to_string())), "stem");
    assert_eq!(listed_project_name(Some("not json".to_string()), None), "Unknown Project");
    let numbered = "{\"project_name\":7}".to_string();
    assert_eq!(listed_project_name(Some(numbered), Some("stem".to_string())), "stem");
}

#[test]
fn confirmation_dialogs_get_default_buttons() {
    let mut modals = ActiveModals::new();
    let messages = vec![
        ModalServiceMessage::ShowConfirm {
            id: "m".to_string(),
            title: "Delete?".to_string(),
            body: "Sure?".to_string(),
            confirm_text: None,
            cancel_text: Some("Keep".to_string()),
        },
        ModalServiceMessage::ShowConfirm {
            id: "n".to_string(),
            title: "Other".to_string(),
            body: "".to_string(),
            confirm_text: None,
            cancel_text: None,
        },
        ModalServiceMessage::CloseModal("n".to_string()),
    ];
    receive_messages(&mut modals, &messages);
    let shown = modals.modals.entries.iter().find(|(id, _)| id == "m").map(|(_, data)| data).unwrap();
    assert_eq!(shown.confirm_text, "Confirm");
    assert_eq!(shown.cancel_text, "Keep");
    assert_eq!(modals.modals.entries.len(), 1);
    match modals.answer(&"m".to_string(), true) {
        Some(ModalServiceMessage::ModalResult { id, confirmed }) => {
            assert_eq!(id, "m");
            assert!(confirmed);
        }
        _ => panic!("expected an answer"),
    }
    assert!(modals.answer(&"m".to_string(), true).is_none());
    assert_eq!(ModalResult::from(true), ModalResult::Confirmed);
    assert_eq!(ModalResult::from(false), ModalResult::Cancelled);
    assert_eq!(ModalResult::default(), ModalResult::Cancelled);
}

#[test]
fn modal_service_replaces_and_closes_dialogs() {
    let mut service = ModalService::new();
    assert_eq!(service.show_confirm("m", 10, 11), None);
    assert_eq!(service.show_confirm("m", 20, 21), Some(10));
    assert_eq!(service.show_confirm("n", 30, 31), None);
    assert_eq!(service.handle_modal_closed(11), None);
    assert_eq!(service.handle_modal_closed(21), Some(("m".to_string(), 20)));
    assert_eq!(service.close_modal("m"), None);
    assert_eq!(service.close_modal("n"), Some(30));
}

#[test]
fn dialogs_filter_only_with_name_and_extensions() {
    let dialog = build_dialog(&"project".to_string(), &strings(&["project.json"]));
    let (name, extensions) = dialog.filter.unwrap();
    assert_eq!(name, "project");
    assert_eq!(extensions, strings(&["project.json"]));
    assert!(build_dialog(&"".to_string(), &strings(&["x"])).filter.is_none());
    assert!(build_dialog(&"x".to_string(), &Vec::new()).filter.is_none());
}

#[test]
fn dialog_outcomes_become_results() {
    let task = PickFileTask { tag: "t".to_string() };
    match task.result(Some(("/f".to_string(), Ok(vec![1])))) {
        FileSystemResult::Success(FileSystemSuccess::File { path, bytes, tag }) => {
            assert_eq!((path.as_str(), bytes, tag.as_str()), ("/f", vec![1], "t"));
        }
        _ => panic!("expected a file"),
    }
    let task = PickFileTask { tag: "t".to_string() };
    assert!(matches!(
        task.result(Some(("/f".to_string(), Err("denied".to_string())))),
        FileSystemResult::Error(FilesystemError::ReadError(reason)) if reason == "denied"
    ));
    let task = PickFolderTask { tag: "d".to_string() };
    assert!(matches!(task.result(None), FileSystemResult::Error(FilesystemError::NoFileSelected)));
    let task = SaveFileTask { tag: "s".to_string(), bytes: vec![1, 2] };
    match task.result(Some(("/out".to_string(), Ok(())))) {
        FileSystemResult::Success(FileSystemSuccess::File { path, bytes, tag }) => {
            assert_eq!((path.as_str(), bytes.len(), tag.as_str()), ("/out", 0, "s"));
        }
        _ => panic!("expected a file"),
    }
    let task = SaveFileTask { tag: "s".to_string(), bytes: vec![] };
    assert!(matches!(
        task.result(Some(("/out".to_string(), Err("full".to_string())))),
        FileSystemResult::Error(FilesystemError::WriteError(reason)) if reason == "full"
    ));
}

#[test]
fn file_service_hands_over_what_the_workers_sent() {
    let (sender, receiver) = std::sync::mpsc::channel();
    let service = hearsay::files::FilesystemService { receiver };
    assert!(service.poll_results().is_empty());
    sender.send(FileSystemResult::Error(FilesystemError::NoFileSelected)).unwrap();
    sender.send(FileSystemResult::default()).unwrap();
    let results = service.poll_results();
    assert_eq!(results.len(), 2);
    assert!(matches!(results[0], FileSystemResult::Error(FilesystemError::NoFileSelected)));
    assert!(matches!(results[1], FileSystemResult::Success(FileSystemSuccess::Empty)));
    assert!(service.poll_results().is_empty());
}

fn chrome() -> Chrome {
    Chrome {
        menu_parent: 1,
        project_button: 2,
        project_menu: 0,
        menu_recent_paths: Vec::new(),
        menu_signature: (Vec::new(), None),
        project_label: 3,
        project_edit_button: 4,
        project_edit_input: 5,
        project_edit_ok: 6,
        project_edit_cancel: 7,
        editing_project: false,
        layout_button: 8,
        layout_menu: 9,
        layout_label: 10,
        layout_edit_button: 11,
        layout_edit_input: 12,
        layout_edit_ok: 13,
        layout_edit_cancel: 14,
        editing_layout: false,
        view_button: 15,
        view_menu: 16,
        new_window_button: 17,
        add_panel_button: 18,
        fps_label: 19,
        address_label: 20,
        role_label: 21,
        theme_dropdown: 22,
        rendered_connected: None,
    }
}

#[test]
fn editing_a_name_swaps_label_and_input() {
    let mut bar = chrome();
    let changes = bar.set_project_editing(true);
    assert!(bar.editing_project);
    assert_eq!(
        changes,
        vec![
            Visibility { node: 3, visible: false },
            Visibility { node: 4, visible: false },
            Visibility { node: 5, visible: true },
            Visibility { node: 6, visible: true },
            Visibility { node: 7, visible: true },
        ]
    );
    let changes = bar.set_layout_editing(false);
    assert!(!bar.editing_layout);
    assert_eq!(changes[0], Visibility { node: 10, visible: true });
    assert_eq!(changes[4], Visibility { node: 14, visible: false });
    assert!(bar.editing_project);
    assert_eq!(bar.layout_edit_input, 12);
    assert_eq!(bar.project_edit_input, 5);
    assert_eq!(bar.theme_dropdown, 22);
}

fn labels(entries: &[MenuEntry]) -> Vec<Option<(String, u32)>> {
    entries
        .iter()
        .map(|entry| match entry {
            MenuEntry::Item { label, tag } => Some((label.clone(), *tag)),
            MenuEntry::Separator => None,
        })
        .collect()
}

#[test]
fn project_menu_lists_recent_projects_and_marks_startup() {
    let mut settings = UserSettings::default();
    let (entries, paths) = project_menu_builder(&settings, &Vec::new());
    assert_eq!(entries.len(), 8);
    assert!(paths.is_empty());
    settings.recent_projects = strings(&["/a.project.json", "/b.project.json"]);
    settings.default_project_path = Some("/b.project.json".to_string());
    let (entries, paths) = project_menu_builder(&settings, &strings(&["A", "B"]));
    let entries = labels(&entries);
    assert_eq!(entries.len(), 13);
    assert_eq!(entries[0], Some(("New Project".to_string(), 1)));
    assert_eq!(entries[8], None);
    assert_eq!(entries[9], Some(("Open: A".to_string(), 100)));
    assert_eq!(entries[10], Some(("Open: B (startup)".to_string(), 101)));
    assert_eq!(entries[11], None);
    assert_eq!(entries[12], Some(("Clear Recent Projects".to_string(), 7)));
    assert_eq!(paths, settings.recent_projects);
}

#[test]
fn project_menu_is_rebuilt_when_settings_change() {
    let mut bar = chrome();
    let mut settings = UserSettings::default();
    settings.add_recent_project("/a".to_string());
    assert!(bar.needs_menu_rebuild(&settings));
    bar.record_project_menu(40, strings(&["/a"]), &settings);
    assert!(!bar.needs_menu_rebuild(&settings));
    assert_eq!(bar.project_menu, 40);
    settings.default_project_path = Some("/a".to_string());
    assert!(bar.needs_menu_rebuild(&settings));
}

#[test]
fn api_panel_toggles() {
    let mut panel = ApiPanel { panel: 5, dropdown: 6, text_area: 7, send_button: 8, status_label: 9, visible: false };
    assert_eq!(panel.toggle(), Visibility { node: 5, visible: true });
    assert_eq!(panel.toggle(), Visibility { node: 5, visible: false });
}

#[test]
fn the_widget_picker_selection_stays_in_the_list() {
    let select = hearsay::chrome::picker_selection;
    assert_eq!(select(3, 7, false, false), 2);
    assert_eq!(select(3, 0, true, false), 1);
    assert_eq!(select(3, 2, true, false), 2);
    assert_eq!(select(3, 0, false, true), 0);
    assert_eq!(select(3, 1, true, true), 1);
    assert_eq!(select(1, 0, true, true), 0);
}

#[test]
fn the_widget_picker_lists_matching_titles_in_order() {
    let titles = vec!["Template".to_string(), "banner".to_string(), "Alpha".to_string()];
    assert_eq!(picker_entries(&titles, ""), vec!["Alpha".to_string(), "banner".to_string(), "Template".to_string()]);
    assert_eq!(picker_entries(&titles, "TEM"), vec!["Template".to_string()]);
    assert_eq!(picker_entries(&titles, "a"), vec!["Alpha".to_string(), "banner".to_string(), "Template".to_string()]);
    assert!(picker_entries(&titles, "xyz").is_empty());
    assert!(picker_matches("Template", "plat"));
    assert!(!picker_matches("Template", "templates"));
}

#[test]
fn received_results_are_taken_in_order() {
    let mut results = Vec::new();
    assert!(take_received(&mut results, Some(FileSystemResult::Error(FilesystemError::NoFileSelected))));
    assert!(take_received(&mut results, Some(FileSystemResult::Success(FileSystemSuccess::Empty))));
    assert!(!take_received(&mut results, None));
    assert_eq!(results.len(), 2);
    assert!(matches!(results[0], FileSystemResult::Error(FilesystemError::NoFileSelected)));
}
