use hearsay::files::{FileSystemCommand, FileSystemResult, FileSystemSuccess};
use hearsay::project::{
    close_project, commit_layout_name, commit_project_name, file_result_action, layout_label, layout_menu_action,
    mark_layout_changed, open_project, project_label, project_menu_action, record_layout_loaded, record_project_saved,
    record_project_written, window_title, FileAction, LayoutMenuAction, LayoutState, NotificationKind,
    ProjectMenuAction, ProjectState, PROJECT_MENU_RECENT_BASE, PROJECT_MENU_SAVE, PROJECT_MENU_SET_STARTUP,
};
use hearsay::settings::UserSettings;
use hearsay::shell::{
    begin_project_save, classify_shell_topic, close_child_windows, queue_window_layouts, record_report,
    register_announced_window, shell_topics, tick_project_collection, window_layout_name, CollectionDestination,
    ProjectCollection, ReportedTree, SaveStart, ShellContract, ShellTopic, WindowRegistry,
};
use hearsay::themes::{load_theme, save_theme, theme};
use hearsay::web_shell::{
    clear_recents_keeping_startup, close_topic, content_type, page_project_name, parse_shell_query, push_received,
    store_recent_name, ShellRole,
};
use hearsay::window::WindowRole;

fn strings(items: &[&str]) -> Vec<String> {
    items.iter().map(|item| item.to_string()).collect()
}

fn report(window: &str, layout: &str) -> ReportedTree {
    ReportedTree { window_id: window.to_string(), layout_name: layout.to_string(), tree_json: format!("{{\"{layout}\":1}}") }
}

#[test]
fn shell_topics_follow_the_role() {
    assert_eq!(
        shell_topics(&WindowRole::Primary, "p"),
        strings(&["shell/window/announce", "shell/window/report-tree", "shell/window/request-spawn"])
    );
    let child = WindowRole::Child { broker_address: "x".to_string() };
    assert_eq!(
        shell_topics(&child, "w7"),
        strings(&["shell/window/assign-w7", "shell/window/close-w7", "shell/window/request-trees"])
    );
    assert_eq!(ShellContract::close_topic("w7"), "shell/window/close-w7");
}

#[test]
fn windows_answer_only_to_their_own_topics() {
    let child = WindowRole::Child { broker_address: "x".to_string() };
    let topic = |text: &str| text.to_string();
    assert_eq!(classify_shell_topic(&WindowRole::Primary, "p", &topic("shell/window/announce")), Some(ShellTopic::Announce));
    assert_eq!(classify_shell_topic(&WindowRole::Primary, "p", &topic("shell/window/close-p")), None);
    assert_eq!(classify_shell_topic(&child, "w7", &topic("shell/window/close-w7")), Some(ShellTopic::Close));
    assert_eq!(classify_shell_topic(&child, "w7", &topic("shell/window/close-w8")), None);
    assert_eq!(classify_shell_topic(&child, "w7", &topic("shell/window/announce")), None);
    assert_eq!(
        classify_shell_topic(&child, "w7", &topic("shell/window/request-trees")),
        Some(ShellTopic::RequestTrees)
    );
}

#[test]
fn announced_windows_get_waiting_layouts_in_order() {
    let mut registry = WindowRegistry::new();
    let layouts = vec![("one".to_string(), "{1}".to_string()), ("two".to_string(), "{2}".to_string())];
    assert_eq!(queue_window_layouts(&mut registry, layouts), 2);
    assert_eq!(register_announced_window(&mut registry, "w1".to_string()), Some(("one".to_string(), "{1}".to_string())));
    assert_eq!(register_announced_window(&mut registry, "w1".to_string()), Some(("two".to_string(), "{2}".to_string())));
    assert_eq!(register_announced_window(&mut registry, "w2".to_string()), None);
    assert_eq!(registry.known_windows, strings(&["w1", "w2"]));
    assert_eq!(close_child_windows(&mut registry), strings(&["w1", "w2"]));
    assert!(registry.known_windows.is_empty() && registry.pending_layouts.is_empty());
}

#[test]
fn a_lone_primary_saves_at_once() {
    let registry = WindowRegistry::default();
    let mut collection = ProjectCollection::default();
    match begin_project_save(&registry, &mut collection, CollectionDestination::Dialog) {
        SaveStart::SaveNow(CollectionDestination::Dialog) => {}
        _ => panic!("expected an immediate save"),
    }
    assert!(collection.active.is_none());
}

#[test]
fn a_save_waits_for_every_child_window() {
    let mut registry = WindowRegistry::new();
    register_announced_window(&mut registry, "w1".to_string());
    register_announced_window(&mut registry, "w2".to_string());
    let mut collection = ProjectCollection::default();
    assert!(matches!(
        begin_project_save(&registry, &mut collection, CollectionDestination::Path("/p".to_string())),
        SaveStart::RequestTrees
    ));
    record_report(&mut collection, report("w2", "second"));
    assert!(tick_project_collection(&mut registry, &mut collection, false).is_none());
    record_report(&mut collection, report("w1", "first"));
    let finished = tick_project_collection(&mut registry, &mut collection, false).unwrap();
    let names: Vec<&str> = finished.reports.iter().map(|r| r.layout_name.as_str()).collect();
    assert_eq!(names, vec!["first", "second"]);
    assert!(matches!(finished.destination, CollectionDestination::Path(path) if path == "/p"));
    assert!(collection.active.is_none());
    assert_eq!(registry.known_windows, strings(&["w1", "w2"]));
}

#[test]
fn a_timed_out_save_forgets_silent_windows() {
    let mut registry = WindowRegistry::new();
    for window in ["w1", "w2", "w3"] {
        register_announced_window(&mut registry, window.to_string());
    }
    let mut collection = ProjectCollection::default();
    begin_project_save(&registry, &mut collection, CollectionDestination::Dialog);
    record_report(&mut collection, report("w3", "third"));
    record_report(&mut collection, report("w1", "first"));
    let finished = tick_project_collection(&mut registry, &mut collection, true).unwrap();
    assert_eq!(registry.known_windows, strings(&["w1", "w3"]));
    let names: Vec<&str> = finished.reports.iter().map(|r| r.window_id.as_str()).collect();
    assert_eq!(names, vec!["w1", "w3"]);
}

#[test]
fn reports_outside_a_save_are_ignored() {
    let mut collection = ProjectCollection::default();
    record_report(&mut collection, report("w1", "first"));
    assert!(collection.active.is_none());
    let mut registry = WindowRegistry::new();
    assert!(tick_project_collection(&mut registry, &mut collection, true).is_none());
}

#[test]
fn missing_layout_names_default() {
    let names = strings(&["Main"]);
    assert_eq!(window_layout_name(&names, 0), "Main");
    assert_eq!(window_layout_name(&names, 1), "Default Layout");
}

#[test]
fn opening_a_project_names_it_and_remembers_it() {
    let mut project = ProjectState::default();
    let mut layout = LayoutState::default();
    let mut settings = UserSettings::default();
    project.is_modified = true;
    let notice = open_project(
        &mut project,
        &mut layout,
        &mut settings,
        &Vec::new(),
        Some("  ".to_string()),
        Some("plant".to_string()),
        "plant.project.json".to_string(),
        "/home/u/plant.project.json".to_string(),
    );
    assert_eq!(project.project_name, "plant");
    assert!(!project.is_modified);
    assert_eq!(project.project_file_path.as_deref(), Some("plant.project.json"));
    assert_eq!(layout.layout_name, "Default Layout");
    assert!(layout.is_loaded);
    assert_eq!(settings.recent_projects, strings(&["/home/u/plant.project.json"]));
    assert_eq!(notice.text, "Opened project: plant");
    assert_eq!(notice.kind, NotificationKind::Success);
    assert_eq!(notice.seconds, 3);
}

#[test]
fn saving_and_closing_a_project() {
    let mut project = ProjectState::default();
    let mut layout = LayoutState::default();
    let mut settings = UserSettings::default();
    mark_layout_changed(&mut layout, &mut project);
    assert_eq!(project_label(&project), "Untitled Project *");
    assert_eq!(layout_label(&layout), "Default Layout *");
    let notice = record_project_saved(&mut project, &mut layout, &mut settings, "/p.json".to_string(), "/p.json".to_string());
    assert_eq!(notice.text, "Project saved\n/p.json");
    assert_eq!(project_label(&project), "Untitled Project");
    assert_eq!(window_title(&WindowRole::Primary, &project), "Hearsay Demo - /p.json");
    project.is_modified = true;
    assert_eq!(window_title(&WindowRole::Primary, &project), "Hearsay Demo - /p.json (*)");
    let notice = record_project_written(&mut project, &mut layout, &"/p.json".to_string(), Err("disk full".to_string()));
    assert_eq!(notice.text, "Failed to save project: disk full");
    assert_eq!(notice.kind, NotificationKind::Error);
    assert!(project.is_modified);
    let child = WindowRole::Child { broker_address: "x".to_string() };
    assert!(close_project(&mut project, &mut layout, &child).is_none());
    let notice = close_project(&mut project, &mut layout, &WindowRole::Primary).unwrap();
    assert_eq!(notice.text, "Project closed");
    assert_eq!(project.project_name, "Untitled Project");
    assert!(project.project_file_path.is_none());
    assert!(!layout.is_loaded);
    assert_eq!(window_title(&child, &project), "Hearsay Demo - Window");
}

#[test]
fn renaming_ignores_empty_names() {
    let mut project = ProjectState::default();
    let mut layout = LayoutState::default();
    commit_project_name(&mut project, String::new());
    assert!(!project.is_modified);
    commit_project_name(&mut project, "Plant".to_string());
    assert_eq!(project.project_name, "Plant");
    assert!(project.is_modified);
    commit_layout_name(&mut layout, &mut project, "Wide".to_string());
    assert_eq!(layout_label(&layout), "Wide *");
    record_layout_loaded(&mut layout, None);
    assert_eq!(layout_label(&layout), "Wide");
}

#[test]
fn file_results_are_sorted_by_tag() {
    let file = |tag: &str| {
        FileSystemResult::Success(FileSystemSuccess::File { path: "/f".to_string(), bytes: vec![1], tag: tag.to_string() })
    };
    assert!(matches!(file_result_action(file("project")), FileAction::OpenProject { path, .. } if path == "/f"));
    assert!(matches!(file_result_action(file("project_save")), FileAction::ProjectSaved { .. }));
    assert!(matches!(file_result_action(file("layout")), FileAction::OpenLayout { bytes } if bytes == vec![1]));
    assert!(matches!(file_result_action(file("layout_save")), FileAction::LayoutSaved { .. }));
    assert!(matches!(file_result_action(file("api")), FileAction::Ignore));
    assert!(matches!(file_result_action(FileSystemResult::default()), FileAction::Ignore));
}

#[test]
fn project_menu_entries_act_on_the_project() {
    let mut project = ProjectState::default();
    let mut settings = UserSettings::default();
    let recent = strings(&["/r.json"]);
    assert!(matches!(
        project_menu_action(PROJECT_MENU_SAVE, &project, &mut settings, &recent, None),
        ProjectMenuAction::Save(CollectionDestination::Dialog)
    ));
    match project_menu_action(PROJECT_MENU_SET_STARTUP, &project, &mut settings, &recent, None) {
        ProjectMenuAction::Notify(notice) => {
            assert_eq!(notice.text, "Save the project first to set it as the startup project");
            assert_eq!(notice.kind, NotificationKind::Warning);
        }
        _ => panic!("expected a warning"),
    }
    project.project_file_path = Some("p.json".to_string());
    assert!(matches!(
        project_menu_action(PROJECT_MENU_SET_STARTUP, &project, &mut settings, &recent, Some("/abs/p.json".to_string())),
        ProjectMenuAction::SettingsChanged
    ));
    assert_eq!(settings.default_project_path.as_deref(), Some("p.json"));
    assert_eq!(settings.recent_projects, strings(&["/abs/p.json"]));
    assert!(matches!(
        project_menu_action(PROJECT_MENU_RECENT_BASE, &project, &mut settings, &recent, None),
        ProjectMenuAction::OpenRecent(path) if path == "/r.json"
    ));
    assert!(matches!(
        project_menu_action(PROJECT_MENU_RECENT_BASE + 1, &project, &mut settings, &recent, None),
        ProjectMenuAction::Ignore
    ));
    assert!(matches!(
        project_menu_action(2, &project, &mut settings, &recent, None),
        ProjectMenuAction::Command(FileSystemCommand::PickFile { tag, .. }) if tag == "project"
    ));
}

#[test]
fn layout_menu_entries() {
    let mut layout = LayoutState::default();
    layout.layout_name = String::new();
    assert!(matches!(layout_menu_action(1, &layout), LayoutMenuAction::Save { layout_name } if layout_name == "Untitled Layout"));
    assert!(matches!(layout_menu_action(3, &layout), LayoutMenuAction::Reset));
    assert!(matches!(layout_menu_action(9, &layout), LayoutMenuAction::Ignore));
}

#[test]
fn saved_theme_loads_back() {
    for index in 0..11 {
        assert_eq!(load_theme(Some(save_theme(index))), index);
    }
    assert_eq!(save_theme(11), "Deep Ocean");
    assert_eq!(load_theme(Some("Nord")), 2);
    assert_eq!(load_theme(Some("Unknown")), 0);
    assert_eq!(load_theme(None), 0);
    assert_eq!(theme(1).accent, "#bd93f9");
    assert_eq!(theme(10).name, "Solarized Light");
}

#[test]
fn web_shell_serves_by_extension() {
    assert_eq!(content_type("index.html"), "text/html; charset=utf-8");
    assert_eq!(content_type("pkg/app_bg.wasm"), "application/wasm");
    assert_eq!(content_type("a.b.js"), "application/javascript");
    assert_eq!(content_type("style.css"), "text/css");
    assert_eq!(content_type("logo.svg"), "image/svg+xml");
    assert_eq!(content_type("html"), "text/html; charset=utf-8");
    assert_eq!(content_type("notes.txt"), "application/octet-stream");
    assert_eq!(content_type("archive."), "application/octet-stream");
}

#[test]
fn pages_read_their_role_from_the_query() {
    assert_eq!(parse_shell_query("", "page-1".to_string()), (true, "page-1".to_string()));
    assert_eq!(parse_shell_query("?role=child&shell=s9", "page-1".to_string()), (false, "s9".to_string()));
    assert_eq!(parse_shell_query("??shell=a&role=primary", "p".to_string()), (true, "a".to_string()));
    assert_eq!(parse_shell_query("role=child&role=host", "p".to_string()), (true, "p".to_string()));
    assert_eq!(parse_shell_query("shell=&x=1", "p".to_string()), (true, String::new()));
}

#[test]
fn shells_close_on_their_topic() {
    assert_eq!(close_topic("s9"), "shell/leptos/close-s9");
    assert!(ShellRole::from_broker_address(None).is_host());
    assert!(!ShellRole::from_broker_address(Some("a".to_string())).is_host());
}

#[test]
fn panels_keep_the_last_texts() {
    let mut received = Vec::new();
    for index in 0..30 {
        push_received(&mut received, format!("m{index}"));
    }
    assert_eq!(received.len(), 25);
    assert_eq!(received[0], "m5");
    assert_eq!(received[24], "m29");
}

#[test]
fn page_recents_and_names() {
    let mut recents = Vec::new();
    for name in ["a", "b", "a"] {
        store_recent_name(&mut recents, &name.to_string());
    }
    assert_eq!(recents, strings(&["a", "b"]));
    clear_recents_keeping_startup(&mut recents, &Some("b".to_string()));
    assert_eq!(recents, strings(&["b"]));
    clear_recents_keeping_startup(&mut recents, &None);
    assert!(recents.is_empty());
    assert_eq!(page_project_name(Some("\n".to_string())), "Untitled Project");
    assert_eq!(page_project_name(Some("Plant".to_string())), "Plant");
}
