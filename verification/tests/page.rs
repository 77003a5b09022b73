use hearsay::page::{PageBoard, ToastKind, WindowLayout};
use hearsay::web_shell::{classify_page_topic, default_shell_id, detect_shell, PageTopic};

fn panel_ids(board: &PageBoard) -> Vec<u32> {
    board.panels.iter().map(|panel| panel.id).collect()
}

#[test]
fn a_page_starts_with_one_panel() {
    let board = PageBoard::new();
    assert_eq!(panel_ids(&board), vec![0]);
    assert_eq!(board.layout_name, "Default Layout");
    assert!(!board.layout_modified);
}

#[test]
fn panels_get_fresh_ids_and_closing_marks_the_layout_modified() {
    let mut board = PageBoard::new();
    assert_eq!(board.add_panel(), 1);
    assert_eq!(board.add_panel(), 2);
    board.remove_panel(1);
    assert_eq!(panel_ids(&board), vec![0, 2]);
    assert!(board.layout_modified);
    assert!(board.project_modified);
    assert_eq!(board.add_panel(), 3);
    board.remove_panel(7);
    assert_eq!(panel_ids(&board), vec![0, 2, 3]);
}

#[test]
fn toasts_come_and_go_by_id() {
    let mut board = PageBoard::new();
    let first = board.push_toast("Saved", ToastKind::Success);
    let second = board.push_toast("Oops", ToastKind::Error);
    assert_eq!((first, second), (0, 1));
    board.dismiss_toast(first);
    assert_eq!(board.toasts.len(), 1);
    assert_eq!(board.toasts[0].text, "Oops");
    board.dismiss_toast(first);
    assert_eq!(board.toasts.len(), 1);
    assert_eq!(ToastKind::Error.class(), "toast error");
    assert_eq!(ToastKind::Info.class(), "toast info");
    assert_eq!(ToastKind::Success.class(), "toast success");
    assert_eq!(ToastKind::Warning.class(), "toast warning");
}

#[test]
fn a_panel_awaits_one_answer_at_a_time() {
    let mut board = PageBoard::new();
    let panel = board.panels[0].id;
    assert_eq!(board.request_confirmation(panel), Some(0));
    assert_eq!(board.request_confirmation(panel), None);
    assert_eq!(board.modals.len(), 1);
    let modal = &board.modals[0];
    assert_eq!(modal.title, "Template Modal");
    assert_eq!(modal.body, "Confirm the template action?");
    assert_eq!(modal.confirm_text, "Yes, proceed");
    assert_eq!(modal.cancel_text, "No, cancel");
    board.resolve_modal(0, true);
    assert!(board.modals.is_empty());
    assert!(!board.panels[0].modal_open);
    assert_eq!(board.panels[0].last_modal_result, Some(true));
    assert_eq!(board.request_confirmation(panel), Some(1));
}

#[test]
fn layouts_round_trip() {
    let mut board = PageBoard::new();
    board.add_panel();
    let layout = board.current_layout();
    assert_eq!(layout.layout_name, "Default Layout");
    assert_eq!(layout.panels, vec!["Template".to_string(), "Template".to_string()]);
    let mut other = PageBoard::new();
    other.layout_modified = true;
    other.apply_layout(&WindowLayout { layout_name: "Wide".to_string(), panels: vec!["Template".to_string(); 3] });
    assert_eq!(panel_ids(&other), vec![1, 2, 3]);
    assert!(!other.layout_modified);
    let back = other.current_layout();
    assert_eq!(back.layout_name, "Wide");
    assert_eq!(back.panels.len(), 3);
}

#[test]
fn pages_without_a_shell_id_make_one_up() {
    assert_eq!(default_shell_id(0xab), "page-000000ab");
    assert_eq!(default_shell_id(0x1234abcd), format!("page-{:08x}", 0x1234abcdu32));
    assert_eq!(default_shell_id(u32::MAX), "page-ffffffff");
    assert_eq!(detect_shell("", 7), (true, "page-00000007".to_string()));
    assert_eq!(detect_shell("?role=child&shell=left", 7), (false, "left".to_string()));
    assert_eq!(detect_shell("?role=host", 0x10), (true, "page-00000010".to_string()));
}

#[test]
fn pages_answer_their_own_shell_topics() {
    let topic = |text: &str| text.to_string();
    assert_eq!(classify_page_topic(true, "p", &topic("shell/leptos/announce")), Some(PageTopic::Announce));
    assert_eq!(classify_page_topic(true, "p", &topic("shell/leptos/report-layout")), Some(PageTopic::ReportLayout));
    assert_eq!(classify_page_topic(true, "p", &topic("shell/leptos/assign-p")), None);
    assert_eq!(classify_page_topic(false, "p", &topic("shell/leptos/assign-p")), Some(PageTopic::AssignLayout));
    assert_eq!(classify_page_topic(false, "p", &topic("shell/leptos/assign-q")), None);
    assert_eq!(classify_page_topic(false, "p", &topic("shell/leptos/request-layouts")), Some(PageTopic::RequestLayouts));
    assert_eq!(classify_page_topic(false, "p", &topic("shell/leptos/announce")), None);
}

#[test]
fn layout_controls_set_the_modified_flags() {
    let mut board = PageBoard::new();
    board.rename_layout(String::new());
    assert_eq!(board.layout_name, "Default Layout");
    assert!(!board.layout_modified);
    board.rename_layout("Wide".to_string());
    assert_eq!(board.layout_name, "Wide");
    assert!(board.layout_modified && board.project_modified);
    board.layout_saved();
    assert!(!board.layout_modified);
    assert!(board.project_modified);
    board.project_modified = false;
    board.load_layout(&WindowLayout { layout_name: "Two".to_string(), panels: vec!["Template".to_string(); 2] });
    assert_eq!(board.panels.len(), 2);
    assert!(board.project_modified);
    assert!(!board.layout_modified);
    board.reset_layout();
    assert_eq!(board.layout_name, "Default Layout");
    assert_eq!(board.panels.len(), 1);
}
