use mcdu::app::{App, AppMode, DeleteProgressUpdate, ModalOutcome, Notice};
use mcdu::changes::{DirectoryFingerprint, Ratio};
use mcdu::modal::{ModalAction, ModalType};
use mcdu::scan::DirEntry;

fn entry(dir: &str, name: &str, size: u64, is_dir: bool) -> DirEntry {
    DirEntry::new(format!("{}/{}", dir, name), name.to_string(), size, is_dir)
}

fn browser_at(path: &str) -> App {
    App::new_with_root(path.to_string(), None)
}

#[test]
fn new_browser_starts_empty_and_browsing() {
    let app = browser_at("/srv");
    assert_eq!(app.current_path, "/srv");
    assert_eq!(app.root_path, "/srv");
    assert!(app.entries.is_empty());
    assert_eq!(app.mode, AppMode::Browsing);
    assert!(!app.is_scanning);
}

#[test]
fn scan_success_sorts_merges_and_adds_parent() {
    let mut app = browser_at("/srv/data");
    app.begin_scan();
    assert!(app.is_scanning);
    app.scan_progressed("logs".to_string(), 1, 2);
    assert_eq!(app.scan_progress, Some((1, 2)));

    let mut previous = DirectoryFingerprint::new();
    previous.insert("logs".to_string(), (100, 0));
    previous.insert("img".to_string(), (300, 0));
    let scanned = vec![
        entry("/srv/data", "img", 300, true),
        entry("/srv/data", "notes.txt", 50, false),
        entry("/srv/data", "logs", 150, true),
    ];
    let fp = app.scan_succeeded(scanned, Some(previous));

    assert!(!app.is_scanning);
    assert_eq!(app.scan_progress, None);
    assert_eq!(app.scanning_name, None);
    let names: Vec<&str> = app.entries.iter().map(|e| e.name.as_str()).collect();
    assert_eq!(names, vec!["..", "img", "logs", "notes.txt"]);
    assert_eq!(app.entries[0].path, "/srv");
    assert_eq!(app.entries[0].size, 0);
    assert!(app.entries[0].is_dir);
    assert!(app.entries[1].size_change.is_none());
    let (delta, ratio) = app.entries[2].size_change.expect("logs changed");
    assert_eq!(delta, 50);
    assert_eq!(ratio, Ratio { numerator: 5000, denominator: 500 });
    assert_eq!(fp.to_text(), "img:300:0\nnotes.txt:50:0\nlogs:150:0\n");
    assert_eq!(app.selected_index, 0);
}

#[test]
fn scan_success_at_root_has_no_parent_entry() {
    let mut app = browser_at("/");
    app.scan_succeeded(vec![entry("", "etc", 10, true)], None);
    let names: Vec<&str> = app.entries.iter().map(|e| e.name.as_str()).collect();
    assert_eq!(names, vec!["etc"]);
}

#[test]
fn scan_success_clears_error_notice_only() {
    let mut app = browser_at("/");
    app.scan_failed("denied".to_string());
    app.scan_succeeded(Vec::new(), None);
    assert!(app.notification.is_none());
    app.hard_refresh();
    app.scan_succeeded(Vec::new(), None);
    assert!(matches!(app.notification, Some(Notice::CacheCleared)));
}

#[test]
fn scan_failure_drops_entries() {
    let mut app = browser_at("/x");
    app.scan_succeeded(vec![entry("/x", "a", 1, false)], None);
    app.selected_index = 1;
    app.scan_failed("Permission denied".to_string());
    assert!(app.entries.is_empty());
    assert_eq!(app.selected_index, 0);
    assert!(!app.is_scanning);
    match &app.notification {
        Some(Notice::ScanFailed(m)) => assert_eq!(m, "Permission denied"),
        _ => panic!("expected a scan failure notice"),
    }
    assert!(app.notification.as_ref().map_or(false, |n| n.is_error()));
}

#[test]
fn selection_stays_in_bounds() {
    let mut app = browser_at("/");
    app.select_next();
    assert_eq!(app.selected_index, 0);
    app.scan_succeeded(vec![entry("", "a", 3, false), entry("", "b", 2, false)], None);
    app.select_next();
    app.select_next();
    app.select_next();
    assert_eq!(app.selected_index, 1);
    app.select_previous();
    app.select_previous();
    assert_eq!(app.selected_index, 0);
}

#[test]
fn scroll_follows_selection() {
    let mut app = browser_at("/");
    app.selected_index = 10;
    app.scroll_offset = 0;
    app.adjust_scroll(7);
    assert_eq!(app.scroll_offset, 6);
    app.selected_index = 3;
    app.adjust_scroll(7);
    assert_eq!(app.scroll_offset, 3);
    app.selected_index = 50;
    app.adjust_scroll(2);
    assert_eq!(app.scroll_offset, 3);
}

#[test]
fn enter_and_leave_directories() {
    let mut app = browser_at("/home");
    app.scan_succeeded(vec![entry("/home", "u", 9, true), entry("/home", "f", 1, false)], None);
    app.selected_index = 2;
    assert!(!app.enter_directory());
    assert_eq!(app.current_path, "/home");
    app.selected_index = 1;
    assert!(app.enter_directory());
    assert_eq!(app.current_path, "/home/u");
    assert_eq!(app.selected_index, 0);
    assert!(app.go_parent());
    assert_eq!(app.current_path, "/home");
    assert!(app.go_parent());
    assert_eq!(app.current_path, "/");
    assert!(!app.go_parent());
    assert_eq!(app.current_path, "/");
}

#[test]
fn confirmation_flow_reaches_delete() {
    let mut app = browser_at("/d");
    app.scan_succeeded(vec![entry("/d", "junk", 77, true)], None);
    app.selected_index = 1;
    app.open_delete_modal();
    let m = app.modal.as_ref().expect("dialog");
    assert!(matches!(&m.modal_type, ModalType::ConfirmDelete { path, size: 77 } if path == "/d/junk"));

    let first = app.handle_modal_action(ModalAction::Confirm);
    assert!(matches!(first, ModalOutcome::Nothing));
    let m = app.modal.as_ref().expect("final dialog");
    assert!(matches!(&m.modal_type, ModalType::FinalConfirm { size: 77, .. }));
    assert_eq!(m.selected_button, 1);

    match app.handle_modal_action(ModalAction::Confirm) {
        ModalOutcome::StartDelete(p) => assert_eq!(p, "/d/junk"),
        _ => panic!("expected a delete"),
    }
    assert!(app.modal.is_none());
}

#[test]
fn dry_run_and_cancel_from_dialog() {
    let mut app = browser_at("/d");
    app.scan_succeeded(vec![entry("/d", "junk", 5, false)], None);
    app.selected_index = 1;
    app.open_delete_modal();
    match app.handle_modal_action(ModalAction::DryRun) {
        ModalOutcome::StartDryRun(p) => assert_eq!(p, "/d/junk"),
        _ => panic!("expected a dry run"),
    }
    assert!(app.modal.is_none());
    app.open_delete_modal();
    assert!(matches!(app.handle_modal_action(ModalAction::Cancel), ModalOutcome::Nothing));
    assert!(app.modal.is_none());
    assert!(matches!(app.handle_modal_action(ModalAction::Confirm), ModalOutcome::Nothing));
}

#[test]
fn delete_progress_and_completion() {
    let mut app = browser_at("/d");
    app.start_delete();
    assert_eq!(app.mode, AppMode::Deleting);
    assert_eq!(app.delete_progress.as_ref().map(|p| p.status.as_str()), Some("Starting deletion..."));
    let busy = app.update_delete_progress(DeleteProgressUpdate::Progress {
        bytes_done: 10,
        bytes_total: 20,
        files_done: 1,
        files_total: 2,
        current_file: "a".to_string(),
    });
    assert!(!busy);
    let p = app.delete_progress.as_ref().expect("progress");
    assert_eq!((p.deleted_bytes, p.total_bytes, p.deleted_files, p.total_files), (10, 20, 1, 2));
    assert_eq!(p.status, "Deleting...");
    let done = app.update_delete_progress(DeleteProgressUpdate::Complete { total_bytes: 20, total_files: 2 });
    assert!(done);
    assert_eq!(app.mode, AppMode::Browsing);
    assert!(app.delete_progress.is_none());
    assert!(matches!(app.notification, Some(Notice::Deleted { files: 2, bytes: 20 })));
}

#[test]
fn delete_error_returns_to_browsing() {
    let mut app = browser_at("/d");
    app.start_delete();
    let done = app.update_delete_progress(DeleteProgressUpdate::Error("gone".to_string()));
    assert!(!done);
    assert_eq!(app.mode, AppMode::Browsing);
    assert!(matches!(&app.notification, Some(Notice::DeleteFailed(m)) if m == "gone"));
}

#[test]
fn dry_run_returns_to_browsing_with_summary() {
    let mut app = browser_at("/d");
    app.start_dry_run();
    assert_eq!(app.mode, AppMode::DryRun);
    app.dry_run_finished(4, 33);
    assert_eq!(app.mode, AppMode::Browsing);
    assert!(matches!(app.notification, Some(Notice::DryRunSummary { files: 4, bytes: 33 })));
}

#[test]
fn help_toggles() {
    let mut app = browser_at("/");
    app.toggle_help();
    assert!(app.show_help);
    app.toggle_help();
    assert!(!app.show_help);
}

#[test]
fn confirming_first_dialog_opens_final_dialog_with_escape() {
    let mut app = browser_at("/d");
    app.scan_succeeded(vec![entry("/d", "junk", 9, true)], None);
    app.selected_index = 1;
    app.open_delete_modal();
    app.handle_modal_action(ModalAction::Confirm);
    let m = app.modal.as_ref().expect("final dialog");
    let labels: Vec<(&str, ModalAction)> = m.buttons.iter().map(|(l, a)| (l.as_str(), *a)).collect();
    assert_eq!(labels, vec![("YES, DELETE", ModalAction::Confirm), ("Cancel", ModalAction::Cancel)]);
    assert_eq!(m.selected_action(), ModalAction::Cancel);
    assert_eq!(app.mode, AppMode::Browsing);
}

#[test]
fn scan_success_without_notice_posts_none() {
    let mut app = browser_at("/d");
    app.scan_succeeded(vec![entry("/d", "a", 1, false)], None);
    assert!(app.notification.is_none());
}
