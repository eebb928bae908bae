use mcdu::cache::SizeCache;
use mcdu::delete::{dry_run_paths, DeleteRun, WalkedEntry};
use mcdu::modal::{Modal, ModalAction, ModalType};
use mcdu::platform::DiskSpace;
use mcdu::scan::{DirScan, WalkTally, MAX_WALK_ENTRIES};

fn walked(path: &str, size: u64, is_file: bool) -> WalkedEntry {
    WalkedEntry { path: path.to_string(), size, is_file }
}

/// The tree root/{a.txt, sub/{b.txt}} as a depth-first enumeration sees it below the root.
fn sample_tree() -> Vec<WalkedEntry> {
    vec![
        walked("root/a.txt", 11, true),
        walked("root/sub", 4096, false),
        walked("root/sub/b.txt", 22, true),
    ]
}

#[test]
fn cache_hit_while_mtime_unchanged() {
    let mut cache = SizeCache::new();
    let p = "/data/projects".to_string();
    cache.set(p.clone(), 4096, Some(1_700_000_000_000_000_000));
    assert_eq!(cache.get(&p, Some(1_700_000_000_000_000_000)), Some(4096));
    assert_eq!(cache.size(), 1);
}

#[test]
fn cache_miss_after_mtime_changes() {
    let mut cache = SizeCache::new();
    let p = "/data/projects".to_string();
    cache.set(p.clone(), 4096, Some(10));
    assert_eq!(cache.get(&p, Some(11)), None);
    assert_eq!(cache.get(&p, None), None);
    // A miss does not evict.
    assert_eq!(cache.size(), 1);
    assert_eq!(cache.get(&p, Some(10)), Some(4096));
}

#[test]
fn cache_set_without_mtime_stores_nothing() {
    let mut cache = SizeCache::new();
    cache.set("/x".to_string(), 1, None);
    assert_eq!(cache.size(), 0);
    assert_eq!(cache.get(&"/x".to_string(), Some(0)), None);
}

#[test]
fn cache_overwrite_invalidate_and_clear() {
    let mut cache = SizeCache::new();
    cache.set("/a".to_string(), 1, Some(5));
    cache.set("/b".to_string(), 2, Some(5));
    cache.set("/a".to_string(), 3, Some(6));
    assert_eq!(cache.size(), 2);
    assert_eq!(cache.get(&"/a".to_string(), Some(6)), Some(3));
    cache.invalidate(&"/a".to_string());
    assert_eq!(cache.size(), 1);
    assert_eq!(cache.get(&"/a".to_string(), Some(6)), None);
    assert_eq!(cache.get(&"/b".to_string(), Some(5)), Some(2));
    cache.clear();
    assert_eq!(cache.size(), 0);
}

#[test]
fn walk_tally_sums_files_only() {
    let mut tally = WalkTally::new();
    tally.visit(Some((false, 4096)));
    tally.visit(Some((true, 100)));
    tally.visit(None);
    tally.visit(Some((true, 23)));
    assert_eq!(tally.total(), 123);
    assert!(!tally.is_full());
}

#[test]
fn walk_tally_stops_at_cap_and_saturates() {
    let mut tally = WalkTally::new();
    let mut visits: usize = 0;
    while !tally.is_full() {
        tally.visit(Some((true, u64::MAX / 2)));
        visits += 1;
    }
    assert_eq!(visits, MAX_WALK_ENTRIES);
    assert_eq!(tally.total(), u64::MAX);
}

#[test]
fn dir_scan_reports_progress_and_sorts() {
    let mut scan = DirScan::new(2);
    scan.add_file("/d/small".to_string(), "small".to_string(), 5);
    let first = scan.add_dir("/d/x".to_string(), "x".to_string(), 500);
    assert_eq!(first.current_name, "x");
    assert_eq!((first.scanned_count, first.total_count), (1, 2));
    scan.add_file("/d/tie".to_string(), "tie".to_string(), 500);
    let second = scan.add_dir("/d/y".to_string(), "y".to_string(), 9000);
    assert_eq!((second.scanned_count, second.total_count), (2, 2));
    let entries = scan.finish();
    let names: Vec<&str> = entries.iter().map(|e| e.name.as_str()).collect();
    assert_eq!(names, vec!["y", "x", "tie", "small"]);
    assert!(entries[0].is_dir);
    assert!(!entries[2].is_dir);
    assert!(entries.iter().all(|e| e.size_change.is_none() && !e.is_new));
}

#[test]
fn dry_run_lists_every_path_with_root_last() {
    let paths: Vec<String> = sample_tree().into_iter().map(|e| e.path).collect();
    let listed = dry_run_paths(paths, "root".to_string());
    assert_eq!(listed, vec!["root/a.txt", "root/sub", "root/sub/b.txt", "root"]);
}

#[test]
fn delete_removes_children_before_parents() {
    let mut run = DeleteRun::new(sample_tree());
    let mut order: Vec<String> = Vec::new();
    while let Some(target) = run.next_target() {
        order.push(target.path.clone());
        run.report(true);
    }
    order.push("root".to_string());
    assert_eq!(order, vec!["root/sub/b.txt", "root/sub", "root/a.txt", "root"]);
    let result = run.finish(None);
    assert_eq!(result.total_files, 4);
    assert_eq!(result.total_bytes, 11 + 22);
    assert!(result.errors.is_empty());
}

#[test]
fn delete_partial_failure_records_one_error_and_goes_on() {
    let mut run = DeleteRun::new(sample_tree());
    let mut attempted: Vec<String> = Vec::new();
    while let Some(target) = run.next_target() {
        let ok = target.path != "root/sub/b.txt";
        attempted.push(target.path.clone());
        run.report(ok);
    }
    assert_eq!(attempted.len(), 3);
    // The directory still holds b.txt, so its removal fails too, and then the root's.
    let result = run.finish(Some("Directory not empty".to_string()));
    assert_eq!(result.total_bytes, 11);
    assert_eq!(result.total_files, 2);
    assert_eq!(
        result.errors,
        vec![
            "Failed to delete root/sub/b.txt".to_string(),
            "Failed to remove root directory: Directory not empty".to_string(),
        ]
    );
}

#[test]
fn delete_single_failure_names_that_path_only() {
    let mut run = DeleteRun::new(sample_tree());
    while let Some(target) = run.next_target() {
        let ok = target.path != "root/a.txt";
        run.report(ok);
    }
    let result = run.finish(None);
    assert_eq!(result.errors, vec!["Failed to delete root/a.txt".to_string()]);
    assert_eq!(result.total_files, 3);
    assert_eq!(result.total_bytes, 22);
}

#[test]
fn delete_of_empty_directory_counts_root() {
    let run = DeleteRun::new(Vec::new());
    assert!(run.next_target().is_none());
    let result = run.finish(None);
    assert_eq!(result.total_files, 1);
    assert_eq!(result.total_bytes, 0);
}

#[test]
fn confirm_dialog_buttons_and_texts() {
    let path = "/tmp/cache".to_string();
    let m = Modal::confirm_delete(&path, 2048);
    assert_eq!(m.selected_button, 0);
    assert!(m.has_button("Yes"));
    assert!(m.has_button("No"));
    assert!(m.has_button("Dry-run"));
    assert!(!m.has_button("Cancel"));
    assert_eq!(m.get_title("2.0 KB"), "Delete cache (2.0 KB)? ");
    assert_eq!(m.get_message(), "This cannot be undone!");
    assert!(matches!(m.modal_type, ModalType::ConfirmDelete { size: 2048, .. }));
}

#[test]
fn final_dialog_defaults_to_cancel() {
    let path = "/var/log/old".to_string();
    let m = Modal::final_confirm(&path, 1);
    assert_eq!(m.selected_button, 1);
    assert_eq!(m.selected_action(), ModalAction::Cancel);
    assert!(m.has_button("YES, DELETE"));
    assert!(!m.has_button("Yes"));
    assert_eq!(m.get_title("1.0 B"), "FINAL CONFIRMATION - Delete old (1.0 B)? ");
    assert_eq!(m.get_message(), "Really confirm? This is your last chance!");
}

#[test]
fn dialog_title_without_file_name() {
    let root = "/".to_string();
    let m = Modal::confirm_delete(&root, 0);
    assert_eq!(m.get_title("0.0 B"), "Delete ? (0.0 B)? ");
    let up = "/a/..".to_string();
    let m = Modal::confirm_delete(&up, 0);
    assert_eq!(m.get_title("0.0 B"), "Delete ? (0.0 B)? ");
}

#[test]
fn dialog_selection_moves_and_wraps() {
    let path = "/p".to_string();
    let mut m = Modal::confirm_delete(&path, 0);
    m.select_left();
    assert_eq!(m.selected_button, 0);
    m.select_right();
    m.select_right();
    m.select_right();
    assert_eq!(m.selected_button, 2);
    assert_eq!(m.selected_action(), ModalAction::DryRun);
    m.select_next();
    assert_eq!(m.selected_button, 0);
    m.select_previous();
    assert_eq!(m.selected_button, 2);
    m.select_previous();
    assert_eq!(m.selected_action(), ModalAction::Cancel);
}

#[test]
fn disk_space_from_blocks() {
    let d = DiskSpace::from_blocks(4096, 1000, 250).expect("fits");
    assert_eq!(d.total_bytes, 4_096_000);
    assert_eq!(d.available_bytes, 1_024_000);
    assert_eq!(d.used_bytes, 3_072_000);
    let odd = DiskSpace::from_blocks(1, 5, 9).expect("fits");
    assert_eq!(odd.used_bytes, 0);
    assert!(DiskSpace::from_blocks(u64::MAX, 2, 0).is_none());
}
