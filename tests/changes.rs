use mcdu::app::apply_size_changes;
use mcdu::changes::{fingerprint_file_name, DirectoryFingerprint, Ratio, SizeChange};
use mcdu::scan::DirEntry;

fn mock_entry(name: &str, size: u64) -> DirEntry {
    DirEntry {
        path: format!("/{}", name),
        name: name.to_string(),
        size,
        is_dir: true,
        file_count: 0,
        size_change: None,
        is_new: false,
    }
}

fn percent(r: Ratio) -> f32 {
    r.numerator as f32 / r.denominator as f32
}

fn change(name: &str, old_size: u64, new_size: u64, delta: i64) -> SizeChange {
    SizeChange {
        name: name.into(),
        old_size,
        new_size,
        delta_bytes: delta,
        delta_percent: Ratio { numerator: 0, denominator: 1 },
    }
}

#[test]
fn size_change_percent_matches_directory_ratio() {
    let mut entries = vec![mock_entry("a", 60), mock_entry("b", 40)];
    let changes = vec![change("a", 30, 90, 30)];

    apply_size_changes(&mut entries, &changes);

    let change = entries[0].size_change.expect("change");
    assert_eq!(change.0, 30);
    assert!((percent(change.1) - 30.0).abs() < f32::EPSILON);
    assert!(entries[1].size_change.is_none());
}

#[test]
fn zero_total_size_yields_zero_percent_change() {
    let mut entries = vec![mock_entry("empty", 0)];
    let changes = vec![change("empty", 0, 100, 100)];

    apply_size_changes(&mut entries, &changes);

    let change = entries[0].size_change.expect("change");
    assert_eq!(change.0, 100);
    assert_eq!(percent(change.1), 0.0);
}

#[test]
fn test_changes_detection() {
    let mut old = DirectoryFingerprint::new();
    old.insert("file1".to_string(), (1000, 100));
    old.insert("file2".to_string(), (2000, 200));

    let mut new = DirectoryFingerprint::new();
    new.insert("file1".to_string(), (2000, 100)); // 1000 bytes larger
    new.insert("file2".to_string(), (2000, 200)); // no change

    let changes = old.get_changes(&new);
    assert_eq!(changes.len(), 1);
    assert_eq!(changes[0].name, "file1");
    assert_eq!(changes[0].delta_bytes, 1000);
}

#[test]
fn percent_is_exact_ratio_of_directory_total() {
    let mut entries = vec![mock_entry("a", 75), mock_entry("b", 25), mock_entry("c", 0)];
    let changes = vec![change("b", 50, 25, -25), change("b", 0, 1, 1)];
    apply_size_changes(&mut entries, &changes);
    assert!(entries[0].size_change.is_none());
    let (delta, ratio) = entries[1].size_change.expect("change");
    assert_eq!(delta, -25);
    assert_eq!(ratio, Ratio { numerator: -2500, denominator: 100 });
    assert!(entries[2].size_change.is_none());
}

#[test]
fn change_detection_is_antisymmetric() {
    let mut small = DirectoryFingerprint::new();
    small.insert("x".to_string(), (1000, 0));
    let mut large = DirectoryFingerprint::new();
    large.insert("x".to_string(), (1500, 0));

    let grow = small.get_changes(&large);
    assert_eq!(grow.len(), 1);
    assert_eq!(grow[0].delta_bytes, 500);
    assert_eq!(grow[0].old_size, 1000);
    assert_eq!(grow[0].new_size, 1500);
    assert_eq!(grow[0].delta_percent, Ratio { numerator: 50000, denominator: 1000 });

    let shrink = large.get_changes(&small);
    assert_eq!(shrink.len(), 1);
    assert_eq!(shrink[0].delta_bytes, -500);
}

#[test]
fn changes_come_largest_first() {
    let mut old = DirectoryFingerprint::new();
    let mut new = DirectoryFingerprint::new();
    for (name, before, after) in [("p", 10u64, 15u64), ("q", 200, 100), ("r", 50, 70)] {
        old.insert(name.to_string(), (before, 0));
        new.insert(name.to_string(), (after, 0));
    }
    let changes = old.get_changes(&new);
    let magnitudes: Vec<i64> = changes.iter().map(|c| c.delta_bytes.abs()).collect();
    assert_eq!(magnitudes, vec![100, 20, 5]);
    assert_eq!(changes[0].name, "q");
    assert_eq!(changes[0].delta_bytes, -100);
}

#[test]
fn equal_deltas_keep_order_of_new_fingerprint() {
    let mut old = DirectoryFingerprint::new();
    let mut new = DirectoryFingerprint::new();
    for name in ["b", "a", "c"] {
        old.insert(name.to_string(), (10, 0));
        new.insert(name.to_string(), (20, 0));
    }
    let changes = old.get_changes(&new);
    let names: Vec<&str> = changes.iter().map(|c| c.name.as_str()).collect();
    assert_eq!(names, vec!["b", "a", "c"]);
}

#[test]
fn new_names_are_not_changes_and_zero_old_size_is_hundred_percent() {
    let mut old = DirectoryFingerprint::new();
    old.insert("grown".to_string(), (0, 0));
    let mut new = DirectoryFingerprint::new();
    new.insert("grown".to_string(), (10, 0));
    new.insert("fresh".to_string(), (99, 0));
    let changes = old.get_changes(&new);
    assert_eq!(changes.len(), 1);
    assert_eq!(changes[0].name, "grown");
    assert_eq!(changes[0].delta_percent, Ratio { numerator: 100, denominator: 1 });
}

#[test]
fn insert_replaces_and_get_reads() {
    let mut fp = DirectoryFingerprint::new();
    assert_eq!(fp.len(), 0);
    fp.insert("a".to_string(), (1, 2));
    fp.insert("b".to_string(), (3, 4));
    fp.insert("a".to_string(), (5, 6));
    assert_eq!(fp.len(), 2);
    assert_eq!(fp.get(&"a".to_string()), Some((5, 6)));
    assert_eq!(fp.get(&"b".to_string()), Some((3, 4)));
    assert_eq!(fp.get(&"c".to_string()), None);
}

#[test]
fn from_entries_uses_sizes_and_zero() {
    let entries = vec![mock_entry("a", 60), mock_entry("b", 40)];
    let fp = DirectoryFingerprint::from_entries(&entries);
    assert_eq!(fp.len(), 2);
    assert_eq!(fp.get(&"a".to_string()), Some((60, 0)));
    assert_eq!(fp.get(&"b".to_string()), Some((40, 0)));
    assert_eq!(fp.to_text(), "a:60:0\nb:40:0\n");
}

#[test]
fn fingerprint_text_round_trip() {
    let mut fp = DirectoryFingerprint::new();
    fp.insert("docs".to_string(), (123456789, 0));
    fp.insert("big file.iso".to_string(), (u64::MAX, 42));
    fp.insert("".to_string(), (0, 7));
    fp.insert("ünï".to_string(), (1, 1));
    let text = fp.to_text();
    assert_eq!(text, format!("docs:123456789:0\nbig file.iso:{}:42\n:0:7\nünï:1:1\n", u64::MAX));
    let back = DirectoryFingerprint::from_text(&text);
    assert_eq!(back.len(), 4);
    assert_eq!(back.to_text(), text);
    assert_eq!(back.get(&"big file.iso".to_string()), Some((u64::MAX, 42)));
}

#[test]
fn load_skips_malformed_lines() {
    let text = "good:1:2\r\nshort:5\nbad:x:1\nneg:-1:0\n\n\nplus:+7:3\nover:18446744073709551616:0\nextra:9:8:7\ngood:3:4\n\n";
    let fp = DirectoryFingerprint::from_text(text);
    assert_eq!(fp.len(), 3);
    assert_eq!(fp.get(&"good".to_string()), Some((3, 4)));
    assert_eq!(fp.get(&"plus".to_string()), Some((7, 3)));
    assert_eq!(fp.get(&"extra".to_string()), Some((9, 8)));
    assert_eq!(fp.get(&"short".to_string()), None);
    assert_eq!(fp.get(&"over".to_string()), None);
}

#[test]
fn load_of_empty_text_is_empty() {
    assert_eq!(DirectoryFingerprint::from_text("").len(), 0);
    assert_eq!(DirectoryFingerprint::from_text("\n\n").len(), 0);
    let last_line_without_newline = DirectoryFingerprint::from_text("a:1:2");
    assert_eq!(last_line_without_newline.get(&"a".to_string()), Some((1, 2)));
}

#[test]
fn fingerprint_file_name_replaces_separators_and_dots() {
    assert_eq!(fingerprint_file_name("/home/u/.cache"), "fp__home_u__cache.txt");
    assert_eq!(fingerprint_file_name(""), "fp_.txt");
}

#[test]
fn changes_pair_up_both_ways() {
    let mut a = DirectoryFingerprint::new();
    let mut b = DirectoryFingerprint::new();
    for (name, x, y) in [("m", 10u64, 40u64), ("n", 500, 100), ("same", 7, 7), ("o", 0, 3)] {
        a.insert(name.to_string(), (x, 0));
        b.insert(name.to_string(), (y, 0));
    }
    a.insert("only_a".to_string(), (1, 0));
    let r1 = a.get_changes(&b);
    let r2 = b.get_changes(&a);
    assert_eq!(r1.len(), 3);
    assert_eq!(r1.len(), r2.len());
    for c1 in &r1 {
        let partners: Vec<&SizeChange> = r2.iter().filter(|c2| c2.name == c1.name).collect();
        assert_eq!(partners.len(), 1);
        assert_eq!(partners[0].delta_bytes, -c1.delta_bytes);
        assert_eq!(partners[0].old_size, c1.new_size);
        assert_eq!(partners[0].new_size, c1.old_size);
    }
}
