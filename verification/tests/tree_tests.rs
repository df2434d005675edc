use qdirstat::filesystem_entry::filesystem_entry_type::FileSystemEntryType;
use qdirstat::filesystem_entry::{render, FileSystemEntry, RawEntry};

fn raw_file(name: &str, len: u64) -> RawEntry {
    RawEntry { name: name.to_string(), meta_ok: true, is_dir: false, len, children: Vec::new() }
}

fn raw_dir(name: &str, children: Vec<RawEntry>) -> RawEntry {
    RawEntry { name: name.to_string(), meta_ok: true, is_dir: true, len: 4096, children }
}

fn scanned_root(raws: Vec<RawEntry>) -> FileSystemEntry {
    let mut root = FileSystemEntry::from_drive("/");
    root.scan(&raws, '/');
    root
}

#[test]
fn scan_builds_the_listing() {
    let root = scanned_root(vec![
        raw_dir("A", vec![raw_file("x", 2048)]),
        raw_file("B.txt", 500),
    ]);
    assert_eq!(root.children.len(), 2);
    assert_eq!(root.children[0].identifier, "A");
    assert_eq!(root.children[0].entry_type, FileSystemEntryType::Directory);
    assert_eq!(root.children[0].len, 2048);
    assert_eq!(root.children[0].path_string, "/A");
    assert_eq!(root.children[0].children[0].path_string, "/A/x");
    assert_eq!(root.children[1].identifier, "B.txt");
    assert_eq!(root.children[1].entry_type, FileSystemEntryType::File);
    assert_eq!(root.children[1].len, 500);
}

#[test]
fn scan_aggregates_sizes_bottom_up() {
    let root = scanned_root(vec![
        raw_dir("A", vec![raw_file("x", 100), raw_dir("B", vec![raw_file("y", 23)])]),
        raw_file("z", 7),
    ]);
    assert_eq!(root.children[0].len, 123);
    assert_eq!(root.len, 130);
    assert_eq!(root.size(), 130);
    assert_eq!(root.children[0].size(), 123);
}

#[test]
fn scan_filters_hidden_and_system_names() {
    let root = scanned_root(vec![
        raw_file(".hidden", 10),
        raw_file("$RECYCLE.BIN", 10),
        raw_dir("System Volume Information", vec![]),
        raw_file("ok", 1),
    ]);
    assert_eq!(root.children.len(), 1);
    assert_eq!(root.children[0].identifier, "ok");
    assert_eq!(root.len, 1);
}

#[test]
fn filter_applies_below_the_root_too() {
    let root = scanned_root(vec![raw_dir("A", vec![raw_file(".dot", 5), raw_file("kept", 3)])]);
    assert_eq!(root.children[0].children.len(), 1);
    assert_eq!(root.children[0].children[0].identifier, "kept");
    assert_eq!(root.children[0].len, 3);
}

#[test]
fn unreadable_metadata_becomes_zero_length_file() {
    let root = scanned_root(vec![RawEntry {
        name: "locked".to_string(),
        meta_ok: false,
        is_dir: true,
        len: 999,
        children: vec![raw_file("inside", 5)],
    }]);
    assert_eq!(root.children.len(), 1);
    assert_eq!(root.children[0].entry_type, FileSystemEntryType::File);
    assert_eq!(root.children[0].len, 0);
    assert!(root.children[0].children.is_empty());
}

#[test]
fn children_distinguishes_files_from_empty_directories() {
    let root = scanned_root(vec![raw_dir("empty", vec![]), raw_file("f", 1)]);
    assert!(root.children().is_some());
    assert!(root.children[0].children().is_some());
    assert!(root.children[0].children().unwrap().is_empty());
    assert!(root.children[1].children().is_none());
}

#[test]
fn new_and_from_drive_fill_the_fields() {
    let e = FileSystemEntry::new("name", "/p/name", FileSystemEntryType::File, 9);
    assert_eq!(e.identifier, "name");
    assert_eq!(e.path_string, "/p/name");
    assert_eq!(e.len, 9);
    let d = FileSystemEntry::from_drive("C:\\");
    assert_eq!(d.identifier, "C:\\");
    assert_eq!(d.entry_type, FileSystemEntryType::Directory);
    assert_eq!(d.len, 0);
}

#[test]
fn windows_style_join_keeps_single_separator() {
    let mut root = FileSystemEntry::from_drive("C:\\");
    root.scan(&vec![raw_file("f", 1)], '\\');
    assert_eq!(root.children[0].path_string, "C:\\f");
}

#[test]
fn sorted_view_orders_by_size_ascending() {
    let root = scanned_root(vec![
        raw_dir("A", vec![raw_file("x", 2048)]),
        raw_file("B.txt", 500),
        raw_file("c", 700),
    ]);
    let views = root.sorted_children_view();
    let sizes: Vec<u64> = views.iter().map(|v| v.2).collect();
    assert_eq!(sizes, vec![500, 700, 2048]);
    assert_eq!(views[0].1, "B.txt");
    assert_eq!(views[2].1, "A");
}

#[test]
fn render_formats_lines_and_marks_visited() {
    let root = scanned_root(vec![
        raw_dir("A", vec![raw_file("x", 2048)]),
        raw_file("B.txt", 500),
    ]);
    let views = root.sorted_children_view();
    let visited = vec!["/A".to_string()];
    let lines = render(&views, &visited);
    assert_eq!(lines.len(), 2);
    assert_eq!(lines[0].text, " \u{1F5CB}  B.txt (500 Bytes)");
    assert_eq!(lines[1].text, " \u{1F5C0}  A (2 KB)");
    assert!(!lines[0].visited);
    assert!(lines[1].visited);
    assert!(lines[0].size <= lines[1].size);
}
