use qdirstat::editor::{edit_step, tab, tab_complete, Key};
use qdirstat::filesystem_entry::{FileSystemEntry, RawEntry};

fn raw_file(name: &str, len: u64) -> RawEntry {
    RawEntry { name: name.to_string(), meta_ok: true, is_dir: false, len, children: Vec::new() }
}

fn raw_dir(name: &str, children: Vec<RawEntry>) -> RawEntry {
    RawEntry { name: name.to_string(), meta_ok: true, is_dir: true, len: 0, children }
}

fn sample_root() -> FileSystemEntry {
    let mut root = FileSystemEntry::from_drive("/");
    root.scan(
        &vec![
            raw_dir("Program Files", vec![raw_file("x", 1)]),
            raw_dir("Projects", vec![]),
            raw_file("notes.txt", 10),
        ],
        '/',
    );
    root
}

#[test]
fn tab_complete_takes_the_first_prefix_match() {
    let items = vec!["Alpha".to_string(), "Program Files".to_string(), "Projects".to_string()];
    assert_eq!(tab_complete("Pro", items), "Program Files");
}

#[test]
fn tab_complete_is_case_insensitive() {
    let items = vec!["Program Files".to_string()];
    assert_eq!(tab_complete("pro", items), "Program Files");
}

#[test]
fn tab_complete_skips_an_exact_match() {
    let items = vec!["Program Files".to_string()];
    assert_eq!(tab_complete("program files", items), "program files");
    let items = vec!["Projects".to_string(), "Projects2".to_string()];
    assert_eq!(tab_complete("projects", items), "Projects2");
}

#[test]
fn tab_complete_without_match_keeps_the_input() {
    let items = vec!["Alpha".to_string()];
    assert_eq!(tab_complete("zzz", items), "zzz");
    assert_eq!(tab_complete("abc", Vec::new()), "abc");
}

#[test]
fn tab_completes_a_cd_buffer() {
    let root = sample_root();
    let mut cmd = "cd Pro".to_string();
    tab(&mut cmd, &root);
    assert_eq!(cmd, "cd Program Files");
}

#[test]
fn tab_leaves_short_or_foreign_buffers_alone() {
    let root = sample_root();
    let mut cmd = "cd".to_string();
    tab(&mut cmd, &root);
    assert_eq!(cmd, "cd");
    let mut cmd = "ls Pro".to_string();
    tab(&mut cmd, &root);
    assert_eq!(cmd, "ls Pro");
}

#[test]
fn tab_on_a_file_node_leaves_the_buffer() {
    let root = sample_root();
    let file = &root.children[2];
    let mut cmd = "cd Pro".to_string();
    tab(&mut cmd, file);
    assert_eq!(cmd, "cd Pro");
}

#[test]
fn printable_keys_append() {
    let root = sample_root();
    let mut cmd = String::new();
    assert!(!edit_step(&mut cmd, Key::Char('l'), &root));
    assert!(!edit_step(&mut cmd, Key::Char('s'), &root));
    assert_eq!(cmd, "ls");
}

#[test]
fn backspace_removes_the_last_character() {
    let root = sample_root();
    let mut cmd = "ab".to_string();
    assert!(!edit_step(&mut cmd, Key::Backspace, &root));
    assert_eq!(cmd, "a");
    assert!(!edit_step(&mut cmd, Key::Backspace, &root));
    assert!(!edit_step(&mut cmd, Key::Backspace, &root));
    assert_eq!(cmd, "");
}

#[test]
fn enter_finishes_the_line_unchanged() {
    let root = sample_root();
    let mut cmd = "cd A".to_string();
    assert!(edit_step(&mut cmd, Key::Enter, &root));
    assert_eq!(cmd, "cd A");
}

#[test]
fn tab_key_and_tab_character_both_complete() {
    let root = sample_root();
    let mut cmd = "cd Pro".to_string();
    assert!(!edit_step(&mut cmd, Key::Tab, &root));
    assert_eq!(cmd, "cd Program Files");
    let mut cmd = "cd Pro".to_string();
    assert!(!edit_step(&mut cmd, Key::Char('\t'), &root));
    assert_eq!(cmd, "cd Program Files");
}

#[test]
fn other_keys_are_ignored() {
    let root = sample_root();
    let mut cmd = "x".to_string();
    assert!(!edit_step(&mut cmd, Key::Other, &root));
    assert_eq!(cmd, "x");
}
