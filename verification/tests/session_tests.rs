use qdirstat::commands::ToCommand;
use qdirstat::filesystem_entry::{FileSystemEntry, RawEntry};
use qdirstat::session::{icmp, Effect, Session, Warning};

fn raw_file(name: &str, len: u64) -> RawEntry {
    RawEntry { name: name.to_string(), meta_ok: true, is_dir: false, len, children: Vec::new() }
}

fn raw_dir(name: &str, children: Vec<RawEntry>) -> RawEntry {
    RawEntry { name: name.to_string(), meta_ok: true, is_dir: true, len: 0, children }
}

fn sample_session() -> Session {
    let mut root = FileSystemEntry::from_drive("/");
    root.scan(
        &vec![raw_dir("A", vec![raw_file("x", 2048)]), raw_file("B.txt", 500)],
        '/',
    );
    Session::new(root)
}

fn send(s: &mut Session, line: &str) -> Effect {
    let cmd = line.to_string().to_command();
    s.dispatch(&cmd)
}

#[test]
fn simple_commands_do_not_move() {
    let mut s = sample_session();
    assert_eq!(send(&mut s, "help"), Effect::ShowHelp);
    assert_eq!(send(&mut s, "ls"), Effect::ShowCurrentWithPath);
    assert_eq!(send(&mut s, "open"), Effect::OpenCurrent);
    assert_eq!(send(&mut s, "scan"), Effect::NoAction);
    assert_eq!(s.depth(), 0);
}

#[test]
fn quit_terminates() {
    let mut s = sample_session();
    assert_eq!(send(&mut s, "quit"), Effect::Terminate);
}

#[test]
fn cd_descends_and_cd_dotdot_returns() {
    let mut s = sample_session();
    assert_eq!(send(&mut s, "cd A"), Effect::ShowCurrent);
    assert_eq!(s.depth(), 1);
    assert_eq!(s.current().identifier, "A");
    assert_eq!(send(&mut s, "cd .."), Effect::ShowCurrent);
    assert_eq!(s.depth(), 0);
    assert_eq!(s.current().identifier, "/");
}

#[test]
fn cd_dotdot_at_root_warns_and_continues() {
    let mut s = sample_session();
    assert_eq!(send(&mut s, "cd .."), Effect::Warn(Warning::NoParent));
    assert_eq!(s.depth(), 0);
    assert_eq!(send(&mut s, "ls"), Effect::ShowCurrentWithPath);
}

#[test]
fn cd_to_a_file_warns_and_stays() {
    let mut s = sample_session();
    assert_eq!(send(&mut s, "cd B.txt"), Effect::Warn(Warning::TargetIsFile));
    assert_eq!(s.depth(), 0);
}

#[test]
fn cd_missing_target_warns_and_continues() {
    let mut s = sample_session();
    assert_eq!(send(&mut s, "cd nothing here"), Effect::Warn(Warning::NoMatch));
    assert_eq!(s.depth(), 0);
    assert_eq!(send(&mut s, "cd A"), Effect::ShowCurrent);
}

#[test]
fn cd_without_argument_warns() {
    let mut s = sample_session();
    assert_eq!(send(&mut s, "cd"), Effect::Warn(Warning::MissingArgument));
    assert_eq!(s.depth(), 0);
}

#[test]
fn cd_matches_case_insensitively() {
    let mut s = sample_session();
    assert_eq!(send(&mut s, "cd a"), Effect::ShowCurrent);
    assert_eq!(s.current().identifier, "A");
}

#[test]
fn visited_set_grows_and_keeps_entries() {
    let mut s = sample_session();
    assert!(s.visited.is_empty());
    send(&mut s, "cd A");
    assert_eq!(s.visited, vec!["/A".to_string()]);
    send(&mut s, "cd ..");
    assert_eq!(s.visited, vec!["/A".to_string()]);
    send(&mut s, "cd A");
    assert_eq!(s.visited, vec!["/A".to_string()]);
}

#[test]
fn icmp_compares_ascii_case_insensitively() {
    assert!(icmp(&"AbC".to_string(), &"abc".to_string()));
    assert!(!icmp(&"abc".to_string(), &"abd".to_string()));
    assert!(!icmp(&"abc".to_string(), &"ab".to_string()));
}
