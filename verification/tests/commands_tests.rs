use qdirstat::commands::{strip_trailing_newline, Command, Commands, ToCommand};

fn parse(s: &str) -> Command {
    s.to_string().to_command()
}

#[test]
fn quit_verbs() {
    assert_eq!(parse("q").command, Commands::Quit);
    assert_eq!(parse("quit").command, Commands::Quit);
    assert_eq!(parse("exit").command, Commands::Quit);
}

#[test]
fn list_verbs() {
    assert_eq!(parse("ls").command, Commands::ListDirectory);
    assert_eq!(parse("list").command, Commands::ListDirectory);
    assert_eq!(parse("print").command, Commands::ListDirectory);
}

#[test]
fn help_verbs_and_default() {
    assert_eq!(parse("h").command, Commands::Help);
    assert_eq!(parse("help").command, Commands::Help);
    assert_eq!(parse("?").command, Commands::Help);
    assert_eq!(parse("").command, Commands::Help);
    assert_eq!(parse("bogus").command, Commands::Help);
    assert_eq!(parse("CD").command, Commands::Help);
}

#[test]
fn scan_and_open_verbs() {
    assert_eq!(parse("scan").command, Commands::Scan);
    assert_eq!(parse("open").command, Commands::Open);
    assert_eq!(parse("start").command, Commands::Open);
}

#[test]
fn plain_args_are_kept() {
    let c = parse("q a b");
    assert_eq!(c.command, Commands::Quit);
    assert_eq!(c.args, vec!["a".to_string(), "b".to_string()]);
}

#[test]
fn cd_rejoins_spaced_names() {
    let c = parse("cd Program Files");
    assert_eq!(c.command, Commands::ChangeDirectory);
    assert_eq!(c.args, vec!["Program Files".to_string()]);
}

#[test]
fn cd_without_argument_has_none() {
    let c = parse("cd");
    assert_eq!(c.command, Commands::ChangeDirectory);
    assert!(c.args.is_empty());
}

#[test]
fn trailing_newline_is_stripped_before_parsing() {
    let c = parse("cd Program Files\r\n");
    assert_eq!(c.command, Commands::ChangeDirectory);
    assert_eq!(c.args, vec!["Program Files".to_string()]);
    assert_eq!(parse("quit\n").command, Commands::Quit);
}

#[test]
fn strip_trailing_newline_cases() {
    assert_eq!(strip_trailing_newline("abc\r\n"), "abc");
    assert_eq!(strip_trailing_newline("abc\n"), "abc");
    assert_eq!(strip_trailing_newline("abc"), "abc");
    assert_eq!(strip_trailing_newline("abc\r"), "abc\r");
    assert_eq!(strip_trailing_newline(""), "");
}

#[test]
fn canonical_forms() {
    assert_eq!(parse("quit").canonical(), "q");
    assert_eq!(parse("list").canonical(), "ls");
    assert_eq!(parse("unknown").canonical(), "h");
    assert_eq!(parse("cd a b").canonical(), "cd a b");
    assert_eq!(parse("open x").canonical(), "open x");
}

#[test]
fn reparsing_canonical_form_gives_same_command() {
    for line in ["q", "quit extra", "ls", "cd Program Files", "cd", "scan", "open x y", "what ever", ""] {
        let first = parse(line);
        let second = first.canonical().to_command();
        assert_eq!(first.command, second.command);
        assert_eq!(first.args, second.args);
    }
}
