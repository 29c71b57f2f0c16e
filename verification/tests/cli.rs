use fme::cli::{file_action, Command, FileAction, Opt};
use fme::frontmatter::FrontmatterError;
use std::path::PathBuf;

fn list(items: &[&str]) -> Vec<String> {
    items.iter().map(|s| s.to_string()).collect()
}

const NOTE: &str = "---\nid: n\naliases: []\ntags:\n  - a\n  - b\n---\nbody";

#[test]
fn command_add_adds_tags() {
    let command = Command::Add { tags: list(&["c"]), dir: PathBuf::from("."), recursive: false };
    assert_eq!(
        command.apply(NOTE).unwrap(),
        "---\nid: n\naliases: []\ntags:\n  - a\n  - b\n  - c\n---\nbody"
    );
}

#[test]
fn command_remove_removes_tags() {
    let command = Command::Remove { tags: list(&["a"]), dir: PathBuf::from("."), recursive: false };
    assert_eq!(command.apply(NOTE).unwrap(), "---\nid: n\naliases: []\ntags:\n  - b\n---\nbody");
}

#[test]
fn command_replace_replaces_a_tag() {
    let command = Command::Replace {
        initial_tag: "a".to_string(),
        new_tag: "z".to_string(),
        dir: PathBuf::from("."),
        recursive: false,
    };
    assert_eq!(
        command.apply(NOTE).unwrap(),
        "---\nid: n\naliases: []\ntags:\n  - b\n  - z\n---\nbody"
    );
}

#[test]
fn command_clear_removes_the_tags() {
    let command = Command::Clear { dir: PathBuf::from("."), recursive: true };
    assert_eq!(command.apply(NOTE).unwrap(), "---\nid: n\naliases: []\n---\nbody");
}

#[test]
fn command_remove_aliases_removes_blank_aliases() {
    let command = Command::RemoveAliases { dir: PathBuf::from("."), recursive: true };
    assert_eq!(command.apply(NOTE).unwrap(), "---\nid: n\ntags:\n  - a\n  - b\n---\nbody");
}

#[test]
fn command_remove_id_removes_the_identifier() {
    let command = Command::RemoveId { dir: PathBuf::from("."), recursive: true };
    assert_eq!(command.apply(NOTE).unwrap(), "---\naliases: []\ntags:\n  - a\n  - b\n---\nbody");
}

#[test]
fn command_fails_on_a_malformed_note() {
    let command = Command::Clear { dir: PathBuf::from("."), recursive: true };
    assert_eq!(command.apply("---\ntags: 1\n---\n"), Err(FrontmatterError::MalformedYaml));
}

#[test]
fn command_knows_its_directory_and_depth() {
    let commands = vec![
        Command::Add { tags: list(&["c"]), dir: PathBuf::from("notes/a"), recursive: true },
        Command::Remove { tags: list(&["c"]), dir: PathBuf::from("notes/a"), recursive: true },
        Command::Replace {
            initial_tag: "a".to_string(),
            new_tag: "b".to_string(),
            dir: PathBuf::from("notes/a"),
            recursive: true,
        },
        Command::Clear { dir: PathBuf::from("notes/a"), recursive: true },
        Command::RemoveAliases { dir: PathBuf::from("notes/a"), recursive: true },
        Command::RemoveId { dir: PathBuf::from("notes/a"), recursive: true },
    ];
    for command in commands {
        assert_eq!(command.dir(), &PathBuf::from("notes/a"));
        assert!(command.recursive());
    }
    let opt = Opt { cwd: Command::Clear { dir: PathBuf::from("x"), recursive: false } };
    assert_eq!(opt.cwd.dir(), &PathBuf::from("x"));
    assert!(!opt.cwd.recursive());
}

#[test]
fn file_action_writes_only_a_changed_text() {
    assert_eq!(file_action("same", Ok("same".to_string())), FileAction::Keep);
    assert_eq!(file_action("", Ok(String::new())), FileAction::Keep);
    assert_eq!(
        file_action("old", Ok("new".to_string())),
        FileAction::Write("new".to_string())
    );
    assert_eq!(file_action("text\n", Ok("text".to_string())), FileAction::Write("text".to_string()));
}

#[test]
fn file_action_reports_a_failure() {
    assert_eq!(
        file_action("old", Err(FrontmatterError::MalformedYaml)),
        FileAction::Report(FrontmatterError::MalformedYaml)
    );
}
