use uncoauthor::cli::branch_choices;
use uncoauthor::rebase::{counter_file_name, message_editor, rebase_outcome, sequence_editor, summary};
use uncoauthor::{Action, Cli, InternalCommand, Shell};

fn cli(base: Option<&str>, completions: Option<Shell>, command: Option<InternalCommand>) -> Cli {
    Cli { base_ref: base.map(|s| s.to_string()), completions, command }
}

#[test]
fn action_completions_first() {
    let c = cli(Some("main"), Some(Shell::Zsh), Some(InternalCommand::MsgEdit { file: "f".to_string() }));
    assert!(matches!(c.action(), Action::PrintCompletions(Shell::Zsh)));
}

#[test]
fn action_hidden_subcommands() {
    let c = cli(None, None, Some(InternalCommand::SequenceEdit { file: "todo".to_string() }));
    assert!(matches!(c.action(), Action::SequenceEdit(f) if f == "todo"));
    let c = cli(Some("main"), None, Some(InternalCommand::MsgEdit { file: "MSG".to_string() }));
    assert!(matches!(c.action(), Action::MsgEdit(f) if f == "MSG"));
}

#[test]
fn action_rewrite_or_pick() {
    assert!(matches!(cli(Some("v1.0.0"), None, None).action(), Action::Rewrite(r) if r == "v1.0.0"));
    assert!(matches!(cli(None, None, None).action(), Action::PickBaseRef));
}

#[test]
fn subcommand_names() {
    assert_eq!(InternalCommand::SequenceEdit { file: String::new() }.name(), "__sequence-edit");
    assert_eq!(InternalCommand::MsgEdit { file: String::new() }.name(), "__msg-edit");
}

#[test]
fn branches_listed() {
    assert_eq!(branch_choices("main\nfeature/x\n").unwrap(), vec!["main", "feature/x"]);
    assert_eq!(branch_choices("").unwrap_err(), "no branches found");
}

#[test]
fn editor_commands() {
    assert_eq!(sequence_editor("/usr/bin/uncoauthor"), "\"/usr/bin/uncoauthor\" __sequence-edit");
    assert_eq!(message_editor("/a b/uncoauthor"), "\"/a b/uncoauthor\" __msg-edit");
}

#[test]
fn counter_names() {
    assert_eq!(counter_file_name(4242), "uncoauthor-counter-4242");
}

#[test]
fn rebase_outcomes() {
    assert_eq!(rebase_outcome(true, "", "2"), Ok(2));
    assert_eq!(rebase_outcome(true, "", "oops"), Ok(0));
    assert_eq!(rebase_outcome(false, "CONFLICT\n", "1"), Err("CONFLICT\n".to_string()));
}

#[test]
fn summaries() {
    assert_eq!(summary(2), "Rewrote 2 commits. Co-authored-by trailers removed.");
    assert_eq!(summary(0), "Rewrote 0 commits. Co-authored-by trailers removed.");
}
