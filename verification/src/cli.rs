use vstd::prelude::*;

use crate::text::{chars_of, lines, split_lines, string_of};

verus! {

/// A shell for which a completion script can be printed.
#[derive(Clone, Copy, Debug, PartialEq, Eq, Structural)]
pub enum Shell {
    Bash,
    Elvish,
    Fish,
    PowerShell,
    Zsh,
}

/// The hidden subcommands that git runs as editors during the rebase.
#[derive(Debug)]
pub enum InternalCommand {
    /// Rewrite rebase todo: pick -> reword
    SequenceEdit { file: String },
    /// Strip co-authored-by lines from commit message
    MsgEdit { file: String },
}

/// The command line of the tool.
#[derive(Debug)]
pub struct Cli {
    /// Base ref (branch, tag, or SHA) — rewrites commits in <base-ref>..HEAD
    pub base_ref: Option<String>,
    /// Print the completion script for this shell
    pub completions: Option<Shell>,
    /// A hidden subcommand, run by git during the rebase
    pub command: Option<InternalCommand>,
}

/// What the tool does for a command line.
#[derive(Debug)]
pub enum Action {
    /// Print the completion script for the shell.
    PrintCompletions(Shell),
    /// Rewrite the rebase todo file at this path.
    SequenceEdit(String),
    /// Strip the co-author lines of the commit message file at this path.
    MsgEdit(String),
    /// Ask the user for the base ref, then rewrite.
    PickBaseRef,
    /// Rewrite the commits in `<base-ref>..HEAD`.
    Rewrite(String),
}

/// The name under which git calls the todo-list editor.
pub open spec fn sequence_edit_name() -> Seq<char> {
    "__sequence-edit"@
}

/// The name under which git calls the commit-message editor.
pub open spec fn msg_edit_name() -> Seq<char> {
    "__msg-edit"@
}

impl InternalCommand {
    /// The subcommand's name on the command line.
    pub fn name(&self) -> (s: String)
        ensures
            s@ == match self {
                InternalCommand::SequenceEdit { .. } => sequence_edit_name(),
                InternalCommand::MsgEdit { .. } => msg_edit_name(),
            },
    {
        match self {
            InternalCommand::SequenceEdit { .. } => String::from_str("__sequence-edit"),
            InternalCommand::MsgEdit { .. } => String::from_str("__msg-edit"),
        }
    }
}

/// What the tool does for a command line, by priority: a completion
/// request first, then a hidden subcommand, then the rewrite of the given
/// base ref, or a prompt for one when none is given.
pub open spec fn cli_action(cli: Cli) -> Action {
    match cli.completions {
        Some(shell) => Action::PrintCompletions(shell),
        None => match cli.command {
            Some(InternalCommand::SequenceEdit { file }) => Action::SequenceEdit(file),
            Some(InternalCommand::MsgEdit { file }) => Action::MsgEdit(file),
            None => match cli.base_ref {
                Some(r) => Action::Rewrite(r),
                None => Action::PickBaseRef,
            },
        },
    }
}

impl Cli {
    /// What the tool does for this command line.
    pub fn action(&self) -> (a: Action)
        ensures
            a == cli_action(*self),
    {
        if let Some(shell) = self.completions {
            return Action::PrintCompletions(shell);
        }
        match &self.command {
            Some(InternalCommand::SequenceEdit { file }) => Action::SequenceEdit(file.clone()),
            Some(InternalCommand::MsgEdit { file }) => Action::MsgEdit(file.clone()),
            None => match &self.base_ref {
                Some(r) => Action::Rewrite(r.clone()),
                None => Action::PickBaseRef,
            },
        }
    }
}

/// The branches offered for the base ref: the lines of the listing that
/// `git branch --format=%(refname:short)` printed, or an error when there
/// are none.
pub fn branch_choices(listing: &str) -> (r: Result<Vec<String>, String>)
    ensures
        match r {
            Ok(branches) => lines(listing@).len() > 0 && branches.deep_view() == lines(listing@),
            Err(e) => lines(listing@).len() == 0 && e@ == "no branches found"@,
        },
{
    let chars = chars_of(listing);
    let ls = split_lines(&chars);
    if ls.len() == 0 {
        return Err(String::from_str("no branches found"));
    }
    let mut branches: Vec<String> = Vec::new();
    for i in 0..ls.len()
        invariant
            ls.deep_view() == lines(listing@),
            branches.deep_view() == ls.deep_view().take(i as int),
    {
        let b = string_of(&ls[i]);
        let ghost before = branches.deep_view();
        let ghost bv = b@;
        branches.push(b);
        assert(branches.deep_view() =~= before.push(bv));
        assert(ls.deep_view()[i as int] == ls[i as int]@);
        assert(branches.deep_view() =~= ls.deep_view().take(i + 1));
    }
    assert(ls.deep_view().take(ls.len() as int) =~= ls.deep_view());
    Ok(branches)
}


/// The order in which the command line is read: a completion request wins
/// over everything else; then a hidden subcommand, whatever base ref is
/// given; then the base ref; and only a bare command line prompts for one.
pub proof fn law_action_priority(cli: Cli)
    ensures
        cli.completions matches Some(s) ==> cli_action(cli) == Action::PrintCompletions(s),
        cli.completions is None ==> (cli.command matches Some(InternalCommand::SequenceEdit { file })
            ==> cli_action(cli) == Action::SequenceEdit(file)),
        cli.completions is None ==> (cli.command matches Some(InternalCommand::MsgEdit { file })
            ==> cli_action(cli) == Action::MsgEdit(file)),
        cli.completions is None && cli.command is None ==> (cli.base_ref matches Some(r)
            ==> cli_action(cli) == Action::Rewrite(r)),
        cli_action(cli) == Action::PickBaseRef <==> (cli.completions is None && cli.command is None
            && cli.base_ref is None),
{
}

} // verus!
