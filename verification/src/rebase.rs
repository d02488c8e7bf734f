use vstd::prelude::*;

use crate::cli::{msg_edit_name, sequence_edit_name};
use crate::count::{count_or_zero, count_or_zero_of, decimal, decimal_string};
use crate::text::concat3;

verus! {

/// The editor command that makes git run this tool's hidden subcommand
/// `sub`: the quoted path of the executable, a space, the subcommand.
pub open spec fn editor_command_text(exe: Seq<char>, sub: Seq<char>) -> Seq<char> {
    "\""@ + exe + "\" "@ + sub
}

/// `GIT_SEQUENCE_EDITOR` for the rebase: this tool's `__sequence-edit`.
pub fn sequence_editor(exe: &str) -> (s: String)
    ensures
        s@ == editor_command_text(exe@, sequence_edit_name()),
{
    let s = concat3("\"", exe, "\" __sequence-edit");
    proof {
        reveal_strlit("\" __sequence-edit");
        reveal_strlit("\" ");
        reveal_strlit("__sequence-edit");
        assert("\" __sequence-edit"@ =~= "\" "@ + "__sequence-edit"@);
        assert(s@ =~= editor_command_text(exe@, sequence_edit_name()));
    }
    s
}

/// `GIT_EDITOR` for the rebase: this tool's `__msg-edit`.
pub fn message_editor(exe: &str) -> (s: String)
    ensures
        s@ == editor_command_text(exe@, msg_edit_name()),
{
    let s = concat3("\"", exe, "\" __msg-edit");
    proof {
        reveal_strlit("\" __msg-edit");
        reveal_strlit("\" ");
        reveal_strlit("__msg-edit");
        assert("\" __msg-edit"@ =~= "\" "@ + "__msg-edit"@);
        assert(s@ =~= editor_command_text(exe@, msg_edit_name()));
    }
    s
}

/// The name of the counter file of the process `pid` in the temporary directory.
pub fn counter_file_name(pid: u32) -> (s: String)
    ensures
        s@ == "uncoauthor-counter-"@ + decimal(pid as nat),
{
    let digits = decimal_string(pid as usize);
    let s = concat3("uncoauthor-counter-", digits.as_str(), "");
    proof {
        reveal_strlit("");
    }
    s
}

/// The result of the rebase: git's error output when it failed, else the
/// number of commits that had co-author lines removed, as the counter file
/// holds it (0 when it holds no count).
pub fn rebase_outcome(success: bool, stderr: &str, counter: &str) -> (r: Result<usize, String>)
    ensures
        success ==> r == Ok::<usize, String>(count_or_zero_of(counter@)),
        !success ==> (r matches Err(e) && e@ == stderr@),
{
    let rewritten = count_or_zero(counter);
    if !success {
        return Err(String::from_str(stderr));
    }
    Ok(rewritten)
}

/// The summary printed after a successful rewrite.
pub open spec fn summary_text(n: nat) -> Seq<char> {
    "Rewrote "@ + decimal(n) + " commits. Co-authored-by trailers removed."@
}

/// The summary printed after a successful rewrite of `n` commits.
pub fn summary(n: usize) -> (s: String)
    ensures
        s@ == summary_text(n as nat),
{
    let digits = decimal_string(n);
    concat3("Rewrote ", digits.as_str(), " commits. Co-authored-by trailers removed.")
}

} // verus!
