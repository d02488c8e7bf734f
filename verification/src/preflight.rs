use vstd::prelude::*;

use crate::count::{count_of, parse_count, parse_error_text};
use crate::text::{concat3, trim, trimmed};

verus! {

/// One question the pre-flight checks ask of the repository, in the order
/// they are asked.
#[derive(Clone, Copy, Debug, PartialEq, Eq, Structural)]
pub enum Probe {
    /// Run `git rev-parse --git-dir`, its output discarded: are we in a repository?
    GitDirStatus,
    /// Run `git rev-parse --git-dir` and capture its output: where is the git directory?
    GitDirOutput,
    /// Does `<git-dir>/rebase-merge` exist?
    RebaseMerge,
    /// Does `<git-dir>/rebase-apply` exist?
    RebaseApply,
    /// Run `git diff --quiet`: are there unstaged changes?
    UnstagedDiff,
    /// Run `git diff --cached --quiet`: are there staged changes?
    StagedDiff,
    /// Run `git rev-parse --verify <base-ref>`, its output discarded: is the ref valid?
    VerifyRef,
    /// Run `git rev-list --count <base-ref>..HEAD` and capture its output.
    CountCommits,
}

/// How a probe is carried out.
#[derive(Clone, Copy, Debug, PartialEq, Eq, Structural)]
pub enum ProbeMode {
    /// Run git with the request's arguments, its output and errors discarded.
    GitQuiet,
    /// Run git with the request's arguments, its output left to the terminal.
    Git,
    /// Run git with the request's arguments and capture its standard output.
    GitOutput,
    /// Check whether the path made of the request's two arguments (a
    /// directory joined with an entry) exists.
    PathExists,
}

impl Probe {
    /// How this probe is carried out.
    pub fn mode(&self) -> (m: ProbeMode)
        ensures
            m == probe_mode(*self),
    {
        match self {
            Probe::GitDirStatus => ProbeMode::GitQuiet,
            Probe::GitDirOutput => ProbeMode::GitOutput,
            Probe::RebaseMerge => ProbeMode::PathExists,
            Probe::RebaseApply => ProbeMode::PathExists,
            Probe::UnstagedDiff => ProbeMode::Git,
            Probe::StagedDiff => ProbeMode::Git,
            Probe::VerifyRef => ProbeMode::GitQuiet,
            Probe::CountCommits => ProbeMode::GitOutput,
        }
    }
}

/// How each probe is carried out.
pub open spec fn probe_mode(p: Probe) -> ProbeMode {
    match p {
        Probe::GitDirStatus => ProbeMode::GitQuiet,
        Probe::GitDirOutput => ProbeMode::GitOutput,
        Probe::RebaseMerge => ProbeMode::PathExists,
        Probe::RebaseApply => ProbeMode::PathExists,
        Probe::UnstagedDiff => ProbeMode::Git,
        Probe::StagedDiff => ProbeMode::Git,
        Probe::VerifyRef => ProbeMode::GitQuiet,
        Probe::CountCommits => ProbeMode::GitOutput,
    }
}

/// What carrying out a probe gave.
#[derive(Debug)]
pub enum Reply {
    /// The command ran (for a path probe: the check was made). `success`
    /// is its exit status (for a path probe: whether the path exists);
    /// `stdout` its captured output, empty when not captured.
    Ran { success: bool, stdout: String },
    /// The command could not be started; the text of the error.
    Failed(String),
}

/// The next probe to carry out, with its arguments.
#[derive(Debug)]
pub struct Request {
    pub probe: Probe,
    pub args: Vec<String>,
}

/// Where the pre-flight checks stand.
#[derive(Debug)]
pub enum PreflightStatus {
    /// The checks need the answer to this probe.
    Pending(Request),
    /// The checks are over: the number of commits in range, or why the
    /// rewrite cannot start.
    Finished(Result<usize, String>),
}

/// Where the checks stand, in mathematical terms.
pub enum Outcome {
    /// The next probe and its arguments.
    Ask(Probe, Seq<Seq<char>>),
    /// The result of the checks.
    Done(Result<usize, Seq<char>>),
}

/// The state of the checks between two probes: the probe awaited, the git
/// directory (once known) and whether the unstaged-changes probe succeeded.
pub type Stage = (Probe, Seq<char>, bool);

/// The result of one reply: the next state, or the result of the checks.
pub enum Step {
    Next(Stage),
    Finish(Result<usize, Seq<char>>),
}

/// The message for a git command that could not be started.
pub open spec fn launch_failure(e: Seq<char>) -> Seq<char> {
    "failed to run git: "@ + e
}

/// The message for a rebase in progress.
pub open spec fn rebasing_message() -> Seq<char> {
    "a rebase is already in progress. Run `git rebase --abort` or `git rebase --continue` first"@
}

/// The message for a working tree with changes.
pub open spec fn dirty_message() -> Seq<char> {
    "working tree is not clean. Please commit or stash your changes"@
}

/// `<base>..HEAD`, the range of commits to rewrite.
pub open spec fn commit_range(base: Seq<char>) -> Seq<char> {
    base + "..HEAD"@
}

/// What a probe asks for: the arguments of the git command, or the
/// directory and the entry whose path is checked.
pub open spec fn probe_args(base: Seq<char>, st: Stage) -> Seq<Seq<char>> {
    match st.0 {
        Probe::GitDirStatus => seq!["rev-parse"@, "--git-dir"@],
        Probe::GitDirOutput => seq!["rev-parse"@, "--git-dir"@],
        Probe::RebaseMerge => seq![st.1, "rebase-merge"@],
        Probe::RebaseApply => seq![st.1, "rebase-apply"@],
        Probe::UnstagedDiff => seq!["diff"@, "--quiet"@],
        Probe::StagedDiff => seq!["diff"@, "--cached"@, "--quiet"@],
        Probe::VerifyRef => seq!["rev-parse"@, "--verify"@, base],
        Probe::CountCommits => seq!["rev-list"@, "--count"@, commit_range(base)],
    }
}

/// Whether a reply to a path probe says that the path exists.
pub open spec fn path_exists(r: Reply) -> bool {
    match r {
        Reply::Ran { success, .. } => success,
        Reply::Failed(_) => false,
    }
}

/// One step of the checks: what the reply to the awaited probe decides.
pub open spec fn step(base: Seq<char>, st: Stage, r: Reply) -> Step {
    let (probe, git_dir, unstaged_ok) = st;
    match probe {
        Probe::RebaseMerge => if path_exists(r) {
            Step::Finish(Err(rebasing_message()))
        } else {
            Step::Next((Probe::RebaseApply, git_dir, unstaged_ok))
        },
        Probe::RebaseApply => if path_exists(r) {
            Step::Finish(Err(rebasing_message()))
        } else {
            Step::Next((Probe::UnstagedDiff, git_dir, unstaged_ok))
        },
        _ => match r {
            Reply::Failed(e) => Step::Finish(Err(launch_failure(e@))),
            Reply::Ran { success, stdout } => match probe {
                Probe::GitDirStatus => if success {
                    Step::Next((Probe::GitDirOutput, git_dir, unstaged_ok))
                } else {
                    Step::Finish(Err("not inside a git repository"@))
                },
                Probe::GitDirOutput => Step::Next((Probe::RebaseMerge, trim(stdout@), unstaged_ok)),
                Probe::UnstagedDiff => Step::Next((Probe::StagedDiff, git_dir, success)),
                Probe::StagedDiff => if unstaged_ok && success {
                    Step::Next((Probe::VerifyRef, git_dir, unstaged_ok))
                } else {
                    Step::Finish(Err(dirty_message()))
                },
                Probe::VerifyRef => if success {
                    Step::Next((Probe::CountCommits, git_dir, unstaged_ok))
                } else {
                    Step::Finish(Err("invalid base ref: `"@ + base + "`"@))
                },
                _ => if !success {
                    Step::Finish(
                        Err("failed to count commits in range `"@ + commit_range(base) + "`"@),
                    )
                } else {
                    match count_of(stdout@) {
                        Err(e) => Step::Finish(
                            Err("failed to parse commit count: "@ + parse_error_text(e)),
                        ),
                        Ok(n) => if n == 0 {
                            Step::Finish(Err("no commits in range `"@ + commit_range(base) + "`"@))
                        } else {
                            Step::Finish(Ok(n))
                        },
                    }
                },
            },
        },
    }
}

/// Where the checks stand from state `st` once `replies` have come in.
pub open spec fn outcome_from(base: Seq<char>, st: Stage, replies: Seq<Reply>) -> Outcome
    decreases replies.len(),
{
    if replies.len() == 0 {
        Outcome::Ask(st.0, probe_args(base, st))
    } else {
        match step(base, st, replies[0]) {
            Step::Next(next) => outcome_from(base, next, replies.drop_first()),
            Step::Finish(r) => Outcome::Done(r),
        }
    }
}

/// The state in which the checks start.
pub open spec fn initial_stage() -> Stage {
    (Probe::GitDirStatus, Seq::<char>::empty(), false)
}

/// Where the checks for `base` stand once `replies` (the answers to the
/// probes asked so far, in order) have come in. The checks, each run only
/// when those before it passed: inside a git repository; no rebase in
/// progress; no unstaged and no staged changes; a valid base ref; at least
/// one commit in `<base>..HEAD`.
pub open spec fn preflight_outcome(base: Seq<char>, replies: Seq<Reply>) -> Outcome {
    outcome_from(base, initial_stage(), replies)
}

/// A status in mathematical terms.
pub open spec fn status_view(st: PreflightStatus) -> Outcome {
    match st {
        PreflightStatus::Pending(req) => Outcome::Ask(req.probe, req.args.deep_view()),
        PreflightStatus::Finished(Ok(n)) => Outcome::Done(Ok(n)),
        PreflightStatus::Finished(Err(e)) => Outcome::Done(Err(e@)),
    }
}


/// The result of one reply, as values.
enum StepResult {
    Next(Probe, String, bool),
    Finish(Result<usize, String>),
}

/// A step result in mathematical terms.
spec fn step_result_view(s: StepResult) -> Step {
    match s {
        StepResult::Next(p, d, b) => Step::Next((p, d@, b)),
        StepResult::Finish(Ok(n)) => Step::Finish(Ok(n)),
        StepResult::Finish(Err(e)) => Step::Finish(Err(e@)),
    }
}

/// Decides what the reply `r` to `probe` means.
fn decide(base: &str, probe: Probe, git_dir: &String, unstaged_ok: bool, r: &Reply) -> (s: StepResult)
    ensures
        step_result_view(s) == step(base@, (probe, git_dir@, unstaged_ok), *r),
{
    proof {
        reveal_strlit("");
    }
    let exists = match r {
        Reply::Ran { success, .. } => *success,
        Reply::Failed(_) => false,
    };
    match probe {
        Probe::RebaseMerge => {
            return if exists {
                StepResult::Finish(Err(String::from_str(
                    "a rebase is already in progress. Run `git rebase --abort` or `git rebase --continue` first",
                )))
            } else {
                StepResult::Next(Probe::RebaseApply, git_dir.clone(), unstaged_ok)
            };
        },
        Probe::RebaseApply => {
            return if exists {
                StepResult::Finish(Err(String::from_str(
                    "a rebase is already in progress. Run `git rebase --abort` or `git rebase --continue` first",
                )))
            } else {
                StepResult::Next(Probe::UnstagedDiff, git_dir.clone(), unstaged_ok)
            };
        },
        _ => {},
    }
    match r {
        Reply::Failed(e) => StepResult::Finish(Err(concat3("failed to run git: ", e.as_str(), ""))),
        Reply::Ran { success, stdout } => {
            let success = *success;
            match probe {
                Probe::GitDirStatus => if success {
                    StepResult::Next(Probe::GitDirOutput, git_dir.clone(), unstaged_ok)
                } else {
                    StepResult::Finish(Err(String::from_str("not inside a git repository")))
                },
                Probe::GitDirOutput => StepResult::Next(
                    Probe::RebaseMerge,
                    trimmed(stdout.as_str()),
                    unstaged_ok,
                ),
                Probe::UnstagedDiff => StepResult::Next(Probe::StagedDiff, git_dir.clone(), success),
                Probe::StagedDiff => if unstaged_ok && success {
                    StepResult::Next(Probe::VerifyRef, git_dir.clone(), unstaged_ok)
                } else {
                    StepResult::Finish(Err(String::from_str(
                        "working tree is not clean. Please commit or stash your changes",
                    )))
                },
                Probe::VerifyRef => if success {
                    StepResult::Next(Probe::CountCommits, git_dir.clone(), unstaged_ok)
                } else {
                    StepResult::Finish(Err(concat3("invalid base ref: `", base, "`")))
                },
                _ => {
                    if !success {
                        let msg = concat3("failed to count commits in range `", base, "..HEAD`");
                        assert(msg@ == "failed to count commits in range `"@ + commit_range(base@) + "`"@) by {
                            reveal_strlit("..HEAD`");
                            reveal_strlit("..HEAD");
                            reveal_strlit("`");
                        }
                        StepResult::Finish(Err(msg))
                    } else {
                        match parse_count(stdout.as_str()) {
                            Err(e) => StepResult::Finish(
                                Err(concat3("failed to parse commit count: ", e.message().as_str(), "")),
                            ),
                            Ok(n) => if n == 0 {
                                let msg = concat3("no commits in range `", base, "..HEAD`");
                                assert(msg@ == "no commits in range `"@ + commit_range(base@) + "`"@) by {
                                    reveal_strlit("..HEAD`");
                                    reveal_strlit("..HEAD");
                                    reveal_strlit("`");
                                }
                                StepResult::Finish(Err(msg))
                            } else {
                                StepResult::Finish(Ok(n))
                            },
                        }
                    }
                },
            }
        },
    }
}

/// The arguments of a probe.
fn args_of(base: &str, probe: Probe, git_dir: &String) -> (args: Vec<String>)
    ensures
        args.deep_view() == probe_args(base@, (probe, git_dir@, false)),
{
    let args: Vec<String> = match probe {
        Probe::GitDirStatus => vec![String::from_str("rev-parse"), String::from_str("--git-dir")],
        Probe::GitDirOutput => vec![String::from_str("rev-parse"), String::from_str("--git-dir")],
        Probe::RebaseMerge => vec![git_dir.clone(), String::from_str("rebase-merge")],
        Probe::RebaseApply => vec![git_dir.clone(), String::from_str("rebase-apply")],
        Probe::UnstagedDiff => vec![String::from_str("diff"), String::from_str("--quiet")],
        Probe::StagedDiff => vec![
            String::from_str("diff"),
            String::from_str("--cached"),
            String::from_str("--quiet"),
        ],
        Probe::VerifyRef => vec![
            String::from_str("rev-parse"),
            String::from_str("--verify"),
            String::from_str(base),
        ],
        Probe::CountCommits => vec![
            String::from_str("rev-list"),
            String::from_str("--count"),
            concat3(base, "..HEAD", ""),
        ],
    };
    proof {
        reveal_strlit("");
    }
    assert(args.deep_view() =~= probe_args(base@, (probe, git_dir@, false)));
    args
}

/// Run the pre-flight checks for `base_ref` as far as `replies` (the
/// answers to the probes asked so far, in order) take them: either the next
/// probe to carry out, or the result — the number of commits in
/// `<base_ref>..HEAD`, or why the rewrite cannot start.
pub fn run_preflight(base_ref: &str, replies: &Vec<Reply>) -> (st: PreflightStatus)
    ensures
        status_view(st) == preflight_outcome(base_ref@, replies@),
{
    let mut probe = Probe::GitDirStatus;
    let mut git_dir = String::new();
    let mut unstaged_ok = false;
    assert(replies@.skip(0) =~= replies@);
    for i in 0..replies.len()
        invariant
            preflight_outcome(base_ref@, replies@) == outcome_from(
                base_ref@,
                (probe, git_dir@, unstaged_ok),
                replies@.skip(i as int),
            ),
    {
        let ghost rest = replies@.skip(i as int);
        assert(rest[0] == replies@[i as int]);
        assert(rest.drop_first() =~= replies@.skip(i + 1));
        match decide(base_ref, probe, &git_dir, unstaged_ok, &replies[i]) {
            StepResult::Next(p, d, b) => {
                probe = p;
                git_dir = d;
                unstaged_ok = b;
            },
            StepResult::Finish(r) => {
                return PreflightStatus::Finished(r);
            },
        }
    }
    assert(replies@.skip(replies.len() as int) =~= Seq::<Reply>::empty());
    let args = args_of(base_ref, probe, &git_dir);
    assert(probe_args(base_ref@, (probe, git_dir@, false)) == probe_args(
        base_ref@,
        (probe, git_dir@, unstaged_ok),
    ));
    PreflightStatus::Pending(Request { probe, args })
}


// ---------------------------------------------------------------------------
// Laws
// ---------------------------------------------------------------------------

/// The position of each probe in the order of the checks.
pub open spec fn probe_rank(p: Probe) -> int {
    match p {
        Probe::GitDirStatus => 0,
        Probe::GitDirOutput => 1,
        Probe::RebaseMerge => 2,
        Probe::RebaseApply => 3,
        Probe::UnstagedDiff => 4,
        Probe::StagedDiff => 5,
        Probe::VerifyRef => 6,
        Probe::CountCommits => 7,
    }
}

/// Each reply either ends the checks or moves on to a later probe.
proof fn lemma_step_advances(base: Seq<char>, st: Stage, r: Reply)
    ensures
        match step(base, st, r) {
            Step::Next(next) => probe_rank(next.0) > probe_rank(st.0),
            Step::Finish(_) => true,
        },
        st.0 == Probe::CountCommits ==> step(base, st, r) is Finish,
        step(base, st, r) matches Step::Finish(Ok(n)) ==> n > 0,
{
}

/// Once finished, further replies change nothing.
proof fn lemma_outcome_final(base: Seq<char>, st: Stage, replies: Seq<Reply>, more: Seq<Reply>)
    requires
        outcome_from(base, st, replies) is Done,
    ensures
        outcome_from(base, st, replies + more) == outcome_from(base, st, replies),
    decreases replies.len(),
{
    let all = replies + more;
    assert(all[0] == replies[0]);
    if let Step::Next(next) = step(base, st, replies[0]) {
        assert(all.drop_first() =~= replies.drop_first() + more);
        lemma_outcome_final(base, next, replies.drop_first(), more);
    }
}

/// A result is always reached by the reply to the last probe, and a count
/// that comes out is at least one.
proof fn lemma_outcome_bounded(base: Seq<char>, st: Stage, replies: Seq<Reply>)
    requires
        replies.len() >= 8 - probe_rank(st.0),
    ensures
        outcome_from(base, st, replies) is Done,
    decreases replies.len(),
{
    lemma_step_advances(base, st, replies[0]);
    if let Step::Next(next) = step(base, st, replies[0]) {
        lemma_outcome_bounded(base, next, replies.drop_first());
    }
}

/// A count that comes out of the checks is at least one.
proof fn lemma_outcome_count(base: Seq<char>, st: Stage, replies: Seq<Reply>)
    ensures
        outcome_from(base, st, replies) matches Outcome::Done(Ok(n)) ==> n > 0,
    decreases replies.len(),
{
    if replies.len() > 0 {
        lemma_step_advances(base, st, replies[0]);
        if let Step::Next(next) = step(base, st, replies[0]) {
            lemma_outcome_count(base, next, replies.drop_first());
        }
    }
}

/// Once the checks have finished, further replies change nothing: the
/// result stands.
pub proof fn law_preflight_result_stands(base: Seq<char>, replies: Seq<Reply>, more: Seq<Reply>)
    requires
        preflight_outcome(base, replies) is Done,
    ensures
        preflight_outcome(base, replies + more) == preflight_outcome(base, replies),
{
    lemma_outcome_final(base, initial_stage(), replies, more);
}

/// The checks ask at most eight probes: with eight replies they have finished.
pub proof fn law_preflight_finishes(base: Seq<char>, replies: Seq<Reply>)
    requires
        replies.len() >= 8,
    ensures
        preflight_outcome(base, replies) is Done,
{
    lemma_outcome_bounded(base, initial_stage(), replies);
}

/// When the checks pass, there is at least one commit to rewrite.
pub proof fn law_preflight_count_positive(base: Seq<char>, replies: Seq<Reply>)
    ensures
        preflight_outcome(base, replies) matches Outcome::Done(Ok(n)) ==> n > 0,
{
    lemma_outcome_count(base, initial_stage(), replies);
}


/// The request to ask `p`, with the git directory `dir` where it matters.
pub open spec fn ask(base: Seq<char>, p: Probe, dir: Seq<char>) -> Outcome {
    Outcome::Ask(p, probe_args(base, (p, dir, false)))
}

/// Whether a reply reports a command that ran and succeeded (for a path
/// probe: a path that exists).
pub open spec fn ran_ok(r: Reply) -> bool {
    r matches Reply::Ran { success: true, .. }
}

/// The captured output of a reply (empty for a command that could not start).
pub open spec fn output_of(r: Reply) -> Seq<char> {
    match r {
        Reply::Ran { stdout, .. } => stdout@,
        Reply::Failed(_) => Seq::<char>::empty(),
    }
}

/// The error text of a reply for a command that could not start.
pub open spec fn failure_of(r: Reply) -> Seq<char> {
    match r {
        Reply::Failed(e) => e@,
        Reply::Ran { .. } => Seq::<char>::empty(),
    }
}

/// The checks written over the replies directly, in order: each reply
/// answers the next probe; the first check that fails decides the error,
/// a command that could not start fails its check; when all pass, the
/// result is the commit count.
pub open spec fn checks_in_order(base: Seq<char>, r: Seq<Reply>) -> Outcome {
    let dir = if r.len() > 1 {
        trim(output_of(r[1]))
    } else {
        Seq::<char>::empty()
    };
    if r.len() == 0 {
        ask(base, Probe::GitDirStatus, dir)
    } else if r[0] is Failed {
        Outcome::Done(Err(launch_failure(failure_of(r[0]))))
    } else if !ran_ok(r[0]) {
        Outcome::Done(Err("not inside a git repository"@))
    } else if r.len() == 1 {
        ask(base, Probe::GitDirOutput, dir)
    } else if r[1] is Failed {
        Outcome::Done(Err(launch_failure(failure_of(r[1]))))
    } else if r.len() == 2 {
        ask(base, Probe::RebaseMerge, dir)
    } else if ran_ok(r[2]) {
        Outcome::Done(Err(rebasing_message()))
    } else if r.len() == 3 {
        ask(base, Probe::RebaseApply, dir)
    } else if ran_ok(r[3]) {
        Outcome::Done(Err(rebasing_message()))
    } else if r.len() == 4 {
        ask(base, Probe::UnstagedDiff, dir)
    } else if r[4] is Failed {
        Outcome::Done(Err(launch_failure(failure_of(r[4]))))
    } else if r.len() == 5 {
        ask(base, Probe::StagedDiff, dir)
    } else if r[5] is Failed {
        Outcome::Done(Err(launch_failure(failure_of(r[5]))))
    } else if !(ran_ok(r[4]) && ran_ok(r[5])) {
        Outcome::Done(Err(dirty_message()))
    } else if r.len() == 6 {
        ask(base, Probe::VerifyRef, dir)
    } else if r[6] is Failed {
        Outcome::Done(Err(launch_failure(failure_of(r[6]))))
    } else if !ran_ok(r[6]) {
        Outcome::Done(Err("invalid base ref: `"@ + base + "`"@))
    } else if r.len() == 7 {
        ask(base, Probe::CountCommits, dir)
    } else if r[7] is Failed {
        Outcome::Done(Err(launch_failure(failure_of(r[7]))))
    } else if !ran_ok(r[7]) {
        Outcome::Done(Err("failed to count commits in range `"@ + commit_range(base) + "`"@))
    } else {
        match count_of(output_of(r[7])) {
            Err(e) => Outcome::Done(Err("failed to parse commit count: "@ + parse_error_text(e))),
            Ok(n) => if n == 0 {
                Outcome::Done(Err("no commits in range `"@ + commit_range(base) + "`"@))
            } else {
                Outcome::Done(Ok(n))
            },
        }
    }
}

/// The pre-flight checks, read over the replies directly: the probes are
/// asked in order, the first failing check decides the error, and when all
/// pass the result is the number of commits in range.
pub proof fn law_preflight_in_order(base: Seq<char>, r: Seq<Reply>)
    ensures
        preflight_outcome(base, r) == checks_in_order(base, r),
{
    reveal_with_fuel(outcome_from, 9);
    let r1 = r.drop_first();
    let r2 = r1.drop_first();
    let r3 = r2.drop_first();
    let r4 = r3.drop_first();
    let r5 = r4.drop_first();
    let r6 = r5.drop_first();
    let r7 = r6.drop_first();
    let r8 = r7.drop_first();
    if r.len() > 1 { assert(r1[0] == r[1]); }
    if r.len() > 2 { assert(r2[0] == r[2]); }
    if r.len() > 3 { assert(r3[0] == r[3]); }
    if r.len() > 4 { assert(r4[0] == r[4]); }
    if r.len() > 5 { assert(r5[0] == r[5]); }
    if r.len() > 6 { assert(r6[0] == r[6]); }
    if r.len() > 7 { assert(r7[0] == r[7]); }
}

} // verus!
