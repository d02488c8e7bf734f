use uncoauthor::{run_preflight, PreflightStatus, Probe, ProbeMode, Reply};

fn ok() -> Reply {
    Reply::Ran { success: true, stdout: String::new() }
}

fn fail() -> Reply {
    Reply::Ran { success: false, stdout: String::new() }
}

fn out(s: &str) -> Reply {
    Reply::Ran { success: true, stdout: s.to_string() }
}

fn pending(base: &str, replies: &Vec<Reply>) -> (Probe, Vec<String>) {
    match run_preflight(base, replies) {
        PreflightStatus::Pending(req) => (req.probe, req.args),
        PreflightStatus::Finished(r) => panic!("finished early: {:?}", r),
    }
}

fn finished(base: &str, replies: &Vec<Reply>) -> Result<usize, String> {
    match run_preflight(base, replies) {
        PreflightStatus::Finished(r) => r,
        PreflightStatus::Pending(req) => panic!("still pending: {:?}", req),
    }
}

fn passing() -> Vec<Reply> {
    vec![ok(), out(".git\n"), fail(), fail(), ok(), ok(), ok(), out("3\n")]
}

#[test]
fn preflight_asks_probes_in_order() {
    let all = passing();
    let expected: Vec<(Probe, Vec<&str>)> = vec![
        (Probe::GitDirStatus, vec!["rev-parse", "--git-dir"]),
        (Probe::GitDirOutput, vec!["rev-parse", "--git-dir"]),
        (Probe::RebaseMerge, vec![".git", "rebase-merge"]),
        (Probe::RebaseApply, vec![".git", "rebase-apply"]),
        (Probe::UnstagedDiff, vec!["diff", "--quiet"]),
        (Probe::StagedDiff, vec!["diff", "--cached", "--quiet"]),
        (Probe::VerifyRef, vec!["rev-parse", "--verify", "main"]),
        (Probe::CountCommits, vec!["rev-list", "--count", "main..HEAD"]),
    ];
    for (i, (probe, args)) in expected.into_iter().enumerate() {
        let replies: Vec<Reply> = all.iter().take(i).map(|r| match r {
            Reply::Ran { success, stdout } => Reply::Ran { success: *success, stdout: stdout.clone() },
            Reply::Failed(e) => Reply::Failed(e.clone()),
        }).collect();
        let (p, a) = pending("main", &replies);
        assert_eq!(p, probe);
        assert_eq!(a, args);
    }
}

#[test]
fn preflight_passes_with_count() {
    assert_eq!(finished("main", &passing()), Ok(3));
}

#[test]
fn preflight_result_stands_after_more_replies() {
    let mut replies = passing();
    replies.push(fail());
    replies.push(ok());
    assert_eq!(finished("main", &replies), Ok(3));
    let mut early = vec![fail()];
    early.push(ok());
    assert_eq!(finished("x", &early), Err("not inside a git repository".to_string()));
}

#[test]
fn preflight_not_a_repository() {
    assert_eq!(finished("main", &vec![fail()]), Err("not inside a git repository".to_string()));
}

#[test]
fn preflight_git_missing() {
    assert_eq!(
        finished("main", &vec![Reply::Failed("No such file or directory (os error 2)".to_string())]),
        Err("failed to run git: No such file or directory (os error 2)".to_string())
    );
}

#[test]
fn preflight_rebase_in_progress() {
    let msg = "a rebase is already in progress. Run `git rebase --abort` or `git rebase --continue` first";
    assert_eq!(finished("main", &vec![ok(), out("/r/.git\n"), ok()]), Err(msg.to_string()));
    assert_eq!(finished("main", &vec![ok(), out("/r/.git\n"), fail(), ok()]), Err(msg.to_string()));
}

#[test]
fn preflight_git_dir_is_trimmed() {
    let (p, a) = pending("main", &vec![ok(), out("  /work/repo/.git \n")]);
    assert_eq!(p, Probe::RebaseMerge);
    assert_eq!(a, vec!["/work/repo/.git", "rebase-merge"]);
}

#[test]
fn preflight_dirty_tree() {
    let msg = "working tree is not clean. Please commit or stash your changes";
    assert_eq!(finished("main", &vec![ok(), out(".git"), fail(), fail(), fail(), ok()]), Err(msg.to_string()));
    assert_eq!(finished("main", &vec![ok(), out(".git"), fail(), fail(), ok(), fail()]), Err(msg.to_string()));
}

#[test]
fn preflight_staged_probe_runs_after_unstaged_failure() {
    let (p, _) = pending("main", &vec![ok(), out(".git"), fail(), fail(), fail()]);
    assert_eq!(p, Probe::StagedDiff);
}

#[test]
fn preflight_invalid_ref() {
    assert_eq!(
        finished("nonexistent-ref", &vec![ok(), out(".git"), fail(), fail(), ok(), ok(), fail()]),
        Err("invalid base ref: `nonexistent-ref`".to_string())
    );
}

#[test]
fn preflight_no_commits_in_range() {
    assert_eq!(
        finished("HEAD", &vec![ok(), out(".git"), fail(), fail(), ok(), ok(), ok(), out("0\n")]),
        Err("no commits in range `HEAD..HEAD`".to_string())
    );
}

#[test]
fn preflight_count_failure() {
    assert_eq!(
        finished("v1", &vec![ok(), out(".git"), fail(), fail(), ok(), ok(), ok(), fail()]),
        Err("failed to count commits in range `v1..HEAD`".to_string())
    );
}

#[test]
fn preflight_count_unreadable() {
    assert_eq!(
        finished("v1", &vec![ok(), out(".git"), fail(), fail(), ok(), ok(), ok(), out("x1\n")]),
        Err("failed to parse commit count: invalid digit found in string".to_string())
    );
    assert_eq!(
        finished("v1", &vec![ok(), out(".git"), fail(), fail(), ok(), ok(), ok(), out("\n")]),
        Err("failed to parse commit count: cannot parse integer from empty string".to_string())
    );
}

#[test]
fn preflight_probe_modes() {
    assert_eq!(Probe::GitDirStatus.mode(), ProbeMode::GitQuiet);
    assert_eq!(Probe::GitDirOutput.mode(), ProbeMode::GitOutput);
    assert_eq!(Probe::RebaseMerge.mode(), ProbeMode::PathExists);
    assert_eq!(Probe::RebaseApply.mode(), ProbeMode::PathExists);
    assert_eq!(Probe::UnstagedDiff.mode(), ProbeMode::Git);
    assert_eq!(Probe::StagedDiff.mode(), ProbeMode::Git);
    assert_eq!(Probe::VerifyRef.mode(), ProbeMode::GitQuiet);
    assert_eq!(Probe::CountCommits.mode(), ProbeMode::GitOutput);
}

#[test]
fn preflight_finishes_within_eight_replies() {
    let replies = vec![ok(), ok(), ok(), ok(), ok(), ok(), ok(), ok()];
    assert!(matches!(run_preflight("b", &replies), PreflightStatus::Finished(_)));
}
