use work_log::git::{
    folder_pick_result, git_command_result, git_push_response, git_status_text, sync_git_changes,
    sync_git_start, GitSyncAction, GitSyncStep,
};

fn run_of(a: GitSyncAction) -> (GitSyncStep, Vec<String>) {
    match a {
        GitSyncAction::Run(step, args) => (step, args),
        GitSyncAction::Finish(out) => panic!("finished with {out:?}"),
    }
}

fn finish_of(a: GitSyncAction) -> String {
    match a {
        GitSyncAction::Finish(out) => out,
        GitSyncAction::Run(step, args) => panic!("runs {step:?} {args:?}"),
    }
}

#[test]
fn sync_starts_with_status() {
    assert_eq!(
        run_of(sync_git_start()),
        (GitSyncStep::Status, vec!["status".to_string(), "--short".to_string()])
    );
}

#[test]
fn clean_tree_skips_to_push_or_finish() {
    assert_eq!(finish_of(sync_git_changes(GitSyncStep::Status, " \n", "m", false)), "");
    assert_eq!(
        run_of(sync_git_changes(GitSyncStep::Status, "", "m", true)),
        (GitSyncStep::Push, vec!["push".to_string(), "origin".to_string(), "main".to_string()])
    );
}

#[test]
fn changes_are_staged_then_committed() {
    let (step, args) = run_of(sync_git_changes(GitSyncStep::Status, " M daily/a.md", "m", false));
    assert_eq!(step, GitSyncStep::Stage);
    assert_eq!(
        args,
        vec!["add", "daily", "achievements", "reviews", "weekly", "tech-notes"]
    );
    let (step, args) = run_of(sync_git_changes(GitSyncStep::Stage, "", "m", false));
    assert_eq!(step, GitSyncStep::ListStaged);
    assert_eq!(args, vec!["diff", "--cached", "--name-only"]);
    let (step, args) =
        run_of(sync_git_changes(GitSyncStep::ListStaged, "daily/a.md\n", "日次ログ", false));
    assert_eq!(step, GitSyncStep::Commit);
    assert_eq!(args, vec!["commit", "-m", "日次ログ"]);
    assert_eq!(finish_of(sync_git_changes(GitSyncStep::Commit, "ok", "m", false)), "");
}

#[test]
fn nothing_staged_skips_the_commit() {
    assert_eq!(finish_of(sync_git_changes(GitSyncStep::ListStaged, "  ", "m", false)), "");
    assert_eq!(
        run_of(sync_git_changes(GitSyncStep::ListStaged, "", "m", true)).0,
        GitSyncStep::Push
    );
}

#[test]
fn push_output_finishes_the_sync() {
    assert_eq!(
        run_of(sync_git_changes(GitSyncStep::Commit, "", "m", true)).0,
        GitSyncStep::Push
    );
    assert_eq!(
        finish_of(sync_git_changes(GitSyncStep::Push, "Everything up-to-date", "m", true)),
        "Everything up-to-date"
    );
}

#[test]
fn command_output_is_trimmed_and_joined() {
    let args = vec!["status".to_string(), "--short".to_string()];
    assert_eq!(git_command_result(&args, true, " out \n", " err ").unwrap(), "out\nerr");
    assert_eq!(git_command_result(&args, true, "  ", " err ").unwrap(), "err");
    assert_eq!(git_command_result(&args, true, "out", "").unwrap(), "out");
    assert_eq!(git_command_result(&args, true, "", "").unwrap(), "");
}

#[test]
fn failed_command_names_itself() {
    let args = vec!["push".to_string(), "origin".to_string(), "main".to_string()];
    assert_eq!(
        git_command_result(&args, false, "o", " rejected \n").unwrap_err(),
        "git push origin main に失敗しました: rejected"
    );
    assert_eq!(
        git_command_result(&args, false, " o ", "").unwrap_err(),
        "git push origin main に失敗しました: o"
    );
}

#[test]
fn status_text_and_push_response() {
    assert_eq!(git_status_text("## main\n", "origin url"), "## main\n\n\norigin url");
    assert_eq!(git_status_text(" a", ""), "a");
    let pushed = git_push_response("## main", "done", true);
    assert_eq!(pushed.status_text, "## main\n\ndone");
    assert_eq!(pushed.summary, "反映しました。");
    let committed = git_push_response("## main", "", false);
    assert_eq!(committed.status_text, "## main");
    assert_eq!(committed.summary, "commit しました。");
}

#[test]
fn folder_dialog_outcomes() {
    assert_eq!(folder_pick_result(true, " /Users/a/log/ \n", "").unwrap(), "/Users/a/log/");
    assert_eq!(
        folder_pick_result(false, "", "execution error: User canceled. (-128)").unwrap_err(),
        "選択を取り消しました。"
    );
    assert_eq!(
        folder_pick_result(false, "", " boom \n").unwrap_err(),
        "フォルダを選べませんでした: boom"
    );
}

#[test]
fn a_full_sync_runs_each_command_once_in_order() {
    let outputs = |step: GitSyncStep| match step {
        GitSyncStep::Status => " M daily/2026/2026-03-12.md",
        GitSyncStep::Stage => "",
        GitSyncStep::ListStaged => "daily/2026/2026-03-12.md",
        GitSyncStep::Commit => "[main abc] log",
        GitSyncStep::Push => "pushed",
    };
    let mut action = sync_git_start();
    let mut steps = Vec::new();
    let finished = loop {
        match action {
            GitSyncAction::Run(step, _) => {
                steps.push(step);
                assert!(steps.len() <= 5);
                action = sync_git_changes(step, outputs(step), "log", true);
            }
            GitSyncAction::Finish(out) => break out,
        }
    };
    assert_eq!(
        steps,
        vec![
            GitSyncStep::Status,
            GitSyncStep::Stage,
            GitSyncStep::ListStaged,
            GitSyncStep::Commit,
            GitSyncStep::Push
        ]
    );
    assert_eq!(finished, "pushed");
}
