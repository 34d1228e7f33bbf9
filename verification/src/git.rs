//! Committing and pushing the log repository: the decisions between git commands, and
//! the reading of their output.
use vstd::prelude::*;
use crate::text::{trim, trim_str, contains, chars_of, contains_chars, str_result};
use crate::task::strings_view;

verus! {

broadcast use vstd::string::group_string_axioms;

/// The git commands of a sync, in the order they may run.
#[derive(Debug, Clone, Copy, PartialEq, Eq, Structural)]
pub enum GitSyncStep {
    Status,
    Stage,
    ListStaged,
    Commit,
    Push,
}

/// What a sync does next: run a git command with these arguments, or finish with this output.
#[derive(Debug)]
pub enum GitSyncAction {
    Run(GitSyncStep, Vec<String>),
    Finish(String),
}

/// The meaning of a sync action.
pub enum GitSyncPlan {
    Run(GitSyncStep, Seq<Seq<char>>),
    Finish(Seq<char>),
}

impl View for GitSyncAction {
    type V = GitSyncPlan;

    open spec fn view(&self) -> GitSyncPlan {
        match self {
            GitSyncAction::Run(s, args) => GitSyncPlan::Run(*s, strings_view(args@)),
            GitSyncAction::Finish(out) => GitSyncPlan::Finish(out@),
        }
    }
}

/// `git status --short`.
pub open spec fn status_args() -> Seq<Seq<char>> {
    seq!["status"@, "--short"@]
}

/// `git add` of the directories that hold the log.
pub open spec fn stage_args() -> Seq<Seq<char>> {
    seq!["add"@, "daily"@, "achievements"@, "reviews"@, "weekly"@, "tech-notes"@]
}

/// `git diff --cached --name-only`.
pub open spec fn list_staged_args() -> Seq<Seq<char>> {
    seq!["diff"@, "--cached"@, "--name-only"@]
}

/// `git commit -m <message>`.
pub open spec fn commit_args(message: Seq<char>) -> Seq<Seq<char>> {
    seq!["commit"@, "-m"@, message]
}

/// `git push origin main`.
pub open spec fn push_args() -> Seq<Seq<char>> {
    seq!["push"@, "origin"@, "main"@]
}

/// After the commit stage: push when asked, else finish with no output.
pub open spec fn push_or_finish(push: bool) -> GitSyncPlan {
    if push {
        GitSyncPlan::Run(GitSyncStep::Push, push_args())
    } else {
        GitSyncPlan::Finish(Seq::empty())
    }
}

/// The next action of a sync after `step` succeeded with `output`: stage only when the
/// status lists changes, commit only when something is staged, push only when asked, and
/// finish with the push's output (or nothing when not pushing).
pub open spec fn sync_next(step: GitSyncStep, output: Seq<char>, message: Seq<char>, push: bool) -> GitSyncPlan {
    match step {
        GitSyncStep::Status => if trim(output).len() > 0 {
            GitSyncPlan::Run(GitSyncStep::Stage, stage_args())
        } else {
            push_or_finish(push)
        },
        GitSyncStep::Stage => GitSyncPlan::Run(GitSyncStep::ListStaged, list_staged_args()),
        GitSyncStep::ListStaged => if trim(output).len() > 0 {
            GitSyncPlan::Run(GitSyncStep::Commit, commit_args(message))
        } else {
            push_or_finish(push)
        },
        GitSyncStep::Commit => push_or_finish(push),
        GitSyncStep::Push => GitSyncPlan::Finish(output),
    }
}

fn words(ws: &[&str]) -> (v: Vec<String>)
    ensures
        strings_view(v@) == Seq::new(ws@.len(), |i: int| ws@[i]@),
{
    let mut v: Vec<String> = Vec::new();
    let mut i: usize = 0;
    while i < ws.len()
        invariant
            i <= ws@.len(),
            v@.len() == i,
            forall|k: int| 0 <= k < i ==> #[trigger] v@[k]@ == ws@[k]@,
        decreases ws@.len() - i,
    {
        let ghost before = strings_view(v@);
        let w: &str = ws[i];
        let ws_i = w.to_string();
        assert(ws_i@ == ws@[i as int]@);
        v.push(ws_i);
        i = i + 1;
    }
    assert(strings_view(v@) =~= Seq::new(ws@.len(), |i: int| ws@[i]@));
    v
}

fn push_or_finish_exec(push: bool) -> (a: GitSyncAction)
    ensures
        a@ == push_or_finish(push),
{
    if push {
        let args = words(&["push", "origin", "main"]);
        assert(strings_view(args@) =~= push_args());
        GitSyncAction::Run(GitSyncStep::Push, args)
    } else {
        GitSyncAction::Finish(String::new())
    }
}

/// The first command of a sync: `git status --short`.
pub fn sync_git_start() -> (a: GitSyncAction)
    ensures
        a@ == GitSyncPlan::Run(GitSyncStep::Status, status_args()),
{
    let args = words(&["status", "--short"]);
    assert(strings_view(args@) =~= status_args());
    GitSyncAction::Run(GitSyncStep::Status, args)
}

/// The next action of a sync after `step` succeeded with `output` (see `sync_next`).
pub fn sync_git_changes(step: GitSyncStep, output: &str, commit_message: &str, push: bool) -> (a:
    GitSyncAction)
    ensures
        a@ == sync_next(step, output@, commit_message@, push),
{
    match step {
        GitSyncStep::Status => {
            if trim_str(output).unicode_len() > 0 {
                let args = words(&["add", "daily", "achievements", "reviews", "weekly", "tech-notes"]);
                assert(strings_view(args@) =~= stage_args());
                GitSyncAction::Run(GitSyncStep::Stage, args)
            } else {
                push_or_finish_exec(push)
            }
        },
        GitSyncStep::Stage => {
            let args = words(&["diff", "--cached", "--name-only"]);
            assert(strings_view(args@) =~= list_staged_args());
            GitSyncAction::Run(GitSyncStep::ListStaged, args)
        },
        GitSyncStep::ListStaged => {
            if trim_str(output).unicode_len() > 0 {
                let args = words(&["commit", "-m", commit_message]);
                assert(strings_view(args@) =~= commit_args(commit_message@));
                GitSyncAction::Run(GitSyncStep::Commit, args)
            } else {
                push_or_finish_exec(push)
            }
        },
        GitSyncStep::Commit => push_or_finish_exec(push),
        GitSyncStep::Push => GitSyncAction::Finish(output.to_string()),
    }
}

/// A sync runs `git push` only when a push was asked for; when one was asked for, it
/// finishes only after the push.
pub proof fn lemma_push_only_when_asked(step: GitSyncStep, output: Seq<char>, message: Seq<char>, push: bool)
    ensures
        (sync_next(step, output, message, push) matches GitSyncPlan::Run(s, _) && s == GitSyncStep::Push) ==> push,
        (push && sync_next(step, output, message, push) is Finish) ==> step == GitSyncStep::Push,
{
}

/// The position of a step in a sync: status, stage, list staged, commit, push.
pub open spec fn step_rank(step: GitSyncStep) -> nat {
    match step {
        GitSyncStep::Status => 0,
        GitSyncStep::Stage => 1,
        GitSyncStep::ListStaged => 2,
        GitSyncStep::Commit => 3,
        GitSyncStep::Push => 4,
    }
}

/// Every command that a sync runs next comes later in the sync than the one before, so a
/// sync runs at most five commands and then finishes.
pub proof fn lemma_sync_moves_forward(step: GitSyncStep, output: Seq<char>, message: Seq<char>, push: bool)
    ensures
        sync_next(step, output, message, push) matches GitSyncPlan::Run(s, _) ==> step_rank(s) > step_rank(step),
        step == GitSyncStep::Push ==> sync_next(step, output, message, push) is Finish,
{
}

/// Words joined by single spaces.
pub open spec fn join_words(ws: Seq<Seq<char>>) -> Seq<char>
    decreases ws.len(),
{
    if ws.len() == 0 {
        Seq::empty()
    } else if ws.len() == 1 {
        ws[0]
    } else {
        join_words(ws.drop_last()) + seq![' '] + ws.last()
    }
}

/// What a git command gives back: on success its trimmed output and error output, one per
/// line, either alone when the other is blank; on failure an error naming the command with
/// the trimmed error output, or the output when that is blank.
pub open spec fn git_result(args: Seq<Seq<char>>, success: bool, stdout: Seq<char>, stderr: Seq<char>) -> Result<Seq<char>, Seq<char>> {
    let out = trim(stdout);
    let err = trim(stderr);
    if success {
        if out.len() == 0 {
            Ok(err)
        } else if err.len() == 0 {
            Ok(out)
        } else {
            Ok(out + seq!['\n'] + err)
        }
    } else {
        Err("git "@ + join_words(args) + " に失敗しました: "@ + if err.len() > 0 {
            err
        } else {
            out
        })
    }
}

/// What a git command gives back (see `git_result`).
pub fn git_command_result(args: &[String], success: bool, stdout: &str, stderr: &str) -> (r: Result<
    String,
    String,
>)
    ensures
        str_result(r) == git_result(strings_view(args@), success, stdout@, stderr@),
{
    let out = trim_str(stdout);
    let err = trim_str(stderr);
    if success {
        if out.unicode_len() == 0 {
            Ok(err)
        } else if err.unicode_len() == 0 {
            Ok(out)
        } else {
            let mut s = out;
            s.append("\n");
            s.append(err.as_str());
            proof {
                reveal_strlit("\n");
            }
            assert(s@ =~= out@ + seq!['\n'] + err@);
            Ok(s)
        }
    } else {
        let mut joined = String::new();
        let ghost sv = strings_view(args@);
        let mut i: usize = 0;
        while i < args.len()
            invariant
                i <= args@.len(),
                sv == strings_view(args@),
                joined@ == join_words(sv.take(i as int)),
            decreases args@.len() - i,
        {
            assert(sv.take(i + 1).drop_last() == sv.take(i as int));
            if i > 0 {
                joined.append(" ");
                proof {
                    reveal_strlit(" ");
                }
            }
            joined.append(args[i].as_str());
            proof {
                if i == 0 {
                    assert(sv.take(1) =~= seq![sv[0]]);
                }
            }
            i = i + 1;
        }
        assert(sv.take(i as int) == sv);
        let mut e = "git ".to_string();
        e.append(joined.as_str());
        e.append(" に失敗しました: ");
        if err.unicode_len() > 0 {
            e.append(err.as_str());
        } else {
            e.append(out.as_str());
        }
        assert(e@ =~= "git "@ + join_words(sv) + " に失敗しました: "@ + (if err@.len() > 0 {
            err@
        } else {
            out@
        }));
        Err(e)
    }
}

/// `{first}\n\n{second}`, trimmed.
pub open spec fn two_blocks(first: Seq<char>, second: Seq<char>) -> Seq<char> {
    trim(first + seq!['\n', '\n'] + second)
}

/// The status shown after git commands: two outputs separated by a blank line, trimmed.
pub fn git_status_text(first: &str, second: &str) -> (s: String)
    ensures
        s@ == two_blocks(first@, second@),
{
    let mut s = first.to_string();
    s.append("\n\n");
    s.append(second);
    proof {
        reveal_strlit("\n\n");
        assert("\n\n"@ =~= seq!['\n', '\n']);
    }
    trim_str(s.as_str())
}

/// The answer to a commit request: the repository status and what was done.
#[derive(Debug)]
pub struct GitPushResponse {
    pub status_text: String,
    pub summary: String,
}

/// The answer to a commit request: the status after the sync followed by the sync's output,
/// and "反映しました。" when pushed or "commit しました。" otherwise.
pub fn git_push_response(status_after: &str, sync_output: &str, push: bool) -> (r: GitPushResponse)
    ensures
        r.status_text@ == two_blocks(status_after@, sync_output@),
        r.summary@ == (if push {
            "反映しました。"@
        } else {
            "commit しました。"@
        }),
{
    GitPushResponse {
        status_text: git_status_text(status_after, sync_output),
        summary: if push {
            "反映しました。".to_string()
        } else {
            "commit しました。".to_string()
        },
    }
}

/// The outcome of the folder dialog: the chosen path trimmed; a cancellation (exit code
/// `-128` in the error output); or the trimmed error output.
pub open spec fn folder_pick(success: bool, stdout: Seq<char>, stderr: Seq<char>) -> Result<Seq<char>, Seq<char>> {
    if success {
        Ok(trim(stdout))
    } else if contains(stderr, "-128"@) {
        Err("選択を取り消しました。"@)
    } else {
        Err("フォルダを選べませんでした: "@ + trim(stderr))
    }
}

/// The outcome of the folder dialog (see `folder_pick`).
pub fn folder_pick_result(success: bool, stdout: &str, stderr: &str) -> (r: Result<String, String>)
    ensures
        str_result(r) == folder_pick(success, stdout@, stderr@),
{
    if success {
        Ok(trim_str(stdout))
    } else {
        let e = chars_of(stderr);
        if contains_chars(e.as_slice(), chars_of("-128").as_slice()) {
            Err("選択を取り消しました。".to_string())
        } else {
            let mut m = "フォルダを選べませんでした: ".to_string();
            let t = trim_str(stderr);
            m.append(t.as_str());
            Err(m)
        }
    }
}

} // verus!
