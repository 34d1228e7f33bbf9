//! The app's settings: where the log repository is, and when saving commits or pushes.
use vstd::prelude::*;
use crate::text::{trim, trim_str, starts_with, chars_of, starts_with_chars, string_of, str_result};
use crate::task::strings_view;

verus! {

broadcast use vstd::string::group_string_axioms;

/// The stored settings.
#[derive(Debug, Clone)]
pub struct AppSettings {
    pub workspace_path: Option<String>,
    pub auto_commit_on_save: bool,
    pub auto_push_on_save: bool,
}

impl Default for AppSettings {
    /// No workspace, and saving neither commits nor pushes.
    fn default() -> (s: AppSettings)
        ensures
            s.workspace_path is None,
            !s.auto_commit_on_save,
            !s.auto_push_on_save,
    {
        AppSettings { workspace_path: None, auto_commit_on_save: false, auto_push_on_save: false }
    }
}

/// The settings as shown to the user.
#[derive(Debug)]
pub struct WorkspaceSettingsResponse {
    pub workspace_path: String,
    pub configured: bool,
    pub auto_commit_on_save: bool,
    pub auto_push_on_save: bool,
}

/// The text of an optional path, empty when there is none.
pub open spec fn path_text(p: Option<String>) -> Seq<char> {
    match p {
        Some(s) => s@,
        None => Seq::empty(),
    }
}

/// The settings as shown: the workspace path (empty when unset), configured exactly when
/// that path is not empty, and the two save options.
pub fn settings_response(settings: &AppSettings) -> (r: WorkspaceSettingsResponse)
    ensures
        r.workspace_path@ == path_text(settings.workspace_path),
        r.configured == (path_text(settings.workspace_path).len() > 0),
        r.auto_commit_on_save == settings.auto_commit_on_save,
        r.auto_push_on_save == settings.auto_push_on_save,
{
    let path = match &settings.workspace_path {
        Some(p) => p.clone(),
        None => String::new(),
    };
    let configured = path.unicode_len() > 0;
    WorkspaceSettingsResponse {
        workspace_path: path,
        configured,
        auto_commit_on_save: settings.auto_commit_on_save,
        auto_push_on_save: settings.auto_push_on_save,
    }
}

/// The settings to store: the resolved workspace path, pushing on save as asked, and
/// committing on save when asked or when pushing (a push needs a commit).
pub fn saved_settings(workspace_path: &str, auto_commit_on_save: bool, auto_push_on_save: bool) -> (s:
    AppSettings)
    ensures
        s.workspace_path matches Some(p) && p@ == workspace_path@,
        s.auto_commit_on_save == (auto_commit_on_save || auto_push_on_save),
        s.auto_push_on_save == auto_push_on_save,
        s.auto_push_on_save ==> s.auto_commit_on_save,
{
    AppSettings {
        workspace_path: Some(workspace_path.to_string()),
        auto_commit_on_save: auto_commit_on_save || auto_push_on_save,
        auto_push_on_save,
    }
}

/// The settings as shown after saving them: configured, with the stored options.
pub fn saved_settings_response(
    workspace_path: &str,
    auto_commit_on_save: bool,
    auto_push_on_save: bool,
) -> (r: WorkspaceSettingsResponse)
    ensures
        r.workspace_path@ == workspace_path@,
        r.configured,
        r.auto_commit_on_save == (auto_commit_on_save || auto_push_on_save),
        r.auto_push_on_save == auto_push_on_save,
{
    WorkspaceSettingsResponse {
        workspace_path: workspace_path.to_string(),
        configured: true,
        auto_commit_on_save: auto_commit_on_save || auto_push_on_save,
        auto_push_on_save,
    }
}

/// A workspace path as typed: below the home directory (after `~/`), or as written.
#[derive(Debug)]
pub enum WorkspaceRequest {
    Home(String),
    Path(String),
}

/// The meaning of a typed workspace path.
pub enum WorkspacePlace {
    Home(Seq<char>),
    Path(Seq<char>),
}

/// The meaning of a read workspace path or of its error.
pub open spec fn request_result(r: Result<WorkspaceRequest, String>) -> Result<WorkspacePlace, Seq<char>> {
    match r {
        Ok(WorkspaceRequest::Home(s)) => Ok(WorkspacePlace::Home(s@)),
        Ok(WorkspaceRequest::Path(s)) => Ok(WorkspacePlace::Path(s@)),
        Err(e) => Err(e@),
    }
}

/// A typed workspace path, trimmed: an error when blank, a home-relative path after `~/`,
/// otherwise the path as written.
pub open spec fn workspace_place(path: Seq<char>) -> Result<WorkspacePlace, Seq<char>> {
    let t = trim(path);
    if t.len() == 0 {
        Err("保存先のパスを入力してください。"@)
    } else if starts_with(t, seq!['~', '/']) {
        Ok(WorkspacePlace::Home(t.skip(2)))
    } else {
        Ok(WorkspacePlace::Path(t))
    }
}

/// A typed workspace path (see `workspace_place`).
pub fn workspace_request(path: &str) -> (r: Result<WorkspaceRequest, String>)
    ensures
        request_result(r) == workspace_place(path@),
{
    let t = trim_str(path);
    let v = chars_of(t.as_str());
    if v.len() == 0 {
        return Err("保存先のパスを入力してください。".to_string());
    }
    proof {
        reveal_strlit("~/");
        assert("~/"@ =~= seq!['~', '/']);
    }
    if starts_with_chars(v.as_slice(), chars_of("~/").as_slice()) {
        let rest = vstd::slice::slice_subrange(v.as_slice(), 2, v.len());
        assert(rest@ == t@.skip(2));
        Ok(WorkspaceRequest::Home(string_of(rest)))
    } else {
        Ok(WorkspaceRequest::Path(t))
    }
}

/// The configured workspace path, or the error asking to set one.
pub fn configured_workspace(path: Option<String>) -> (r: Result<String, String>)
    ensures
        str_result(r) == (match path {
            Some(p) => Ok::<Seq<char>, Seq<char>>(p@),
            None => Err::<Seq<char>, Seq<char>>("保存先を設定してください。"@),
        }),
{
    match path {
        Some(p) => Ok(p),
        None => Err("保存先を設定してください。".to_string()),
    }
}

/// The directories that a workspace holds.
pub open spec fn workspace_dirs() -> Seq<Seq<char>> {
    seq!["daily"@, "achievements"@, "reviews"@, "weekly"@, "tech-notes"@, ".work-log-state"@]
}

/// The directories that a workspace holds.
pub fn workspace_directories() -> (v: Vec<String>)
    ensures
        strings_view(v@) == workspace_dirs(),
{
    let mut v: Vec<String> = Vec::new();
    v.push("daily".to_string());
    v.push("achievements".to_string());
    v.push("reviews".to_string());
    v.push("weekly".to_string());
    v.push("tech-notes".to_string());
    v.push(".work-log-state".to_string());
    assert(strings_view(v@) =~= workspace_dirs());
    v
}

/// The ignore file of the editing-state directory: everything but itself.
pub fn state_gitignore() -> (s: String)
    ensures
        s@ == "*\n!.gitignore\n"@,
{
    "*\n!.gitignore\n".to_string()
}

} // verus!
