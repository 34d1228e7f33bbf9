use work_log::settings::{
    configured_workspace, saved_settings, saved_settings_response, settings_response,
    state_gitignore, workspace_directories, workspace_request, AppSettings, WorkspaceRequest,
};

#[test]
fn default_settings_are_unconfigured() {
    let s = AppSettings::default();
    assert!(s.workspace_path.is_none());
    assert!(!s.auto_commit_on_save);
    assert!(!s.auto_push_on_save);
    let r = settings_response(&s);
    assert_eq!(r.workspace_path, "");
    assert!(!r.configured);
}

#[test]
fn configured_settings_are_shown() {
    let s = AppSettings {
        workspace_path: Some("/w".to_string()),
        auto_commit_on_save: true,
        auto_push_on_save: false,
    };
    let r = settings_response(&s);
    assert_eq!(r.workspace_path, "/w");
    assert!(r.configured);
    assert!(r.auto_commit_on_save);
    assert!(!r.auto_push_on_save);
    let empty = AppSettings {
        workspace_path: Some(String::new()),
        auto_commit_on_save: false,
        auto_push_on_save: false,
    };
    assert!(!settings_response(&empty).configured);
}

#[test]
fn pushing_on_save_implies_committing() {
    let s = saved_settings("/w", false, true);
    assert_eq!(s.workspace_path.as_deref(), Some("/w"));
    assert!(s.auto_commit_on_save);
    assert!(s.auto_push_on_save);
    let t = saved_settings("/w", false, false);
    assert!(!t.auto_commit_on_save);
    assert!(!t.auto_push_on_save);
    let r = saved_settings_response("/w", false, true);
    assert!(r.configured);
    assert!(r.auto_commit_on_save);
    assert_eq!(r.workspace_path, "/w");
}

#[test]
fn typed_workspace_paths() {
    match workspace_request("  ~/logs/work ") {
        Ok(WorkspaceRequest::Home(rest)) => assert_eq!(rest, "logs/work"),
        _ => panic!("expected a home path"),
    }
    match workspace_request(" /var/log ") {
        Ok(WorkspaceRequest::Path(p)) => assert_eq!(p, "/var/log"),
        _ => panic!("expected a plain path"),
    }
    match workspace_request("~") {
        Ok(WorkspaceRequest::Path(p)) => assert_eq!(p, "~"),
        _ => panic!("expected a plain path"),
    }
    match workspace_request(" \t ") {
        Err(e) => assert_eq!(e, "保存先のパスを入力してください。"),
        _ => panic!("expected an error"),
    }
}

#[test]
fn workspace_must_be_configured() {
    assert_eq!(configured_workspace(None).unwrap_err(), "保存先を設定してください。");
    assert_eq!(configured_workspace(Some("/w".to_string())).unwrap(), "/w");
}

#[test]
fn workspace_layout() {
    assert_eq!(
        workspace_directories(),
        vec!["daily", "achievements", "reviews", "weekly", "tech-notes", ".work-log-state"]
    );
    assert_eq!(state_gitignore(), "*\n!.gitignore\n");
}
