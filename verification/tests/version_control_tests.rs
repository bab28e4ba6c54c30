use yunexal_panel::version_control::{
    auto_sync_response, checkout_request, checkout_steps, commit_all_steps, commit_message,
    connect_request, connect_settings, connect_steps, effective_branch, failure, git_args,
    git_finished, git_not_started, git_status_response, github_authorize_url,
    github_callback_accepted, key, remote_action, remote_action_response, remote_action_steps,
    safe_join, status_queries, stored_github_token, sync_response, toggled_auto_sync,
    user_login_key, user_token_key, valid_branch, valid_repo_url, GitActionResponse,
    GitBranchForm, GitCommitForm, GitConnectForm, GitHubCallback, RemoteAction, SafeJoinError,
};

fn strings(v: &[&str]) -> Vec<String> {
    v.iter().map(|s| s.to_string()).collect()
}

fn resp(ok: bool, message: &str, output: &str) -> GitActionResponse {
    GitActionResponse { ok, message: message.to_string(), output: output.to_string() }
}

fn parts(r: GitActionResponse) -> (bool, String, String) {
    (r.ok, r.message, r.output)
}

fn expect(ok: bool, message: &str, output: &str) -> (bool, String, String) {
    (ok, message.to_string(), output.to_string())
}

#[test]
fn setting_keys() {
    assert_eq!(key(7, "repo_url"), "server.7.git.repo_url");
    assert_eq!(key(-3, "branch"), "server.-3.git.branch");
    assert_eq!(user_token_key(12), "user.12.github.access_token");
    assert_eq!(user_login_key(0), "user.0.github.login");
}

#[test]
fn branch_validation() {
    assert!(valid_branch("main"));
    assert!(valid_branch("  feature/x-1 "));
    assert!(!valid_branch(""));
    assert!(!valid_branch("   "));
    assert!(!valid_branch("-rf"));
    assert!(!valid_branch("a b"));
    assert!(!valid_branch("a..b"));
    assert!(!valid_branch("a~1"));
    assert!(!valid_branch("a^"));
    assert!(!valid_branch("a:b"));
    assert!(!valid_branch("a\\b"));
}

#[test]
fn repo_url_validation() {
    assert!(valid_repo_url("https://github.com/o/r.git"));
    assert!(valid_repo_url("  https://github.com/o/r.git  "));
    assert!(!valid_repo_url("http://github.com/o/r.git"));
    assert!(!valid_repo_url("git@github.com:o/r.git"));
    assert!(!valid_repo_url("https://github.com/o/r"));
    assert!(!valid_repo_url("https://github.com/o p/r.git"));
}

#[test]
fn safe_join_stays_inside_root() {
    assert_eq!(safe_join("/vol", "a/b.txt"), Ok("/vol/a/b.txt".to_string()));
    assert_eq!(safe_join("/vol", "///a//./b/"), Ok("/vol/a/b".to_string()));
    assert_eq!(safe_join("/vol", ""), Ok("/vol".to_string()));
    assert_eq!(safe_join("/vol/", "x"), Ok("/vol/x".to_string()));
    assert_eq!(safe_join("/vol", "a/../b"), Err(SafeJoinError::Traversal));
    assert_eq!(safe_join("/vol", ".."), Err(SafeJoinError::Traversal));
    assert_eq!(safe_join("/vol", "a..b"), Ok("/vol/a..b".to_string()));
    assert_eq!(SafeJoinError::Traversal.message(), "path traversal is not allowed");
}

#[test]
fn git_args_with_and_without_token() {
    let args = strings(&["pull", "origin", "main"]);
    assert_eq!(git_args(&args, &None), args);
    assert_eq!(git_args(&args, &Some("  ".to_string())), args);
    assert_eq!(
        git_args(&args, &Some("tok".to_string())),
        strings(&["-c", "http.extraHeader=AUTHORIZATION: bearer tok", "pull", "origin", "main"])
    );
}

#[test]
fn git_results() {
    let r = git_finished(true, " out \n", "");
    assert_eq!(parts(r), expect(true, "ok", "out"));
    let r = git_finished(false, "a", " b ");
    assert_eq!(parts(r), expect(false, "git command failed", "a\nb"));
    let r = git_finished(false, "", "err");
    assert_eq!(r.output, "err");
    assert_eq!(parts(git_not_started("no such file")), expect(false, "failed to start git", "no such file"));
    assert_eq!(parts(failure("invalid branch")), expect(false, "invalid branch", ""));
}

#[test]
fn stored_token_must_not_be_blank() {
    assert_eq!(stored_github_token(String::new()), None);
    assert_eq!(stored_github_token(" \n".to_string()), None);
    assert_eq!(stored_github_token("abc".to_string()), Some("abc".to_string()));
}

#[test]
fn status_report() {
    let q = status_queries();
    assert_eq!(q.len(), 3);
    assert_eq!(q[0].args, strings(&["branch", "--show-current"]));
    assert_eq!(q[1].args, strings(&["log", "-1", "--pretty=%h %s"]));
    assert_eq!(q[2].args, strings(&["status", "--short", "--branch"]));
    assert!(q.iter().all(|s| !s.use_token));

    let s = git_status_response(String::new(), String::new(), "0", false, None);
    assert!(!s.connected && !s.auto_sync && !s.is_repo);
    assert_eq!(s.status, "Repository is not initialized yet.");
    let s = git_status_response(
        "https://github.com/o/r.git".to_string(),
        "main".to_string(),
        "1",
        true,
        Some(("main".to_string(), "abc123 msg".to_string(), "## main".to_string())),
    );
    assert!(s.connected && s.auto_sync && s.is_repo && s.github_connected);
    assert_eq!((s.current_branch.as_str(), s.last_commit.as_str(), s.status.as_str()), ("main", "abc123 msg", "## main"));
}

#[test]
fn connect_form_validation() {
    let form = GitConnectForm {
        repo_url: " https://github.com/o/r.git ".to_string(),
        branch: "  ".to_string(),
        auto_sync: Some("on".to_string()),
    };
    let req = connect_request(&form).ok().unwrap();
    assert_eq!((req.repo.as_str(), req.branch.as_str(), req.auto_sync.as_str()), ("https://github.com/o/r.git", "main", "1"));
    let settings = connect_settings(5, &req);
    assert_eq!(settings[0], ("server.5.git.repo_url".to_string(), "https://github.com/o/r.git".to_string()));
    assert_eq!(settings[1], ("server.5.git.branch".to_string(), "main".to_string()));
    assert_eq!(settings[2], ("server.5.git.auto_sync".to_string(), "1".to_string()));

    let bad = GitConnectForm { repo_url: "https://gitlab.com/o/r.git".to_string(), branch: "dev".to_string(), auto_sync: None };
    let e = connect_request(&bad).err().unwrap();
    assert_eq!(parts(e), expect(false, "invalid GitHub repository URL or branch", ""));
    let bad = GitConnectForm { repo_url: "https://github.com/o/r.git".to_string(), branch: "a..b".to_string(), auto_sync: None };
    assert!(connect_request(&bad).is_err());
    let ok = GitConnectForm { repo_url: "https://github.com/o/r.git".to_string(), branch: "dev".to_string(), auto_sync: None };
    assert_eq!(connect_request(&ok).ok().unwrap().auto_sync, "0");
}

#[test]
fn connect_git_steps() {
    let s = connect_steps(true, "https://github.com/o/r.git", "dev");
    assert_eq!(s.len(), 2);
    assert_eq!(s[0].args, strings(&["remote", "set-url", "origin", "https://github.com/o/r.git"]));
    assert!(!s[0].use_token);
    assert_eq!(s[1].args, strings(&["fetch", "origin", "dev"]));
    assert!(s[1].use_token);
    let s = connect_steps(false, "https://github.com/o/r.git", "dev");
    assert_eq!(s.len(), 1);
    assert_eq!(s[0].args, strings(&["clone", "--branch", "dev", "https://github.com/o/r.git", "."]));
    assert!(s[0].use_token);
}

#[test]
fn remote_actions() {
    assert_eq!(remote_action("pull"), RemoteAction::Pull);
    assert_eq!(remote_action("push"), RemoteAction::Push);
    assert_eq!(remote_action("sync"), RemoteAction::Sync);
    assert_eq!(remote_action("anything"), RemoteAction::Sync);
    assert_eq!(effective_branch(String::new()), "main");
    assert_eq!(effective_branch("dev".to_string()), "dev");
    let s = remote_action_steps(RemoteAction::Sync, "dev");
    assert_eq!(s.len(), 2);
    assert_eq!(s[0].args, strings(&["pull", "origin", "dev"]));
    assert_eq!(s[1].args, strings(&["push", "origin", "dev"]));
    assert!(s.iter().all(|x| x.use_token));
    assert_eq!(remote_action_steps(RemoteAction::Push, "m")[0].args, strings(&["push", "origin", "m"]));
    assert_eq!(remote_action_steps(RemoteAction::Pull, "m").len(), 1);
}

#[test]
fn remote_action_reports() {
    assert_eq!(
        parts(sync_response(resp(true, "ok", "pulled"), resp(true, "ok", "pushed"))),
        expect(true, "sync complete", "pulled\npushed")
    );
    assert_eq!(
        parts(sync_response(resp(true, "ok", "pulled"), resp(false, "git command failed", "denied"))),
        expect(false, "git command failed", "pulled\ndenied")
    );
    assert_eq!(
        parts(remote_action_response(RemoteAction::Sync, vec![resp(false, "git command failed", "conflict")])),
        expect(false, "git command failed", "conflict")
    );
    assert_eq!(
        parts(remote_action_response(RemoteAction::Sync, vec![resp(true, "ok", "a"), resp(true, "ok", "b")])),
        expect(true, "sync complete", "a\nb")
    );
    assert_eq!(
        parts(remote_action_response(RemoteAction::Pull, vec![resp(true, "ok", "a")])),
        expect(true, "ok", "a")
    );
}

#[test]
fn checkout_and_commit() {
    assert_eq!(checkout_request(&GitBranchForm { branch: " dev ".to_string() }).ok(), Some("dev".to_string()));
    assert_eq!(
        parts(checkout_request(&GitBranchForm { branch: "-x".to_string() }).err().unwrap()),
        expect(false, "invalid branch", "")
    );
    assert_eq!(checkout_steps("dev")[0].args, strings(&["checkout", "dev"]));
    assert_eq!(commit_message(&GitCommitForm { message: None }), "Update server files from Yunexal Panel");
    assert_eq!(commit_message(&GitCommitForm { message: Some("  ".to_string()) }), "Update server files from Yunexal Panel");
    assert_eq!(commit_message(&GitCommitForm { message: Some(" fix ".to_string()) }), "fix");
    let s = commit_all_steps("fix");
    assert_eq!(s[0].args, strings(&["add", "."]));
    assert_eq!(s[1].args, strings(&["commit", "-m", "fix"]));
}

#[test]
fn auto_sync_toggle_twice_restores() {
    assert_eq!(toggled_auto_sync("1"), "0");
    assert_eq!(toggled_auto_sync("0"), "1");
    assert_eq!(toggled_auto_sync(""), "1");
    assert_eq!(toggled_auto_sync(toggled_auto_sync("1")), "1");
    assert_eq!(toggled_auto_sync(toggled_auto_sync("0")), "0");
    assert_eq!(parts(auto_sync_response("1")), expect(true, "auto-sync updated", "1"));
}

#[test]
fn github_oauth_url_is_percent_encoded() {
    assert_eq!(github_authorize_url("", "https://x"), None);
    assert_eq!(github_authorize_url("id", ""), None);
    assert_eq!(
        github_authorize_url("Iv1.ab_c~", "https://panel.example.com/auth/github/callback"),
        Some(
            "https://github.com/login/oauth/authorize?client_id=Iv1.ab_c~&redirect_uri=https%3A%2F%2Fpanel.example.com%2Fauth%2Fgithub%2Fcallback&scope=repo%20read:user"
                .to_string()
        )
    );
    assert_eq!(
        github_authorize_url("a b", "é"),
        Some("https://github.com/login/oauth/authorize?client_id=a%20b&redirect_uri=%C3%A9&scope=repo%20read:user".to_string())
    );
    assert!(github_callback_accepted(&GitHubCallback { code: Some("c".to_string()), error: None }));
    assert!(!github_callback_accepted(&GitHubCallback { code: Some("c".to_string()), error: Some("denied".to_string()) }));
    assert!(!github_callback_accepted(&GitHubCallback { code: None, error: None }));
}
