//! Git-backed version control of a container volume: settings keys, validation of
//! repository URLs and branch names, confinement of paths to the volume root, the git
//! invocations of each action and how their results are reported.
use vstd::prelude::*;
use crate::text;

verus! {

/// The state of a volume's repository as reported to the panel.
#[derive(Debug)]
pub struct GitStatusResponse {
    pub connected: bool,
    pub github_connected: bool,
    pub repo_url: String,
    pub branch: String,
    pub auto_sync: bool,
    pub is_repo: bool,
    pub current_branch: String,
    pub last_commit: String,
    pub status: String,
}

/// The result of a git action.
#[derive(Debug)]
pub struct GitActionResponse {
    pub ok: bool,
    pub message: String,
    pub output: String,
}

/// The form that connects a volume to a repository.
#[derive(Debug)]
pub struct GitConnectForm {
    pub repo_url: String,
    pub branch: String,
    pub auto_sync: Option<String>,
}

/// The form that selects a branch.
#[derive(Debug)]
pub struct GitBranchForm {
    pub branch: String,
}

/// The form of a commit of all changes.
#[derive(Debug)]
pub struct GitCommitForm {
    pub message: Option<String>,
}

/// The query of the GitHub OAuth callback.
#[derive(Debug)]
pub struct GitHubCallback {
    pub code: Option<String>,
    pub error: Option<String>,
}

/// One git invocation: its arguments, and whether it authenticates with the user's
/// GitHub token.
pub struct GitStep {
    pub args: Vec<String>,
    pub use_token: bool,
}

pub open spec fn response_view(r: GitActionResponse) -> (bool, Seq<char>, Seq<char>) {
    (r.ok, r.message@, r.output@)
}

// ───────────────────────── settings keys ─────────────────────────

/// `server.<id>.git.<name>`.
pub open spec fn spec_key(server_id: i64, name: Seq<char>) -> Seq<char> {
    "server."@ + text::signed_decimal(server_id as int) + ".git."@ + name
}

/// The panel setting that holds the git setting `name` of server `server_id`.
pub fn key(server_id: i64, name: &str) -> (r: String)
    ensures
        r@ == spec_key(server_id, name@),
{
    let mut r = String::from_str("server.");
    text::push_signed_decimal(&mut r, server_id);
    r.append(".git.");
    r.append(name);
    r
}

/// `user.<id>.github.access_token`.
pub open spec fn spec_user_token_key(user_id: i64) -> Seq<char> {
    "user."@ + text::signed_decimal(user_id as int) + ".github.access_token"@
}

/// The panel setting that holds a user's GitHub access token.
pub fn user_token_key(user_id: i64) -> (r: String)
    ensures
        r@ == spec_user_token_key(user_id),
{
    let mut r = String::from_str("user.");
    text::push_signed_decimal(&mut r, user_id);
    r.append(".github.access_token");
    r
}

/// `user.<id>.github.login`.
pub open spec fn spec_user_login_key(user_id: i64) -> Seq<char> {
    "user."@ + text::signed_decimal(user_id as int) + ".github.login"@
}

/// The panel setting that holds a user's GitHub login.
pub fn user_login_key(user_id: i64) -> (r: String)
    ensures
        r@ == spec_user_login_key(user_id),
{
    let mut r = String::from_str("user.");
    text::push_signed_decimal(&mut r, user_id);
    r.append(".github.login");
    r
}

// ───────────────────────── validation ─────────────────────────

/// A branch name the panel accepts: after trimming it is not empty, does not start
/// with `-`, and holds no space, `..`, `~`, `^`, `:` or `\`.
pub open spec fn spec_valid_branch(v: Seq<char>) -> bool {
    let s = text::trim(v);
    &&& s.len() > 0
    &&& !text::has_prefix(s, "-"@)
    &&& !s.contains(' ')
    &&& !text::has_substring(s, ".."@)
    &&& !s.contains('~')
    &&& !s.contains('^')
    &&& !s.contains(':')
    &&& !s.contains('\\')
}

/// Whether `v` is an acceptable branch name.
pub fn valid_branch(v: &str) -> (r: bool)
    ensures
        r == spec_valid_branch(v@),
{
    let s = text::trim_str(v);
    s.len() > 0 && !text::starts_with_str(&s, "-") && !text::contains_char(&s, ' ')
        && !text::contains_str(&s, "..") && !text::contains_char(&s, '~')
        && !text::contains_char(&s, '^') && !text::contains_char(&s, ':')
        && !text::contains_char(&s, '\\')
}

/// A repository URL the panel accepts: after trimming, an HTTPS GitHub URL ending in
/// `.git`, without spaces.
pub open spec fn spec_valid_repo_url(v: Seq<char>) -> bool {
    let s = text::trim(v);
    text::has_prefix(s, "https://github.com/"@) && text::has_suffix(s, ".git"@) && !s.contains(' ')
}

/// Whether `v` is an acceptable repository URL.
pub fn valid_repo_url(v: &str) -> (r: bool)
    ensures
        r == spec_valid_repo_url(v@),
{
    let s = text::trim_str(v);
    text::starts_with_str(&s, "https://github.com/") && text::ends_with_str(&s, ".git")
        && !text::contains_char(&s, ' ')
}

// ───────────────────────── confinement to the volume ─────────────────────────

/// Why a relative path was refused.
#[derive(Debug, Clone, Copy, PartialEq, Eq, Structural)]
pub enum SafeJoinError {
    /// A `..` component.
    Traversal,
}

impl SafeJoinError {
    /// The message reported for the refusal.
    pub fn message(&self) -> (r: &'static str)
        ensures
            r@ == "path traversal is not allowed"@,
    {
        "path traversal is not allowed"
    }
}

/// `s` without its leading slashes.
pub open spec fn strip_leading_slashes(s: Seq<char>) -> Seq<char>
    decreases s.len(),
{
    if s.len() > 0 && s[0] == '/' {
        strip_leading_slashes(s.drop_first())
    } else {
        s
    }
}

/// The `/`-separated components of a relative path.
pub open spec fn rel_components(rel: Seq<char>) -> Seq<Seq<char>> {
    text::split_char(strip_leading_slashes(rel), '/')
}

/// Joins the components `parts` onto `acc`, skipping empty and `.` components; a `..`
/// component refuses the whole path.
pub open spec fn join_components(acc: Seq<char>, parts: Seq<Seq<char>>) -> Result<Seq<char>, SafeJoinError>
    decreases parts.len(),
{
    if parts.len() == 0 {
        Ok(acc)
    } else if parts[0].len() == 0 || parts[0] == "."@ {
        join_components(acc, parts.drop_first())
    } else if parts[0] == ".."@ {
        Err(SafeJoinError::Traversal)
    } else {
        join_components(crate::host::path_join(acc, parts[0]), parts.drop_first())
    }
}

/// `rel` resolved under `root`: its components are appended one by one; empty and `.`
/// components are skipped and any `..` component refuses the path.
pub open spec fn spec_safe_join(root: Seq<char>, rel: Seq<char>) -> Result<Seq<char>, SafeJoinError> {
    join_components(root, rel_components(rel))
}

/// `rel` resolved under `root`, refused when it would step out of `root`.
pub fn safe_join(root: &str, rel: &str) -> (r: Result<String, SafeJoinError>)
    ensures
        match spec_safe_join(root@, rel@) {
            Ok(p) => r matches Ok(x) && x@ == p,
            Err(e) => r == Err::<String, SafeJoinError>(e),
        },
{
    let rv = text::chars_of(rel);
    let mut start: usize = 0;
    assert(rv@.subrange(0, rv@.len() as int) =~= rv@);
    while start < rv.len() && rv[start] == '/'
        invariant
            start <= rv@.len(),
            strip_leading_slashes(rv@) == strip_leading_slashes(rv@.subrange(start as int, rv@.len() as int)),
        decreases rv@.len() - start,
    {
        proof {
            assert(rv@.subrange(start as int, rv@.len() as int).drop_first() =~= rv@.subrange(start + 1, rv@.len() as int));
        }
        start = start + 1;
    }
    assert(rv@.subrange(0, rv@.len() as int) =~= rv@);
    let trimmed = text::sub_vec(&rv, start, rv.len());
    proof {
        if start < rv@.len() {
            assert(rv@.subrange(start as int, rv@.len() as int)[0] == rv@[start as int]);
        }
        assert(strip_leading_slashes(rv@) == trimmed@);
    }
    let parts = text::split_on(&trimmed, '/');
    let mut out = text::chars_of(root);
    let n = parts.len();
    let mut i: usize = 0;
    let ghost pv = text::views(parts@);
    assert(pv.subrange(0, n as int) =~= pv);
    while i < n
        invariant
            n == parts@.len(),
            i <= n,
            pv == text::views(parts@),
            pv == rel_components(rel@),
            spec_safe_join(root@, rel@) == join_components(out@, pv.subrange(i as int, n as int)),
        decreases n - i,
    {
        let ghost rest = pv.subrange(i as int, n as int);
        proof {
            assert(rest[0] == parts@[i as int]@);
            assert(rest.drop_first() =~= pv.subrange(i + 1, n as int));
        }
        let part = &parts[i];
        if part.len() == 0 || text::chars_eq_str(part, ".") {
        } else if text::chars_eq_str(part, "..") {
            return Err(SafeJoinError::Traversal);
        } else {
            out = crate::host::join_path(&out, part);
        }
        i = i + 1;
    }
    Ok(text::string_of(&out))
}

/// The components that a resolved path keeps: the non-empty ones other than `.`.
pub open spec fn kept_components(parts: Seq<Seq<char>>) -> Seq<Seq<char>>
    decreases parts.len(),
{
    if parts.len() == 0 {
        seq![]
    } else if parts[0].len() == 0 || parts[0] == "."@ {
        kept_components(parts.drop_first())
    } else {
        seq![parts[0]] + kept_components(parts.drop_first())
    }
}

/// `parts` appended to `acc` one by one.
pub open spec fn append_all(acc: Seq<char>, parts: Seq<Seq<char>>) -> Seq<char>
    decreases parts.len(),
{
    if parts.len() == 0 {
        acc
    } else {
        append_all(crate::host::path_join(acc, parts[0]), parts.drop_first())
    }
}

proof fn lemma_split_no_slash(s: Seq<char>, c: char)
    ensures
        forall|k: int| 0 <= k < text::split_char(s, c).len() ==> !(#[trigger] text::split_char(s, c)[k]).contains(c),
    decreases s.len(),
{
    text::lemma_find_char(s, c);
    let f = text::find_char(s, c);
    if f < s.len() {
        lemma_split_no_slash(s.subrange(f + 1, s.len() as int), c);
        let head = s.subrange(0, f);
        assert forall|k: int| 0 <= k < text::split_char(s, c).len() implies !(#[trigger] text::split_char(s, c)[k]).contains(c) by {
            if k == 0 {
                if head.contains(c) {
                    let j = choose|j: int| 0 <= j < head.len() && head[j] == c;
                    assert(s[j] == c);
                }
            } else {
                assert(text::split_char(s, c)[k] == text::split_char(s.subrange(f + 1, s.len() as int), c)[k - 1]);
            }
        }
    } else {
        assert forall|k: int| 0 <= k < text::split_char(s, c).len() implies !(#[trigger] text::split_char(s, c)[k]).contains(c) by {
            if s.contains(c) {
                let j = choose|j: int| 0 <= j < s.len() && s[j] == c;
            }
        }
    }
}

proof fn lemma_join_components(acc: Seq<char>, parts: Seq<Seq<char>>)
    requires
        forall|k: int| 0 <= k < parts.len() ==> !(#[trigger] parts[k]).contains('/'),
    ensures
        join_components(acc, parts) is Ok <==> !parts.contains(".."@),
        join_components(acc, parts) is Ok ==> join_components(acc, parts) == Ok::<Seq<char>, SafeJoinError>(append_all(acc, kept_components(parts))),
        join_components(acc, parts) is Ok ==> text::has_prefix(append_all(acc, kept_components(parts)), acc),
        forall|k: int| 0 <= k < kept_components(parts).len() ==> {
            let c = #[trigger] kept_components(parts)[k];
            c.len() > 0 && c != "."@ && c != ".."@ && !c.contains('/')
        } || parts.contains(".."@),
    decreases parts.len(),
{
    reveal_strlit("..");
    reveal_strlit(".");
    assert(acc.subrange(0, acc.len() as int) =~= acc);
    if parts.len() > 0 {
        let rest = parts.drop_first();
        assert forall|k: int| 0 <= k < rest.len() implies !(#[trigger] rest[k]).contains('/') by {
            assert(rest[k] == parts[k + 1]);
        }
        let p = parts[0];
        assert(!p.contains('/')) by {
            assert(!parts[0].contains('/'));
        }
        if p.len() == 0 || p == "."@ {
            lemma_join_components(acc, rest);
            if rest.contains(".."@) {
                let j = choose|j: int| 0 <= j < rest.len() && rest[j] == ".."@;
                assert(parts[j + 1] == ".."@);
            }
            if parts.contains(".."@) {
                let j = choose|j: int| 0 <= j < parts.len() && parts[j] == ".."@;
                assert(j > 0);
                assert(rest[j - 1] == ".."@);
            }
        } else if p == ".."@ {
            assert(parts[0] == ".."@);
        } else {
            let next = crate::host::path_join(acc, p);
            lemma_join_components(next, rest);
            if rest.contains(".."@) {
                let j = choose|j: int| 0 <= j < rest.len() && rest[j] == ".."@;
                assert(parts[j + 1] == ".."@);
            }
            if parts.contains(".."@) {
                let j = choose|j: int| 0 <= j < parts.len() && parts[j] == ".."@;
                assert(j > 0);
                assert(rest[j - 1] == ".."@);
            }
            assert(kept_components(parts) == seq![p] + kept_components(rest));
            assert((seq![p] + kept_components(rest)).drop_first() =~= kept_components(rest));
            assert(text::has_prefix(next, acc)) by {
                assert(p[0] != '/') by {
                    if p[0] == '/' {
                        assert(p.contains('/'));
                    }
                }
                assert(next.subrange(0, acc.len() as int) =~= acc);
            }
            if join_components(acc, parts) is Ok {
                let full = append_all(next, kept_components(rest));
                assert(full.subrange(0, acc.len() as int) =~= full.subrange(0, next.len() as int).subrange(0, acc.len() as int));
            }
            assert forall|k: int| 0 <= k < kept_components(parts).len() implies {
                let c = #[trigger] kept_components(parts)[k];
                c.len() > 0 && c != "."@ && c != ".."@ && !c.contains('/')
            } || parts.contains(".."@) by {
                if k > 0 {
                    assert(kept_components(parts)[k] == kept_components(rest)[k - 1]);
                }
            }
        }
    }
}

/// A path resolved under a root stays inside it: the result is refused exactly when
/// the relative path has a `..` component, and otherwise it is the root followed by
/// the relative path's non-empty, non-`.` components, none of which holds a `/` or is
/// `..`.
pub proof fn lemma_safe_join_confined(root: Seq<char>, rel: Seq<char>)
    ensures
        spec_safe_join(root, rel) is Err <==> rel_components(rel).contains(".."@),
        spec_safe_join(root, rel) is Ok ==> {
            let p = spec_safe_join(root, rel)->Ok_0;
            let kept = kept_components(rel_components(rel));
            &&& p == append_all(root, kept)
            &&& text::has_prefix(p, root)
            &&& forall|k: int|
                0 <= k < kept.len() ==> {
                    let c = #[trigger] kept[k];
                    c.len() > 0 && c != "."@ && c != ".."@ && !c.contains('/')
                }
        },
{
    let parts = rel_components(rel);
    lemma_split_no_slash(strip_leading_slashes(rel), '/');
    lemma_join_components(root, parts);
}

// ───────────────────────── running git ─────────────────────────

/// The header option that authenticates git with `token`.
pub open spec fn auth_header_option(token: Seq<char>) -> Seq<char> {
    "http.extraHeader=AUTHORIZATION: bearer "@ + token
}

/// The git arguments for `args`, preceded by `-c <auth header>` when a token that is
/// not blank is given.
pub open spec fn spec_git_args(args: Seq<Seq<char>>, token: Option<Seq<char>>) -> Seq<Seq<char>> {
    match token {
        Some(t) => if text::trim(t).len() > 0 {
            seq!["-c"@, auth_header_option(t)] + args
        } else {
            args
        },
        None => args,
    }
}

/// The arguments of a git invocation.
pub fn git_args(args: &Vec<String>, token: &Option<String>) -> (r: Vec<String>)
    ensures
        text::string_views(r@) == spec_git_args(text::string_views(args@), text::opt_string_view(*token)),
{
    let mut r: Vec<String> = Vec::new();
    match token {
        Some(t) => {
            let tt = text::trim_str(t.as_str());
            if tt.len() > 0 {
                r.push(String::from_str("-c"));
                let mut h = String::from_str("http.extraHeader=AUTHORIZATION: bearer ");
                h.append(t.as_str());
                r.push(h);
            }
        },
        None => {},
    }
    let ghost start = text::string_views(r@);
    let mut i: usize = 0;
    while i < args.len()
        invariant
            i <= args@.len(),
            text::string_views(r@) == start + text::string_views(args@).subrange(0, i as int),
        decreases args@.len() - i,
    {
        let ghost before = text::string_views(r@);
        r.push(args[i].clone());
        proof {
            assert(text::string_views(r@) =~= before.push(args@[i as int]@));
            assert(text::string_views(args@).subrange(0, i + 1) =~= text::string_views(args@).subrange(0, i as int).push(args@[i as int]@));
        }
        i = i + 1;
    }
    assert(text::string_views(args@).subrange(0, args@.len() as int) =~= text::string_views(args@));
    r
}

/// The text of a finished git command: its trimmed standard output and standard error,
/// the non-empty ones, joined by a newline.
pub open spec fn spec_git_output(stdout: Seq<char>, stderr: Seq<char>) -> Seq<char> {
    let o = text::trim(stdout);
    let e = text::trim(stderr);
    if o.len() > 0 && e.len() > 0 {
        o + "\n"@ + e
    } else if o.len() > 0 {
        o
    } else {
        e
    }
}

/// The report of a finished git command: ok when it succeeded, with message `ok` or
/// `git command failed`.
pub fn git_finished(success: bool, stdout: &str, stderr: &str) -> (r: GitActionResponse)
    ensures
        r.ok == success,
        r.message@ == (if success { "ok"@ } else { "git command failed"@ }),
        r.output@ == spec_git_output(stdout@, stderr@),
{
    let o = text::trimmed_string(stdout);
    let e = text::trimmed_string(stderr);
    let output = if o.as_str().unicode_len() > 0 && e.as_str().unicode_len() > 0 {
        let mut x = o;
        x.append("\n");
        x.append(e.as_str());
        x
    } else if o.as_str().unicode_len() > 0 {
        o
    } else {
        e
    };
    GitActionResponse {
        ok: success,
        message: if success {
            String::from_str("ok")
        } else {
            String::from_str("git command failed")
        },
        output,
    }
}

/// The report of a git command that could not be started.
pub fn git_not_started(error: &str) -> (r: GitActionResponse)
    ensures
        !r.ok,
        r.message@ == "failed to start git"@,
        r.output@ == error@,
{
    GitActionResponse {
        ok: false,
        message: String::from_str("failed to start git"),
        output: String::from_str(error),
    }
}

/// A failed action with `message` and no output.
pub fn failure(message: &str) -> (r: GitActionResponse)
    ensures
        !r.ok,
        r.message@ == message@,
        r.output@ == Seq::<char>::empty(),
{
    let out = String::new();
    GitActionResponse { ok: false, message: String::from_str(message), output: out }
}

/// The stored GitHub token when it is not blank.
pub fn stored_github_token(setting: String) -> (r: Option<String>)
    ensures
        r is Some <==> text::trim(setting@).len() > 0,
        r matches Some(t) ==> t@ == setting@,
{
    let t = text::trim_str(setting.as_str());
    if t.len() == 0 {
        None
    } else {
        Some(setting)
    }
}

fn strings_of(items: &[&str]) -> (r: Vec<String>)
    ensures
        text::string_views(r@) == crate::host::strs_view(items@),
{
    let mut r: Vec<String> = Vec::new();
    let mut i: usize = 0;
    while i < items.len()
        invariant
            i <= items@.len(),
            text::string_views(r@) == crate::host::strs_view(items@).subrange(0, i as int),
        decreases items@.len() - i,
    {
        let ghost before = text::string_views(r@);
        r.push(String::from_str(items[i]));
        proof {
            assert(text::string_views(r@) =~= before.push(items@[i as int]@));
            assert(crate::host::strs_view(items@).subrange(0, i + 1) =~= crate::host::strs_view(items@).subrange(0, i as int).push(items@[i as int]@));
        }
        i = i + 1;
    }
    assert(crate::host::strs_view(items@).subrange(0, items@.len() as int) =~= crate::host::strs_view(items@));
    r
}

fn step(items: &[&str], use_token: bool) -> (r: GitStep)
    ensures
        text::string_views(r.args@) == crate::host::strs_view(items@),
        r.use_token == use_token,
{
    GitStep { args: strings_of(items), use_token }
}

/// The step to run next in a sequence of `total` git steps, given the reports of those
/// that ran: the following one while every step so far succeeded, none after a failure
/// or once all have run.
pub open spec fn spec_next_git_step(results: Seq<GitActionResponse>, total: nat) -> Option<nat> {
    if results.len() < total && (results.len() == 0 || results.last().ok) {
        Some(results.len())
    } else {
        None
    }
}

/// The step to run next.
pub fn next_git_step(results: &Vec<GitActionResponse>, total: usize) -> (r: Option<usize>)
    ensures
        match spec_next_git_step(results@, total as nat) {
            Some(k) => r == Some(k as usize),
            None => r is None,
        },
{
    let n = results.len();
    if n < total && (n == 0 || results[n - 1].ok) {
        Some(n)
    } else {
        None
    }
}

// ───────────────────────── status ─────────────────────────

/// The git invocations that describe a repository: current branch, last commit, and
/// short status.
pub fn status_queries() -> (r: Vec<GitStep>)
    ensures
        r@.len() == 3,
        text::string_views(r@[0].args@) == seq!["branch"@, "--show-current"@],
        text::string_views(r@[1].args@) == seq!["log"@, "-1"@, "--pretty=%h %s"@],
        text::string_views(r@[2].args@) == seq!["status"@, "--short"@, "--branch"@],
        forall|k: int| 0 <= k < 3 ==> !(#[trigger] r@[k]).use_token,
{
    let a = step(&["branch", "--show-current"], false);
    let b = step(&["log", "-1", "--pretty=%h %s"], false);
    let c = step(&["status", "--short", "--branch"], false);
    assert(crate::host::strs_view(seq!["branch", "--show-current"]) =~= seq!["branch"@, "--show-current"@]);
    assert(crate::host::strs_view(seq!["log", "-1", "--pretty=%h %s"]) =~= seq!["log"@, "-1"@, "--pretty=%h %s"@]);
    assert(crate::host::strs_view(seq!["status", "--short", "--branch"]) =~= seq!["status"@, "--short"@, "--branch"@]);
    let mut r: Vec<GitStep> = Vec::new();
    r.push(a);
    r.push(b);
    r.push(c);
    r
}

/// The status report of a volume. `repo_outputs` holds, when the volume is a
/// repository, the outputs of the three [`status_queries`].
pub fn git_status_response(
    repo_url: String,
    branch: String,
    auto_sync_setting: &str,
    github_connected: bool,
    repo_outputs: Option<(String, String, String)>,
) -> (r: GitStatusResponse)
    ensures
        r.connected == (repo_url@.len() > 0),
        r.github_connected == github_connected,
        r.repo_url@ == repo_url@,
        r.branch@ == branch@,
        r.auto_sync == (auto_sync_setting@ == "1"@),
        r.is_repo == repo_outputs is Some,
        match repo_outputs {
            Some(o) => r.current_branch@ == o.0@ && r.last_commit@ == o.1@ && r.status@ == o.2@,
            None => r.current_branch@ == Seq::<char>::empty() && r.last_commit@ == Seq::<char>::empty()
                && r.status@ == "Repository is not initialized yet."@,
        },
{
    let connected = repo_url.as_str().unicode_len() > 0;
    let auto_sync = text::str_eq(auto_sync_setting, "1");
    let is_repo = repo_outputs.is_some();
    let (current_branch, last_commit, status) = match repo_outputs {
        Some(o) => o,
        None => (String::new(), String::new(), String::from_str("Repository is not initialized yet.")),
    };
    GitStatusResponse {
        connected,
        github_connected,
        repo_url,
        branch,
        auto_sync,
        is_repo,
        current_branch,
        last_commit,
        status,
    }
}

// ───────────────────────── connect ─────────────────────────

/// A validated request to connect a volume to a repository.
pub struct ConnectRequest {
    pub repo: String,
    pub branch: String,
    /// The value stored for the auto-sync setting: `1` or `0`.
    pub auto_sync: String,
}

/// The branch of a connect form: the trimmed branch, `main` when blank.
pub open spec fn connect_branch(b: Seq<char>) -> Seq<char> {
    if text::trim(b).len() == 0 {
        "main"@
    } else {
        text::trim(b)
    }
}

/// The message of a refused connect form.
pub open spec fn invalid_connect_message() -> Seq<char> {
    "invalid GitHub repository URL or branch"@
}

/// Validates a connect form: the trimmed URL and the branch (`main` when blank) must be
/// acceptable.
pub fn connect_request(form: &GitConnectForm) -> (r: Result<ConnectRequest, GitActionResponse>)
    ensures
        match r {
            Ok(c) => spec_valid_repo_url(form.repo_url@) && spec_valid_branch(connect_branch(form.branch@))
                && c.repo@ == text::trim(form.repo_url@) && c.branch@ == connect_branch(form.branch@)
                && c.auto_sync@ == (if form.auto_sync is Some { "1"@ } else { "0"@ }),
            Err(e) => !(spec_valid_repo_url(form.repo_url@) && spec_valid_branch(connect_branch(form.branch@)))
                && !e.ok && e.message@ == invalid_connect_message() && e.output@ == Seq::<char>::empty(),
        },
{
    let repo = text::trimmed_string(form.repo_url.as_str());
    let b = text::trimmed_string(form.branch.as_str());
    let branch = if b.as_str().unicode_len() == 0 {
        String::from_str("main")
    } else {
        b
    };
    proof {
        lemma_trim_idempotent(form.repo_url@);
    }
    if !valid_repo_url(repo.as_str()) || !valid_branch(branch.as_str()) {
        return Err(failure("invalid GitHub repository URL or branch"));
    }
    let auto_sync = if form.auto_sync.is_some() {
        String::from_str("1")
    } else {
        String::from_str("0")
    };
    Ok(ConnectRequest { repo, branch, auto_sync })
}

proof fn lemma_trim_start_no_lead(s: Seq<char>)
    ensures
        text::trim_start(s).len() == 0 || !text::unicode_white_space(text::trim_start(s)[0]),
        text::trim_start(text::trim_start(s)) == text::trim_start(s),
    decreases s.len(),
{
    if s.len() > 0 && text::unicode_white_space(s[0]) {
        lemma_trim_start_no_lead(s.drop_first());
    }
}

proof fn lemma_trim_end_keeps_start(s: Seq<char>)
    requires
        s.len() == 0 || !text::unicode_white_space(s[0]),
    ensures
        text::trim_end(s).len() == 0 || (!text::unicode_white_space(text::trim_end(s)[0])
            && !text::unicode_white_space(text::trim_end(s).last())),
        text::trim_end(text::trim_end(s)) == text::trim_end(s),
    decreases s.len(),
{
    if s.len() > 0 && text::unicode_white_space(s.last()) {
        if s.len() > 1 {
            assert(s.drop_last()[0] == s[0]);
        }
        lemma_trim_end_keeps_start(s.drop_last());
    }
}

/// Trimming twice is trimming once.
pub proof fn lemma_trim_idempotent(s: Seq<char>)
    ensures
        text::trim(text::trim(s)) == text::trim(s),
{
    lemma_trim_start_no_lead(s);
    let a = text::trim_start(s);
    lemma_trim_end_keeps_start(a);
    let t = text::trim_end(a);
    if t.len() > 0 {
        assert(text::trim_start(t) == t);
    } else {
        assert(text::trim_start(t) == t);
    }
}

/// The git invocations that connect a volume: when it already holds a repository,
/// point `origin` at `repo` and fetch `branch` (with the token); otherwise clone `branch`
/// of `repo` into it (with the token). They run in order until one fails.
pub fn connect_steps(has_git_dir: bool, repo: &str, branch: &str) -> (r: Vec<GitStep>)
    ensures
        has_git_dir ==> r@.len() == 2 && text::string_views(r@[0].args@) == seq!["remote"@, "set-url"@, "origin"@, repo@]
            && !r@[0].use_token && text::string_views(r@[1].args@) == seq!["fetch"@, "origin"@, branch@]
            && r@[1].use_token,
        !has_git_dir ==> r@.len() == 1 && text::string_views(r@[0].args@) == seq!["clone"@, "--branch"@, branch@, repo@, "."@]
            && r@[0].use_token,
{
    let mut r: Vec<GitStep> = Vec::new();
    if has_git_dir {
        let a = step(&["remote", "set-url", "origin", repo], false);
        let b = step(&["fetch", "origin", branch], true);
        assert(crate::host::strs_view(seq!["remote", "set-url", "origin", repo]) =~= seq!["remote"@, "set-url"@, "origin"@, repo@]);
        assert(crate::host::strs_view(seq!["fetch", "origin", branch]) =~= seq!["fetch"@, "origin"@, branch@]);
        r.push(a);
        r.push(b);
    } else {
        let a = step(&["clone", "--branch", branch, repo, "."], true);
        assert(crate::host::strs_view(seq!["clone", "--branch", branch, repo, "."]) =~= seq!["clone"@, "--branch"@, branch@, repo@, "."@]);
        r.push(a);
    }
    r
}

/// The settings stored after a successful connect: repository URL, branch and
/// auto-sync flag of the server.
pub fn connect_settings(server_id: i64, req: &ConnectRequest) -> (r: Vec<(String, String)>)
    ensures
        r@.len() == 3,
        r@[0].0@ == spec_key(server_id, "repo_url"@) && r@[0].1@ == req.repo@,
        r@[1].0@ == spec_key(server_id, "branch"@) && r@[1].1@ == req.branch@,
        r@[2].0@ == spec_key(server_id, "auto_sync"@) && r@[2].1@ == req.auto_sync@,
{
    let mut r: Vec<(String, String)> = Vec::new();
    r.push((key(server_id, "repo_url"), req.repo.clone()));
    r.push((key(server_id, "branch"), req.branch.clone()));
    r.push((key(server_id, "auto_sync"), req.auto_sync.clone()));
    r
}

// ───────────────────────── pull, push, sync ─────────────────────────

/// A remote action.
#[derive(Debug, Clone, Copy, PartialEq, Eq, Structural)]
pub enum RemoteAction {
    Pull,
    Push,
    Sync,
}

/// The remote action named `action`: `pull`, `push`, anything else a sync.
pub open spec fn spec_remote_action(action: Seq<char>) -> RemoteAction {
    if action == "pull"@ {
        RemoteAction::Pull
    } else if action == "push"@ {
        RemoteAction::Push
    } else {
        RemoteAction::Sync
    }
}

/// The remote action named `action`.
pub fn remote_action(action: &str) -> (r: RemoteAction)
    ensures
        r == spec_remote_action(action@),
{
    if text::str_eq(action, "pull") {
        RemoteAction::Pull
    } else if text::str_eq(action, "push") {
        RemoteAction::Push
    } else {
        RemoteAction::Sync
    }
}

/// The branch a remote action works on: the stored branch, `main` when none is stored.
pub fn effective_branch(setting: String) -> (r: String)
    ensures
        r@ == (if setting@.len() == 0 { "main"@ } else { setting@ }),
{
    if setting.as_str().unicode_len() == 0 {
        String::from_str("main")
    } else {
        setting
    }
}

/// The git invocations of a remote action on `branch`, all with the token: a pull,
/// a push, or for a sync a pull then a push. They run in order until one fails.
pub fn remote_action_steps(action: RemoteAction, branch: &str) -> (r: Vec<GitStep>)
    ensures
        forall|k: int| 0 <= k < r@.len() ==> (#[trigger] r@[k]).use_token,
        action == RemoteAction::Pull ==> r@.len() == 1 && text::string_views(r@[0].args@) == seq!["pull"@, "origin"@, branch@],
        action == RemoteAction::Push ==> r@.len() == 1 && text::string_views(r@[0].args@) == seq!["push"@, "origin"@, branch@],
        action == RemoteAction::Sync ==> r@.len() == 2 && text::string_views(r@[0].args@) == seq!["pull"@, "origin"@, branch@]
            && text::string_views(r@[1].args@) == seq!["push"@, "origin"@, branch@],
{
    let mut r: Vec<GitStep> = Vec::new();
    assert(crate::host::strs_view(seq!["pull", "origin", branch]) =~= seq!["pull"@, "origin"@, branch@]);
    assert(crate::host::strs_view(seq!["push", "origin", branch]) =~= seq!["push"@, "origin"@, branch@]);
    match action {
        RemoteAction::Pull => {
            r.push(step(&["pull", "origin", branch], true));
        },
        RemoteAction::Push => {
            r.push(step(&["push", "origin", branch], true));
        },
        RemoteAction::Sync => {
            r.push(step(&["pull", "origin", branch], true));
            r.push(step(&["push", "origin", branch], true));
        },
    }
    r
}

/// The report of a sync whose pull succeeded: the push decides success, the message is
/// `sync complete` or the push's message, and the output is both outputs on two lines.
pub fn sync_response(pull: GitActionResponse, push: GitActionResponse) -> (r: GitActionResponse)
    ensures
        r.ok == push.ok,
        r.message@ == (if push.ok { "sync complete"@ } else { push.message@ }),
        r.output@ == pull.output@ + "\n"@ + push.output@,
{
    let mut output = pull.output;
    output.append("\n");
    output.append(push.output.as_str());
    GitActionResponse {
        ok: push.ok,
        message: if push.ok {
            String::from_str("sync complete")
        } else {
            push.message
        },
        output,
    }
}

/// The report of a remote action from the reports of the steps that ran (they stop at
/// the first failure): for a sync whose pull and push both ran, [`sync_response`];
/// otherwise the last report.
pub fn remote_action_response(action: RemoteAction, results: Vec<GitActionResponse>) -> (r: GitActionResponse)
    requires
        results@.len() >= 1,
    ensures
        action == RemoteAction::Sync && results@.len() >= 2 ==> r.ok == results@[1].ok
            && r.message@ == (if results@[1].ok { "sync complete"@ } else { results@[1].message@ })
            && r.output@ == results@[0].output@ + "\n"@ + results@[1].output@,
        !(action == RemoteAction::Sync && results@.len() >= 2) ==> response_view(r) == response_view(results@[results@.len() - 1]),
{
    let mut results = results;
    let ghost orig = results@;
    let n = results.len();
    if action == RemoteAction::Sync && n >= 2 {
        let mut rest = results.split_off(1);
        let first = results.pop().unwrap();
        let second = rest.remove(0);
        assert(first == orig[0]);
        assert(second == orig[1]);
        sync_response(first, second)
    } else {
        let last = results.pop().unwrap();
        last
    }
}

// ───────────────────────── checkout, commit, auto-sync ─────────────────────────

/// Validates a checkout form: the branch must be acceptable; the trimmed branch is
/// checked out.
pub fn checkout_request(form: &GitBranchForm) -> (r: Result<String, GitActionResponse>)
    ensures
        match r {
            Ok(b) => spec_valid_branch(form.branch@) && b@ == text::trim(form.branch@),
            Err(e) => !spec_valid_branch(form.branch@) && !e.ok && e.message@ == "invalid branch"@
                && e.output@ == Seq::<char>::empty(),
        },
{
    if !valid_branch(form.branch.as_str()) {
        return Err(failure("invalid branch"));
    }
    Ok(text::trimmed_string(form.branch.as_str()))
}

/// The git invocation that checks out `branch`.
pub fn checkout_steps(branch: &str) -> (r: Vec<GitStep>)
    ensures
        r@.len() == 1,
        text::string_views(r@[0].args@) == seq!["checkout"@, branch@],
        !r@[0].use_token,
{
    assert(crate::host::strs_view(seq!["checkout", branch]) =~= seq!["checkout"@, branch@]);
    let mut r: Vec<GitStep> = Vec::new();
    r.push(step(&["checkout", branch], false));
    r
}

/// The commit message: the trimmed message of the form, or the panel's default when it
/// is absent or blank.
pub open spec fn spec_commit_message(m: Option<Seq<char>>) -> Seq<char> {
    match m {
        Some(x) => if text::trim(x).len() > 0 {
            text::trim(x)
        } else {
            "Update server files from Yunexal Panel"@
        },
        None => "Update server files from Yunexal Panel"@,
    }
}

/// The message of a commit of all changes.
pub fn commit_message(form: &GitCommitForm) -> (r: String)
    ensures
        r@ == spec_commit_message(text::opt_string_view(form.message)),
{
    match &form.message {
        Some(m) => {
            let t = text::trimmed_string(m.as_str());
            if t.as_str().unicode_len() > 0 {
                t
            } else {
                String::from_str("Update server files from Yunexal Panel")
            }
        },
        None => String::from_str("Update server files from Yunexal Panel"),
    }
}

/// The git invocations of a commit of all changes: stage everything, then commit with
/// `message`. They run in order until one fails.
pub fn commit_all_steps(message: &str) -> (r: Vec<GitStep>)
    ensures
        r@.len() == 2,
        text::string_views(r@[0].args@) == seq!["add"@, "."@],
        text::string_views(r@[1].args@) == seq!["commit"@, "-m"@, message@],
        !r@[0].use_token && !r@[1].use_token,
{
    assert(crate::host::strs_view(seq!["add", "."]) =~= seq!["add"@, "."@]);
    assert(crate::host::strs_view(seq!["commit", "-m", message]) =~= seq!["commit"@, "-m"@, message@]);
    let mut r: Vec<GitStep> = Vec::new();
    r.push(step(&["add", "."], false));
    r.push(step(&["commit", "-m", message], false));
    r
}

/// The auto-sync setting after a toggle: `0` when it was `1`, `1` otherwise.
pub open spec fn spec_toggled_auto_sync(current: Seq<char>) -> Seq<char> {
    if current == "1"@ {
        "0"@
    } else {
        "1"@
    }
}

/// The auto-sync setting after a toggle.
pub fn toggled_auto_sync(current: &str) -> (r: &'static str)
    ensures
        r@ == spec_toggled_auto_sync(current@),
{
    if text::str_eq(current, "1") {
        "0"
    } else {
        "1"
    }
}

/// The report of a toggle that stored `new_value`.
pub fn auto_sync_response(new_value: &str) -> (r: GitActionResponse)
    ensures
        r.ok,
        r.message@ == "auto-sync updated"@,
        r.output@ == new_value@,
{
    GitActionResponse {
        ok: true,
        message: String::from_str("auto-sync updated"),
        output: String::from_str(new_value),
    }
}

/// Toggling twice restores a setting that was `0` or `1`; any other value becomes `1`
/// after one toggle.
pub proof fn lemma_toggle_twice(current: Seq<char>)
    ensures
        (current == "0"@ || current == "1"@) ==> spec_toggled_auto_sync(spec_toggled_auto_sync(current)) == current,
        spec_toggled_auto_sync(current) == "0"@ || spec_toggled_auto_sync(current) == "1"@,
{
    reveal_strlit("0");
    reveal_strlit("1");
}

// ───────────────────────── GitHub OAuth ─────────────────────────

/// A byte that percent-encoding keeps as it is: ASCII letters and digits, `-`, `.`,
/// `_` and `~`.
pub open spec fn is_unreserved(b: u8) -> bool {
    (48 <= b <= 57) || (65 <= b <= 90) || (97 <= b <= 122) || b == 45 || b == 46 || b == 95 || b
        == 126
}

/// Upper-case hexadecimal digit of `d` (below 16).
pub open spec fn hex_upper(d: u8) -> char {
    if d < 10 {
        ((48 + d) as u8) as char
    } else {
        ((55 + d) as u8) as char
    }
}

/// Percent-encoding of bytes: every byte but the unreserved ones becomes `%` and two
/// upper-case hex digits.
pub open spec fn percent_encode(bytes: Seq<u8>) -> Seq<char>
    decreases bytes.len(),
{
    if bytes.len() == 0 {
        seq![]
    } else {
        let b = bytes[0];
        (if is_unreserved(b) {
            seq![b as char]
        } else {
            seq!['%', hex_upper(b >> 4), hex_upper(b & 15)]
        }) + percent_encode(bytes.drop_first())
    }
}

/// Calls `urlencoding::encode`, which percent-encodes the UTF-8 bytes of `s`: every byte
/// except ASCII letters, digits, `-`, `.`, `_` and `~` becomes `%XX` with upper-case
/// hex digits.
#[verifier::external_body]
pub(crate) fn url_encode(s: &str) -> (r: String)
    ensures
        r@ == percent_encode(vstd::utf8::encode_utf8(s@)),
{
    urlencoding::encode(s).into_owned()
}

/// The GitHub authorization URL for the OAuth app `client_id` returning to `redirect`.
pub open spec fn spec_github_authorize_url(client_id: Seq<char>, redirect: Seq<char>) -> Option<Seq<char>> {
    if client_id.len() == 0 || redirect.len() == 0 {
        None
    } else {
        Some(
            "https://github.com/login/oauth/authorize?client_id="@ + percent_encode(
                vstd::utf8::encode_utf8(client_id),
            ) + "&redirect_uri="@ + percent_encode(vstd::utf8::encode_utf8(redirect))
                + "&scope=repo%20read:user"@,
        )
    }
}

/// The URL that starts the GitHub OAuth flow, or nothing when the app is not configured.
pub fn github_authorize_url(client_id: &str, redirect: &str) -> (r: Option<String>)
    ensures
        text::opt_string_view(r) == spec_github_authorize_url(client_id@, redirect@),
{
    if client_id.unicode_len() == 0 || redirect.unicode_len() == 0 {
        return None;
    }
    let mut url = String::from_str("https://github.com/login/oauth/authorize?client_id=");
    let c = url_encode(client_id);
    url.append(c.as_str());
    url.append("&redirect_uri=");
    let d = url_encode(redirect);
    url.append(d.as_str());
    url.append("&scope=repo%20read:user");
    Some(url)
}

/// The OAuth callback carries a code and no error.
pub fn github_callback_accepted(q: &GitHubCallback) -> (r: bool)
    ensures
        r == (q.error is None && q.code is Some),
{
    q.error.is_none() && q.code.is_some()
}

} // verus!
