//! Per-server member permissions: the capabilities a member can hold on a server, the
//! policy modes, the defaults given to a new member, and how a stored policy answers
//! read, write and any-access questions.
use vstd::prelude::*;
use crate::text;

verus! {

/// One stored permission policy of a server member, with the member's identity.
#[derive(Debug, Clone)]
pub struct ServerMemberPermissionEntry {
    pub user_id: i64,
    pub username: String,
    pub uid: String,
    pub nickname: String,
    pub permission: String,
    pub mode: String,
}

/// The capabilities a server member can hold, in order.
pub open spec fn spec_server_member_permissions() -> Seq<Seq<char>> {
    seq!["console"@, "files"@, "networking"@, "audit"@, "settings"@, "power"@, "members"@]
}

/// The capabilities a server member can hold, in order.
pub fn server_member_permissions() -> (r: Vec<&'static str>)
    ensures
        crate::host::strs_view(r@) == spec_server_member_permissions(),
{
    let r = vec!["console", "files", "networking", "audit", "settings", "power", "members"];
    assert(crate::host::strs_view(r@) =~= spec_server_member_permissions());
    r
}

/// `p` names one of the member capabilities.
pub open spec fn spec_is_valid_member_permission(p: Seq<char>) -> bool {
    spec_server_member_permissions().contains(p)
}

/// Whether `permission` names a member capability.
pub fn is_valid_member_permission(permission: &str) -> (r: bool)
    ensures
        r == spec_is_valid_member_permission(permission@),
{
    let ps = server_member_permissions();
    let mut i: usize = 0;
    while i < ps.len()
        invariant
            i <= ps@.len(),
            crate::host::strs_view(ps@) == spec_server_member_permissions(),
            forall|j: int| 0 <= j < i ==> ps@[j]@ != permission@,
        decreases ps@.len() - i,
    {
        if text::str_eq(ps[i], permission) {
            assert(spec_server_member_permissions()[i as int] == permission@);
            return true;
        }
        i = i + 1;
    }
    proof {
        if spec_server_member_permissions().contains(permission@) {
            let j = choose|j: int| 0 <= j < 7 && spec_server_member_permissions()[j] == permission@;
            assert(ps@[j]@ == spec_server_member_permissions()[j]);
        }
    }
    false
}

/// `m` is a policy mode: `none`, `read` or `write`.
pub open spec fn spec_is_valid_policy_mode(m: Seq<char>) -> bool {
    m == "none"@ || m == "read"@ || m == "write"@
}

/// Whether `mode` is a policy mode.
pub fn is_valid_policy_mode(mode: &str) -> (r: bool)
    ensures
        r == spec_is_valid_policy_mode(mode@),
{
    text::str_eq(mode, "none") || text::str_eq(mode, "read") || text::str_eq(mode, "write")
}

/// The mode a new member gets for `permission`: `read` for `audit`, `none` for
/// `members`, `write` for everything else.
pub open spec fn spec_default_member_mode(permission: Seq<char>) -> Seq<char> {
    if permission == "audit"@ {
        "read"@
    } else if permission == "members"@ {
        "none"@
    } else {
        "write"@
    }
}

/// The mode a new member gets for `permission`.
pub fn default_member_mode(permission: &str) -> (r: &'static str)
    ensures
        r@ == spec_default_member_mode(permission@),
{
    if text::str_eq(permission, "audit") {
        "read"
    } else if text::str_eq(permission, "members") {
        "none"
    } else {
        "write"
    }
}

/// The policies given to a new member: every capability with its default mode, in the
/// order of the capabilities. A policy already stored for a capability is kept.
pub fn default_member_policies() -> (r: Vec<(&'static str, &'static str)>)
    ensures
        r@.len() == spec_server_member_permissions().len(),
        forall|k: int|
            0 <= k < r@.len() ==> (#[trigger] r@[k]).0@ == spec_server_member_permissions()[k]
                && r@[k].1@ == spec_default_member_mode(spec_server_member_permissions()[k]),
{
    let ps = server_member_permissions();
    let mut r: Vec<(&'static str, &'static str)> = Vec::new();
    let mut i: usize = 0;
    while i < ps.len()
        invariant
            i <= ps@.len(),
            crate::host::strs_view(ps@) == spec_server_member_permissions(),
            r@.len() == i,
            forall|k: int|
                0 <= k < i ==> (#[trigger] r@[k]).0@ == spec_server_member_permissions()[k]
                    && r@[k].1@ == spec_default_member_mode(spec_server_member_permissions()[k]),
        decreases ps@.len() - i,
    {
        let p = ps[i];
        proof {
            assert(spec_server_member_permissions()[i as int] == p@);
        }
        r.push((p, default_member_mode(p)));
        i = i + 1;
    }
    r
}

/// Why a policy update was refused.
#[derive(Debug, Clone, Copy, PartialEq, Eq, Structural)]
pub enum MemberPolicyError {
    InvalidPermission,
    InvalidMode,
}

impl MemberPolicyError {
    /// The message reported for the refusal.
    pub fn message(&self) -> (r: &'static str)
        ensures
            r@ == (match *self {
                MemberPolicyError::InvalidPermission => "invalid permission"@,
                MemberPolicyError::InvalidMode => "invalid mode"@,
            }),
    {
        match self {
            MemberPolicyError::InvalidPermission => "invalid permission",
            MemberPolicyError::InvalidMode => "invalid mode",
        }
    }
}

/// Checks a policy update before it is stored: the permission must be a member
/// capability and the mode a policy mode (the permission is checked first).
pub fn check_member_policy(permission: &str, mode: &str) -> (r: Result<(), MemberPolicyError>)
    ensures
        r == (if !spec_is_valid_member_permission(permission@) {
            Err(MemberPolicyError::InvalidPermission)
        } else if !spec_is_valid_policy_mode(mode@) {
            Err(MemberPolicyError::InvalidMode)
        } else {
            Ok(())
        }),
{
    if !is_valid_member_permission(permission) {
        return Err(MemberPolicyError::InvalidPermission);
    }
    if !is_valid_policy_mode(mode) {
        return Err(MemberPolicyError::InvalidMode);
    }
    Ok(())
}

pub open spec fn opt_str_view(o: Option<&str>) -> Option<Seq<char>> {
    match o {
        Some(s) => Some(s@),
        None => None,
    }
}

/// A stored mode grants reading: `read` or `write`, for a valid capability.
pub open spec fn spec_read_granted(permission: Seq<char>, stored_mode: Option<Seq<char>>) -> bool {
    spec_is_valid_member_permission(permission) && (stored_mode == Some("read"@) || stored_mode
        == Some("write"@))
}

/// A stored mode grants writing: `write`, for a valid capability.
pub open spec fn spec_write_granted(permission: Seq<char>, stored_mode: Option<Seq<char>>) -> bool {
    spec_is_valid_member_permission(permission) && stored_mode == Some("write"@)
}

/// Whether the mode stored for `permission` (none when no policy is stored) lets the
/// member read.
pub fn read_permission_granted(permission: &str, stored_mode: Option<&str>) -> (r: bool)
    ensures
        r == spec_read_granted(permission@, opt_str_view(stored_mode)),
{
    if !is_valid_member_permission(permission) {
        return false;
    }
    match stored_mode {
        Some(m) => text::str_eq(m, "read") || text::str_eq(m, "write"),
        None => false,
    }
}

/// Whether the mode stored for `permission` lets the member write.
pub fn write_permission_granted(permission: &str, stored_mode: Option<&str>) -> (r: bool)
    ensures
        r == spec_write_granted(permission@, opt_str_view(stored_mode)),
{
    if !is_valid_member_permission(permission) {
        return false;
    }
    match stored_mode {
        Some(m) => text::str_eq(m, "write"),
        None => false,
    }
}

/// The capabilities that count for access to a server at all.
pub open spec fn spec_is_access_permission(p: Seq<char>) -> bool {
    p == "console"@ || p == "files"@ || p == "networking"@ || p == "audit"@ || p == "settings"@
}

/// A stored policy `(permission, mode)` gives access to the server.
pub open spec fn spec_row_gives_access(row: (Seq<char>, Seq<char>)) -> bool {
    spec_is_access_permission(row.0) && (row.1 == "read"@ || row.1 == "write"@)
}

pub open spec fn row_views(rows: Seq<(String, String)>) -> Seq<(Seq<char>, Seq<char>)> {
    rows.map_values(|r: (String, String)| (r.0@, r.1@))
}

/// A member with the stored policies `rows` (one server, one user) has access: some
/// policy grants `read` or `write` on `console`, `files`, `networking`, `audit` or
/// `settings`.
pub open spec fn spec_has_any_access(rows: Seq<(Seq<char>, Seq<char>)>) -> bool {
    exists|i: int| 0 <= i < rows.len() && spec_row_gives_access(rows[i])
}

/// Whether a member with the stored policies `rows` has access to the server.
pub fn member_has_any_access(rows: &Vec<(String, String)>) -> (r: bool)
    ensures
        r == spec_has_any_access(row_views(rows@)),
{
    let mut i: usize = 0;
    while i < rows.len()
        invariant
            i <= rows@.len(),
            forall|j: int| 0 <= j < i ==> !spec_row_gives_access(#[trigger] row_views(rows@)[j]),
        decreases rows@.len() - i,
    {
        let p = rows[i].0.as_str();
        let m = rows[i].1.as_str();
        let access = (text::str_eq(p, "console") || text::str_eq(p, "files") || text::str_eq(p, "networking")
            || text::str_eq(p, "audit") || text::str_eq(p, "settings")) && (text::str_eq(m, "read")
            || text::str_eq(m, "write"));
        assert(row_views(rows@)[i as int] == (rows@[i as int].0@, rows@[i as int].1@));
        if access {
            return true;
        }
        i = i + 1;
    }
    false
}

/// A member has access to a server exactly when some stored policy grants reading of a
/// capability other than `power` and `members`: console, files, networking, audit or
/// settings, with mode `read` or `write`.
pub proof fn lemma_any_access_is_readable_capability(rows: Seq<(Seq<char>, Seq<char>)>)
    ensures
        spec_has_any_access(rows) <==> exists|i: int|
            0 <= i < rows.len() && spec_read_granted(#[trigger] rows[i].0, Some(rows[i].1)) && rows[i].0
                != "power"@ && rows[i].0 != "members"@,
        spec_has_any_access(rows) <==> exists|i: int|
            0 <= i < rows.len() && (#[trigger] rows[i].0 == "console"@ || rows[i].0 == "files"@ || rows[i].0
                == "networking"@ || rows[i].0 == "audit"@ || rows[i].0 == "settings"@) && (rows[i].1 == "read"@
                || rows[i].1 == "write"@),
{
    reveal_strlit("console");
    reveal_strlit("files");
    reveal_strlit("networking");
    reveal_strlit("audit");
    reveal_strlit("settings");
    reveal_strlit("power");
    reveal_strlit("members");
    let ps = spec_server_member_permissions();
    assert(ps[0] == "console"@ && ps[1] == "files"@ && ps[2] == "networking"@ && ps[3] == "audit"@);
    assert(ps[4] == "settings"@ && ps[5] == "power"@ && ps[6] == "members"@);
    assert forall|p: Seq<char>| spec_is_valid_member_permission(p) && p != "power"@ && p != "members"@
        <==> spec_is_access_permission(p) by {
        if spec_is_valid_member_permission(p) {
            let k = choose|k: int| 0 <= k < ps.len() && ps[k] == p;
            assert(0 <= k < 7);
        }
        if p == "console"@ { assert(ps[0] == p); }
        if p == "files"@ { assert(ps[1] == p); }
        if p == "networking"@ { assert(ps[2] == p); }
        if p == "audit"@ { assert(ps[3] == p); }
        if p == "settings"@ { assert(ps[4] == p); }
        assert("power"@[0] != "console"@[0] && "power"@[0] != "files"@[0] && "power"@[0] != "networking"@[0]);
        assert("power"@[0] != "audit"@[0] && "power"@[0] != "settings"@[0]);
        assert("members"@[0] != "console"@[0] && "members"@[0] != "files"@[0] && "members"@[0] != "networking"@[0]);
        assert("members"@[0] != "audit"@[0] && "members"@[0] != "settings"@[0]);
    }
    if spec_has_any_access(rows) {
        let i = choose|i: int| 0 <= i < rows.len() && spec_row_gives_access(rows[i]);
        assert(spec_read_granted(rows[i].0, Some(rows[i].1)));
    }
    if exists|i: int| 0 <= i < rows.len() && spec_read_granted(#[trigger] rows[i].0, Some(rows[i].1)) && rows[i].0 != "power"@ && rows[i].0 != "members"@ {
        let i = choose|i: int| 0 <= i < rows.len() && spec_read_granted(#[trigger] rows[i].0, Some(rows[i].1)) && rows[i].0 != "power"@ && rows[i].0 != "members"@;
        assert(spec_row_gives_access(rows[i]));
    }
    if exists|i: int| 0 <= i < rows.len() && (#[trigger] rows[i].0 == "console"@ || rows[i].0 == "files"@ || rows[i].0
                == "networking"@ || rows[i].0 == "audit"@ || rows[i].0 == "settings"@) && (rows[i].1 == "read"@
                || rows[i].1 == "write"@) {
        let i = choose|i: int| 0 <= i < rows.len() && (#[trigger] rows[i].0 == "console"@ || rows[i].0 == "files"@ || rows[i].0
                == "networking"@ || rows[i].0 == "audit"@ || rows[i].0 == "settings"@) && (rows[i].1 == "read"@
                || rows[i].1 == "write"@);
        assert(spec_row_gives_access(rows[i]));
    }
}

/// Write access implies read access.
pub proof fn lemma_write_implies_read(permission: Seq<char>, stored_mode: Option<Seq<char>>)
    ensures
        spec_write_granted(permission, stored_mode) ==> spec_read_granted(permission, stored_mode),
{
}

/// A policy that [`check_member_policy`] accepts answers as it says once stored: reading is granted
/// unless the mode is `none`, writing exactly when it is `write`.
pub proof fn lemma_stored_policy_answers(permission: Seq<char>, mode: Seq<char>)
    requires
        spec_is_valid_member_permission(permission),
        spec_is_valid_policy_mode(mode),
    ensures
        spec_read_granted(permission, Some(mode)) <==> mode != "none"@,
        spec_write_granted(permission, Some(mode)) <==> mode == "write"@,
{
    reveal_strlit("none");
    reveal_strlit("read");
    reveal_strlit("write");
    assert("read"@[0] != "none"@[0]);
    assert("write"@[0] != "none"@[0]);
    assert("write"@.len() != "read"@.len());
}

/// The defaults given to a new member are policies that [`check_member_policy`] accepts, and they
/// grant access to the server.
pub proof fn lemma_default_policies_valid()
    ensures
        forall|k: int|
            0 <= k < spec_server_member_permissions().len() ==> spec_is_valid_member_permission(
                #[trigger] spec_server_member_permissions()[k],
            ) && spec_is_valid_policy_mode(spec_default_member_mode(spec_server_member_permissions()[k])),
        spec_row_gives_access((spec_server_member_permissions()[0], spec_default_member_mode(spec_server_member_permissions()[0]))),
{
    assert forall|k: int| 0 <= k < spec_server_member_permissions().len() implies spec_is_valid_member_permission(
        #[trigger] spec_server_member_permissions()[k],
    ) by {
        assert(spec_server_member_permissions().contains(spec_server_member_permissions()[k]));
    }
    reveal_strlit("console");
    reveal_strlit("audit");
    reveal_strlit("members");
    reveal_strlit("write");
    assert("console"@.len() != "audit"@.len());
    assert("console"@[0] != "members"@[0]);
}

} // verus!
