//! Host inspection: where the administrative tools live, which init system runs,
//! whether privileged commands go through `sudo`.
//!
//! Everything here is decided from a [`HostFacts`] snapshot: the `PATH` variable, the
//! set of paths known to exist, a few environment variables and `/proc/self/status`.
//! Gathering the snapshot is the caller's I/O; [`host_probe_paths`] lists every path
//! whose existence the decisions below may ask about.
use vstd::prelude::*;
use crate::text;

verus! {

/// The service manager of the host.
#[derive(Debug, Clone, Copy, PartialEq, Eq, Structural)]
pub enum InitSystem {
    Systemd,
    OpenRc,
    SysV,
}

/// What the host decisions read from the machine.
pub struct HostFacts {
    /// The `PATH` variable, if set.
    pub path_var: Option<String>,
    /// The paths known to exist.
    pub existing_paths: Vec<String>,
    /// The `YUNEXAL_NO_SUDO` variable, if set.
    pub no_sudo_var: Option<String>,
    /// The `YUNEXAL_FORCE_SUDO` variable, if set.
    pub force_sudo_var: Option<String>,
    /// The contents of `/proc/self/status`, if readable.
    pub proc_status: Option<String>,
    /// The `USER` variable, if set.
    pub user_var: Option<String>,
}

pub open spec fn opt_view(o: Option<String>) -> Option<Seq<char>> {
    match o {
        Some(s) => Some(s@),
        None => None,
    }
}

pub open spec fn strs_view(r: Seq<&str>) -> Seq<Seq<char>> {
    r.map_values(|p: &str| p@)
}

/// `p` is among the paths known to exist.
pub open spec fn path_exists(h: HostFacts, p: Seq<char>) -> bool {
    exists|i: int| 0 <= i < h.existing_paths@.len() && h.existing_paths@[i]@ == p
}

/// `base` joined with `name` as `Path::join` does on Unix: an absolute `name` replaces
/// `base`; otherwise a `/` is put between them unless `base` is empty or ends with one.
pub open spec fn path_join(base: Seq<char>, name: Seq<char>) -> Seq<char> {
    if name.len() > 0 && name[0] == '/' {
        name
    } else if base.len() == 0 || base.last() == '/' {
        base + name
    } else {
        base + seq!['/'] + name
    }
}

/// The first `join(dir, cmd)` over `dirs` that exists.
pub open spec fn first_in_dirs(h: HostFacts, dirs: Seq<Seq<char>>, cmd: Seq<char>) -> Option<
    Seq<char>,
>
    decreases dirs.len(),
{
    if dirs.len() == 0 {
        None
    } else if path_exists(h, path_join(dirs[0], cmd)) {
        Some(path_join(dirs[0], cmd))
    } else {
        first_in_dirs(h, dirs.drop_first(), cmd)
    }
}

/// Where `cmd` is found: a command with a `/` is looked up as it is; any other in the
/// `:`-separated directories of `PATH`, in order.
pub open spec fn spec_find_in_path(h: HostFacts, cmd: Seq<char>) -> Option<Seq<char>> {
    if cmd.contains('/') {
        if path_exists(h, cmd) {
            Some(cmd)
        } else {
            None
        }
    } else {
        match opt_view(h.path_var) {
            None => None,
            Some(p) => first_in_dirs(h, text::split_char(p, ':'), cmd),
        }
    }
}

/// The first of `cands` that exists.
pub open spec fn first_existing(h: HostFacts, cands: Seq<Seq<char>>) -> Option<Seq<char>>
    decreases cands.len(),
{
    if cands.len() == 0 {
        None
    } else if path_exists(h, cands[0]) {
        Some(cands[0])
    } else {
        first_existing(h, cands.drop_first())
    }
}

/// The path used to run `cmd`: where `PATH` finds it, else the first existing fallback,
/// else the first fallback, else `cmd` itself.
pub open spec fn spec_resolve_command_path(
    h: HostFacts,
    cmd: Seq<char>,
    fallbacks: Seq<Seq<char>>,
) -> Seq<char> {
    match spec_find_in_path(h, cmd) {
        Some(p) => p,
        None => match first_existing(h, fallbacks) {
            Some(c) => c,
            None => if fallbacks.len() > 0 {
                fallbacks[0]
            } else {
                cmd
            },
        },
    }
}

proof fn lemma_first_in_dirs_exists(h: HostFacts, dirs: Seq<Seq<char>>, cmd: Seq<char>)
    ensures
        first_in_dirs(h, dirs, cmd) matches Some(p) ==> path_exists(h, p),
    decreases dirs.len(),
{
    if dirs.len() > 0 {
        lemma_first_in_dirs_exists(h, dirs.drop_first(), cmd);
    }
}

proof fn lemma_first_existing(h: HostFacts, cands: Seq<Seq<char>>)
    ensures
        first_existing(h, cands) matches Some(p) ==> path_exists(h, p),
        first_existing(h, cands) is None <==> forall|i: int| 0 <= i < cands.len() ==> !path_exists(h, #[trigger] cands[i]),
    decreases cands.len(),
{
    if cands.len() > 0 {
        lemma_first_existing(h, cands.drop_first());
        assert forall|i: int| 0 < i < cands.len() implies #[trigger] cands[i] == cands.drop_first()[i - 1] by {}
        if first_existing(h, cands) is None {
            assert forall|i: int| 0 <= i < cands.len() implies !path_exists(h, #[trigger] cands[i]) by {
                if i > 0 {
                    assert(cands[i] == cands.drop_first()[i - 1]);
                }
            }
        }
        if forall|i: int| 0 <= i < cands.len() ==> !path_exists(h, #[trigger] cands[i]) {
            assert(!path_exists(h, cands[0]));
            assert forall|i: int| 0 <= i < cands.drop_first().len() implies !path_exists(h, #[trigger] cands.drop_first()[i]) by {
                assert(cands.drop_first()[i] == cands[i + 1]);
            }
        }
    }
}

/// A command resolves to a path that exists whenever `PATH` finds it or one of its
/// fallbacks exists; otherwise to its first fallback, or to its bare name when it has
/// none.
pub proof fn lemma_resolved_path(h: HostFacts, cmd: Seq<char>, fallbacks: Seq<Seq<char>>)
    ensures
        (spec_find_in_path(h, cmd) is Some || exists|i: int| 0 <= i < fallbacks.len() && path_exists(h, #[trigger] fallbacks[i]))
            ==> path_exists(h, spec_resolve_command_path(h, cmd, fallbacks)),
        !(spec_find_in_path(h, cmd) is Some || exists|i: int| 0 <= i < fallbacks.len() && path_exists(h, #[trigger] fallbacks[i]))
            ==> spec_resolve_command_path(h, cmd, fallbacks) == (if fallbacks.len() > 0 { fallbacks[0] } else { cmd }),
{
    lemma_first_existing(h, fallbacks);
    match opt_view(h.path_var) {
        Some(p) => lemma_first_in_dirs_exists(h, text::split_char(p, ':'), cmd),
        None => {},
    }
}

/// The well-known absolute locations of each administrative tool.
pub open spec fn spec_admin_tool_fallbacks(tool: Seq<char>) -> Seq<Seq<char>> {
    if tool == "sudo"@ {
        seq!["/usr/bin/sudo"@, "/bin/sudo"@]
    } else if tool == "ufw"@ {
        seq!["/usr/sbin/ufw"@, "/sbin/ufw"@, "/usr/bin/ufw"@, "/bin/ufw"@]
    } else if tool == "systemctl"@ {
        seq!["/usr/bin/systemctl"@, "/bin/systemctl"@]
    } else if tool == "rc-service"@ {
        seq!["/sbin/rc-service"@, "/usr/sbin/rc-service"@]
    } else if tool == "service"@ {
        seq!["/usr/sbin/service"@, "/sbin/service"@, "/usr/bin/service"@, "/bin/service"@]
    } else if tool == "tee"@ {
        seq!["/usr/bin/tee"@, "/bin/tee"@]
    } else if tool == "mount"@ {
        seq!["/usr/bin/mount"@, "/bin/mount"@, "/usr/sbin/mount"@]
    } else if tool == "umount"@ {
        seq!["/usr/bin/umount"@, "/bin/umount"@, "/usr/sbin/umount"@]
    } else if tool == "rsync"@ {
        seq!["/usr/bin/rsync"@, "/bin/rsync"@]
    } else if tool == "cp"@ {
        seq!["/usr/bin/cp"@, "/bin/cp"@]
    } else if tool == "mkdir"@ {
        seq!["/usr/bin/mkdir"@, "/bin/mkdir"@]
    } else if tool == "mkfs.ext4"@ {
        seq!["/usr/sbin/mkfs.ext4"@, "/sbin/mkfs.ext4"@]
    } else if tool == "mkfs.xfs"@ {
        seq!["/usr/sbin/mkfs.xfs"@, "/sbin/mkfs.xfs"@]
    } else if tool == "mkfs.btrfs"@ {
        seq!["/usr/sbin/mkfs.btrfs"@, "/sbin/mkfs.btrfs"@]
    } else if tool == "zfs"@ {
        seq!["/usr/sbin/zfs"@, "/sbin/zfs"@, "/usr/bin/zfs"@]
    } else if tool == "zpool"@ {
        seq!["/usr/sbin/zpool"@, "/sbin/zpool"@, "/usr/bin/zpool"@]
    } else if tool == "btrfs"@ {
        seq!["/usr/bin/btrfs"@, "/sbin/btrfs"@]
    } else {
        seq![]
    }
}

/// The path used to run the administrative tool `tool`.
pub open spec fn spec_resolve_admin_tool(h: HostFacts, tool: Seq<char>) -> Seq<char> {
    spec_resolve_command_path(h, tool, spec_admin_tool_fallbacks(tool))
}

// ───────────────────────── lookups ─────────────────────────

/// Whether the path `p` is among the known existing paths.
pub fn exists_path(h: &HostFacts, p: &Vec<char>) -> (r: bool)
    ensures
        r == path_exists(*h, p@),
{
    let n = h.existing_paths.len();
    let mut i: usize = 0;
    while i < n
        invariant
            n == h.existing_paths@.len(),
            i <= n,
            forall|j: int| 0 <= j < i ==> h.existing_paths@[j]@ != p@,
        decreases n - i,
    {
        let c = text::chars_of(h.existing_paths[i].as_str());
        if text::chars_eq(&c, p) {
            return true;
        }
        i = i + 1;
    }
    false
}

/// Whether the path `p` is among the known existing paths.
pub fn exists_str(h: &HostFacts, p: &str) -> (r: bool)
    ensures
        r == path_exists(*h, p@),
{
    let v = text::chars_of(p);
    exists_path(h, &v)
}

/// `base` joined with `name`.
pub fn join_path(base: &Vec<char>, name: &Vec<char>) -> (r: Vec<char>)
    ensures
        r@ == path_join(base@, name@),
{
    if name.len() > 0 && name[0] == '/' {
        return text::sub_vec(name, 0, name.len());
    }
    let mut r = text::sub_vec(base, 0, base.len());
    if !(base.len() == 0 || base[base.len() - 1] == '/') {
        r.push('/');
    }
    let mut i: usize = 0;
    let ghost start = r@;
    while i < name.len()
        invariant
            i <= name@.len(),
            r@ == start + name@.subrange(0, i as int),
        decreases name@.len() - i,
    {
        r.push(name[i]);
        i = i + 1;
    }
    assert(base@.subrange(0, base@.len() as int) =~= base@);
    assert(name@.subrange(0, name@.len() as int) =~= name@);
    assert(r@ =~= path_join(base@, name@));
    r
}

/// Where `PATH` (or, for a command with a `/`, the path itself) finds `cmd`.
pub fn find_in_path(cmd: &str, host: &HostFacts) -> (r: Option<String>)
    ensures
        opt_view(r) == spec_find_in_path(*host, cmd@),
{
    let cv = text::chars_of(cmd);
    if text::contains_char(&cv, '/') {
        if exists_path(host, &cv) {
            return Some(text::string_of(&cv));
        } else {
            return None;
        }
    }
    match &host.path_var {
        None => None,
        Some(p) => {
            let pv = text::chars_of(p.as_str());
            let dirs = text::split_on(&pv, ':');
            let n = dirs.len();
            let mut i: usize = 0;
            assert(text::views(dirs@).subrange(0, n as int) =~= text::views(dirs@));
            while i < n
                invariant
                    n == dirs@.len(),
                    i <= n,
                    cv@ == cmd@,
                    !cv@.contains('/'),
                    opt_view(host.path_var) == Some(pv@),
                    text::views(dirs@) == text::split_char(pv@, ':'),
                    first_in_dirs(*host, text::views(dirs@), cv@) == first_in_dirs(
                        *host,
                        text::views(dirs@).subrange(i as int, n as int),
                        cv@,
                    ),
                decreases n - i,
            {
                let full = join_path(&dirs[i], &cv);
                proof {
                    let rest = text::views(dirs@).subrange(i as int, n as int);
                    assert(rest[0] == dirs@[i as int]@);
                    assert(rest.drop_first() =~= text::views(dirs@).subrange(i + 1, n as int));
                }
                if exists_path(host, &full) {
                    return Some(text::string_of(&full));
                }
                i = i + 1;
            }
            None
        },
    }
}

/// The first of `cands` that exists.
fn first_existing_exec(h: &HostFacts, cands: &[&str]) -> (r: Option<String>)
    ensures
        opt_view(r) == first_existing(*h, strs_view(cands@)),
{
    let n = cands.len();
    let mut i: usize = 0;
    assert(strs_view(cands@).subrange(0, n as int) =~= strs_view(cands@));
    while i < n
        invariant
            n == cands@.len(),
            i <= n,
            first_existing(*h, strs_view(cands@)) == first_existing(
                *h,
                strs_view(cands@).subrange(i as int, n as int),
            ),
        decreases n - i,
    {
        proof {
            let rest = strs_view(cands@).subrange(i as int, n as int);
            assert(rest[0] == cands@[i as int]@);
            assert(rest.drop_first() =~= strs_view(cands@).subrange(i + 1, n as int));
        }
        if exists_str(h, cands[i]) {
            return Some(String::from_str(cands[i]));
        }
        i = i + 1;
    }
    None
}

/// The path used to run `cmd`: where `PATH` finds it, else the first of
/// `absolute_fallbacks` that exists, else the first fallback, else `cmd` itself.
pub fn resolve_command_path(cmd: &str, absolute_fallbacks: &[&str], host: &HostFacts) -> (r:
    String)
    ensures
        r@ == spec_resolve_command_path(*host, cmd@, strs_view(absolute_fallbacks@)),
{
    if let Some(path) = find_in_path(cmd, host) {
        return path;
    }
    if let Some(c) = first_existing_exec(host, absolute_fallbacks) {
        return c;
    }
    if absolute_fallbacks.len() > 0 {
        String::from_str(absolute_fallbacks[0])
    } else {
        String::from_str(cmd)
    }
}

/// The well-known absolute locations of the administrative tool `tool` (none for a tool
/// that is not one of them).
pub fn admin_tool_fallbacks(tool: &str) -> (r: Vec<&'static str>)
    ensures
        strs_view(r@) == spec_admin_tool_fallbacks(tool@),
{
    let r: Vec<&'static str> = if text::str_eq(tool, "sudo") {
        vec!["/usr/bin/sudo", "/bin/sudo"]
    } else if text::str_eq(tool, "ufw") {
        vec!["/usr/sbin/ufw", "/sbin/ufw", "/usr/bin/ufw", "/bin/ufw"]
    } else if text::str_eq(tool, "systemctl") {
        vec!["/usr/bin/systemctl", "/bin/systemctl"]
    } else if text::str_eq(tool, "rc-service") {
        vec!["/sbin/rc-service", "/usr/sbin/rc-service"]
    } else if text::str_eq(tool, "service") {
        vec!["/usr/sbin/service", "/sbin/service", "/usr/bin/service", "/bin/service"]
    } else if text::str_eq(tool, "tee") {
        vec!["/usr/bin/tee", "/bin/tee"]
    } else if text::str_eq(tool, "mount") {
        vec!["/usr/bin/mount", "/bin/mount", "/usr/sbin/mount"]
    } else if text::str_eq(tool, "umount") {
        vec!["/usr/bin/umount", "/bin/umount", "/usr/sbin/umount"]
    } else if text::str_eq(tool, "rsync") {
        vec!["/usr/bin/rsync", "/bin/rsync"]
    } else if text::str_eq(tool, "cp") {
        vec!["/usr/bin/cp", "/bin/cp"]
    } else if text::str_eq(tool, "mkdir") {
        vec!["/usr/bin/mkdir", "/bin/mkdir"]
    } else if text::str_eq(tool, "mkfs.ext4") {
        vec!["/usr/sbin/mkfs.ext4", "/sbin/mkfs.ext4"]
    } else if text::str_eq(tool, "mkfs.xfs") {
        vec!["/usr/sbin/mkfs.xfs", "/sbin/mkfs.xfs"]
    } else if text::str_eq(tool, "mkfs.btrfs") {
        vec!["/usr/sbin/mkfs.btrfs", "/sbin/mkfs.btrfs"]
    } else if text::str_eq(tool, "zfs") {
        vec!["/usr/sbin/zfs", "/sbin/zfs", "/usr/bin/zfs"]
    } else if text::str_eq(tool, "zpool") {
        vec!["/usr/sbin/zpool", "/sbin/zpool", "/usr/bin/zpool"]
    } else if text::str_eq(tool, "btrfs") {
        vec!["/usr/bin/btrfs", "/sbin/btrfs"]
    } else {
        vec![]
    };
    assert(strs_view(r@) =~= spec_admin_tool_fallbacks(tool@));
    r
}

/// The path used to run the administrative tool `tool`.
pub fn resolve_admin_tool(tool: &str, host: &HostFacts) -> (r: String)
    ensures
        r@ == spec_resolve_admin_tool(*host, tool@),
{
    let fallbacks = admin_tool_fallbacks(tool);
    resolve_command_path(tool, fallbacks.as_slice(), host)
}

// ───────────────────────── identity and init system ─────────────────────────

/// The first of `ls` that starts with `p`.
pub open spec fn first_with_prefix(ls: Seq<Seq<char>>, p: Seq<char>) -> Option<Seq<char>>
    decreases ls.len(),
{
    if ls.len() == 0 {
        None
    } else if text::has_prefix(ls[0], p) {
        Some(ls[0])
    } else {
        first_with_prefix(ls.drop_first(), p)
    }
}

/// The effective user id in a `/proc/self/status` text: the third whitespace-separated
/// field of the first line that starts with `Uid:`, read as a `u32`.
pub open spec fn spec_parse_effective_uid(status: Seq<char>) -> Option<nat> {
    match first_with_prefix(text::lines(status), "Uid:"@) {
        None => None,
        Some(l) => {
            let w = text::words(l);
            if w.len() > 2 {
                text::parse_unsigned(w[2], u32::MAX as nat)
            } else {
                None
            }
        },
    }
}

/// The effective user id recorded in a `/proc/self/status` text.
pub fn parse_effective_uid_from_status(status: &str) -> (r: Option<u32>)
    ensures
        match spec_parse_effective_uid(status@) {
            Some(u) => r == Some(u as u32),
            None => r is None,
        },
{
    let sv = text::chars_of(status);
    let ls = text::lines_of(&sv);
    let n = ls.len();
    let mut i: usize = 0;
    let ghost lv = text::views(ls@);
    assert(lv.subrange(0, n as int) =~= lv);
    while i < n
        invariant
            n == ls@.len(),
            i <= n,
            lv == text::views(ls@),
            lv == text::lines(status@),
            first_with_prefix(lv, "Uid:"@) == first_with_prefix(lv.subrange(i as int, n as int), "Uid:"@),
        decreases n - i,
    {
        proof {
            let rest = lv.subrange(i as int, n as int);
            assert(rest[0] == ls@[i as int]@);
            assert(rest.drop_first() =~= lv.subrange(i + 1, n as int));
        }
        if text::starts_with_str(&ls[i], "Uid:") {
            let w = text::words_of(&ls[i]);
            if w.len() > 2 {
                let v = text::parse_unsigned_chars(&w[2], 4294967295u64);
                proof {
                    assert(text::views(w@)[2] == w@[2]@);
                }
                return match v {
                    Some(x) => Some(x as u32),
                    None => None,
                };
            }
            return None;
        }
        i = i + 1;
    }
    None
}

/// The `USER` variable says `root`.
pub open spec fn user_is_root(h: HostFacts) -> bool {
    opt_view(h.user_var) == Some("root"@)
}

/// The process runs as root: by the effective uid in `/proc/self/status` when that can be
/// read and parsed, else by the `USER` variable.
pub open spec fn spec_is_effective_root(h: HostFacts) -> bool {
    match opt_view(h.proc_status) {
        Some(s) => match spec_parse_effective_uid(s) {
            Some(u) => u == 0,
            None => user_is_root(h),
        },
        None => user_is_root(h),
    }
}

/// Whether the process runs as root.
pub fn is_effective_root(host: &HostFacts) -> (r: bool)
    ensures
        r == spec_is_effective_root(*host),
{
    let parsed = match &host.proc_status {
        Some(s) => parse_effective_uid_from_status(s.as_str()),
        None => None,
    };
    match parsed {
        Some(uid) => uid == 0,
        None => match &host.user_var {
            Some(u) => text::str_eq(u.as_str(), "root"),
            None => false,
        },
    }
}

/// An environment value that switches something on: `true`, `yes` or `on` in any ASCII
/// case, or `1`.
pub open spec fn spec_env_truthy(v: Option<Seq<char>>) -> bool {
    match v {
        None => false,
        Some(x) => text::eq_ignore_ascii_case(x, "true"@) || text::eq_ignore_ascii_case(x, "yes"@)
            || text::eq_ignore_ascii_case(x, "on"@) || x == "1"@,
    }
}

/// Whether an environment value switches something on.
pub fn env_truthy(value: &Option<String>) -> (r: bool)
    ensures
        r == spec_env_truthy(opt_view(*value)),
{
    match value {
        None => false,
        Some(v) => {
            let c = text::chars_of(v.as_str());
            text::eq_ignore_ascii_case_exec(&c, "true") || text::eq_ignore_ascii_case_exec(&c, "yes")
                || text::eq_ignore_ascii_case_exec(&c, "on") || text::chars_eq_str(&c, "1")
        },
    }
}

/// `sudo` is available on the host.
pub open spec fn spec_has_sudo(h: HostFacts) -> bool {
    spec_find_in_path(h, "sudo"@) is Some || path_exists(h, "/usr/bin/sudo"@) || path_exists(
        h,
        "/bin/sudo"@,
    )
}

/// Privileged commands go through `sudo`: never when `YUNEXAL_NO_SUDO` is on; whenever
/// `sudo` exists when `YUNEXAL_FORCE_SUDO` is on; otherwise when the process is not root
/// and `sudo` exists.
pub open spec fn spec_should_use_sudo(h: HostFacts) -> bool {
    if spec_env_truthy(opt_view(h.no_sudo_var)) {
        false
    } else if spec_env_truthy(opt_view(h.force_sudo_var)) {
        spec_has_sudo(h)
    } else {
        !spec_is_effective_root(h) && spec_has_sudo(h)
    }
}

/// The values that switch a flag on: `1`, and `true`, `yes` or `on` in any ASCII case.
/// With `YUNEXAL_NO_SUDO` on, nothing goes through `sudo`; otherwise, with
/// `YUNEXAL_FORCE_SUDO` on, everything does when `sudo` exists.
pub proof fn lemma_sudo_switches(h: HostFacts, v: Seq<char>)
    ensures
        spec_env_truthy(Some(v)) <==> (v == "1"@ || text::eq_ignore_ascii_case(v, "true"@)
            || text::eq_ignore_ascii_case(v, "yes"@) || text::eq_ignore_ascii_case(v, "on"@)),
        opt_view(h.no_sudo_var) == Some(v) && (v == "1"@ || text::eq_ignore_ascii_case(v, "true"@)
            || text::eq_ignore_ascii_case(v, "yes"@) || text::eq_ignore_ascii_case(v, "on"@))
            ==> !spec_should_use_sudo(h),
        !spec_env_truthy(opt_view(h.no_sudo_var)) && opt_view(h.force_sudo_var) == Some(v) && (v == "1"@
            || text::eq_ignore_ascii_case(v, "true"@) || text::eq_ignore_ascii_case(v, "yes"@)
            || text::eq_ignore_ascii_case(v, "on"@)) ==> (spec_should_use_sudo(h) <==> spec_has_sudo(h)),
{
}

/// Whether privileged commands go through `sudo`.
pub fn should_use_sudo(host: &HostFacts) -> (r: bool)
    ensures
        r == spec_should_use_sudo(*host),
{
    let has_sudo = find_in_path("sudo", host).is_some() || exists_str(host, "/usr/bin/sudo")
        || exists_str(host, "/bin/sudo");
    if env_truthy(&host.no_sudo_var) {
        return false;
    }
    if env_truthy(&host.force_sudo_var) {
        return has_sudo;
    }
    !is_effective_root(host) && has_sudo
}

/// The program and arguments that run `program` with privileges: `sudo -n program`
/// when privileged commands go through `sudo`, else `program` alone.
pub open spec fn spec_privileged_invocation(h: HostFacts, program: Seq<char>) -> (
    Seq<char>,
    Seq<Seq<char>>,
) {
    if spec_should_use_sudo(h) {
        (spec_resolve_admin_tool(h, "sudo"@), seq!["-n"@, program])
    } else {
        (program, seq![])
    }
}

/// The program and arguments that run `program` with privileges.
pub fn privileged_invocation(program: &str, host: &HostFacts) -> (r: (String, Vec<String>))
    ensures
        (r.0@, text::string_views(r.1@)) == spec_privileged_invocation(*host, program@),
{
    if should_use_sudo(host) {
        let mut args: Vec<String> = Vec::new();
        args.push(String::from_str("-n"));
        args.push(String::from_str(program));
        assert(text::string_views(args@) =~= seq!["-n"@, program@]);
        (resolve_admin_tool("sudo", host), args)
    } else {
        let args: Vec<String> = Vec::new();
        assert(text::string_views(args@) =~= Seq::<Seq<char>>::empty());
        (String::from_str(program), args)
    }
}

/// The init system: systemd when its runtime directory exists and `systemctl` is on
/// `PATH`; else OpenRC when `rc-service` is on `PATH` or `/sbin/openrc` exists; else SysV.
pub open spec fn spec_detect_init_system(h: HostFacts) -> InitSystem {
    if path_exists(h, "/run/systemd/system"@) && spec_find_in_path(h, "systemctl"@) is Some {
        InitSystem::Systemd
    } else if spec_find_in_path(h, "rc-service"@) is Some || path_exists(h, "/sbin/openrc"@) {
        InitSystem::OpenRc
    } else {
        InitSystem::SysV
    }
}

/// The init system of the host.
pub fn detect_init_system(host: &HostFacts) -> (r: InitSystem)
    ensures
        r == spec_detect_init_system(*host),
{
    let has_systemd_runtime = exists_str(host, "/run/systemd/system");
    let has_systemctl = find_in_path("systemctl", host).is_some();
    if has_systemd_runtime && has_systemctl {
        return InitSystem::Systemd;
    }
    let has_openrc = find_in_path("rc-service", host).is_some() || exists_str(host, "/sbin/openrc");
    if has_openrc {
        return InitSystem::OpenRc;
    }
    InitSystem::SysV
}

/// The host is Alpine Linux.
pub open spec fn spec_is_alpine_host(h: HostFacts) -> bool {
    path_exists(h, "/etc/alpine-release"@)
}

/// Whether the host is Alpine Linux (`/etc/alpine-release` exists).
pub fn is_alpine_host(host: &HostFacts) -> (r: bool)
    ensures
        r == spec_is_alpine_host(*host),
{
    exists_str(host, "/etc/alpine-release")
}

// ───────────────────────── Docker restart and sudoers ─────────────────────────

/// The command that restarts Docker under the host's init system.
pub open spec fn spec_docker_restart_command_parts(h: HostFacts) -> (Seq<char>, Seq<Seq<char>>) {
    match spec_detect_init_system(h) {
        InitSystem::Systemd => (
            spec_resolve_admin_tool(h, "systemctl"@),
            seq!["restart"@, "docker"@],
        ),
        InitSystem::OpenRc => (
            spec_resolve_admin_tool(h, "rc-service"@),
            seq!["docker"@, "restart"@],
        ),
        InitSystem::SysV => (spec_resolve_admin_tool(h, "service"@), seq!["docker"@, "restart"@]),
    }
}

fn two_strings(a: &str, b: &str) -> (r: Vec<String>)
    ensures
        text::string_views(r@) == seq![a@, b@],
{
    let mut r: Vec<String> = Vec::new();
    r.push(String::from_str(a));
    r.push(String::from_str(b));
    assert(text::string_views(r@) =~= seq![a@, b@]);
    r
}

/// The program and arguments that restart Docker.
pub fn docker_restart_command_parts(host: &HostFacts) -> (r: (String, Vec<String>))
    ensures
        (r.0@, text::string_views(r.1@)) == spec_docker_restart_command_parts(*host),
{
    match detect_init_system(host) {
        InitSystem::Systemd => (
            resolve_admin_tool("systemctl", host),
            two_strings("restart", "docker"),
        ),
        InitSystem::OpenRc => (
            resolve_admin_tool("rc-service", host),
            two_strings("docker", "restart"),
        ),
        InitSystem::SysV => (resolve_admin_tool("service", host), two_strings("docker", "restart")),
    }
}

/// The Docker restart command as shown to the administrator.
pub open spec fn spec_docker_restart_display_command(h: HostFacts) -> Seq<char> {
    match spec_detect_init_system(h) {
        InitSystem::Systemd => "systemctl restart docker"@,
        InitSystem::OpenRc => "rc-service docker restart"@,
        InitSystem::SysV => "service docker restart"@,
    }
}

/// The Docker restart command as shown to the administrator.
pub fn docker_restart_display_command(host: &HostFacts) -> (r: String)
    ensures
        r@ == spec_docker_restart_display_command(*host),
{
    match detect_init_system(host) {
        InitSystem::Systemd => String::from_str("systemctl restart docker"),
        InitSystem::OpenRc => String::from_str("rc-service docker restart"),
        InitSystem::SysV => String::from_str("service docker restart"),
    }
}

/// A command line for sudoers: the program, then its arguments separated by spaces.
pub open spec fn command_line(program: Seq<char>, args: Seq<Seq<char>>) -> Seq<char> {
    if args.len() == 0 {
        program
    } else {
        program + " "@ + text::join(args, " "@)
    }
}

/// `p` runs the tool `t`: it is `t` itself or a path that ends in `/t`.
pub open spec fn names_tool(p: Seq<char>, t: Seq<char>) -> bool {
    p == t || text::has_suffix(p, "/"@ + t)
}

proof fn lemma_first_in_dirs_names(h: HostFacts, dirs: Seq<Seq<char>>, t: Seq<char>)
    requires
        t.len() > 0,
        !t.contains('/'),
    ensures
        first_in_dirs(h, dirs, t) matches Some(p) ==> names_tool(p, t),
    decreases dirs.len(),
{
    reveal_strlit("/");
    if dirs.len() > 0 {
        lemma_first_in_dirs_names(h, dirs.drop_first(), t);
        let d = dirs[0];
        assert(t[0] != '/');
        if d.len() > 0 && d.last() == '/' {
            assert((d + t).subrange((d + t).len() - ("/"@ + t).len(), (d + t).len() as int) =~= "/"@ + t);
        } else if d.len() > 0 {
            assert((d + seq!['/'] + t).subrange((d + seq!['/'] + t).len() - ("/"@ + t).len(), (d + seq!['/']
                + t).len() as int) =~= "/"@ + t);
        } else {
            assert(d + t =~= t);
        }
    }
}

proof fn lemma_first_existing_member(h: HostFacts, cands: Seq<Seq<char>>)
    ensures
        first_existing(h, cands) matches Some(c) ==> cands.contains(c),
    decreases cands.len(),
{
    if cands.len() > 0 {
        lemma_first_existing_member(h, cands.drop_first());
        if let Some(c) = first_existing(h, cands.drop_first()) {
            if !path_exists(h, cands[0]) {
                let j = choose|j: int| 0 <= j < cands.drop_first().len() && cands.drop_first()[j] == c;
                assert(cands[j + 1] == c);
            }
        }
        assert(cands[0] == cands[0]);
    }
}

/// An administrative tool resolves to something that runs it when `PATH` or its
/// fallbacks can; all its fallbacks end in `/<tool>`.
proof fn lemma_resolved_tool_names(h: HostFacts, t: Seq<char>)
    requires
        t.len() > 0,
        !t.contains('/'),
        forall|k: int| 0 <= k < spec_admin_tool_fallbacks(t).len() ==> names_tool(#[trigger] spec_admin_tool_fallbacks(t)[k], t),
    ensures
        names_tool(spec_resolve_admin_tool(h, t), t),
{
    let fb = spec_admin_tool_fallbacks(t);
    lemma_first_existing_member(h, fb);
    match opt_view(h.path_var) {
        Some(p) => lemma_first_in_dirs_names(h, text::split_char(p, ':'), t),
        None => {},
    }
    if let Some(c) = first_existing(h, fb) {
        let k = choose|k: int| 0 <= k < fb.len() && fb[k] == c;
        assert(names_tool(fb[k], t));
    }
    if fb.len() == 0 {
        assert(names_tool(t, t));
    } else {
        assert(names_tool(fb[0], t));
    }
}

proof fn lemma_ends_with_tool(p: Seq<char>, t: Seq<char>)
    requires
        p.len() > t.len(),
        p.subrange(p.len() - t.len() - 1, p.len() as int) =~= seq!['/'] + t,
    ensures
        names_tool(p, t),
{
    reveal_strlit("/");
    assert("/"@ + t =~= seq!['/'] + t);
}

/// The Docker restart command shown to the administrator is the command that runs: the
/// name of the tool it resolves to, followed by its arguments separated by spaces
/// (`systemctl restart docker`, `rc-service docker restart` or
/// `service docker restart`).
pub proof fn lemma_docker_restart_display_matches(h: HostFacts)
    ensures
        ({
            let (p, args) = spec_docker_restart_command_parts(h);
            let shown = spec_docker_restart_display_command(h);
            &&& exists|t: Seq<char>| #![trigger command_line(t, args)]
                t.len() > 0 && !t.contains('/') && names_tool(p, t) && shown == command_line(t, args)
            &&& spec_detect_init_system(h) == InitSystem::Systemd ==> shown == "systemctl restart docker"@
            &&& spec_detect_init_system(h) == InitSystem::OpenRc ==> shown == "rc-service docker restart"@
            &&& spec_detect_init_system(h) == InitSystem::SysV ==> shown == "service docker restart"@
        }),
{
    reveal_strlit("sudo");
    reveal_strlit("ufw");
    reveal_strlit("systemctl");
    reveal_strlit("rc-service");
    reveal_strlit("service");
    reveal_strlit("restart");
    reveal_strlit("docker");
    reveal_strlit(" ");
    reveal_strlit("/usr/bin/systemctl");
    reveal_strlit("/bin/systemctl");
    reveal_strlit("/sbin/rc-service");
    reveal_strlit("/usr/sbin/rc-service");
    reveal_strlit("/usr/sbin/service");
    reveal_strlit("/sbin/service");
    reveal_strlit("/usr/bin/service");
    reveal_strlit("/bin/service");
    reveal_strlit("restart docker");
    reveal_strlit("docker restart");
    reveal_strlit("systemctl restart docker");
    reveal_strlit("rc-service docker restart");
    reveal_strlit("service docker restart");
    let (p, args) = spec_docker_restart_command_parts(h);
    match spec_detect_init_system(h) {
        InitSystem::Systemd => {
            let t = "systemctl"@;
            lemma_ends_with_tool("/usr/bin/systemctl"@, t);
            lemma_ends_with_tool("/bin/systemctl"@, t);
            assert(spec_admin_tool_fallbacks(t) == seq!["/usr/bin/systemctl"@, "/bin/systemctl"@]);
            lemma_resolved_tool_names(h, t);
            assert(text::join(args, " "@) =~= "restart docker"@) by {
                assert(args.drop_last() =~= seq!["restart"@]);
                assert(text::join(args.drop_last(), " "@) == "restart"@);
                assert(args.last() == "docker"@);
                assert(text::join(args, " "@) == "restart"@ + " "@ + "docker"@);
            }
            assert(command_line(t, args) =~= "systemctl restart docker"@);
        },
        InitSystem::OpenRc => {
            let t = "rc-service"@;
            lemma_ends_with_tool("/sbin/rc-service"@, t);
            lemma_ends_with_tool("/usr/sbin/rc-service"@, t);
            assert(spec_admin_tool_fallbacks(t) == seq!["/sbin/rc-service"@, "/usr/sbin/rc-service"@]);
            lemma_resolved_tool_names(h, t);
            assert(text::join(args, " "@) =~= "docker restart"@) by {
                assert(args.drop_last() =~= seq!["docker"@]);
                assert(text::join(args.drop_last(), " "@) == "docker"@);
                assert(args.last() == "restart"@);
                assert(text::join(args, " "@) == "docker"@ + " "@ + "restart"@);
            }
            assert(command_line(t, args) =~= "rc-service docker restart"@);
        },
        InitSystem::SysV => {
            let t = "service"@;
            lemma_ends_with_tool("/usr/sbin/service"@, t);
            lemma_ends_with_tool("/sbin/service"@, t);
            lemma_ends_with_tool("/usr/bin/service"@, t);
            lemma_ends_with_tool("/bin/service"@, t);
            assert(spec_admin_tool_fallbacks(t) == seq!["/usr/sbin/service"@, "/sbin/service"@, "/usr/bin/service"@, "/bin/service"@]);
            lemma_resolved_tool_names(h, t);
            assert(text::join(args, " "@) =~= "docker restart"@) by {
                assert(args.drop_last() =~= seq!["docker"@]);
                assert(text::join(args.drop_last(), " "@) == "docker"@);
                assert(args.last() == "restart"@);
                assert(text::join(args, " "@) == "docker"@ + " "@ + "restart"@);
            }
            assert(command_line(t, args) =~= "service docker restart"@);
        },
    }
}

/// The sudoers entry that allows restarting Docker.
pub fn docker_restart_sudoers_entry(host: &HostFacts) -> (r: String)
    ensures
        r@ == command_line(
            spec_docker_restart_command_parts(*host).0,
            spec_docker_restart_command_parts(*host).1,
        ),
{
    let (program, args) = docker_restart_command_parts(host);
    if args.len() == 0 {
        program
    } else {
        let joined = text::join_strings(args.as_slice(), " ");
        let mut r = program;
        r.append(" ");
        r.append(joined.as_str());
        r
    }
}

/// The sudoers entry that allows running `ufw`.
pub fn ufw_sudoers_entry(host: &HostFacts) -> (r: String)
    ensures
        r@ == spec_resolve_admin_tool(*host, "ufw"@),
{
    resolve_admin_tool("ufw", host)
}

/// The shell command that installs a sudoers file allowing `user` to run `entries`
/// without a password; single quotes are removed from the user name.
pub open spec fn spec_sudoers_fix_command(
    user: Seq<char>,
    sudoers_file: Seq<char>,
    entries: Seq<Seq<char>>,
) -> Seq<char> {
    "echo '"@ + text::without_char(user, '\'') + " ALL=(ALL) NOPASSWD: "@ + text::join(
        entries,
        ", "@,
    ) + "' | sudo tee "@ + sudoers_file + " && sudo chmod 440 "@ + sudoers_file
}

/// The user name in the generated command holds no single quote, so it cannot end the
/// quoted sudoers line early; a name with quotes gives the same command as without them.
pub proof fn lemma_sudoers_user_unquoted(user: Seq<char>, sudoers_file: Seq<char>, entries: Seq<Seq<char>>)
    ensures
        !text::without_char(user, '\'').contains('\''),
        spec_sudoers_fix_command(text::without_char(user, '\''), sudoers_file, entries)
            == spec_sudoers_fix_command(user, sudoers_file, entries),
{
    text::lemma_without_char(user, '\'');
}

/// The shell command that installs a sudoers file for `user`.
pub fn sudoers_fix_command(user: &str, sudoers_file: &str, entries: &[String]) -> (r: String)
    ensures
        r@ == spec_sudoers_fix_command(user@, sudoers_file@, text::string_views(entries@)),
{
    let uv = text::chars_of(user);
    let safe_user = text::remove_char(&uv, '\'');
    let allow = text::join_strings(entries, ", ");
    let mut r = String::from_str("echo '");
    text::append_range(&mut r, &safe_user, 0, safe_user.len());
    r.append(" ALL=(ALL) NOPASSWD: ");
    r.append(allow.as_str());
    r.append("' | sudo tee ");
    r.append(sudoers_file);
    r.append(" && sudo chmod 440 ");
    r.append(sudoers_file);
    assert(safe_user@.subrange(0, safe_user@.len() as int) =~= safe_user@);
    r
}

// ───────────────────────── what to probe ─────────────────────────

/// The administrative tools with a table of well-known locations.
pub open spec fn spec_admin_tool_names() -> Seq<Seq<char>> {
    seq![
        "sudo"@,
        "ufw"@,
        "systemctl"@,
        "rc-service"@,
        "service"@,
        "tee"@,
        "mount"@,
        "umount"@,
        "rsync"@,
        "cp"@,
        "mkdir"@,
        "mkfs.ext4"@,
        "mkfs.xfs"@,
        "mkfs.btrfs"@,
        "zfs"@,
        "zpool"@,
        "btrfs"@,
    ]
}

/// Paths whose existence the decisions ask about directly.
pub open spec fn host_markers() -> Seq<Seq<char>> {
    seq!["/run/systemd/system"@, "/sbin/openrc"@, "/etc/alpine-release"@]
}

/// `r` holds every path that looking up the tool `t` may test: `t` itself when it
/// holds a `/`, `t` under every `PATH` directory, and the tool's fallbacks.
pub open spec fn tool_probe_covered(r: Seq<Seq<char>>, path_var: Option<Seq<char>>, t: Seq<char>) -> bool {
    &&& (t.contains('/') ==> r.contains(t))
    &&& (forall|k: int|
        #![trigger text::split_char(path_var->0, ':')[k]]
        path_var is Some && 0 <= k < text::split_char(path_var->0, ':').len() ==> r.contains(
            path_join(text::split_char(path_var->0, ':')[k], t),
        ))
    &&& (forall|k: int|
        0 <= k < spec_admin_tool_fallbacks(t).len() ==> r.contains(
            #[trigger] spec_admin_tool_fallbacks(t)[k],
        ))
}

proof fn lemma_prefix_contains<A>(a: Seq<A>, b: Seq<A>, x: A)
    requires
        a.len() <= b.len(),
        b.subrange(0, a.len() as int) == a,
        a.contains(x),
    ensures
        b.contains(x),
{
    let i = choose|i: int| 0 <= i < a.len() && a[i] == x;
    assert(b.subrange(0, a.len() as int)[i] == b[i]);
}

proof fn lemma_covered_grows(a: Seq<Seq<char>>, b: Seq<Seq<char>>, pv: Option<Seq<char>>, t: Seq<char>)
    requires
        a.len() <= b.len(),
        b.subrange(0, a.len() as int) == a,
        tool_probe_covered(a, pv, t),
    ensures
        tool_probe_covered(b, pv, t),
{
    if t.contains('/') {
        lemma_prefix_contains(a, b, t);
    }
    if pv is Some {
        let ds = text::split_char(pv->0, ':');
        assert forall|k: int| 0 <= k < ds.len() implies b.contains(path_join(ds[k], t)) by {
            lemma_prefix_contains(a, b, path_join(ds[k], t));
        }
    }
    let fb = spec_admin_tool_fallbacks(t);
    assert forall|k: int| 0 <= k < fb.len() implies b.contains(#[trigger] fb[k]) by {
        lemma_prefix_contains(a, b, fb[k]);
    }
}

fn push_path(r: &mut Vec<String>, p: String)
    ensures
        text::string_views(final(r)@) == text::string_views(old(r)@).push(p@),
{
    r.push(p);
    assert(text::string_views(r@) =~= text::string_views(old(r)@).push(p@));
}

proof fn lemma_pushed_contains(a: Seq<Seq<char>>, x: Seq<char>)
    ensures
        a.push(x).contains(x),
        a.push(x).subrange(0, a.len() as int) == a,
{
    assert(a.push(x)[a.len() as int] == x);
    assert(a.push(x).subrange(0, a.len() as int) =~= a);
}

/// Adds every path that looking up `t` may test.
fn add_tool_probes(r: &mut Vec<String>, t: &str, dirs: &Option<Vec<Vec<char>>>, Ghost(pv): Ghost<Option<Seq<char>>>)
    requires
        match pv {
            Some(p) => dirs is Some && text::views(dirs->0@) == text::split_char(p, ':'),
            None => dirs is None,
        },
    ensures
        text::string_views(old(r)@).len() <= text::string_views(final(r)@).len(),
        text::string_views(final(r)@).subrange(0, old(r)@.len() as int) == text::string_views(old(r)@),
        tool_probe_covered(text::string_views(final(r)@), pv, t@),
{
    let ghost r0 = text::string_views(r@);
    let tv = text::chars_of(t);
    if text::contains_char(&tv, '/') {
        push_path(r, String::from_str(t));
        proof { lemma_pushed_contains(r0, t@); }
    }
    let ghost r1 = text::string_views(r@);
    assert(r1.subrange(0, r0.len() as int) == r0);
    match dirs {
        Some(ds) => {
            let mut k: usize = 0;
            while k < ds.len()
                invariant
                    k <= ds@.len(),
                    pv is Some,
                    text::views(ds@) == text::split_char(pv->0, ':'),
                    tv@ == t@,
                    r0.len() <= r1.len() <= text::string_views(r@).len(),
                    text::string_views(r@).subrange(0, r1.len() as int) == r1,
                    r1.subrange(0, r0.len() as int) == r0,
                    t@.contains('/') ==> r1.contains(t@),
                    forall|j: int| 0 <= j < k ==> text::string_views(r@).contains(path_join(ds@[j]@, t@)),
                decreases ds@.len() - k,
            {
                let full = join_path(&ds[k], &tv);
                let ghost before = text::string_views(r@);
                push_path(r, text::string_of(&full));
                proof {
                    lemma_pushed_contains(before, full@);
                    assert forall|j: int| 0 <= j < k implies text::string_views(r@).contains(path_join(ds@[j]@, t@)) by {
                        lemma_prefix_contains(before, text::string_views(r@), path_join(ds@[j]@, t@));
                    }
                    assert(text::string_views(r@).subrange(0, r1.len() as int) =~= r1);
                }
                k = k + 1;
            }
            proof {
                let sp = text::split_char(pv->0, ':');
                assert forall|j: int| 0 <= j < sp.len() implies text::string_views(r@).contains(path_join(sp[j], t@)) by {
                    assert(sp[j] == ds@[j]@);
                }
            }
        },
        None => {},
    }
    let ghost r2 = text::string_views(r@);
    let fb = admin_tool_fallbacks(t);
    let mut k: usize = 0;
    while k < fb.len()
        invariant
            k <= fb@.len(),
            strs_view(fb@) == spec_admin_tool_fallbacks(t@),
            r0.len() <= r1.len() <= r2.len() <= text::string_views(r@).len(),
            text::string_views(r@).subrange(0, r2.len() as int) == r2,
            r2.subrange(0, r1.len() as int) == r1,
            r1.subrange(0, r0.len() as int) == r0,
            t@.contains('/') ==> r1.contains(t@),
            forall|j: int| 0 <= j < k ==> text::string_views(r@).contains(fb@[j]@),
        decreases fb@.len() - k,
    {
        let ghost before = text::string_views(r@);
        push_path(r, String::from_str(fb[k]));
        proof {
            lemma_pushed_contains(before, fb@[k as int]@);
            assert forall|j: int| 0 <= j < k implies text::string_views(r@).contains(fb@[j]@) by {
                lemma_prefix_contains(before, text::string_views(r@), fb@[j]@);
            }
            assert(text::string_views(r@).subrange(0, r2.len() as int) =~= r2);
        }
        k = k + 1;
    }
    proof {
        let rf = text::string_views(r@);
        let sfb = spec_admin_tool_fallbacks(t@);
        assert forall|j: int| 0 <= j < sfb.len() implies rf.contains(#[trigger] sfb[j]) by {
            assert(sfb[j] == fb@[j]@);
        }
        assert(rf.subrange(0, r1.len() as int) =~= r1) by {
            assert(rf.subrange(0, r1.len() as int) =~= rf.subrange(0, r2.len() as int).subrange(0, r1.len() as int));
        }
        assert(rf.subrange(0, r0.len() as int) =~= r0) by {
            assert(rf.subrange(0, r0.len() as int) =~= rf.subrange(0, r1.len() as int).subrange(0, r0.len() as int));
        }
        if t@.contains('/') {
            lemma_prefix_contains(r1, rf, t@);
        }
        if pv is Some {
            let sp = text::split_char(pv->0, ':');
            assert forall|j: int| 0 <= j < sp.len() implies rf.contains(path_join(sp[j], t@)) by {
                lemma_prefix_contains(r2, rf, path_join(sp[j], t@));
            }
        }
    }
}

/// The administrative tools with a table of well-known locations.
pub fn admin_tool_names() -> (r: Vec<&'static str>)
    ensures
        strs_view(r@) == spec_admin_tool_names(),
{
    let r = vec![
        "sudo",
        "ufw",
        "systemctl",
        "rc-service",
        "service",
        "tee",
        "mount",
        "umount",
        "rsync",
        "cp",
        "mkdir",
        "mkfs.ext4",
        "mkfs.xfs",
        "mkfs.btrfs",
        "zfs",
        "zpool",
        "btrfs",
    ];
    assert(strs_view(r@) =~= spec_admin_tool_names());
    r
}

/// Every path whose existence the host decisions may ask about, given the `PATH`
/// variable: the fixed markers, and for each administrative tool and each of
/// `extra_commands` the paths its lookup may test. A [`HostFacts`] whose
/// `existing_paths` are those of this list that exist answers every such question.
pub fn host_probe_paths(path_var: &Option<String>, extra_commands: &[&str]) -> (r: Vec<String>)
    ensures
        forall|k: int| 0 <= k < host_markers().len() ==> text::string_views(r@).contains(#[trigger] host_markers()[k]),
        forall|k: int| 0 <= k < spec_admin_tool_names().len() ==> tool_probe_covered(text::string_views(r@), opt_view(*path_var), #[trigger] spec_admin_tool_names()[k]),
        forall|k: int| 0 <= k < extra_commands@.len() ==> tool_probe_covered(text::string_views(r@), opt_view(*path_var), #[trigger] extra_commands@[k]@),
{
    let mut r: Vec<String> = Vec::new();
    push_path(&mut r, String::from_str("/run/systemd/system"));
    push_path(&mut r, String::from_str("/sbin/openrc"));
    push_path(&mut r, String::from_str("/etc/alpine-release"));
    let ghost r0 = text::string_views(r@);
    assert(r0 =~= host_markers());
    let dirs: Option<Vec<Vec<char>>> = match path_var {
        Some(p) => {
            let pv = text::chars_of(p.as_str());
            Some(text::split_on(&pv, ':'))
        },
        None => None,
    };
    let ghost pv = opt_view(*path_var);
    let tools = admin_tool_names();
    let mut i: usize = 0;
    while i < tools.len()
        invariant
            i <= tools@.len(),
            strs_view(tools@) == spec_admin_tool_names(),
            match pv {
                Some(p) => dirs is Some && text::views(dirs->0@) == text::split_char(p, ':'),
                None => dirs is None,
            },
            r0.len() <= text::string_views(r@).len(),
            text::string_views(r@).subrange(0, r0.len() as int) == r0,
            forall|j: int| 0 <= j < i ==> tool_probe_covered(text::string_views(r@), pv, #[trigger] tools@[j]@),
        decreases tools@.len() - i,
    {
        let ghost before = text::string_views(r@);
        add_tool_probes(&mut r, tools[i], &dirs, Ghost(pv));
        proof {
            let now = text::string_views(r@);
            assert forall|j: int| 0 <= j < i implies tool_probe_covered(now, pv, #[trigger] tools@[j]@) by {
                lemma_covered_grows(before, now, pv, tools@[j]@);
            }
            assert(now.subrange(0, r0.len() as int) =~= before.subrange(0, before.len() as int).subrange(0, r0.len() as int));
        }
        i = i + 1;
    }
    let ghost r1 = text::string_views(r@);
    let mut i: usize = 0;
    while i < extra_commands.len()
        invariant
            i <= extra_commands@.len(),
            strs_view(tools@) == spec_admin_tool_names(),
            match pv {
                Some(p) => dirs is Some && text::views(dirs->0@) == text::split_char(p, ':'),
                None => dirs is None,
            },
            r1.len() <= text::string_views(r@).len(),
            text::string_views(r@).subrange(0, r1.len() as int) == r1,
            r0.len() <= r1.len(),
            r1.subrange(0, r0.len() as int) == r0,
            forall|j: int| 0 <= j < tools@.len() ==> tool_probe_covered(r1, pv, #[trigger] tools@[j]@),
            forall|j: int| 0 <= j < i ==> tool_probe_covered(text::string_views(r@), pv, #[trigger] extra_commands@[j]@),
        decreases extra_commands@.len() - i,
    {
        let ghost before = text::string_views(r@);
        add_tool_probes(&mut r, extra_commands[i], &dirs, Ghost(pv));
        proof {
            let now = text::string_views(r@);
            assert forall|j: int| 0 <= j < i implies tool_probe_covered(now, pv, #[trigger] extra_commands@[j]@) by {
                lemma_covered_grows(before, now, pv, extra_commands@[j]@);
            }
            assert(now.subrange(0, r1.len() as int) =~= before.subrange(0, before.len() as int).subrange(0, r1.len() as int));
        }
        i = i + 1;
    }
    proof {
        let rf = text::string_views(r@);
        assert forall|k: int| 0 <= k < host_markers().len() implies rf.contains(#[trigger] host_markers()[k]) by {
            assert(rf.subrange(0, r0.len() as int) =~= rf.subrange(0, r1.len() as int).subrange(0, r0.len() as int));
            assert(r0.contains(r0[k]));
            lemma_prefix_contains(r0, rf, r0[k]);
        }
        assert forall|k: int| 0 <= k < spec_admin_tool_names().len() implies tool_probe_covered(rf, pv, #[trigger] spec_admin_tool_names()[k]) by {
            assert(spec_admin_tool_names()[k] == tools@[k]@);
            lemma_covered_grows(r1, rf, pv, tools@[k]@);
        }
    }
    r
}

} // verus!
