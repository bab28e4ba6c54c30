use yunexal_panel::host::{
    detect_init_system, docker_restart_command_parts, docker_restart_display_command,
    docker_restart_sudoers_entry, env_truthy, find_in_path, is_effective_root,
    parse_effective_uid_from_status, resolve_admin_tool, resolve_command_path, should_use_sudo,
    sudoers_fix_command, ufw_sudoers_entry, HostFacts, InitSystem,
};

fn facts(path: Option<&str>, existing: &[&str]) -> HostFacts {
    HostFacts {
        path_var: path.map(|s| s.to_string()),
        existing_paths: existing.iter().map(|s| s.to_string()).collect(),
        no_sudo_var: None,
        force_sudo_var: None,
        proc_status: None,
        user_var: None,
    }
}

#[test]
fn find_in_path_walks_path_in_order() {
    let h = facts(Some("/usr/local/bin:/usr/bin:/bin"), &["/usr/bin/git", "/bin/git"]);
    assert_eq!(find_in_path("git", &h), Some("/usr/bin/git".to_string()));
    assert_eq!(find_in_path("hg", &h), None);
}

#[test]
fn resolve_command_path_falls_back() {
    let h = facts(Some("/opt/bin"), &["/bin/sudo"]);
    assert_eq!(resolve_command_path("sudo", &["/usr/bin/sudo", "/bin/sudo"], &h), "/bin/sudo");
    let none = facts(None, &[]);
    assert_eq!(resolve_command_path("sudo", &["/usr/bin/sudo", "/bin/sudo"], &none), "/usr/bin/sudo");
    assert_eq!(resolve_command_path("foo", &[], &none), "foo");
    assert_eq!(resolve_admin_tool("ufw", &none), "/usr/sbin/ufw");
    assert_eq!(ufw_sudoers_entry(&none), "/usr/sbin/ufw");
}

#[test]
fn uid_parsing_and_root_detection() {
    let status = "Name:\tbash\nUid:\t1000\t0\t0\t0\nGid:\t100\n";
    assert_eq!(parse_effective_uid_from_status(status), Some(0));
    assert_eq!(parse_effective_uid_from_status("Uid:\t1 2\n"), Some(2));
    assert_eq!(parse_effective_uid_from_status("Uid:\t1\n"), None);
    assert_eq!(parse_effective_uid_from_status("Uid:\t1 99999999999\n"), None);
    let mut h = facts(None, &[]);
    h.proc_status = Some(status.to_string());
    assert!(is_effective_root(&h));
    h.proc_status = None;
    h.user_var = Some("root".to_string());
    assert!(is_effective_root(&h));
}

#[test]
fn sudo_and_init_system() {
    let mut h = facts(Some("/usr/bin"), &["/usr/bin/sudo", "/run/systemd/system", "/usr/bin/systemctl"]);
    h.user_var = Some("alice".to_string());
    assert!(should_use_sudo(&h));
    h.no_sudo_var = Some("YES".to_string());
    assert!(!should_use_sudo(&h));
    assert!(env_truthy(&Some("On".to_string())));
    assert!(!env_truthy(&Some("0".to_string())));
    assert_eq!(detect_init_system(&h), InitSystem::Systemd);
    let (p, a) = docker_restart_command_parts(&h);
    assert_eq!(p, "/usr/bin/systemctl");
    assert_eq!(a, vec!["restart".to_string(), "docker".to_string()]);
    assert_eq!(docker_restart_display_command(&h), "systemctl restart docker");
    assert_eq!(docker_restart_sudoers_entry(&h), "/usr/bin/systemctl restart docker");
    assert_eq!(
        sudoers_fix_command("o'neil", "/etc/sudoers.d/x", &["a".to_string(), "b".to_string()]),
        "echo 'oneil ALL=(ALL) NOPASSWD: a, b' | sudo tee /etc/sudoers.d/x && sudo chmod 440 /etc/sudoers.d/x"
    );
}
