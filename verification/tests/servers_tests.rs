use yunexal_panel::servers::{
    check_member_policy, default_member_mode, default_member_policies, is_valid_member_permission,
    is_valid_policy_mode, member_has_any_access, read_permission_granted, server_member_permissions,
    write_permission_granted, MemberPolicyError,
};

fn rows(v: &[(&str, &str)]) -> Vec<(String, String)> {
    v.iter().map(|(p, m)| (p.to_string(), m.to_string())).collect()
}

#[test]
fn member_capabilities() {
    assert_eq!(
        server_member_permissions(),
        vec!["console", "files", "networking", "audit", "settings", "power", "members"]
    );
    assert!(is_valid_member_permission("power"));
    assert!(!is_valid_member_permission("root"));
    assert!(!is_valid_member_permission(""));
    assert!(is_valid_policy_mode("none") && is_valid_policy_mode("read") && is_valid_policy_mode("write"));
    assert!(!is_valid_policy_mode("Write"));
}

#[test]
fn defaults_for_new_members() {
    assert_eq!(default_member_mode("audit"), "read");
    assert_eq!(default_member_mode("members"), "none");
    assert_eq!(default_member_mode("console"), "write");
    assert_eq!(
        default_member_policies(),
        vec![
            ("console", "write"),
            ("files", "write"),
            ("networking", "write"),
            ("audit", "read"),
            ("settings", "write"),
            ("power", "write"),
            ("members", "none"),
        ]
    );
    for (p, m) in default_member_policies() {
        assert_eq!(check_member_policy(p, m), Ok(()));
    }
}

#[test]
fn policy_checks_report_each_error() {
    assert_eq!(check_member_policy("files", "read"), Ok(()));
    assert_eq!(check_member_policy("bogus", "read"), Err(MemberPolicyError::InvalidPermission));
    assert_eq!(check_member_policy("bogus", "bogus"), Err(MemberPolicyError::InvalidPermission));
    assert_eq!(check_member_policy("files", "all"), Err(MemberPolicyError::InvalidMode));
    assert_eq!(MemberPolicyError::InvalidPermission.message(), "invalid permission");
    assert_eq!(MemberPolicyError::InvalidMode.message(), "invalid mode");
}

#[test]
fn stored_policy_answers_reads_and_writes() {
    assert!(read_permission_granted("files", Some("read")));
    assert!(read_permission_granted("files", Some("write")));
    assert!(!read_permission_granted("files", Some("none")));
    assert!(!read_permission_granted("files", None));
    assert!(!read_permission_granted("bogus", Some("write")));
    assert!(write_permission_granted("power", Some("write")));
    assert!(!write_permission_granted("power", Some("read")));
    assert!(!write_permission_granted("bogus", Some("write")));
    for p in server_member_permissions() {
        for m in ["none", "read", "write"] {
            if write_permission_granted(p, Some(m)) {
                assert!(read_permission_granted(p, Some(m)));
            }
        }
    }
}

#[test]
fn any_access_needs_a_readable_access_capability() {
    assert!(member_has_any_access(&rows(&[("power", "write"), ("files", "read")])));
    assert!(!member_has_any_access(&rows(&[("power", "write"), ("members", "write"), ("files", "none")])));
    assert!(!member_has_any_access(&rows(&[])));
    assert!(member_has_any_access(&rows(&[("audit", "write")])));
}
