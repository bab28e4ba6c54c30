use yunexal_panel::auth::{
    l7_limits, l7_uam_audit_detail, l7_uam_trigger, login_outcome, login_session_username,
    login_uam_audit_detail, login_uam_trigger, service_api_permission, service_login_outcome,
    service_login_username, session_cookie_policy, setting_or, LoginAttempts, LoginOutcome,
    ServiceLoginBody, ServiceLoginOutcome,
};

#[test]
fn service_login_account_name() {
    assert_eq!(service_login_username(&ServiceLoginBody { username: None }), "root");
    assert_eq!(service_login_username(&ServiceLoginBody { username: Some("  ".to_string()) }), "root");
    assert_eq!(service_login_username(&ServiceLoginBody { username: Some(" bot ".to_string()) }), "bot");
    assert_eq!(service_api_permission(), "admin.access");
}

#[test]
fn service_login_outcomes() {
    let o = service_login_outcome(false, true, true);
    assert_eq!(o, ServiceLoginOutcome::InvalidApiKey);
    assert_eq!((o.status_code(), o.error_message()), (401, Some("Invalid API key")));
    assert_eq!(o.audit_entry(), Some(("auth.service_login_denied", "invalid_api_key")));
    let o = service_login_outcome(true, false, true);
    assert_eq!((o, o.status_code(), o.error_message(), o.audit_entry()), (ServiceLoginOutcome::UserNotFound, 404, Some("User not found"), None));
    let o = service_login_outcome(true, true, false);
    assert_eq!((o, o.status_code(), o.error_message()), (ServiceLoginOutcome::NoApiAccess, 403, Some("User has no API access")));
    let o = service_login_outcome(true, true, true);
    assert_eq!((o, o.status_code(), o.error_message()), (ServiceLoginOutcome::Granted, 200, None));
    assert_eq!(o.audit_entry(), Some(("auth.service_login", "third_party_api")));
}

#[test]
fn form_login_outcomes() {
    assert_eq!(login_outcome(true, true), LoginOutcome::Locked);
    assert_eq!(login_outcome(false, true), LoginOutcome::Success);
    assert_eq!(login_outcome(false, false), LoginOutcome::Failed);
    let l = LoginOutcome::Locked;
    let f = LoginOutcome::Failed;
    let s = LoginOutcome::Success;
    assert_eq!((l.status_code(), f.status_code(), s.status_code()), (429, 200, 200));
    assert_eq!(s.error_message(), None);
    assert_eq!(f.error_message(), Some("Invalid username or password."));
    assert_eq!(l.error_message(), Some("Too many login attempts. Please try again later."));
    assert_eq!((l.audit_action(), f.audit_action(), s.audit_action()), ("auth.login_locked", "auth.login_failed", "auth.login"));
    assert_eq!(login_session_username(Some("Ann".to_string()), "ann"), "Ann");
    assert_eq!(login_session_username(None, "ann"), "ann");
}

#[test]
fn cookie_policy() {
    let p = session_cookie_policy();
    assert!(p.http_only && p.secure && p.same_site_strict);
    assert_eq!((p.path, p.max_age_days), ("/", 7));
}

#[test]
fn numeric_settings() {
    assert_eq!(setting_or("12", 5, u64::MAX), 12);
    assert_eq!(setting_or("+12", 5, u64::MAX), 12);
    assert_eq!(setting_or(" 12", 5, u64::MAX), 5);
    assert_eq!(setting_or("", 5, u64::MAX), 5);
    assert_eq!(setting_or("-1", 5, u64::MAX), 5);
    assert_eq!(setting_or("4294967296", 200, u32::MAX as u64), 200);
    assert_eq!(l7_limits("300", "x"), (300, 2));
    assert_eq!(l7_limits("", "5"), (200, 5));
}

#[test]
fn login_under_attack_trigger() {
    let attempts = vec![
        LoginAttempts { failures: 3, seconds_since_last: 10 },
        LoginAttempts { failures: 1, seconds_since_last: 1000 },
        LoginAttempts { failures: 0, seconds_since_last: 1 },
        LoginAttempts { failures: 2, seconds_since_last: 60 },
    ];
    assert_eq!(login_uam_trigger(true, "tok", "zone", "2", &attempts, 60, false), Some(2));
    assert_eq!(login_uam_trigger(true, "tok", "zone", "3", &attempts, 60, false), None);
    assert_eq!(login_uam_trigger(true, "tok", "zone", "2", &attempts, 60, true), None);
    assert_eq!(login_uam_trigger(false, "tok", "zone", "2", &attempts, 60, false), None);
    assert_eq!(login_uam_trigger(true, "", "zone", "2", &attempts, 60, false), None);
    assert_eq!(login_uam_trigger(true, "tok", "zone", "bad", &attempts, 2000, false), None);
    assert_eq!(login_uam_audit_detail(7), "7 distinct IPs");
}

#[test]
fn flood_under_attack_trigger() {
    assert!(l7_uam_trigger(true, true, "t", "z", 2, 2, false));
    assert!(!l7_uam_trigger(true, true, "t", "z", 1, 2, false));
    assert!(!l7_uam_trigger(true, false, "t", "z", 5, 2, false));
    assert!(!l7_uam_trigger(true, true, "t", "", 5, 2, false));
    assert!(!l7_uam_trigger(true, true, "t", "z", 5, 2, true));
    assert_eq!(l7_uam_audit_detail(3, 200), "3 IPs flooding >200/min");
}
