use yunexal_panel::containers::{route_console_frame, ConsoleFrame};
use yunexal_panel::quota::{chattr_failure, setquota_failure};
use yunexal_panel::setup::{
    build_nginx_config, docker_retry_packages, letsencrypt_paths, lowered_answer, nginx_service_action,
    nginx_site, wizard_args,
};
use yunexal_panel::version_control::{next_git_step, GitActionResponse};

fn resp(ok: bool) -> GitActionResponse {
    GitActionResponse { ok, message: String::new(), output: String::new() }
}

fn args(v: &[&str]) -> Vec<String> {
    v.iter().map(|s| s.to_string()).collect()
}

#[test]
fn git_steps_stop_at_first_failure() {
    assert_eq!(next_git_step(&vec![], 2), Some(0));
    assert_eq!(next_git_step(&vec![resp(true)], 2), Some(1));
    assert_eq!(next_git_step(&vec![resp(false)], 2), None);
    assert_eq!(next_git_step(&vec![resp(true), resp(true)], 2), None);
    assert_eq!(next_git_step(&vec![], 0), None);
}

#[test]
fn console_frames_are_routed() {
    let r = route_console_frame(ConsoleFrame::Text("  say hi \n".to_string())).unwrap();
    assert_eq!(r.audit, Some("say hi".to_string()));
    assert_eq!(r.stdin, Some(b"  say hi \n".to_vec()));
    let r = route_console_frame(ConsoleFrame::Text(" \n".to_string())).unwrap();
    assert_eq!(r.audit, None);
    assert_eq!(r.stdin, Some(b" \n".to_vec()));
    let r = route_console_frame(ConsoleFrame::Binary(vec![3, 4])).unwrap();
    assert_eq!((r.audit, r.stdin), (None, Some(vec![3, 4])));
    let r = route_console_frame(ConsoleFrame::Other).unwrap();
    assert_eq!((r.audit, r.stdin), (None, None));
    let split = format!("{}é!", "x".repeat(199));
    assert!(route_console_frame(ConsoleFrame::Text(split)).is_none());
}

#[test]
fn nginx_choices() {
    assert_eq!(nginx_site("", "3000", true), None);
    assert_eq!(nginx_site("p.example", "3000", false), Some(build_nginx_config("p.example", "3000", None)));
    let (c, k) = letsencrypt_paths("p.example");
    assert_eq!(nginx_site("p.example", "3000", true), Some(build_nginx_config("p.example", "3000", Some((&c, &k)))));
    assert_eq!(nginx_service_action(true), "reload");
    assert_eq!(nginx_service_action(false), "start");
}

#[test]
fn docker_install_fallback() {
    assert_eq!(docker_retry_packages(true), None);
    assert_eq!(docker_retry_packages(false), Some(vec!["docker"]));
}

#[test]
fn quota_failure_messages() {
    assert_eq!(chattr_failure(7, "/srv/v", " denied\n"), "chattr +P -p 7 /srv/v: denied");
    assert_eq!(setquota_failure(7, 2048, "/srv", "bad\n"), "setquota -P 7 0 2048 0 0 /srv: bad");
}

#[test]
fn wizard_command_line() {
    let a = wizard_args(&args(&["yunexal-setup", "--reset"]));
    assert!(a.reset && !a.non_interactive && !a.help);
    let a = wizard_args(&args(&["yunexal-setup", "--non-interactive", "-h"]));
    assert!(!a.reset && a.non_interactive && a.help);
    let a = wizard_args(&args(&["yunexal-setup", "--RESET", "--help"]));
    assert!(!a.reset && a.help);
}

#[test]
fn lowered_answers() {
    assert!(lowered_answer("", true));
    assert!(!lowered_answer("", false));
    assert!(lowered_answer("yes", false));
    assert!(!lowered_answer("n", true));
}
