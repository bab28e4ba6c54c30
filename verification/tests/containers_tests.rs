use yunexal_panel::containers::{
    attach_server_info, console_command_excerpt, console_command_excerpt_checked, container_visible,
    default_quota_gb, owner_label, running_containers, server_ref, should_sample_stats, state_label,
    visible_containers, ContainerInfo, ServerInfoRow,
};

fn c(id: &str, state: &str) -> ContainerInfo {
    ContainerInfo {
        id: id.to_string(),
        short_id: id.chars().take(12).collect(),
        name: format!("n-{}", id),
        status: "Up".to_string(),
        state: state.to_string(),
        cpu_usage: "0%".to_string(),
        ram_usage: "0 MB".to_string(),
        db_id: 0,
        owner: String::new(),
    }
}

fn ids(cs: &[ContainerInfo]) -> Vec<String> {
    cs.iter().map(|c| c.id.clone()).collect()
}

#[test]
fn visibility_by_id_prefix() {
    let allowed = vec!["abc123".to_string(), "ffff".to_string()];
    assert!(container_visible("abc123456789", &allowed));
    assert!(container_visible("abc", &allowed));
    assert!(!container_visible("abd", &allowed));
    assert!(container_visible("", &allowed));
    assert!(!container_visible("x", &vec![]));
}

#[test]
fn visible_containers_per_user() {
    let cs = vec![c("abc1", "running"), c("def2", "exited"), c("abc9", "running")];
    let allowed = vec!["abc1".to_string(), "abc9".to_string()];
    assert_eq!(ids(&visible_containers(cs.clone(), true, false, &vec![])), vec!["abc1", "def2", "abc9"]);
    assert_eq!(ids(&visible_containers(cs.clone(), false, false, &allowed)), Vec::<String>::new());
    assert_eq!(ids(&visible_containers(cs, false, true, &allowed)), vec!["abc1", "abc9"]);
}

#[test]
fn server_records_are_attached() {
    let cs = vec![c("abc1", "running"), c("def2", "exited")];
    let rows = vec![
        ServerInfoRow { container_id: "abc1".to_string(), db_id: 4, name: "web".to_string(), owner: "ann".to_string() },
        ServerInfoRow { container_id: "abc1".to_string(), db_id: 5, name: "web2".to_string(), owner: "bob".to_string() },
    ];
    let out = attach_server_info(cs.clone(), &rows, true);
    assert_eq!(out.len(), 2);
    assert_eq!((out[0].db_id, out[0].name.as_str(), out[0].owner.as_str()), (5, "web2", "bob"));
    assert_eq!((out[1].db_id, out[1].name.as_str(), out[1].owner.as_str()), (0, "n-def2", ""));
    assert_eq!(out[0].state, "running");
    let out = attach_server_info(cs, &rows, false);
    assert_eq!((out[0].db_id, out[0].owner.as_str()), (5, ""));
}

#[test]
fn running_filter_keeps_order() {
    let cs = vec![c("a", "running"), c("b", "exited"), c("c", "running"), c("d", "Running")];
    assert_eq!(ids(&running_containers(cs)), vec!["a", "c"]);
    assert!(should_sample_stats("running"));
    assert!(!should_sample_stats("paused"));
}

#[test]
fn labels_and_defaults() {
    assert_eq!(owner_label("ann".to_string(), "  ".to_string()), "ann");
    assert_eq!(owner_label("ann".to_string(), "Annie".to_string()), "Annie");
    assert_eq!(default_quota_gb(String::new()), "15");
    assert_eq!(default_quota_gb("30".to_string()), "30");
    assert_eq!(server_ref(42), "#42");
    assert_eq!(server_ref(-1), "#-1");
    assert_eq!(state_label(None), "unknown");
    assert_eq!(state_label(Some("exited".to_string())), "exited");
}

#[test]
fn console_excerpts() {
    assert_eq!(console_command_excerpt("   "), None);
    assert_eq!(console_command_excerpt("  say hi \n"), Some("say hi".to_string()));
    let long = "x".repeat(250);
    assert_eq!(console_command_excerpt(&long), Some("x".repeat(200)));
    let wide = format!("{}é", "x".repeat(198));
    assert_eq!(console_command_excerpt_checked(&wide), Some(Some(wide.clone())));
    let split = format!("{}é!", "x".repeat(199));
    assert_eq!(console_command_excerpt_checked(&split), None);
    assert_eq!(console_command_excerpt_checked(" "), Some(None));
    let cut = format!("{}éé", "x".repeat(198));
    assert_eq!(console_command_excerpt_checked(&cut), Some(Some(wide.clone())));
}
