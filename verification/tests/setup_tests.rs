use yunexal_panel::setup::{
    apk_add_args, build_nginx_config, civil_from_days, container_summary, docker_group_args,
    env_file_content, env_port, hex_secret, is_root_id_output, iso8601_utc, launcher_path,
    launcher_script, letsencrypt_paths, line_without_ending, openrc_service_file,
    owner_arg, panel_port_or_default, parse_import_selection, password_long_enough,
    password_prompt_line, prompt_answer, prompt_line, real_user, service_binary,
    service_binary_candidates, sh_esc_single, yes_no_answer, yes_no_prompt_line,
};

fn nginx_reference(domain: &str, port: &str, ssl: Option<(&str, &str)>) -> String {
    let location = format!(
        "    server_tokens off;\n    proxy_hide_header X-Powered-By;\n\n    # WebSocket + HTTP reverse proxy (required for console)\n    location / {{\n        proxy_pass http://127.0.0.1:{port};\n        proxy_http_version 1.1;\n        proxy_set_header Upgrade $http_upgrade;\n        proxy_set_header Connection \"upgrade\";\n        proxy_set_header Host $host;\n        proxy_set_header X-Real-IP $remote_addr;\n        proxy_set_header X-Forwarded-For $proxy_add_x_forwarded_for;\n        proxy_set_header X-Forwarded-Proto $scheme;\n        proxy_read_timeout 3600s;\n        proxy_send_timeout 3600s;\n    }}\n",
        port = port,
    );
    if let Some((cert, key)) = ssl {
        format!(
            "server {{\n    listen 80;\n    server_name {d};\n    return 301 https://$host$request_uri;\n}}\n\nserver {{\n    listen 443 ssl;\n    server_name {d};\n\n    ssl_certificate {cert};\n    ssl_certificate_key {key};\n\n{location}}}\n",
            d = domain, cert = cert, key = key, location = location,
        )
    } else {
        format!(
            "server {{\n    listen 80;\n    server_name {d};\n\n{location}}}\n",
            d = domain, location = location,
        )
    }
}

#[test]
fn nginx_config_matches_layout() {
    assert_eq!(build_nginx_config("panel.example.com", "3000", None), nginx_reference("panel.example.com", "3000", None));
    let (cert, key) = letsencrypt_paths("panel.example.com");
    assert_eq!(cert, "/etc/letsencrypt/live/panel.example.com/fullchain.pem");
    assert_eq!(key, "/etc/letsencrypt/live/panel.example.com/privkey.pem");
    assert_eq!(
        build_nginx_config("panel.example.com", "8080", Some((&cert, &key))),
        nginx_reference("panel.example.com", "8080", Some((&cert, &key)))
    );
}

#[test]
fn openrc_and_launcher_match_layout() {
    let real_user = "alice";
    let workdir = "/opt/panel";
    let launcher = launcher_path(workdir);
    assert_eq!(launcher, "/opt/panel/yunexal-panel-launcher.sh");
    let expected_service = format!(
        "#!/sbin/openrc-run\n\
         name=\"yunexal-panel\"\n\
         description=\"Yunexal Panel service\"\n\
         command=\"{launcher}\"\n\
         command_user=\"{real_user}:{real_user}\"\n\
         directory=\"{workdir}\"\n\
         pidfile=\"/run/yunexal-panel.pid\"\n\
         command_background=\"yes\"\n\
         start_stop_daemon_args=\"--make-pidfile --pidfile ${{pidfile}} --stdout /var/log/yunexal-panel.log --stderr /var/log/yunexal-panel.log\"\n\
         \n\
         depend() {{\n\
             need net docker\n\
             after firewall\n\
         }}\n\
         \n\
         start_pre() {{\n\
             checkpath --file --mode 0644 --owner {real_user}:{real_user} /var/log/yunexal-panel.log\n\
             checkpath --directory --mode 0755 /run\n\
         }}\n",
        real_user = real_user,
        workdir = workdir,
        launcher = launcher,
    );
    assert_eq!(openrc_service_file(real_user, workdir, &launcher), expected_service);

    let bin = "/opt/it's/bin";
    let expected_launcher = format!(
        "#!/bin/sh\n\
         set -a\n\
         [ -f '{workdir}/.env' ] && . '{workdir}/.env'\n\
         set +a\n\
         exec '{bin}' \"$@\"\n",
        workdir = "/opt/panel",
        bin = "/opt/it'\\''s/bin",
    );
    assert_eq!(launcher_script(workdir, bin), expected_launcher);
}

#[test]
fn env_file_matches_layout() {
    let now = "2024-01-02T03:04:05Z";
    let port = "3000";
    let secret = "abcd";
    let expected = format!(
        "# Yunexal Panel — auto-generated by yunexal-setup on {now}\n\
         PANEL_PORT={port}\n\
         COOKIE_SECRET={secret}\n\
         DATABASE_URL=sqlite:yunexal.db\n"
    );
    let content = env_file_content(now, port, secret);
    assert_eq!(content, expected);
    assert_eq!(env_port(&content), Some("3000".to_string()));
    assert_eq!(env_port("A=1\nPANEL_PORT=81\nPANEL_PORT=82\n"), Some("81".to_string()));
    assert_eq!(env_port("PANEL_PORT_X=1\n"), None);
    assert_eq!(panel_port_or_default(None), "3000");
    assert_eq!(panel_port_or_default(Some("81".to_string())), "81");
}

#[test]
fn iso8601_timestamps() {
    assert_eq!(iso8601_utc(0), "1970-01-01T00:00:00Z");
    assert_eq!(iso8601_utc(951782400), "2000-02-29T00:00:00Z");
    assert_eq!(iso8601_utc(1700000000), "2023-11-14T22:13:20Z");
    assert_eq!(iso8601_utc(4102444799), "2099-12-31T23:59:59Z");
    assert_eq!(civil_from_days(0), (1970, 1, 1));
    assert_eq!(civil_from_days(59), (1970, 3, 1));
    assert_eq!(civil_from_days(11016), (2000, 2, 29));
    assert_eq!(civil_from_days(10956), (1999, 12, 31));
}

#[test]
fn secret_hex_is_lowercase_two_digits() {
    assert_eq!(hex_secret(&[0x00, 0x0f, 0xab, 0xff]), "000fabff");
    assert_eq!(hex_secret(&[0u8; 64]).len(), 128);
    assert_eq!(hex_secret(&[]), "");
}

#[test]
fn prompts_and_answers() {
    assert_eq!(prompt_line("Port", Some("3000")), "\x1b[34mPort [3000]\x1b[0m: ");
    assert_eq!(prompt_line("Name", None), "\x1b[34mName\x1b[0m: ");
    assert_eq!(prompt_answer(String::new(), Some("3000")), "3000");
    assert_eq!(prompt_answer(String::new(), None), "");
    assert_eq!(prompt_answer("81".to_string(), Some("3000")), "81");
    assert_eq!(yes_no_prompt_line("Reset?", false), "\x1b[33mReset? [y/N]\x1b[0m: ");
    assert_eq!(yes_no_prompt_line("Go?", true), "\x1b[33mGo? [Y/n]\x1b[0m: ");
    assert!(yes_no_answer("", true));
    assert!(!yes_no_answer("", false));
    assert!(yes_no_answer("Yes", false));
    assert!(!yes_no_answer("no", true));
    assert!(!yes_no_answer(" y", true));
    assert_eq!(password_prompt_line("Password"), "\x1b[34mPassword\x1b[0m: ");
    assert_eq!(line_without_ending("abc\r\n"), "abc");
    assert_eq!(line_without_ending("abc\n\n"), "abc");
    assert_eq!(line_without_ending(" abc "), " abc ");
}

#[test]
fn identity_helpers() {
    assert!(is_root_id_output("0\n"));
    assert!(!is_root_id_output("1000\n"));
    assert!(!is_root_id_output("00"));
    assert_eq!(real_user(Some("bob".to_string()), Some("carol\n".to_string())), "bob");
    assert_eq!(real_user(None, Some(" carol\n".to_string())), "carol");
    assert_eq!(real_user(None, None), "root");
    assert_eq!(owner_arg("bob"), "bob:bob");
    assert_eq!(docker_group_args("root"), None);
    assert_eq!(docker_group_args("bob"), Some(vec!["bob".to_string(), "docker".to_string()]));
    assert_eq!(
        apk_add_args(&["docker", "docker-cli-compose"]),
        vec!["add".to_string(), "--no-cache".to_string(), "docker".to_string(), "docker-cli-compose".to_string()]
    );
}

#[test]
fn password_length_counts_bytes() {
    assert!(!password_long_enough("1234567"));
    assert!(password_long_enough("12345678"));
    assert!(password_long_enough("ééééé"));
    assert!(!password_long_enough("ééé"));
}

#[test]
fn import_selection_parsing() {
    assert_eq!(parse_import_selection(" ALL ", 3), vec![0, 1, 2]);
    assert_eq!(parse_import_selection("1 3 4", 3), vec![0, 2]);
    assert_eq!(parse_import_selection("0 x +2 2", 3), vec![1, 1]);
    assert_eq!(parse_import_selection("", 3), Vec::<usize>::new());
}

#[test]
fn container_summary_defaults() {
    let (id, name, image, status) = container_summary(
        Some("abc".to_string()),
        Some(vec!["//web".to_string(), "other".to_string()]),
        Some("nginx".to_string()),
        None,
    );
    assert_eq!((id.as_str(), name.as_str(), image.as_str(), status.as_str()), ("abc", "web", "nginx", ""));
    let (id, name, _, _) = container_summary(None, Some(vec![]), None, None);
    assert_eq!((id.as_str(), name.as_str()), ("", "unknown"));
    let (_, name, _, _) = container_summary(None, None, None, None);
    assert_eq!(name, "unknown");
}

#[test]
fn shell_escaping() {
    assert_eq!(sh_esc_single("plain"), "plain");
    assert_eq!(sh_esc_single("it's"), "it'\\''s");
    assert_eq!(sh_esc_single("a\\b"), "a\\\\b");
}

#[test]
fn service_binary_choice() {
    let c = service_binary_candidates("/opt/p");
    assert_eq!(c, vec![
        "/opt/p/yunexal-panel".to_string(),
        "/opt/p/target/release/yunexal-panel".to_string(),
        "/opt/p/target/debug/yunexal-panel".to_string(),
    ]);
    assert_eq!(service_binary("/opt/p", &vec![false, false, true]), "/opt/p/target/debug/yunexal-panel");
    assert_eq!(service_binary("/opt/p", &vec![true, true, true]), "/opt/p/yunexal-panel");
    assert_eq!(service_binary("/opt/p", &vec![]), "/opt/p/target/release/yunexal-panel");
}
