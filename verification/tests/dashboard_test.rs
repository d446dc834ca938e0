use rustboard::dashboard::{
    configured_ids, merge_discovered, rediscovery_targets, begin_service_command, discovered_for_host, find_service, finish_service_command, forget_host, host_counts,
    docker_df_command, docker_df_items, logs_command, parse_disk_usage, quick_command_line, requested_log_lines, topology, trim_text,
    ws_command_request, CommandError,
};
use rustboard::service::{default_status, QuickCommand, Service};

fn svc(id: &str, host: &str) -> Service {
    Service {
        id: id.to_string(),
        name: id.to_string(),
        host: host.to_string(),
        port: None,
        ssh_user: Some("ops".to_string()),
        start_cmd: Some("systemctl start x".to_string()),
        stop_cmd: None,
        restart_cmd: None,
        log_path: None,
        log_cmd: None,
        health_cmd: None,
        health_path: None,
        dependencies: vec![],
        status: default_status(),
        tags: vec![],
        stacks: vec![],
        container_name: None,
        container_id: None,
        image: None,
        discovered: false,
        quick_commands: vec![],
        predicted_app_path: None,
    }
}

#[test]
fn find_service_finds_first() {
    let v = vec![svc("a", "h"), svc("b", "h"), svc("b", "i")];
    assert_eq!(find_service(&v, "b"), Some(1));
    assert_eq!(find_service(&v, "z"), None);
}

#[test]
fn service_command_lifecycle() {
    let mut v = vec![svc("a", "h1"), svc("b", "h2")];
    let start = begin_service_command(&mut v, "b", "start").ok().expect("starts");
    assert_eq!(start.cmd, "systemctl start x");
    assert_eq!(start.host, "h2");
    assert_eq!(start.ssh_user, Some("ops".to_string()));
    assert_eq!(start.snapshot.status, "start");
    assert_eq!(v[1].status, "start");
    assert_eq!(v[0].status, "unknown");
    let done = finish_service_command(&mut v, "b", "start", true).expect("found");
    assert_eq!(done.status, "start");
    let failed = finish_service_command(&mut v, "b", "start", false).expect("found");
    assert_eq!(failed.status, "error");
    assert_eq!(v[1].status, "error");
    assert!(finish_service_command(&mut v, "zz", "start", true).is_none());
}

#[test]
fn service_command_errors() {
    let mut v = vec![svc("a", "h1")];
    match begin_service_command(&mut v, "a", "stop") {
        Err(e) => {
            assert!(matches!(e, CommandError::NoCommandConfigured));
            assert_eq!(e.message(), "no command configured");
        }
        Ok(_) => panic!("no stop command"),
    }
    assert_eq!(v[0].status, "unknown");
    match begin_service_command(&mut v, "nope", "start") {
        Err(e) => assert_eq!(e.message(), "service not found"),
        Ok(_) => panic!("no such service"),
    }
    let custom = begin_service_command(&mut v, "a", "uptime").ok().expect("custom command");
    assert_eq!(custom.cmd, "uptime");
    assert_eq!(v[0].status, "uptime");
}

#[test]
fn logs_commands() {
    let mut s = svc("a", "h");
    assert_eq!(logs_command(&s, 200), None);
    s.log_path = Some("/var/log/app.log".to_string());
    assert_eq!(logs_command(&s, 50), Some("tail -n 50 /var/log/app.log".to_string()));
    s.log_cmd = Some("journalctl -u app".to_string());
    assert_eq!(logs_command(&s, requested_log_lines(None)), Some("journalctl -u app 2>&1 | tail -n 200".to_string()));
    assert_eq!(requested_log_lines(Some(7)), 7);
}

#[test]
fn quick_commands_wrap_in_container() {
    let mut s = svc("a", "h");
    s.quick_commands = vec![
        QuickCommand { name: "shell".to_string(), cmd: "bash -l".to_string(), description: None, in_container: Some(true) },
        QuickCommand { name: "host".to_string(), cmd: "df -h".to_string(), description: None, in_container: None },
        QuickCommand { name: "shell".to_string(), cmd: "sh".to_string(), description: None, in_container: Some(false) },
    ];
    assert_eq!(quick_command_line(&s, "shell"), Some("bash -l".to_string()));
    s.container_name = Some("app_1".to_string());
    assert_eq!(quick_command_line(&s, "shell"), Some("docker exec -it app_1 bash -l".to_string()));
    assert_eq!(quick_command_line(&s, "host"), Some("df -h".to_string()));
    assert_eq!(quick_command_line(&s, "missing"), None);
}

#[test]
fn forget_and_save_by_host() {
    let mut a = svc("a", "h1");
    a.discovered = true;
    let b = svc("b", "h1");
    let mut c = svc("c", "h2");
    c.discovered = true;
    let mut v = vec![a, b, c];
    let saved = discovered_for_host(&v, "h1");
    assert_eq!(saved.len(), 1);
    assert_eq!(saved[0].id, "a");
    forget_host(&mut v, "h1");
    assert_eq!(v.len(), 2);
    assert_eq!(v[0].id, "b");
    assert_eq!(v[1].id, "c");
}

#[test]
fn hosts_are_counted() {
    let v = vec![svc("a", "h1"), svc("b", "h2"), svc("c", "h1")];
    assert_eq!(host_counts(&v), vec![("h1".to_string(), 2), ("h2".to_string(), 1)]);
    assert!(host_counts(&vec![]).is_empty());
}

#[test]
fn topology_lists_nodes_and_edges() {
    let mut a = svc("api", "h");
    a.dependencies = vec!["db".to_string(), "cache".to_string()];
    let v = vec![a, svc("db", "h")];
    let (nodes, edges) = topology(&v);
    assert_eq!(nodes, vec!["api".to_string(), "db".to_string()]);
    assert_eq!(
        edges,
        vec![("api".to_string(), "db".to_string()), ("api".to_string(), "cache".to_string())]
    );
}

#[test]
fn websocket_commands() {
    assert_eq!(
        ws_command_request(r#"{"type":"cmd","id":"my-api","cmd":"restart"}"#),
        Some(("my-api".to_string(), "restart".to_string()))
    );
    assert_eq!(ws_command_request(r#"{"type":"ping","id":"a","cmd":"b"}"#), None);
    assert_eq!(ws_command_request(r#"{"type":"cmd","id":"a"}"#), None);
    assert_eq!(ws_command_request(r#"{"type":"cmd","id":1,"cmd":"b"}"#), None);
    assert_eq!(ws_command_request("not json"), None);
}

#[test]
fn disk_usage_is_parsed() {
    assert_eq!(parse_disk_usage("102400000 40960000 61440000\n"), Some((102400000, 40960000, 61440000)));
    assert_eq!(parse_disk_usage("  1 x 2 3 4"), Some((1, 2, 3)));
    assert_eq!(parse_disk_usage("1 2"), None);
    assert_eq!(parse_disk_usage(""), None);
    assert_eq!(trim_text("  raw \n"), "raw");
}

#[test]
fn discovery_refreshes_but_never_replaces_configured() {
    let yaml = svc("web", "h1");
    let mut old = svc("cache", "h1");
    old.discovered = true;
    old.status = "stopped".to_string();
    let mut elsewhere = svc("db", "h2");
    elsewhere.discovered = true;
    let mut v = vec![yaml, old, elsewhere];
    assert_eq!(configured_ids(&v), vec!["web".to_string()]);
    let mut found_web = svc("web", "h1");
    found_web.discovered = true;
    let mut found_cache = svc("cache", "h1");
    found_cache.discovered = true;
    found_cache.status = "running".to_string();
    let mut found_db = svc("db", "h1");
    found_db.discovered = true;
    let mut found_new = svc("queue", "h1");
    found_new.discovered = true;
    let (added, refreshed) = merge_discovered(&mut v, vec![found_web, found_cache, found_db, found_new]);
    assert_eq!((added, refreshed), (1, 1));
    assert_eq!(v.len(), 4);
    assert!(!v[0].discovered);
    assert_eq!(v[1].status, "running");
    assert_eq!(v[2].host, "h2");
    assert_eq!(v[3].id, "queue");
}

#[test]
fn rediscovery_visits_hosts_with_discovered_services() {
    let mut a = svc("a", "h1");
    a.discovered = true;
    a.ssh_user = Some("u1".to_string());
    let b = svc("b", "h2");
    let mut c = svc("c", "h1");
    c.discovered = true;
    c.ssh_user = None;
    let mut d = svc("d", "h3");
    d.discovered = true;
    d.ssh_user = None;
    assert_eq!(
        rediscovery_targets(&vec![a, b, c, d]),
        vec![("h1".to_string(), Some("u1".to_string())), ("h3".to_string(), None)]
    );
}

#[test]
fn discovery_keeps_ids_distinct() {
    let mut v = vec![svc("web", "h1"), svc("db", "h1")];
    let mut a = svc("cache", "h1");
    a.discovered = true;
    let mut b = svc("cache", "h2");
    b.discovered = true;
    let mut c = svc("cache", "h1");
    c.discovered = true;
    c.status = "running".to_string();
    let mut d = svc("web", "h1");
    d.discovered = true;
    let (added, refreshed) = merge_discovered(&mut v, vec![a, b, c, d]);
    assert_eq!((added, refreshed), (1, 1));
    let mut ids: Vec<&str> = v.iter().map(|s| s.id.as_str()).collect();
    ids.sort();
    ids.dedup();
    assert_eq!(ids.len(), v.len());
    assert_eq!(v[2].status, "running");
}

#[test]
fn forgetting_undoes_a_discovery() {
    let mut web = svc("web", "h1");
    web.discovered = true;
    let before = vec![svc("api", "h1"), web, svc("db", "h2")];
    let mut forgotten = vec![svc("api", "h1"), svc("db", "h2")];
    let mut v = before;
    let mut f1 = svc("web", "h1");
    f1.discovered = true;
    f1.status = "running".to_string();
    let mut f2 = svc("cache", "h1");
    f2.discovered = true;
    merge_discovered(&mut v, vec![f1, f2]);
    forget_host(&mut v, "h1");
    forget_host(&mut forgotten, "h1");
    let ids: Vec<&str> = v.iter().map(|s| s.id.as_str()).collect();
    let want: Vec<&str> = forgotten.iter().map(|s| s.id.as_str()).collect();
    assert_eq!(ids, want);
    assert_eq!(ids, vec!["api", "db"]);
}

#[test]
fn docker_disk_usage_items() {
    assert_eq!(docker_df_command(), "docker system df --format '{{json .}}' 2>/dev/null");
    let out = "{\"Type\":\"Images\",\"Size\":\"1GB\"}\n\n  not json \n {\"Type\":\"Volumes\"} \r\n";
    let items = docker_df_items(out);
    assert_eq!(items.len(), 2);
    let t: Vec<String> = items
        .iter()
        .map(|j| rustboard::json::text_of(rustboard::json::member_of(Some(j), "Type")).unwrap())
        .collect();
    assert_eq!(t, vec!["Images".to_string(), "Volumes".to_string()]);
    assert!(docker_df_items("").is_empty());
}
