use rustboard::config::{
    default_preferences, default_theme, discovered_file_path, is_yaml_file_name, merge_services,
    safe_host_name, split_file_name,
};
use rustboard::service::{default_status, Service};

fn svc(id: &str, host: &str) -> Service {
    Service {
        id: id.to_string(),
        name: id.to_string(),
        host: host.to_string(),
        port: None,
        ssh_user: None,
        start_cmd: None,
        stop_cmd: None,
        restart_cmd: None,
        log_path: None,
        log_cmd: None,
        health_cmd: None,
        health_path: None,
        dependencies: vec![],
        status: default_status(),
        tags: vec![],
        stacks: vec![],
        container_name: None,
        container_id: None,
        image: None,
        discovered: false,
        quick_commands: vec![],
        predicted_app_path: None,
    }
}

#[test]
fn defaults() {
    assert_eq!(default_theme(), "dark");
    assert_eq!(default_status(), "unknown");
    let p = default_preferences();
    assert!(p.show_tooltips);
    assert_eq!(p.theme, "dark");
}

#[test]
fn safe_host_and_file_path() {
    assert_eq!(safe_host_name("10.0.2.10"), "10_0_2_10");
    assert_eq!(safe_host_name("my-host.local"), "my-host_local");
    assert_eq!(discovered_file_path("10.0.2.10"), "config/discovered/10_0_2_10.yaml");
    assert_eq!(discovered_file_path("user@h:22"), "config/discovered/user_h_22.yaml");
}

#[test]
fn file_name_parts() {
    assert_eq!(split_file_name("a.yaml"), ("a".to_string(), Some("yaml".to_string())));
    assert_eq!(split_file_name("a.b.yml"), ("a.b".to_string(), Some("yml".to_string())));
    assert_eq!(split_file_name(".hidden"), (".hidden".to_string(), None));
    assert_eq!(split_file_name("noext"), ("noext".to_string(), None));
    assert_eq!(split_file_name("trailing."), ("trailing".to_string(), Some(String::new())));
}

#[test]
fn yaml_file_names() {
    assert!(is_yaml_file_name("10_0_2_10.yaml"));
    assert!(is_yaml_file_name("hosts.yml"));
    assert!(!is_yaml_file_name("notes.txt"));
    assert!(!is_yaml_file_name(".yaml"));
    assert!(!is_yaml_file_name("yaml"));
    assert!(!is_yaml_file_name("x.YAML"));
}

#[test]
fn configured_services_win_over_discovered() {
    let base = vec![svc("api", "a"), svc("db", "a")];
    let mut dup = svc("api", "other");
    dup.discovered = true;
    let batches = vec![vec![dup, svc("cache", "b")], vec![svc("cache", "c"), svc("web", "c")]];
    let merged = merge_services(base, &batches);
    let ids: Vec<&str> = merged.iter().map(|s| s.id.as_str()).collect();
    assert_eq!(ids, vec!["api", "db", "cache", "web"]);
    assert_eq!(merged[0].host, "a");
    assert!(!merged[0].discovered);
    assert_eq!(merged[2].host, "b");
}

#[test]
fn merge_with_nothing_discovered() {
    let merged = merge_services(vec![svc("x", "h")], &vec![]);
    assert_eq!(merged.len(), 1);
    let merged = merge_services(vec![], &vec![vec![svc("x", "h"), svc("x", "i")]]);
    assert_eq!(merged.len(), 1);
    assert_eq!(merged[0].host, "h");
}

#[test]
fn saved_file_is_reloaded() {
    for host in ["10.0.2.10", "db.internal", "h"] {
        let name = format!("{}.yaml", safe_host_name(host));
        assert!(is_yaml_file_name(&name));
        assert_eq!(split_file_name(&name).0, safe_host_name(host));
        assert!(discovered_file_path(host).ends_with(&name));
    }
    let saved = vec![svc("a", "h1"), svc("b", "h1")];
    let back = merge_services(vec![], &vec![vec![svc("a", "h1"), svc("b", "h1")]]);
    assert_eq!(back.len(), saved.len());
    assert_eq!(back[0].id, "a");
    assert_eq!(back[1].id, "b");
}
