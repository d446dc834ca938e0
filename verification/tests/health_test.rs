use rustboard::health::{health_after_http, health_after_remote, health_start, health_status, health_url, record_health, HealthStep};
use rustboard::service::{default_status, Service};

fn svc(id: &str) -> Service {
    Service {
        id: id.to_string(),
        name: id.to_string(),
        host: "10.0.2.10".to_string(),
        port: None,
        ssh_user: None,
        start_cmd: None,
        stop_cmd: None,
        restart_cmd: None,
        log_path: None,
        log_cmd: None,
        health_cmd: None,
        health_path: None,
        dependencies: vec![],
        status: default_status(),
        tags: vec![],
        stacks: vec![],
        container_name: None,
        container_id: None,
        image: None,
        discovered: false,
        quick_commands: vec![],
        predicted_app_path: None,
    }
}

#[test]
fn health_urls() {
    let mut s = svc("a");
    assert_eq!(health_url(&s), "http://10.0.2.10:80/");
    s.port = Some(3000);
    s.health_path = Some("/health".to_string());
    assert_eq!(health_url(&s), "http://10.0.2.10:3000/health");
}

#[test]
fn health_starts_with_command_when_present() {
    let mut s = svc("a");
    assert!(matches!(health_start(&s), HealthStep::NotChecked));
    s.health_path = Some("/status".to_string());
    assert!(matches!(health_start(&s), HealthStep::NotChecked));
    s.port = Some(8080);
    match health_start(&s) {
        HealthStep::HttpGet { url } => assert_eq!(url, "http://10.0.2.10:8080/status"),
        _ => panic!("expected http"),
    }
    s.health_path = None;
    match health_start(&s) {
        HealthStep::HttpGet { url } => assert_eq!(url, "http://10.0.2.10:8080/"),
        _ => panic!("expected http"),
    }
    s.health_cmd = Some("docker inspect x".to_string());
    match health_start(&s) {
        HealthStep::RunRemote { cmd } => assert_eq!(cmd, "docker inspect x"),
        _ => panic!("expected remote"),
    }
}

#[test]
fn remote_output_verdicts() {
    assert!(health_after_remote(Some("Healthy")));
    assert!(health_after_remote(Some("Up 3 hours")));
    assert!(health_after_remote(Some("RUNNING\n")));
    assert!(!health_after_remote(Some("running then stopped")));
    assert!(!health_after_remote(Some("exited")));
    assert!(!health_after_remote(None));
}

#[test]
fn http_then_tcp() {
    let mut s = svc("a");
    assert!(matches!(health_after_http(&s, true), HealthStep::Verdict(true)));
    assert!(matches!(health_after_http(&s, false), HealthStep::Verdict(false)));
    s.port = Some(5432);
    assert!(matches!(health_after_http(&s, false), HealthStep::TcpConnect { port: 5432 }));
}

#[test]
fn health_results_are_recorded() {
    assert_eq!(health_status(true), "running");
    assert_eq!(health_status(false), "stopped");
    let mut v = vec![svc("a"), svc("b")];
    let snap = svc("b");
    let u = record_health(&mut v, &snap, true).expect("changed");
    assert_eq!(u.status, "running");
    assert_eq!(v[1].status, "running");
    assert_eq!(v[0].status, "unknown");
    let mut running = svc("b");
    running.status = "running".to_string();
    assert!(record_health(&mut v, &running, true).is_none());
    assert!(record_health(&mut v, &svc("zz"), false).is_none());
}
