use rustboard::discover::{
    app_path_after_mounts, app_path_after_working_dir, discovered_service, docker_ps_command, docker_ps_lines,
    infer_tags_from_image, mounts_command, parse_first_host_port, parse_labels, plan_container, plan_containers, sanitise_id,
    working_dir_command, AppPathProbe, DockerPsEntry,
};

fn s(x: &str) -> String {
    x.to_string()
}

#[test]
fn sanitise_id_replaces_and_lowercases() {
    assert_eq!(sanitise_id("My_App.Web 1"), "my_app-web-1");
    assert_eq!(sanitise_id("redis"), "redis");
    assert_eq!(sanitise_id(""), "");
}

#[test]
fn labels_give_stacks_and_tags() {
    let (stacks, tags) = parse_labels("com.docker.compose.project=glao,foo=bar");
    assert_eq!(stacks, vec![s("glao")]);
    assert_eq!(tags, vec![s("glao")]);
    let (stacks, tags) =
        parse_labels(" com.docker.compose.project = shop , com.docker.compose.project=shop,com.docker.compose.project=");
    assert_eq!(stacks, vec![s("shop")]);
    assert_eq!(tags, vec![s("shop"), s("shop")]);
    let (stacks, tags) = parse_labels("");
    assert!(stacks.is_empty() && tags.is_empty());
    let (stacks, tags) = parse_labels("rustboard.stack=monitoring,rustboard.tags=metrics,com.docker.compose.project=monitoring");
    assert_eq!(stacks, vec![s("monitoring")]);
    assert_eq!(tags, vec![s("metrics"), s("monitoring")]);
}

#[test]
fn tags_from_image_names() {
    assert_eq!(infer_tags_from_image("nginx:stable-alpine"), vec![s("nginx")]);
    assert_eq!(infer_tags_from_image("library/Redis:7"), vec![s("redis")]);
    assert_eq!(infer_tags_from_image("ghcr.io/acme/node-python:1"), vec![s("node"), s("python")]);
    assert!(infer_tags_from_image("busybox").is_empty());
    assert_eq!(infer_tags_from_image("mongodb"), vec![s("mongodb"), s("go")]);
}

#[test]
fn first_host_port_is_found() {
    assert_eq!(parse_first_host_port("0.0.0.0:8080->80/tcp"), Some(8080));
    assert_eq!(parse_first_host_port("80/tcp, 443/tcp"), None);
    assert_eq!(parse_first_host_port("443/tcp, 0.0.0.0:8443->443/tcp, :::8443->443/tcp"), Some(8443));
    assert_eq!(parse_first_host_port("0.0.0.0:99999->80/tcp, 127.0.0.1:+22->22/tcp"), Some(22));
    assert_eq!(parse_first_host_port(""), None);
}

#[test]
fn docker_ps_lines_skip_blank_lines() {
    assert_eq!(docker_ps_lines("{\"a\":1}\n\n  {\"b\":2}  \r\n"), vec![s("{\"a\":1}"), s("{\"b\":2}")]);
    assert!(docker_ps_lines("").is_empty());
    assert_eq!(docker_ps_command(), "docker ps -a --format '{{json .}}'");
}

fn entry(names: &str) -> DockerPsEntry {
    DockerPsEntry {
        id: Some(s(" abc123 ")),
        names: Some(s(names)),
        image: Some(s("nginx:latest")),
        ports: Some(s("0.0.0.0:8080->80/tcp")),
        status: Some(s("Up 3 hours")),
        labels: Some(s("com.docker.compose.project=web")),
        state: Some(s("running")),
    }
}

#[test]
fn plan_skips_nameless_and_known_containers() {
    assert!(plan_container(&entry(""), &vec![]).is_none());
    assert!(plan_container(&entry("/"), &vec![]).is_none());
    assert!(plan_container(&entry("/Web_1"), &vec![s("web_1")]).is_none());
    let p = plan_container(&entry("/Web_1,alias"), &vec![s("other")]).expect("kept");
    assert_eq!(p.id, "web_1");
    assert_eq!(p.container_name, "Web_1");
    assert_eq!(p.port, Some(8080));
    assert_eq!(p.status, "running");
    assert_eq!(p.stacks, vec![s("web")]);
    assert_eq!(p.tags, vec![s("web"), s("nginx")]);
    assert_eq!(p.short_id, "abc123");
}

#[test]
fn plan_status_follows_state_then_status_text() {
    let mut e = entry("a");
    e.state = Some(s("exited"));
    assert_eq!(plan_container(&e, &vec![]).unwrap().status, "stopped");
    e.state = Some(s("dead"));
    assert_eq!(plan_container(&e, &vec![]).unwrap().status, "stopped");
    e.state = Some(s("paused"));
    assert_eq!(plan_container(&e, &vec![]).unwrap().status, "paused");
    e.state = None;
    e.status = Some(s("Up 5 minutes"));
    assert_eq!(plan_container(&e, &vec![]).unwrap().status, "running");
    e.status = Some(s("Exited (0) 2 days ago"));
    assert_eq!(plan_container(&e, &vec![]).unwrap().status, "stopped");
    e.status = None;
    assert_eq!(plan_container(&e, &vec![]).unwrap().status, "stopped");
}

#[test]
fn inspect_commands() {
    assert_eq!(working_dir_command("web"), "docker inspect --format '{{json .Config.WorkingDir}}' web");
    assert_eq!(mounts_command("web"), "docker inspect --format '{{json .Mounts}}' web");
}

#[test]
fn app_path_from_working_dir() {
    match app_path_after_working_dir(Some("\"/srv/app\"\n")) {
        AppPathProbe::Found(p) => assert_eq!(p, "/srv/app"),
        AppPathProbe::InspectMounts => panic!("expected a path"),
    }
    assert!(matches!(app_path_after_working_dir(Some("\"\"")), AppPathProbe::InspectMounts));
    assert!(matches!(app_path_after_working_dir(Some("null")), AppPathProbe::InspectMounts));
    assert!(matches!(app_path_after_working_dir(Some("not json")), AppPathProbe::InspectMounts));
    assert!(matches!(app_path_after_working_dir(None), AppPathProbe::InspectMounts));
}

#[test]
fn app_path_from_mounts() {
    let raw = r#"[{"Destination":"/data"},{"Source":"x"},{"Destination":"/var/WWW/html"},{"Destination":"/app"}]"#;
    assert_eq!(app_path_after_mounts(Some(raw)), Some(s("/var/WWW/html")));
    assert_eq!(app_path_after_mounts(Some(r#"[{"Destination":"/data"}]"#)), None);
    assert_eq!(app_path_after_mounts(Some(r#"{"Destination":"/app"}"#)), None);
    assert_eq!(app_path_after_mounts(Some("garbage")), None);
    assert_eq!(app_path_after_mounts(None), None);
}

#[test]
fn discovered_service_is_built_from_plan() {
    let p = plan_container(&entry("/web"), &vec![]).unwrap();
    let svc = discovered_service(p, "10.0.2.10", Some("deploy"), None);
    assert_eq!(svc.id, "web");
    assert_eq!(svc.name, "web");
    assert_eq!(svc.host, "10.0.2.10");
    assert_eq!(svc.ssh_user, Some(s("deploy")));
    assert_eq!(svc.start_cmd, Some(s("docker start web")));
    assert_eq!(svc.stop_cmd, Some(s("docker stop web")));
    assert_eq!(svc.restart_cmd, Some(s("docker restart web")));
    assert_eq!(svc.log_cmd, Some(s("docker logs web 2>&1 | tail -n 200")));
    assert_eq!(svc.health_cmd, Some(s("docker inspect --format '{{.State.Status}}' web")));
    assert_eq!(svc.container_name, Some(s("web")));
    assert_eq!(svc.container_id, Some(s("abc123")));
    assert_eq!(svc.image, Some(s("nginx:latest")));
    assert!(svc.discovered);
    assert!(svc.dependencies.is_empty());
    assert_eq!(svc.quick_commands.len(), 2);
    assert_eq!(svc.quick_commands[0].name, "shell");
    assert_eq!(svc.quick_commands[0].cmd, "sh -lc 'bash -l || sh'");
    assert_eq!(svc.quick_commands[1].name, "ls_app");
    assert_eq!(svc.quick_commands[1].cmd, "sh -lc 'ls -la / || ls -la /'");
    assert_eq!(svc.quick_commands[1].in_container, Some(true));
    assert_eq!(svc.predicted_app_path, None);

    let mut e = entry("/db");
    e.id = None;
    e.image = Some(s(""));
    let p = plan_container(&e, &vec![]).unwrap();
    let svc = discovered_service(p, "h", None, Some(s("/srv/db")));
    assert_eq!(svc.container_id, None);
    assert_eq!(svc.image, None);
    assert_eq!(svc.ssh_user, None);
    assert_eq!(svc.quick_commands[1].cmd, "sh -lc 'ls -la /srv/db || ls -la /'");
    assert_eq!(svc.predicted_app_path, Some(s("/srv/db")));
}

#[test]
fn sanitised_ascii_ids_are_stable() {
    for name in ["My_App.Web 1", "API:v2/Prod", "__x--Y__", "Z9", ""] {
        let once = sanitise_id(name);
        assert_eq!(once.len(), name.len());
        assert!(once.chars().all(|c| c.is_ascii_lowercase() || c.is_ascii_digit() || c == '-' || c == '_'));
        assert_eq!(sanitise_id(&once), once);
    }
}

#[test]
fn planned_ids_are_distinct() {
    let entries = vec![entry("/Web.1"), entry("/web-1"), entry(""), entry("/db"), entry("/WEB_1"), entry("/taken")];
    let plans = plan_containers(&entries, &vec![s("taken")]);
    let ids: Vec<&str> = plans.iter().map(|p| p.id.as_str()).collect();
    assert_eq!(ids, vec!["web-1", "db", "web_1"]);
    assert_eq!(plans[0].container_name, "Web.1");
    assert!(plan_containers(&vec![], &vec![]).is_empty());
}

#[test]
fn tag_lists_are_split() {
    let (stacks, tags) = parse_labels("rustboard.tags=web, api ,,edge,rustboard.stack=shop,x");
    assert_eq!(tags, vec![s("web"), s("api"), s("edge")]);
    assert_eq!(stacks, vec![s("shop")]);
    let (_, tags) = parse_labels("other=a,b,rustboard.tags=,c");
    assert_eq!(tags, vec![s("c")]);
}

#[test]
fn ascii_image_tags_are_case_blind() {
    assert_eq!(infer_tags_from_image("docker.io/Library/POSTGRES:16"), vec![s("postgres")]);
}
