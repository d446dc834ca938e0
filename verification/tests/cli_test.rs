use rustboard::cli::{cli_request, default_server, find_record, quick_list_lines, service_records, CliCommand, HttpMethod, RequestBody};
use rustboard::json::Json;

#[test]
fn reads_are_gets() {
    let r = cli_request("http://127.0.0.1:8080", &CliCommand::List);
    assert!(matches!(r.method, HttpMethod::Get));
    assert_eq!(r.url, "http://127.0.0.1:8080/services");
    assert!(r.body.is_none());
    let r = cli_request("http://s", &CliCommand::Status { id: "a".to_string() });
    assert_eq!(r.url, "http://s/services");
    assert_eq!(default_server(), "http://127.0.0.1:8080");
}

#[test]
fn actions_are_posts() {
    let r = cli_request("http://s", &CliCommand::Restart { id: "api".to_string() });
    assert!(matches!(r.method, HttpMethod::Post));
    assert_eq!(r.url, "http://s/services/cmd");
    match r.body {
        Some(RequestBody::Command { id, cmd }) => {
            assert_eq!(id, "api");
            assert_eq!(cmd, "restart");
        }
        _ => panic!("command body expected"),
    }
    let r = cli_request("http://s", &CliCommand::Logs { id: "api".to_string(), lines: 50 });
    assert_eq!(r.url, "http://s/services/logs");
    assert!(matches!(r.body, Some(RequestBody::Logs { lines: 50, .. })));
    let r = cli_request("http://s", &CliCommand::QuickExec { id: "a".to_string(), quick: "shell".to_string() });
    assert_eq!(r.url, "http://s/services/quick");
    let r = cli_request("http://s", &CliCommand::ConfigReload);
    assert_eq!(r.url, "http://s/config/reload");
    assert!(r.body.is_none());
}

fn text(x: &str) -> Json {
    Json::Text(x.to_string())
}

fn record(fields: Vec<(&str, Json)>) -> Json {
    Json::Object(fields.into_iter().map(|(k, v)| (k.to_string(), v)).collect())
}

#[test]
fn records_are_found_by_id() {
    let records = vec![
        record(vec![("id", Json::Number("7".to_string()))]),
        record(vec![("id", text("web")), ("status", text("running"))]),
        record(vec![("id", text("web"))]),
    ];
    assert_eq!(find_record(&records, "web"), Some(1));
    assert_eq!(find_record(&records, "7"), None);
    assert_eq!(find_record(&records, "db"), None);
    assert_eq!(find_record(&vec![], "web"), None);
}

#[test]
fn quick_commands_are_listed() {
    let svc = record(vec![
        ("id", text("web")),
        (
            "quick_commands",
            Json::Array(vec![
                record(vec![("name", text("shell")), ("description", text("Interactive shell"))]),
                record(vec![("name", text("ls")), ("description", Json::Null)]),
                record(vec![("cmd", text("x"))]),
            ]),
        ),
    ]);
    assert_eq!(
        quick_list_lines(&svc),
        Some(vec!["- shell: Interactive shell".to_string(), "- ls: ".to_string(), "- : ".to_string()])
    );
    assert_eq!(quick_list_lines(&record(vec![("id", text("web"))])), None);
    assert_eq!(quick_list_lines(&record(vec![("quick_commands", Json::Null)])), None);
    assert_eq!(quick_list_lines(&record(vec![("quick_commands", Json::Array(vec![]))])), Some(vec![]));
}

#[test]
fn service_lists_are_read() {
    let records = service_records(r#"{"services":[{"id":"web","status":"running"},{"id":"db"}]}"#).unwrap();
    assert_eq!(records.len(), 2);
    assert_eq!(find_record(&records, "db"), Some(1));
    assert!(service_records(r#"{"services":{}}"#).is_none());
    assert!(service_records(r#"[1,2]"#).is_none());
    assert!(service_records("nope").is_none());
}
