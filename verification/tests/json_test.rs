use rustboard::dashboard::{ws_command_of, ws_command_request};
use rustboard::discover::{mounts_app_path_of, working_dir_probe, AppPathProbe};
use rustboard::json::{into_member, member_of, text_of, Json};
use rustboard::openai::{error_message_of, extract_openai_error};

fn s(x: &str) -> String {
    x.to_string()
}

fn text(x: &str) -> Json {
    Json::Text(s(x))
}

fn object(fields: Vec<(&str, Json)>) -> Json {
    Json::Object(fields.into_iter().map(|(k, v)| (s(k), v)).collect())
}

#[test]
fn members_are_found_by_name() {
    let doc = object(vec![("a", text("1")), ("b", Json::Number(s("2"))), ("a", text("3"))]);
    assert!(matches!(member_of(Some(&doc), "b"), Some(Json::Number(n)) if n == "2"));
    assert_eq!(text_of(member_of(Some(&doc), "a")), Some(s("1")));
    assert!(member_of(Some(&doc), "c").is_none());
    assert!(member_of(Some(&text("a")), "a").is_none());
    assert!(member_of(None, "a").is_none());
}

#[test]
fn only_strings_have_text() {
    assert_eq!(text_of(Some(&text("x"))), Some(s("x")));
    assert_eq!(text_of(Some(&Json::Number(s("1")))), None);
    assert_eq!(text_of(Some(&Json::Null)), None);
    assert_eq!(text_of(None), None);
}

#[test]
fn working_dir_probe_on_values() {
    assert!(matches!(working_dir_probe(Some(&text("/srv/app"))), AppPathProbe::Found(p) if p == "/srv/app"));
    assert!(matches!(working_dir_probe(Some(&text(""))), AppPathProbe::InspectMounts));
    assert!(matches!(working_dir_probe(Some(&Json::Null)), AppPathProbe::InspectMounts));
    assert!(matches!(working_dir_probe(Some(&Json::Bool(true))), AppPathProbe::InspectMounts));
    assert!(matches!(working_dir_probe(None), AppPathProbe::InspectMounts));
}

#[test]
fn mounts_on_values() {
    let mounts = Json::Array(vec![
        object(vec![("Destination", Json::Number(s("7")))]),
        object(vec![("Destination", text("/data"))]),
        text("/app"),
        object(vec![("Source", text("/x")), ("Destination", text("/usr/src/site"))]),
        object(vec![("Destination", text("/app"))]),
    ]);
    assert_eq!(mounts_app_path_of(Some(&mounts)), Some(s("/usr/src/site")));
    assert_eq!(mounts_app_path_of(Some(&object(vec![("Destination", text("/app"))]))), None);
    assert_eq!(mounts_app_path_of(Some(&Json::Array(vec![]))), None);
    assert_eq!(mounts_app_path_of(None), None);
}

#[test]
fn ws_commands_on_values() {
    let doc = object(vec![("type", text("cmd")), ("id", text("api")), ("cmd", text("stop"))]);
    assert_eq!(ws_command_of(Some(&doc)), Some((s("api"), s("stop"))));
    let other = object(vec![("type", text("cmdx")), ("id", text("api")), ("cmd", text("stop"))]);
    assert_eq!(ws_command_of(Some(&other)), None);
    let numeric = object(vec![("type", text("cmd")), ("id", text("api")), ("cmd", Json::Number(s("1")))]);
    assert_eq!(ws_command_of(Some(&numeric)), None);
    assert_eq!(ws_command_of(None), None);
}

#[test]
fn ws_request_reads_nested_text() {
    assert_eq!(
        ws_command_request(" { \"cmd\" : \"start\", \"type\" : \"cmd\", \"id\" : \"a\\\"b\" } "),
        Some((s("a\"b"), s("start")))
    );
    assert_eq!(ws_command_request(r#"{"type":"cmd","id":"a","cmd":"b"} trailing"#), None);
}

#[test]
fn openai_error_on_values() {
    let body = object(vec![("error", object(vec![("message", text("bad key")), ("code", Json::Null)]))]);
    assert_eq!(error_message_of(Some(&body)), Some(s("bad key")));
    let flat = object(vec![("message", text("bad key"))]);
    assert_eq!(error_message_of(Some(&flat)), None);
    let not_text = object(vec![("error", object(vec![("message", Json::Number(s("3")))]))]);
    assert_eq!(error_message_of(Some(&not_text)), None);
    assert_eq!(error_message_of(None), None);
}

#[test]
fn openai_error_from_text() {
    assert_eq!(extract_openai_error(r#"{"error":{"message":"Incorrect API key","type":"auth"}}"#), Some(s("Incorrect API key")));
    assert_eq!(extract_openai_error(r#"{"error":"flat"}"#), None);
    assert_eq!(extract_openai_error("<html>"), None);
}

#[test]
fn members_are_taken_out() {
    let doc = object(vec![("a", text("1")), ("b", Json::Array(vec![text("x")])), ("a", text("3"))]);
    assert!(matches!(into_member(Some(doc), "b"), Some(Json::Array(v)) if v.len() == 1));
    let doc = object(vec![("a", text("1")), ("a", text("3"))]);
    assert!(matches!(into_member(Some(doc), "a"), Some(Json::Text(t)) if t == "1"));
    assert!(into_member(Some(text("a")), "a").is_none());
    assert!(into_member(None, "a").is_none());
}
