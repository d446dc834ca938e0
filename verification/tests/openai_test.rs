use rustboard::openai::{
    bearer_header, client_error, default_base_url, invalid_input, models_url, network_error, response_output,
    sort_texts, status_code_text, user_agent, TesterOutput,
};

fn s(x: &str) -> String {
    x.to_string()
}

#[test]
fn request_parts() {
    assert_eq!(default_base_url(), "https://api.openai.com/v1");
    assert_eq!(models_url("https://api.openai.com/v1"), "https://api.openai.com/v1/models");
    assert_eq!(models_url("http://localhost:11434/v1//"), "http://localhost:11434/v1/models");
    assert_eq!(bearer_header("sk-1"), "Bearer sk-1");
    assert_eq!(user_agent(), "rustboard/plugin-openai-tester");
    assert_eq!(status_code_text(401), "401");
}

#[test]
fn sorting_matches_std() {
    let v = vec![s("gpt-4o"), s("b"), s("Z"), s("gpt-4"), s("é"), s("a"), s("gpt-4o")];
    let mut want = v.clone();
    want.sort();
    assert_eq!(sort_texts(&v), want);
}

#[test]
fn responses_are_read() {
    match response_output(401, "401", r#"{"error":{"message":"Incorrect API key provided"}}"#, None) {
        TesterOutput::Invalid { error } => assert_eq!(error, "Incorrect API key provided"),
        _ => panic!("invalid expected"),
    }
    match response_output(403, "403 Forbidden", "nope", None) {
        TesterOutput::Invalid { error } => assert_eq!(error, "HTTP 403 Forbidden"),
        _ => panic!("invalid expected"),
    }
    match response_output(500, "500", "{}", None) {
        TesterOutput::Failure { error } => assert_eq!(error, "HTTP 500"),
        _ => panic!("failure expected"),
    }
    match response_output(200, "200", "", Some(vec![s("gpt-4o"), s("ada")])) {
        TesterOutput::Success { models } => assert_eq!(models, vec![s("ada"), s("gpt-4o")]),
        _ => panic!("success expected"),
    }
    match response_output(204, "204", "", None) {
        TesterOutput::Success { models } => assert!(models.is_empty()),
        _ => panic!("success expected"),
    }
}

#[test]
fn error_reports() {
    match invalid_input("EOF") {
        TesterOutput::Failure { error } => assert_eq!(error, "invalid input JSON: EOF"),
        _ => panic!(),
    }
    match network_error("timeout") {
        TesterOutput::Failure { error } => assert_eq!(error, "network error: timeout"),
        _ => panic!(),
    }
    match client_error("tls") {
        TesterOutput::Failure { error } => assert_eq!(error, "failed to build HTTP client: tls"),
        _ => panic!(),
    }
}
