//! The command-line client: which request each command sends to the server.
use vstd::prelude::*;
use crate::text::{chars_equal, chars_of, concat_str, concat3_str};
use crate::service::{opt_text, texts};
use crate::json::{into_member, json_document, json_member, json_text, member_of, parse_json, text_of, Json};

verus! {

/// The server the client talks to when none is given.
pub fn default_server() -> (r: String)
    ensures
        r@ == "http://127.0.0.1:8080"@,
{
    "http://127.0.0.1:8080".to_string()
}

/// A client command.
pub enum CliCommand {
    /// List all services.
    List,
    /// Show one service.
    Status { id: String },
    /// List a service's quick commands.
    QuickList { id: String },
    /// Run a service's quick command.
    QuickExec { id: String, quick: String },
    Start { id: String },
    Stop { id: String },
    Restart { id: String },
    /// Fetch a service's last log lines.
    Logs { id: String, lines: usize },
    /// Have the server reload its configuration.
    ConfigReload,
}

/// The HTTP method of a request.
pub enum HttpMethod {
    Get,
    Post,
}

/// The JSON body of a request.
pub enum RequestBody {
    /// `{"id": ..., "cmd": ...}`
    Command { id: String, cmd: String },
    /// `{"id": ..., "quick": ...}`
    Quick { id: String, quick: String },
    /// `{"id": ..., "lines": ...}`
    Logs { id: String, lines: usize },
}

/// A request to the server.
pub struct CliRequest {
    pub method: HttpMethod,
    pub url: String,
    pub body: Option<RequestBody>,
}

/// The path a command is sent to.
pub open spec fn command_path(c: CliCommand) -> Seq<char> {
    match c {
        CliCommand::List | CliCommand::Status { .. } | CliCommand::QuickList { .. } => "/services"@,
        CliCommand::QuickExec { .. } => "/services/quick"@,
        CliCommand::Start { .. } | CliCommand::Stop { .. } | CliCommand::Restart { .. } => "/services/cmd"@,
        CliCommand::Logs { .. } => "/services/logs"@,
        CliCommand::ConfigReload => "/config/reload"@,
    }
}

/// The body a command sends, by its texts: `(kind, id, second field)`.
pub open spec fn body_matches(b: Option<RequestBody>, c: CliCommand) -> bool {
    match c {
        CliCommand::List | CliCommand::Status { .. } | CliCommand::QuickList { .. } | CliCommand::ConfigReload => b is None,
        CliCommand::QuickExec { id, quick } => b matches Some(RequestBody::Quick { id: i, quick: q }) && i@ == id@ && q@ == quick@,
        CliCommand::Start { id } => b matches Some(RequestBody::Command { id: i, cmd }) && i@ == id@ && cmd@ == "start"@,
        CliCommand::Stop { id } => b matches Some(RequestBody::Command { id: i, cmd }) && i@ == id@ && cmd@ == "stop"@,
        CliCommand::Restart { id } => b matches Some(RequestBody::Command { id: i, cmd }) && i@ == id@ && cmd@ == "restart"@,
        CliCommand::Logs { id, lines } => b matches Some(RequestBody::Logs { id: i, lines: n }) && i@ == id@ && n == lines,
    }
}

/// A path the server serves: its service list, its command, quick-command
/// and logs routes, and its configuration reload.
pub open spec fn served_route(path: Seq<char>) -> bool {
    path == "/services"@ || path == "/services/cmd"@ || path == "/services/quick"@ || path
        == "/services/logs"@ || path == "/config/reload"@
}

/// Every command goes to a route the server serves; reads use the service
/// list, and start, stop and restart all go to the command route, the
/// action being named in the body.
pub proof fn lemma_cli_routes(c: CliCommand)
    ensures
        served_route(command_path(c)),
        (c is List || c is Status || c is QuickList) ==> command_path(c) == "/services"@,
        (c is Start || c is Stop || c is Restart) ==> command_path(c) == "/services/cmd"@,
        c is QuickExec ==> command_path(c) == "/services/quick"@,
        c is Logs ==> command_path(c) == "/services/logs"@,
        c is ConfigReload ==> command_path(c) == "/config/reload"@,
{
}

/// The request a command sends: reads go by GET to `/services`, actions
/// by POST to their endpoint with a JSON body.
pub fn cli_request(server: &str, command: &CliCommand) -> (r: CliRequest)
    ensures
        r.url@ == server@ + command_path(*command),
        (r.method is Get) <==> (command is List || command is Status || command is QuickList),
        body_matches(r.body, *command),
{
    match command {
        CliCommand::List => CliRequest { method: HttpMethod::Get, url: concat_str(server, "/services"), body: None },
        CliCommand::Status { .. } => CliRequest { method: HttpMethod::Get, url: concat_str(server, "/services"), body: None },
        CliCommand::QuickList { .. } => CliRequest { method: HttpMethod::Get, url: concat_str(server, "/services"), body: None },
        CliCommand::QuickExec { id, quick } => CliRequest {
            method: HttpMethod::Post,
            url: concat_str(server, "/services/quick"),
            body: Some(RequestBody::Quick { id: id.clone(), quick: quick.clone() }),
        },
        CliCommand::Start { id } => CliRequest {
            method: HttpMethod::Post,
            url: concat_str(server, "/services/cmd"),
            body: Some(RequestBody::Command { id: id.clone(), cmd: "start".to_string() }),
        },
        CliCommand::Stop { id } => CliRequest {
            method: HttpMethod::Post,
            url: concat_str(server, "/services/cmd"),
            body: Some(RequestBody::Command { id: id.clone(), cmd: "stop".to_string() }),
        },
        CliCommand::Restart { id } => CliRequest {
            method: HttpMethod::Post,
            url: concat_str(server, "/services/cmd"),
            body: Some(RequestBody::Command { id: id.clone(), cmd: "restart".to_string() }),
        },
        CliCommand::Logs { id, lines } => CliRequest {
            method: HttpMethod::Post,
            url: concat_str(server, "/services/logs"),
            body: Some(RequestBody::Logs { id: id.clone(), lines: *lines }),
        },
        CliCommand::ConfigReload => CliRequest {
            method: HttpMethod::Post,
            url: concat_str(server, "/config/reload"),
            body: None,
        },
    }
}

/// The service records of the server's `/services` answer: the entries of
/// its `services` array.
pub open spec fn listed_records(doc: Option<Json>) -> Option<Seq<Json>> {
    match json_member(doc, "services"@) {
        Some(Json::Array(v)) => Some(v@),
        _ => None,
    }
}

/// Reads the server's `/services` answer: its service records, or nothing
/// when the body is not an object with a `services` array.
pub fn service_records(body: &str) -> (r: Option<Vec<Json>>)
    ensures
        match r {
            Some(v) => listed_records(json_document(body@)) == Some(v@),
            None => listed_records(json_document(body@)) is None,
        },
{
    match into_member(parse_json(body), "services") {
        Some(Json::Array(v)) => Some(v),
        _ => None,
    }
}

/// The id of a service record as the server lists it, when it is a string.
pub open spec fn record_id(record: Json) -> Option<Seq<char>> {
    json_text(json_member(Some(record), "id"@))
}

/// Finds the position of the first listed service whose id is `id`.
pub fn find_record(records: &Vec<Json>, id: &str) -> (r: Option<usize>)
    ensures
        match r {
            Some(i) => i < records.len() && record_id(records@[i as int]) == Some(id@) && forall|j: int|
                0 <= j < i ==> record_id(#[trigger] records@[j]) != Some(id@),
            None => forall|j: int| 0 <= j < records.len() ==> record_id(#[trigger] records@[j]) != Some(id@),
        },
{
    let want = chars_of(id);
    let mut i: usize = 0;
    while i < records.len()
        invariant
            i <= records.len(),
            want@ == id@,
            forall|j: int| 0 <= j < i ==> record_id(#[trigger] records@[j]) != Some(id@),
        decreases records.len() - i,
    {
        let found = match text_of(member_of(Some(&records[i]), "id")) {
            Some(t) => chars_equal(&chars_of(t.as_str()), &want),
            None => false,
        };
        if found {
            return Some(i);
        }
        i += 1;
    }
    None
}

/// A text, or the empty text when there is none.
pub open spec fn or_empty(o: Option<Seq<char>>) -> Seq<char> {
    match o {
        Some(t) => t,
        None => Seq::empty(),
    }
}

/// The listing line of one quick command: `- name: description`, with an
/// empty name or description where that member is not a string.
pub open spec fn quick_line(q: Json) -> Seq<char> {
    "- "@ + or_empty(json_text(json_member(Some(q), "name"@))) + ": "@ + or_empty(
        json_text(json_member(Some(q), "description"@)),
    )
}

/// The quick-command listing of a service record: one line per entry of
/// its `quick_commands` array, or nothing when it has no such array.
pub open spec fn quick_listing(record: Json) -> Option<Seq<Seq<char>>> {
    match json_member(Some(record), "quick_commands"@) {
        Some(Json::Array(qs)) => Some(qs@.map_values(|q: Json| quick_line(q))),
        _ => None,
    }
}

fn text_or_blank(o: Option<String>) -> (r: String)
    ensures
        r@ == or_empty(opt_text(o)),
{
    match o {
        Some(t) => t,
        None => String::new(),
    }
}

/// Lists the quick commands of a service record, one line each.
pub fn quick_list_lines(record: &Json) -> (r: Option<Vec<String>>)
    ensures
        match r {
            Some(v) => quick_listing(*record) == Some(texts(v@)),
            None => quick_listing(*record) is None,
        },
{
    let qs = match member_of(Some(record), "quick_commands") {
        Some(Json::Array(qs)) => qs,
        _ => return None,
    };
    let ghost want = qs@.map_values(|q: Json| quick_line(q));
    let mut lines: Vec<String> = Vec::new();
    let mut i: usize = 0;
    while i < qs.len()
        invariant
            i <= qs.len(),
            want == qs@.map_values(|q: Json| quick_line(q)),
            texts(lines@) == want.take(i as int),
        decreases qs.len() - i,
    {
        let name = text_or_blank(text_of(member_of(Some(&qs[i]), "name")));
        let desc = text_or_blank(text_of(member_of(Some(&qs[i]), "description")));
        let head = concat3_str("- ", name.as_str(), ": ");
        let line = concat_str(head.as_str(), desc.as_str());
        assert(line@ == quick_line(qs@[i as int]));
        lines.push(line);
        assert(want.take(i + 1) =~= want.take(i as int).push(want[i as int]));
        assert(texts(lines@) =~= texts(lines@.drop_last()).push(line@));
        i += 1;
    }
    assert(want.take(qs.len() as int) =~= want);
    Some(lines)
}

} // verus!
