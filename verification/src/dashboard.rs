//! The dashboard's bookkeeping on its list of services: finding a service,
//! changing its status, forgetting a host, and the views built from the list.
use vstd::prelude::*;
use crate::service::{Service, ServiceView, service_views, opt_text, copy_opt_string, QuickCommandView, quick_views, texts, copy_strings};
use crate::text::{
    chars_of, concat_str, concat3_str, contains_chars, contains_text, decimal_chars, decimal_text,
    is_space, is_space_char, parse_unsigned, parse_unsigned_chars, string_of, text_lines, trim, trim_chars,
};
use crate::json::{deref_opt, json_document, json_member, json_text, member_of, parse_json, text_of, Json};
use crate::ssh::tail_command;
use crate::text::chars_equal;
use crate::config::ids_of;
use crate::discover::{docker_ps_lines, record_lines};

verus! {

/// Position of the first service with the given id.
pub open spec fn first_with_id(v: Seq<ServiceView>, id: Seq<char>) -> Option<int>
    decreases v.len(),
{
    if v.len() == 0 {
        None
    } else {
        match first_with_id(v.drop_last(), id) {
            Some(i) => Some(i),
            None => if v.last().id == id {
                Some(v.len() - 1)
            } else {
                None
            },
        }
    }
}

/// A service with another status.
pub open spec fn with_status(s: ServiceView, status: Seq<char>) -> ServiceView {
    ServiceView { status: status, ..s }
}

/// The position that [`first_with_id`] gives holds a service with the id,
/// and no earlier one does; when it gives none, no service has the id.
pub proof fn lemma_first_with_id_bounds(v: Seq<ServiceView>, id: Seq<char>)
    ensures
        match first_with_id(v, id) {
            Some(i) => 0 <= i < v.len() && v[i].id == id && forall|k: int| 0 <= k < i ==> v[k].id != id,
            None => forall|k: int| 0 <= k < v.len() ==> v[k].id != id,
        },
    decreases v.len(),
{
    if v.len() > 0 {
        let w = v.drop_last();
        lemma_first_with_id_bounds(w, id);
        assert forall|k: int| 0 <= k < w.len() implies w[k] == v[k] by {}
    }
}

/// Finds the first service with the given id.
pub fn find_service(services: &Vec<Service>, id: &str) -> (r: Option<usize>)
    ensures
        match r {
            Some(i) => first_with_id(service_views(services@), id@) == Some(i as int),
            None => first_with_id(service_views(services@), id@) is None,
        },
{
    let ghost v = service_views(services@);
    let wanted = id.to_string();
    let mut i: usize = 0;
    assert(v.take(0) =~= Seq::<ServiceView>::empty());
    while i < services.len()
        invariant
            i <= services.len(),
            v == service_views(services@),
            wanted@ == id@,
            first_with_id(v.take(i as int), id@) is None,
        decreases services.len() - i,
    {
        assert(v.take(i + 1).drop_last() =~= v.take(i as int));
        if services[i].id == wanted {
            proof {
                lemma_first_with_id_bounds(v, id@);
                lemma_first_with_id_bounds(v.take(i + 1), id@);
                lemma_first_with_id_bounds(v.take(i as int), id@);
            }
            assert(first_with_id(v.take(i + 1), id@) == Some(i as int));
            proof {
                lemma_first_with_id_prefix(v, id@, i + 1);
            }
            return Some(i);
        }
        i += 1;
    }
    assert(v.take(v.len() as int) =~= v);
    None
}

proof fn lemma_first_with_id_prefix(v: Seq<ServiceView>, id: Seq<char>, n: int)
    requires
        0 <= n <= v.len(),
        first_with_id(v.take(n), id) is Some,
    ensures
        first_with_id(v, id) == first_with_id(v.take(n), id),
    decreases v.len() - n,
{
    if n < v.len() {
        assert(v.take(n + 1).drop_last() =~= v.take(n));
        lemma_first_with_id_prefix(v, id, n + 1);
    } else {
        assert(v.take(n) =~= v);
    }
}

/// Sets the status of the service at position `i`.
pub fn set_status(services: &mut Vec<Service>, i: usize, status: String)
    requires
        i < old(services).len(),
    ensures
        final(services)@.len() == old(services)@.len(),
        final(services)@[i as int]@ == with_status(old(services)@[i as int]@, status@),
        service_views(final(services)@) == service_views(old(services)@).update(
            i as int,
            with_status(old(services)@[i as int]@, status@),
        ),
{
    let mut s = services[i].copy();
    s.status = status;
    services.set(i, s);
    assert(service_views(services@) =~= service_views(old(services)@).update(
        i as int,
        with_status(old(services)@[i as int]@, status@),
    ));
}


/// The remote command for an action on a service: its start, stop or
/// restart command for those actions, and the action itself otherwise.
pub open spec fn command_for_action(s: ServiceView, action: Seq<char>) -> Option<Seq<char>> {
    if action == "start"@ {
        s.start_cmd
    } else if action == "stop"@ {
        s.stop_cmd
    } else if action == "restart"@ {
        s.restart_cmd
    } else {
        Some(action)
    }
}

/// Each control action runs the service's own command for it, whatever
/// its other commands are: `start` its start command, `stop` its stop
/// command, `restart` its restart command (none configured: no command),
/// and any other action is run as given.
pub proof fn lemma_action_commands(s: ServiceView, action: Seq<char>)
    ensures
        command_for_action(s, "start"@) == s.start_cmd,
        command_for_action(s, "stop"@) == s.stop_cmd,
        command_for_action(s, "restart"@) == s.restart_cmd,
        action != "start"@ && action != "stop"@ && action != "restart"@ ==> command_for_action(s, action)
            == Some(action),
{
    reveal_strlit("start");
    reveal_strlit("stop");
    reveal_strlit("restart");
    assert("stop"@.len() != "start"@.len());
    assert("restart"@.len() != "start"@.len() && "restart"@.len() != "stop"@.len());
}

/// Why a service command could not start.
pub enum CommandError {
    ServiceNotFound,
    NoCommandConfigured,
}

impl CommandError {
    /// The error text given to clients.
    pub fn message(&self) -> (r: String)
        ensures
            r@ == match self {
                CommandError::ServiceNotFound => "service not found"@,
                CommandError::NoCommandConfigured => "no command configured"@,
            },
    {
        match self {
            CommandError::ServiceNotFound => "service not found".to_string(),
            CommandError::NoCommandConfigured => "no command configured".to_string(),
        }
    }
}

/// What is needed to run a service command, and the service as it is
/// announced when the command starts.
pub struct CommandStart {
    pub snapshot: Service,
    pub host: String,
    pub ssh_user: Option<String>,
    pub cmd: String,
}

fn command_for_action_exec(s: &Service, action: &str) -> (r: Option<String>)
    ensures
        opt_text(r) == command_for_action(s@, action@),
{
    let a = action.to_string();
    if a == "start".to_string() {
        copy_opt_string(&s.start_cmd)
    } else if a == "stop".to_string() {
        copy_opt_string(&s.stop_cmd)
    } else if a == "restart".to_string() {
        copy_opt_string(&s.restart_cmd)
    } else {
        Some(a)
    }
}

/// Starts a service command: the first service with `id` is found, its
/// command for `action` chosen, and its status optimistically set to the
/// action. Fails, changing nothing, when no service has the id or the
/// action has no command.
pub fn begin_service_command(services: &mut Vec<Service>, id: &str, action: &str) -> (r: Result<
    CommandStart,
    CommandError,
>)
    ensures
        match first_with_id(service_views(old(services)@), id@) {
            None => r is Err && r->Err_0 is ServiceNotFound && service_views(final(services)@)
                == service_views(old(services)@),
            Some(i) => match command_for_action(service_views(old(services)@)[i], action@) {
                None => r is Err && r->Err_0 is NoCommandConfigured && service_views(final(services)@)
                    == service_views(old(services)@),
                Some(c) => r is Ok && service_views(final(services)@) == service_views(
                    old(services)@,
                ).update(i, with_status(service_views(old(services)@)[i], action@)) && r->Ok_0.cmd@
                    == c && r->Ok_0.host@ == service_views(old(services)@)[i].host && opt_text(
                    r->Ok_0.ssh_user,
                ) == service_views(old(services)@)[i].ssh_user && r->Ok_0.snapshot@ == with_status(
                    service_views(old(services)@)[i],
                    action@,
                ),
            },
        },
{
    let i = match find_service(services, id) {
        Some(i) => i,
        None => return Err(CommandError::ServiceNotFound),
    };
    proof {
        lemma_first_with_id_bounds(service_views(services@), id@);
    }
    let cmd = match command_for_action_exec(&services[i], action) {
        Some(c) => c,
        None => return Err(CommandError::NoCommandConfigured),
    };
    set_status(services, i, action.to_string());
    let snapshot = services[i].copy();
    let host = snapshot.host.clone();
    let ssh_user = copy_opt_string(&snapshot.ssh_user);
    Ok(CommandStart { snapshot, host, ssh_user, cmd })
}

/// Records how a service command ended: the first service with `id` takes
/// the action as its status when the command succeeded and `error` when
/// it failed; the updated service is returned for broadcasting.
pub fn finish_service_command(services: &mut Vec<Service>, id: &str, action: &str, succeeded: bool) -> (r:
    Option<Service>)
    ensures
        match first_with_id(service_views(old(services)@), id@) {
            None => r is None && service_views(final(services)@) == service_views(old(services)@),
            Some(i) => service_views(final(services)@) == service_views(old(services)@).update(
                i,
                with_status(
                    service_views(old(services)@)[i],
                    if succeeded { action@ } else { "error"@ },
                ),
            ) && (r matches Some(u) && u@ == service_views(final(services)@)[i]),
        },
{
    let i = match find_service(services, id) {
        Some(i) => i,
        None => return None,
    };
    proof {
        lemma_first_with_id_bounds(service_views(services@), id@);
    }
    let status = if succeeded { action.to_string() } else { "error".to_string() };
    set_status(services, i, status);
    Some(services[i].copy())
}


/// Lines of log fetched when the request names no number.
pub const DEFAULT_LOG_LINES: usize = 200;

/// The number of log lines to fetch: the requested number, or 200.
pub fn requested_log_lines(lines: Option<usize>) -> (r: usize)
    ensures
        r == match lines {
            Some(n) => n,
            None => DEFAULT_LOG_LINES,
        },
{
    match lines {
        Some(n) => n,
        None => DEFAULT_LOG_LINES,
    }
}

/// The remote command that fetches a service's last `lines` log lines: its
/// log command with its error output and a `tail` added, or a `tail` of its
/// log file; none when it has neither.
pub open spec fn logs_command_text(s: ServiceView, lines: nat) -> Option<Seq<char>> {
    match s.log_cmd {
        Some(c) => Some(c + " 2>&1 | tail -n "@ + decimal_text(lines)),
        None => match s.log_path {
            Some(p) => Some("tail -n "@ + decimal_text(lines) + " "@ + p),
            None => None,
        },
    }
}

/// The logs command asks for exactly the requested number of lines: with a
/// log command `c` it is `c`, its error output merged, piped into `tail -n`
/// with a count that reads back as `lines`; with only a log file it is
/// `tail -n` with that count, then the file; with neither there is none.
pub proof fn lemma_logs_count(s: ServiceView, lines: nat)
    ensures
        match s.log_cmd {
            Some(c) => exists|t: Seq<char>|
                logs_command_text(s, lines) == Some(c + " 2>&1 | tail -n "@ + t) && #[trigger] parse_unsigned(
                    t,
                    lines,
                ) == Some(lines),
            None => match s.log_path {
                Some(p) => exists|t: Seq<char>|
                    logs_command_text(s, lines) == Some("tail -n "@ + t + " "@ + p) && #[trigger] parse_unsigned(
                        t,
                        lines,
                    ) == Some(lines),
                None => logs_command_text(s, lines) is None,
            },
        },
{
    crate::text::lemma_decimal_text_parses(lines, lines);
    let t = decimal_text(lines);
    assert(parse_unsigned(t, lines) == Some(lines));
}

/// The remote command that fetches a service's logs (`None`: no logs configured).
pub fn logs_command(s: &Service, lines: usize) -> (r: Option<String>)
    ensures
        opt_text(r) == logs_command_text(s@, lines as nat),
{
    let n = string_of(decimal_chars(lines as u64).as_slice());
    match &s.log_cmd {
        Some(c) => Some(concat3_str(c.as_str(), " 2>&1 | tail -n ", n.as_str())),
        None => match &s.log_path {
            Some(p) => Some(tail_command(lines, p.as_str())),
            None => None,
        },
    }
}

/// The first quick command with the given name.
pub open spec fn first_quick(qs: Seq<QuickCommandView>, name: Seq<char>) -> Option<QuickCommandView>
    decreases qs.len(),
{
    if qs.len() == 0 {
        None
    } else if qs[0].name == name {
        Some(qs[0])
    } else {
        first_quick(qs.drop_first(), name)
    }
}

/// The remote command line for a service's quick command: wrapped in
/// `docker exec -it <container>` when it is marked to run in the container
/// (it is not by default) and the service names its container.
pub open spec fn quick_command_text(s: ServiceView, name: Seq<char>) -> Option<Seq<char>> {
    match first_quick(s.quick_commands, name) {
        Some(q) => {
            let in_container = match q.in_container {
                Some(b) => b,
                None => false,
            };
            match s.container_name {
                Some(c) => if in_container {
                    Some("docker exec -it "@ + c + " "@ + q.cmd)
                } else {
                    Some(q.cmd)
                },
                None => Some(q.cmd),
            }
        },
        None => None,
    }
}

proof fn lemma_first_quick_at(qs: Seq<QuickCommandView>, name: Seq<char>, k: int)
    requires
        0 <= k < qs.len(),
        qs[k].name == name,
        forall|j: int| 0 <= j < k ==> (#[trigger] qs[j]).name != name,
    ensures
        first_quick(qs, name) == Some(qs[k]),
    decreases k,
{
    if k > 0 {
        let rest = qs.drop_first();
        assert forall|j: int| 0 <= j < k - 1 implies (#[trigger] rest[j]).name != name by {
            assert(rest[j] == qs[j + 1]);
        }
        lemma_first_quick_at(rest, name, k - 1);
        assert(qs[0].name != name);
    }
}

proof fn lemma_first_quick_absent(qs: Seq<QuickCommandView>, name: Seq<char>)
    requires
        forall|j: int| 0 <= j < qs.len() ==> (#[trigger] qs[j]).name != name,
    ensures
        first_quick(qs, name) is None,
    decreases qs.len(),
{
    if qs.len() > 0 {
        let rest = qs.drop_first();
        assert forall|j: int| 0 <= j < rest.len() implies (#[trigger] rest[j]).name != name by {
            assert(rest[j] == qs[j + 1]);
        }
        lemma_first_quick_absent(rest, name);
    }
}

/// Where a quick command runs. The first quick command named `name` is the
/// one used. It runs as its own command line, unchanged, unless it is
/// marked to run in the container (`in_container` is `Some(true)`) and the
/// service names its container `c`; then, and only then, it runs as
/// `docker exec -it c <cmd>`. No quick command with the name: no line.
pub proof fn lemma_quick_command_placement(s: ServiceView, name: Seq<char>, k: int)
    requires
        0 <= k < s.quick_commands.len(),
        s.quick_commands[k].name == name,
        forall|j: int| 0 <= j < k ==> (#[trigger] s.quick_commands[j]).name != name,
    ensures
        s.quick_commands[k].in_container != Some(true) ==> quick_command_text(s, name) == Some(
            s.quick_commands[k].cmd,
        ),
        s.container_name is None ==> quick_command_text(s, name) == Some(s.quick_commands[k].cmd),
        s.quick_commands[k].in_container == Some(true) && s.container_name is Some ==> quick_command_text(
            s,
            name,
        ) == Some("docker exec -it "@ + s.container_name->0 + " "@ + s.quick_commands[k].cmd),
{
    lemma_first_quick_at(s.quick_commands, name, k);
}

/// A service with no quick command named `name` has no line for it.
pub proof fn lemma_quick_command_missing(s: ServiceView, name: Seq<char>)
    requires
        forall|j: int| 0 <= j < s.quick_commands.len() ==> (#[trigger] s.quick_commands[j]).name != name,
    ensures
        quick_command_text(s, name) is None,
{
    lemma_first_quick_absent(s.quick_commands, name);
}

/// The remote command line for the quick command `name` of a service
/// (`None`: no quick command has that name).
pub fn quick_command_line(s: &Service, name: &str) -> (r: Option<String>)
    ensures
        opt_text(r) == quick_command_text(s@, name@),
{
    let wanted = name.to_string();
    let ghost qs = quick_views(s.quick_commands@);
    let mut i: usize = 0;
    assert(qs.skip(0) =~= qs);
    while i < s.quick_commands.len()
        invariant
            i <= s.quick_commands.len(),
            qs == quick_views(s.quick_commands@),
            wanted@ == name@,
            first_quick(qs, name@) == first_quick(qs.skip(i as int), name@),
        decreases s.quick_commands.len() - i,
    {
        assert(qs.skip(i as int)[0] == s.quick_commands@[i as int]@);
        assert(qs.skip(i as int).drop_first() =~= qs.skip(i + 1));
        let q = &s.quick_commands[i];
        if q.name == wanted {
            let in_container = match q.in_container {
                Some(b) => b,
                None => false,
            };
            return match &s.container_name {
                Some(c) => if in_container {
                    let head = concat3_str("docker exec -it ", c.as_str(), " ");
                    Some(concat_str(head.as_str(), q.cmd.as_str()))
                } else {
                    Some(q.cmd.clone())
                },
                None => Some(q.cmd.clone()),
            };
        }
        i += 1;
    }
    None
}

/// A service that discovery found on `host`.
pub open spec fn discovered_on(s: ServiceView, host: Seq<char>) -> bool {
    s.discovered && s.host == host
}

/// The services left when those discovered on `host` are dropped, in order.
pub open spec fn without_host(v: Seq<ServiceView>, host: Seq<char>) -> Seq<ServiceView>
    decreases v.len(),
{
    if v.len() == 0 {
        v
    } else if discovered_on(v.last(), host) {
        without_host(v.drop_last(), host)
    } else {
        without_host(v.drop_last(), host).push(v.last())
    }
}

/// Removes the services discovered on `host`; configured services on it stay.
pub fn forget_host(services: &mut Vec<Service>, host: &str)
    ensures
        service_views(final(services)@) == without_host(service_views(old(services)@), host@),
{
    let h = host.to_string();
    let ghost v = service_views(services@);
    let mut kept: Vec<Service> = Vec::new();
    let mut i: usize = 0;
    assert(v.take(0) =~= Seq::<ServiceView>::empty());
    while i < services.len()
        invariant
            i <= services.len(),
            v == service_views(services@),
            h@ == host@,
            service_views(kept@) == without_host(v.take(i as int), host@),
        decreases services.len() - i,
    {
        assert(v.take(i + 1).drop_last() =~= v.take(i as int));
        if !(services[i].discovered && services[i].host == h) {
            let ghost prev = kept@;
            kept.push(services[i].copy());
            assert(service_views(kept@) =~= service_views(prev).push(v[i as int]));
        }
        i += 1;
    }
    assert(v.take(v.len() as int) =~= v);
    *services = kept;
}

/// Forgetting a host leaves no service discovered on it and keeps every
/// other service, configured ones on that host included: exactly those not
/// discovered on the host remain, in their order.
pub proof fn lemma_forget_host(v: Seq<ServiceView>, host: Seq<char>)
    ensures
        forall|k: int| 0 <= k < without_host(v, host).len() ==> !discovered_on(#[trigger] without_host(v, host)[k], host),
        forall|s: ServiceView| v.contains(s) && !discovered_on(s, host) ==> #[trigger] without_host(v, host).contains(s),
        forall|s: ServiceView| #[trigger] without_host(v, host).contains(s) ==> v.contains(s),
    decreases v.len(),
{
    if v.len() > 0 {
        let w = v.drop_last();
        lemma_forget_host(w, host);
        let r = without_host(w, host);
        assert forall|s: ServiceView| v.contains(s) && !discovered_on(s, host) implies #[trigger] without_host(v, host).contains(s) by {
            let i = choose|i: int| 0 <= i < v.len() && v[i] == s;
            if i < w.len() {
                assert(w[i] == s);
                assert(w.contains(s));
                assert(r.contains(s));
                let j = choose|j: int| 0 <= j < r.len() && r[j] == s;
                if !discovered_on(v.last(), host) {
                    assert(without_host(v, host) == r.push(v.last()));
                    assert(r.push(v.last())[j] == s);
                } else {
                    assert(without_host(v, host) == r);
                }
            } else {
                assert(without_host(v, host) == r.push(s));
                assert(without_host(v, host)[r.len() as int] == s);
            }
        }
        assert forall|s: ServiceView| #[trigger] without_host(v, host).contains(s) implies v.contains(s) by {
            let j = choose|j: int| 0 <= j < without_host(v, host).len() && without_host(v, host)[j] == s;
            if j < r.len() {
                assert(r[j] == s);
                assert(r.contains(s));
                let i = choose|i: int| 0 <= i < w.len() && w[i] == s;
                assert(v[i] == s);
            } else {
                assert(v[v.len() - 1] == s);
            }
        }
    }
}

/// The discovered services on `host`, in order.
pub open spec fn discovered_on_host(v: Seq<ServiceView>, host: Seq<char>) -> Seq<ServiceView>
    decreases v.len(),
{
    if v.len() == 0 {
        v
    } else if v.last().host == host && v.last().discovered {
        discovered_on_host(v.drop_last(), host).push(v.last())
    } else {
        discovered_on_host(v.drop_last(), host)
    }
}

/// Copies of the discovered services on `host`: what is saved for that host.
pub fn discovered_for_host(services: &Vec<Service>, host: &str) -> (r: Vec<Service>)
    ensures
        service_views(r@) == discovered_on_host(service_views(services@), host@),
{
    let h = host.to_string();
    let ghost v = service_views(services@);
    let mut out: Vec<Service> = Vec::new();
    let mut i: usize = 0;
    assert(v.take(0) =~= Seq::<ServiceView>::empty());
    while i < services.len()
        invariant
            i <= services.len(),
            v == service_views(services@),
            h@ == host@,
            service_views(out@) == discovered_on_host(v.take(i as int), host@),
        decreases services.len() - i,
    {
        assert(v.take(i + 1).drop_last() =~= v.take(i as int));
        if services[i].host == h && services[i].discovered {
            let ghost prev = out@;
            out.push(services[i].copy());
            assert(service_views(out@) =~= service_views(prev).push(v[i as int]));
        }
        i += 1;
    }
    assert(v.take(v.len() as int) =~= v);
    out
}

/// Hosts with their service counts, in the order the hosts first appear.
pub open spec fn host_tally(v: Seq<ServiceView>) -> Seq<(Seq<char>, nat)>
    decreases v.len(),
{
    if v.len() == 0 {
        Seq::empty()
    } else {
        let t = host_tally(v.drop_last());
        let h = v.last().host;
        if exists|j: int| 0 <= j < t.len() && t[j].0 == h {
            let j = choose|j: int| 0 <= j < t.len() && t[j].0 == h;
            t.update(j, (h, t[j].1 + 1))
        } else {
            t.push((h, 1nat))
        }
    }
}

/// Number of services on `host`.
pub open spec fn count_on_host(v: Seq<ServiceView>, host: Seq<char>) -> nat
    decreases v.len(),
{
    if v.len() == 0 {
        0
    } else {
        count_on_host(v.drop_last(), host) + if v.last().host == host {
            1nat
        } else {
            0nat
        }
    }
}

/// The pairs of a tally, by their texts.
pub open spec fn tally_view(r: Seq<(String, usize)>) -> Seq<(Seq<char>, nat)> {
    r.map_values(|p: (String, usize)| (p.0@, p.1 as nat))
}

proof fn lemma_count_absent(v: Seq<ServiceView>, host: Seq<char>)
    requires
        forall|k: int| 0 <= k < v.len() ==> v[k].host != host,
    ensures
        count_on_host(v, host) == 0,
    decreases v.len(),
{
    if v.len() > 0 {
        let w = v.drop_last();
        assert forall|k: int| 0 <= k < w.len() implies w[k].host != host by {
            assert(w[k] == v[k]);
        }
        lemma_count_absent(w, host);
    }
}

/// The host tally of the dashboard's services lists every host of a
/// service exactly once, each with the number of services on it.
pub proof fn lemma_host_tally(v: Seq<ServiceView>)
    ensures
        forall|a: int, b: int|
            0 <= a < host_tally(v).len() && 0 <= b < host_tally(v).len() && a != b ==> #[trigger] host_tally(v)[a].0
                != #[trigger] host_tally(v)[b].0,
        forall|a: int|
            0 <= a < host_tally(v).len() ==> #[trigger] host_tally(v)[a].1 == count_on_host(
                v,
                host_tally(v)[a].0,
            ),
        forall|k: int| 0 <= k < v.len() ==> exists|a: int| 0 <= a < host_tally(v).len() && #[trigger] host_tally(v)[a].0 == #[trigger] v[k].host,
        forall|a: int| 0 <= a < host_tally(v).len() ==> #[trigger] host_tally(v)[a].1 <= v.len(),
    decreases v.len(),
{
    if v.len() > 0 {
        let w = v.drop_last();
        lemma_host_tally(w);
        let t = host_tally(w);
        let h = v.last().host;
        let t2 = host_tally(v);
        assert(w.len() == v.len() - 1);
        if exists|j: int| 0 <= j < t.len() && t[j].0 == h {
            let j = choose|j: int| 0 <= j < t.len() && t[j].0 == h;
            assert(t2 == t.update(j, (h, t[j].1 + 1)));
            assert forall|a: int, b: int| 0 <= a < t2.len() && 0 <= b < t2.len() && a != b implies #[trigger] t2[a].0
                != #[trigger] t2[b].0 by {
                assert(t2[a].0 == t[a].0);
                assert(t2[b].0 == t[b].0);
            }
            assert forall|a: int| 0 <= a < t2.len() implies #[trigger] t2[a].1 == count_on_host(v, t2[a].0) by {
                if a != j {
                    assert(t[a].0 != t[j].0);
                }
            }
            assert forall|k: int| 0 <= k < v.len() implies exists|a: int| 0 <= a < t2.len() && #[trigger] t2[a].0 == #[trigger] v[k].host by {
                if k < w.len() {
                    assert(w[k] == v[k]);
                    let a = choose|a: int| 0 <= a < t.len() && #[trigger] t[a].0 == w[k].host;
                    assert(t2[a].0 == v[k].host);
                } else {
                    assert(t2[j].0 == v[k].host);
                }
            }
        } else {
            assert(t2 == t.push((h, 1nat)));
            assert forall|k: int| 0 <= k < w.len() implies w[k].host != h by {
                assert(w[k] == v[k]);
                let a = choose|a: int| 0 <= a < t.len() && #[trigger] t[a].0 == #[trigger] w[k].host;
            }
            lemma_count_absent(w, h);
            assert forall|a: int, b: int| 0 <= a < t2.len() && 0 <= b < t2.len() && a != b implies #[trigger] t2[a].0
                != #[trigger] t2[b].0 by {
            }
            assert forall|a: int| 0 <= a < t2.len() implies #[trigger] t2[a].1 == count_on_host(v, t2[a].0) by {
            }
            assert forall|k: int| 0 <= k < v.len() implies exists|a: int| 0 <= a < t2.len() && #[trigger] t2[a].0 == #[trigger] v[k].host by {
                if k < w.len() {
                    assert(w[k] == v[k]);
                    let a = choose|a: int| 0 <= a < t.len() && #[trigger] t[a].0 == #[trigger] w[k].host;
                    assert(t2[a].0 == v[k].host);
                } else {
                    assert(t2[t.len() as int].0 == v[k].host);
                }
            }
        }
    }
}

fn find_host(out: &Vec<(String, usize)>, h: &String) -> (r: Option<usize>)
    ensures
        match r {
            Some(j) => j < out@.len() && out@[j as int].0@ == h@,
            None => forall|k: int| 0 <= k < out@.len() ==> out@[k].0@ != h@,
        },
{
    let mut j: usize = 0;
    while j < out.len()
        invariant
            j <= out.len(),
            forall|k: int| 0 <= k < j ==> out@[k].0@ != h@,
        decreases out.len() - j,
    {
        if out[j].0 == *h {
            return Some(j);
        }
        j += 1;
    }
    None
}

/// Each host with the number of its services, hosts in order of first appearance.
pub fn host_counts(services: &Vec<Service>) -> (r: Vec<(String, usize)>)
    ensures
        tally_view(r@) == host_tally(service_views(services@)),
{
    let ghost v = service_views(services@);
    let mut out: Vec<(String, usize)> = Vec::new();
    let mut i: usize = 0;
    assert(v.take(0) =~= Seq::<ServiceView>::empty());
    assert(tally_view(out@) =~= Seq::<(Seq<char>, nat)>::empty());
    while i < services.len()
        invariant
            i <= services.len(),
            v == service_views(services@),
            tally_view(out@) == host_tally(v.take(i as int)),
        decreases services.len() - i,
    {
        assert(v.take(i + 1).drop_last() =~= v.take(i as int));
        assert(v.take(i + 1).last() == v[i as int]);
        proof {
            lemma_host_tally(v.take(i as int));
        }
        let h = &services[i].host;
        let ghost t = host_tally(v.take(i as int));
        assert(t.len() == out@.len());
        match find_host(&out, h) {
            Some(j) => {
                assert(t[j as int].0 == h@);
                assert(t[j as int].1 <= i);
                let c = out[j].1;
                let ghost prev = out@;
                out.set(j, (h.clone(), c + 1));
                let ghost k0 = choose|k: int| 0 <= k < t.len() && t[k].0 == h@;
                assert(t[k0].0 == t[j as int].0);
                assert(k0 == j as int);
                assert(tally_view(out@) =~= t.update(j as int, (h@, t[j as int].1 + 1)));
            },
            None => {
                assert forall|k: int| 0 <= k < t.len() implies t[k].0 != h@ by {
                    assert(t[k].0 == out@[k].0@);
                }
                out.push((h.clone(), 1));
                assert(tally_view(out@) =~= t.push((h@, 1nat)));
            },
        }
        i += 1;
    }
    assert(v.take(v.len() as int) =~= v);
    out
}


/// Dependency edges `(service id, dependency id)`, service by service.
pub open spec fn topology_edges(v: Seq<ServiceView>) -> Seq<(Seq<char>, Seq<char>)>
    decreases v.len(),
{
    if v.len() == 0 {
        Seq::empty()
    } else {
        let s = v.last();
        topology_edges(v.drop_last()) + s.dependencies.map_values(|d: Seq<char>| (s.id, d))
    }
}

/// The pairs of strings, by their texts.
pub open spec fn pair_texts(r: Seq<(String, String)>) -> Seq<(Seq<char>, Seq<char>)> {
    r.map_values(|p: (String, String)| (p.0@, p.1@))
}

/// The ids of the services, in order.
pub open spec fn service_ids(v: Seq<ServiceView>) -> Seq<Seq<char>> {
    v.map_values(|s: ServiceView| s.id)
}

/// The dependency graph: one node per service id, one edge from each
/// service to each of its dependencies.
pub fn topology(services: &Vec<Service>) -> (r: (Vec<String>, Vec<(String, String)>))
    ensures
        texts(r.0@) == service_ids(service_views(services@)),
        pair_texts(r.1@) == topology_edges(service_views(services@)),
{
    let ghost v = service_views(services@);
    let mut nodes: Vec<String> = Vec::new();
    let mut edges: Vec<(String, String)> = Vec::new();
    let mut i: usize = 0;
    assert(v.take(0) =~= Seq::<ServiceView>::empty());
    while i < services.len()
        invariant
            i <= services.len(),
            v == service_views(services@),
            texts(nodes@) == service_ids(v.take(i as int)),
            pair_texts(edges@) == topology_edges(v.take(i as int)),
        decreases services.len() - i,
    {
        let s = &services[i];
        assert(v.take(i + 1).drop_last() =~= v.take(i as int));
        assert(v.take(i + 1).last() == s@);
        let ghost prev_nodes = nodes@;
        nodes.push(s.id.clone());
        assert(texts(nodes@) =~= texts(prev_nodes).push(s.id@));
        assert(service_ids(v.take(i + 1)) =~= service_ids(v.take(i as int)).push(s.id@));
        let ghost base = pair_texts(edges@);
        let ghost deps = texts(s.dependencies@);
        let mut j: usize = 0;
        assert(deps.take(0).map_values(|d: Seq<char>| (s.id@, d)) =~= Seq::<(Seq<char>, Seq<char>)>::empty());
        assert(base + Seq::<(Seq<char>, Seq<char>)>::empty() =~= base);
        while j < s.dependencies.len()
            invariant
                j <= s.dependencies.len(),
                deps == texts(s.dependencies@),
                pair_texts(edges@) == base + deps.take(j as int).map_values(|d: Seq<char>| (s.id@, d)),
            decreases s.dependencies.len() - j,
        {
            let ghost prev = edges@;
            edges.push((s.id.clone(), s.dependencies[j].clone()));
            assert(deps[j as int] == s.dependencies@[j as int]@);
            assert(pair_texts(edges@) =~= pair_texts(prev).push((s.id@, deps[j as int])));
            assert(deps.take(j + 1) =~= deps.take(j as int).push(deps[j as int]));
            assert(deps.take(j + 1).map_values(|d: Seq<char>| (s.id@, d)) =~= deps.take(j as int).map_values(
                |d: Seq<char>| (s.id@, d),
            ).push((s.id@, deps[j as int])));
            assert(pair_texts(edges@) =~= base + deps.take(j + 1).map_values(|d: Seq<char>| (s.id@, d)));
            j += 1;
        }
        assert(deps.take(deps.len() as int) =~= deps);
        i += 1;
    }
    assert(v.take(v.len() as int) =~= v);
    (nodes, edges)
}

/// What a parsed WebSocket message asks: an object of type `cmd` naming a
/// service id and a command, all three as JSON strings.
pub open spec fn ws_command(doc: Option<Json>) -> Option<(Seq<char>, Seq<char>)> {
    if json_text(json_member(doc, "type"@)) == Some("cmd"@) {
        match (json_text(json_member(doc, "id"@)), json_text(json_member(doc, "cmd"@))) {
            (Some(id), Some(cmd)) => Some((id, cmd)),
            _ => None,
        }
    } else {
        None
    }
}

/// What a WebSocket text message asks.
pub open spec fn ws_request(text: Seq<char>) -> Option<(Seq<char>, Seq<char>)> {
    ws_command(json_document(text))
}

/// Reads a parsed WebSocket message `{"type": "cmd", "id": ..., "cmd": ...}`:
/// the service id and command, or nothing for any other message.
pub fn ws_command_of(doc: Option<&Json>) -> (r: Option<(String, String)>)
    ensures
        match r {
            Some((id, cmd)) => ws_command(deref_opt(doc)) == Some((id@, cmd@)),
            None => ws_command(deref_opt(doc)) is None,
        },
{
    let kind = text_of(member_of(doc, "type"));
    let is_cmd = match &kind {
        Some(k) => chars_equal(&chars_of(k.as_str()), &chars_of("cmd")),
        None => false,
    };
    if !is_cmd {
        return None;
    }
    match (text_of(member_of(doc, "id")), text_of(member_of(doc, "cmd"))) {
        (Some(id), Some(cmd)) => Some((id, cmd)),
        _ => None,
    }
}

/// Reads a WebSocket text message `{"type": "cmd", "id": ..., "cmd": ...}`:
/// the service id and command, or nothing for any other message.
pub fn ws_command_request(text: &str) -> (r: Option<(String, String)>)
    ensures
        match r {
            Some((id, cmd)) => ws_request(text@) == Some((id@, cmd@)),
            None => ws_request(text@) is None,
        },
{
    let doc = parse_json(text);
    ws_command_of(doc.as_ref())
}

/// The words of `s` as `str::split_whitespace` yields them: the runs of
/// characters between white space.
pub open spec fn words(s: Seq<char>) -> Seq<Seq<char>>
    decreases s.len(),
{
    if s.len() == 0 {
        Seq::empty()
    } else {
        let w = words(s.drop_last());
        let c = s.last();
        if is_space(c) {
            w
        } else if s.len() >= 2 && !is_space(s[s.len() - 2]) {
            w.update(w.len() - 1, w.last().push(c))
        } else {
            w.push(seq![c])
        }
    }
}

/// The words of `s`.
pub fn words_of(v: &Vec<char>) -> (r: Vec<Vec<char>>)
    ensures
        r@.len() == words(v@).len(),
        forall|k: int| 0 <= k < r@.len() ==> #[trigger] r@[k]@ == words(v@)[k],
{
    let mut done: Vec<Vec<char>> = Vec::new();
    let mut cur: Vec<char> = Vec::new();
    let mut i: usize = 0;
    assert(v@.take(0) =~= Seq::<char>::empty());
    while i < v.len()
        invariant
            i <= v.len(),
            cur@.len() > 0 ==> (i > 0 && !is_space(v@[i - 1])),
            (i > 0 && !is_space(v@[i - 1])) ==> cur@.len() > 0,
            cur@.len() > 0 ==> words(v@.take(i as int)).len() == done@.len() + 1 && words(v@.take(i as int)).last() == cur@,
            cur@.len() == 0 ==> words(v@.take(i as int)).len() == done@.len(),
            forall|k: int| 0 <= k < done@.len() ==> #[trigger] done@[k]@ == words(v@.take(i as int))[k],
        decreases v.len() - i,
    {
        let c = v[i];
        let ghost t = v@.take(i + 1);
        assert(t.drop_last() =~= v@.take(i as int));
        assert(t.last() == c);
        if is_space_char(c) {
            if cur.len() > 0 {
                done.push(cur);
                cur = Vec::new();
            }
        } else {
            if i > 0 {
                assert(t[t.len() - 2] == v@[i - 1]);
            }
            cur.push(c);
        }
        i += 1;
    }
    assert(v@.take(v.len() as int) =~= v@);
    if cur.len() > 0 {
        done.push(cur);
    }
    done
}

/// The numbers among the words, in order: the words that parse as `u64`.
pub open spec fn parsed_numbers(ws: Seq<Seq<char>>) -> Seq<nat>
    decreases ws.len(),
{
    if ws.len() == 0 {
        Seq::empty()
    } else {
        match parse_unsigned(ws.last(), u64::MAX as nat) {
            Some(n) => parsed_numbers(ws.drop_last()).push(n),
            None => parsed_numbers(ws.drop_last()),
        }
    }
}

/// The command that reads the disk usage of `/` in KiB on a machine.
pub fn disk_usage_command() -> (r: String)
    ensures
        r@ == "df -k / 2>/dev/null | awk 'NR==2{print $2, $3, $4}'"@,
{
    "df -k / 2>/dev/null | awk 'NR==2{print $2, $3, $4}'".to_string()
}

/// The command that lists Docker's disk usage on a machine, one JSON
/// object per line.
pub fn docker_df_command() -> (r: String)
    ensures
        r@ == "docker system df --format '{{json .}}' 2>/dev/null"@,
{
    "docker system df --format '{{json .}}' 2>/dev/null".to_string()
}

/// The JSON documents among `lines`, in order: one for each line that
/// parses, the others left out.
pub open spec fn parsed_items(lines: Seq<Seq<char>>) -> Seq<Json>
    decreases lines.len(),
{
    if lines.len() == 0 {
        Seq::empty()
    } else {
        match json_document(lines.last()) {
            Some(j) => parsed_items(lines.drop_last()).push(j),
            None => parsed_items(lines.drop_last()),
        }
    }
}

/// Reads the output of [`docker_df_command`]: the JSON document of each
/// non-empty trimmed line that parses, in order.
pub fn docker_df_items(out: &str) -> (r: Vec<Json>)
    ensures
        r@ == parsed_items(record_lines(text_lines(out@))),
{
    let lines = docker_ps_lines(out);
    let ghost lv = record_lines(text_lines(out@));
    let mut items: Vec<Json> = Vec::new();
    let mut i: usize = 0;
    assert(lv.take(0) =~= Seq::<Seq<char>>::empty());
    while i < lines.len()
        invariant
            i <= lines.len(),
            texts(lines@) == lv,
            items@ == parsed_items(lv.take(i as int)),
        decreases lines.len() - i,
    {
        assert(lv.take(i + 1).drop_last() =~= lv.take(i as int));
        assert(lv.take(i + 1).last() == lines@[i as int]@);
        match parse_json(lines[i].as_str()) {
            Some(j) => {
                items.push(j);
            },
            None => {},
        }
        i += 1;
    }
    assert(lv.take(lv.len() as int) =~= lv);
    items
}

/// Disk usage read from `df -k` output (`total used available` in KiB):
/// the first three numbers among its words, if there are three.
pub open spec fn disk_usage(out: Seq<char>) -> Option<(nat, nat, nat)> {
    let ns = parsed_numbers(words(trim(out)));
    if ns.len() >= 3 {
        Some((ns[0], ns[1], ns[2]))
    } else {
        None
    }
}

/// Reads the remote `df` output of the disk usage query.
pub fn parse_disk_usage(out: &str) -> (r: Option<(u64, u64, u64)>)
    ensures
        match r {
            Some((a, b, c)) => disk_usage(out@) == Some((a as nat, b as nat, c as nat)),
            None => disk_usage(out@) is None,
        },
{
    let t = trim_chars(&chars_of(out));
    let ws = words_of(&t);
    let ghost wv = words(trim(out@));
    let mut nums: Vec<u64> = Vec::new();
    let mut i: usize = 0;
    assert(wv.take(0) =~= Seq::<Seq<char>>::empty());
    while i < ws.len()
        invariant
            i <= ws.len() == wv.len(),
            forall|k: int| 0 <= k < ws@.len() ==> #[trigger] ws@[k]@ == wv[k],
            nums@.map_values(|n: u64| n as nat) == parsed_numbers(wv.take(i as int)),
        decreases ws.len() - i,
    {
        assert(wv.take(i + 1).drop_last() =~= wv.take(i as int));
        assert(wv.take(i + 1).last() == ws@[i as int]@);
        match parse_unsigned_chars(&ws[i], u64::MAX) {
            Some(n) => {
                let ghost prev = nums@;
                nums.push(n);
                assert(nums@.map_values(|n: u64| n as nat) =~= prev.map_values(|n: u64| n as nat).push(n as nat));
            },
            None => {},
        }
        i += 1;
    }
    assert(wv.take(wv.len() as int) =~= wv);
    if nums.len() >= 3 {
        assert(nums@.map_values(|n: u64| n as nat)[0] == nums@[0] as nat);
        assert(nums@.map_values(|n: u64| n as nat)[1] == nums@[1] as nat);
        assert(nums@.map_values(|n: u64| n as nat)[2] == nums@[2] as nat);
        Some((nums[0], nums[1], nums[2]))
    } else {
        None
    }
}

/// `s` without leading and trailing white space.
pub fn trim_text(s: &str) -> (r: String)
    ensures
        r@ == trim(s@),
{
    string_of(trim_chars(&chars_of(s)).as_slice())
}


/// The list after discovery brought `found`, with the numbers of services
/// added and refreshed: a found service replaces the first service with
/// its id when that one was discovered on the same host, is left out when
/// its id belongs to any other service, and is appended otherwise.
pub open spec fn merge_found(v: Seq<ServiceView>, found: Seq<ServiceView>) -> (Seq<ServiceView>, nat, nat)
    decreases found.len(),
{
    if found.len() == 0 {
        (v, 0, 0)
    } else {
        let (m, added, refreshed) = merge_found(v, found.drop_last());
        let f = found.last();
        match first_with_id(m, f.id) {
            Some(i) => if m[i].discovered && m[i].host == f.host {
                (m.update(i, f), added, refreshed + 1)
            } else {
                (m, added, refreshed)
            },
            None => (m.push(f), added + 1, refreshed),
        }
    }
}

proof fn lemma_merge_found_counts(v: Seq<ServiceView>, found: Seq<ServiceView>)
    ensures
        merge_found(v, found).1 + merge_found(v, found).2 <= found.len(),
        merge_found(v, found).0.len() == v.len() + merge_found(v, found).1,
    decreases found.len(),
{
    if found.len() > 0 {
        lemma_merge_found_counts(v, found.drop_last());
        let m = merge_found(v, found.drop_last()).0;
        lemma_first_with_id_bounds(m, found.last().id);
    }
}

/// Adds the services found by a discovery: refreshes the discovered ones
/// already known on the same host, never replaces a configured one, and
/// appends the new ones. Returns how many were added and how many refreshed.
pub fn merge_discovered(services: &mut Vec<Service>, found: Vec<Service>) -> (r: (usize, usize))
    ensures
        merge_found(service_views(old(services)@), service_views(found@)) == (
            service_views(final(services)@),
            r.0 as nat,
            r.1 as nat,
        ),
{
    let ghost v0 = service_views(services@);
    let ghost fv = service_views(found@);
    let mut added: usize = 0;
    let mut refreshed: usize = 0;
    let mut j: usize = 0;
    assert(fv.take(0) =~= Seq::<ServiceView>::empty());
    while j < found.len()
        invariant
            j <= found.len(),
            fv == service_views(found@),
            merge_found(v0, fv.take(j as int)) == (service_views(services@), added as nat, refreshed as nat),
            added + refreshed <= j,
        decreases found.len() - j,
    {
        assert(fv.take(j + 1).drop_last() =~= fv.take(j as int));
        assert(fv.take(j + 1).last() == found@[j as int]@);
        let f = &found[j];
        match find_service(services, f.id.as_str()) {
            Some(i) => {
                proof {
                    lemma_first_with_id_bounds(service_views(services@), f@.id);
                }
                if services[i].discovered && services[i].host == f.host {
                    let ghost prev = services@;
                    services.set(i, f.copy());
                    assert(service_views(services@) =~= service_views(prev).update(i as int, f@));
                    refreshed += 1;
                }
            },
            None => {
                let ghost prev = services@;
                services.push(f.copy());
                assert(service_views(services@) =~= service_views(prev).push(f@));
                added += 1;
            },
        }
        j += 1;
    }
    assert(fv.take(fv.len() as int) =~= fv);
    (added, refreshed)
}

/// Discovery never replaces a configured service: every service that was
/// not discovered keeps its place and its value, and the list only grows
/// by the services added.
pub proof fn lemma_discovery_keeps_configured(v: Seq<ServiceView>, found: Seq<ServiceView>)
    ensures
        merge_found(v, found).0.len() == v.len() + merge_found(v, found).1,
        forall|i: int| 0 <= i < v.len() && !v[i].discovered ==> #[trigger] merge_found(v, found).0[i] == v[i],
    decreases found.len(),
{
    lemma_merge_found_counts(v, found);
    if found.len() > 0 {
        lemma_discovery_keeps_configured(v, found.drop_last());
        let m = merge_found(v, found.drop_last()).0;
        let f = found.last();
        lemma_first_with_id_bounds(m, f.id);
        assert forall|i: int| 0 <= i < v.len() && !v[i].discovered implies #[trigger] merge_found(v, found).0[i] == v[i] by {
            assert(m[i] == v[i]);
        }
    }
}

/// Discovery keeps service ids distinct: when no two services share an
/// id before, none do after, whatever was found.
pub proof fn lemma_discovery_keeps_ids_distinct(v: Seq<ServiceView>, found: Seq<ServiceView>)
    requires
        ids_of(v).no_duplicates(),
    ensures
        ids_of(merge_found(v, found).0).no_duplicates(),
    decreases found.len(),
{
    if found.len() > 0 {
        lemma_discovery_keeps_ids_distinct(v, found.drop_last());
        let m = merge_found(v, found.drop_last()).0;
        let f = found.last();
        lemma_first_with_id_bounds(m, f.id);
        match first_with_id(m, f.id) {
            Some(i) => {
                if m[i].discovered && m[i].host == f.host {
                    assert(ids_of(m.update(i, f)) =~= ids_of(m));
                }
            },
            None => {
                let ids = ids_of(m.push(f));
                assert(ids =~= ids_of(m).push(f.id));
                assert forall|a: int, b: int| 0 <= a < ids.len() && 0 <= b < ids.len() && a != b implies ids[a]
                    != ids[b] by {
                    if a == ids.len() - 1 {
                        assert(ids_of(m)[b] == m[b].id);
                    } else if b == ids.len() - 1 {
                        assert(ids_of(m)[a] == m[a].id);
                    } else {
                        assert(ids_of(m)[a] == ids[a]);
                        assert(ids_of(m)[b] == ids[b]);
                    }
                }
            },
        }
    }
}

proof fn lemma_without_host_update(m: Seq<ServiceView>, i: int, f: ServiceView, host: Seq<char>)
    requires
        0 <= i < m.len(),
        discovered_on(m[i], host),
        discovered_on(f, host),
    ensures
        without_host(m.update(i, f), host) == without_host(m, host),
    decreases m.len(),
{
    if i == m.len() - 1 {
        assert(m.update(i, f).drop_last() =~= m.drop_last());
    } else {
        lemma_without_host_update(m.drop_last(), i, f, host);
        assert(m.update(i, f).drop_last() =~= m.drop_last().update(i, f));
    }
}

/// Forgetting a host undoes a discovery on it: when every service found
/// was discovered on that host, merging them in and then forgetting the
/// host leaves what forgetting it alone leaves.
pub proof fn lemma_forget_undoes_discovery(v: Seq<ServiceView>, found: Seq<ServiceView>, host: Seq<char>)
    requires
        forall|k: int| 0 <= k < found.len() ==> discovered_on(#[trigger] found[k], host),
    ensures
        without_host(merge_found(v, found).0, host) == without_host(v, host),
    decreases found.len(),
{
    if found.len() > 0 {
        lemma_forget_undoes_discovery(v, found.drop_last(), host);
        let m = merge_found(v, found.drop_last()).0;
        let f = found.last();
        assert(discovered_on(f, host));
        lemma_first_with_id_bounds(m, f.id);
        match first_with_id(m, f.id) {
            Some(i) => {
                if m[i].discovered && m[i].host == f.host {
                    lemma_without_host_update(m, i, f, host);
                }
            },
            None => {
                assert(m.push(f).drop_last() =~= m);
            },
        }
    }
}

/// The ids of the configured (not discovered) services, in order.
pub open spec fn configured_id_texts(v: Seq<ServiceView>) -> Seq<Seq<char>>
    decreases v.len(),
{
    if v.len() == 0 {
        Seq::empty()
    } else if v.last().discovered {
        configured_id_texts(v.drop_last())
    } else {
        configured_id_texts(v.drop_last()).push(v.last().id)
    }
}

/// The ids of the configured services: those a discovery must not take.
pub fn configured_ids(services: &Vec<Service>) -> (r: Vec<String>)
    ensures
        texts(r@) == configured_id_texts(service_views(services@)),
{
    let ghost v = service_views(services@);
    let mut out: Vec<String> = Vec::new();
    let mut i: usize = 0;
    assert(v.take(0) =~= Seq::<ServiceView>::empty());
    while i < services.len()
        invariant
            i <= services.len(),
            v == service_views(services@),
            texts(out@) == configured_id_texts(v.take(i as int)),
        decreases services.len() - i,
    {
        assert(v.take(i + 1).drop_last() =~= v.take(i as int));
        if !services[i].discovered {
            let ghost prev = out@;
            out.push(services[i].id.clone());
            assert(texts(out@) =~= texts(prev).push(v[i as int].id));
        }
        i += 1;
    }
    assert(v.take(v.len() as int) =~= v);
    out
}

/// The hosts to discover again, each once, in order of first appearance:
/// those with a discovered service, with the SSH user of the first one.
pub open spec fn rediscovery_targets_of(v: Seq<ServiceView>) -> Seq<(Seq<char>, Option<Seq<char>>)>
    decreases v.len(),
{
    if v.len() == 0 {
        Seq::empty()
    } else {
        let t = rediscovery_targets_of(v.drop_last());
        let s = v.last();
        if s.discovered && !t.map_values(|p: (Seq<char>, Option<Seq<char>>)| p.0).contains(s.host) {
            t.push((s.host, s.ssh_user))
        } else {
            t
        }
    }
}

/// Targets by their texts.
pub open spec fn target_texts(r: Seq<(String, Option<String>)>) -> Seq<(Seq<char>, Option<Seq<char>>)> {
    r.map_values(|p: (String, Option<String>)| (p.0@, opt_text(p.1)))
}

fn has_target_host(out: &Vec<(String, Option<String>)>, host: &String) -> (r: bool)
    ensures
        r == exists|m: int| 0 <= m < out@.len() && out@[m].0@ == host@,
{
    let mut k: usize = 0;
    while k < out.len()
        invariant
            k <= out.len(),
            forall|m: int| 0 <= m < k ==> out@[m].0@ != host@,
        decreases out.len() - k,
    {
        if out[k].0 == *host {
            return true;
        }
        k += 1;
    }
    false
}

/// The hosts that periodic rediscovery visits, with the SSH user to use.
pub fn rediscovery_targets(services: &Vec<Service>) -> (r: Vec<(String, Option<String>)>)
    ensures
        target_texts(r@) == rediscovery_targets_of(service_views(services@)),
{
    let ghost v = service_views(services@);
    let mut out: Vec<(String, Option<String>)> = Vec::new();
    let mut i: usize = 0;
    assert(v.take(0) =~= Seq::<ServiceView>::empty());
    while i < services.len()
        invariant
            i <= services.len(),
            v == service_views(services@),
            target_texts(out@) == rediscovery_targets_of(v.take(i as int)),
        decreases services.len() - i,
    {
        assert(v.take(i + 1).drop_last() =~= v.take(i as int));
        let s = &services[i];
        if s.discovered {
            let ghost t = target_texts(out@);
            let ghost hosts = t.map_values(|p: (Seq<char>, Option<Seq<char>>)| p.0);
            let seen = has_target_host(&out, &s.host);
            assert(seen == hosts.contains(s.host@)) by {
                if seen {
                    let m = choose|m: int| 0 <= m < out@.len() && out@[m].0@ == s.host@;
                    assert(hosts[m] == s.host@);
                } else {
                    assert forall|m: int| 0 <= m < hosts.len() implies hosts[m] != s.host@ by {
                        assert(hosts[m] == out@[m].0@);
                    }
                }
            }
            if !seen {
                let ghost prev = out@;
                out.push((s.host.clone(), copy_opt_string(&s.ssh_user)));
                assert(target_texts(out@) =~= target_texts(prev).push((s.host@, opt_text(s.ssh_user))));
            }
        }
        i += 1;
    }
    assert(v.take(v.len() as int) =~= v);
    out
}

} // verus!
