//! Health decisions. A service is checked by its remote health command when
//! it has one; otherwise, when it names a port, by an HTTP request (to its
//! health path, or `/`) and then by a TCP connection to that port; a
//! service with neither is not checked and keeps its status ("unknown"
//! until something else sets it). The caller makes each network call and
//! reports what happened.
use vstd::prelude::*;
use crate::text::{chars_of, contains_chars, contains_text, decimal_chars, decimal_text, lowercase, lowercase_chars, string_of, concat3_str, concat_str};
use crate::service::{Service, ServiceView, service_views, opt_text};
use crate::dashboard::{find_service, first_with_id, set_status, with_status};

verus! {

/// Remote health output that means "up": it mentions `healthy` or `up`, or
/// mentions `running` without `stopped` (already lower-cased).
pub open spec fn output_says_up(low: Seq<char>) -> bool {
    contains_text(low, "healthy"@) || contains_text(low, "up"@) || (contains_text(low, "running"@)
        && !contains_text(low, "stopped"@))
}

/// The URL probed over HTTP: `http://host:port/path`, port 80 and path `/`
/// when the service names none.
pub open spec fn health_url_text(s: ServiceView) -> Seq<char> {
    let port: nat = match s.port {
        Some(p) => p as nat,
        None => 80,
    };
    let path = match s.health_path {
        Some(p) => p,
        None => "/"@,
    };
    "http://"@ + s.host + ":"@ + decimal_text(port) + path
}

/// One step of a health check.
pub enum HealthStep {
    /// Run this command on the service's host over SSH.
    RunRemote { cmd: String },
    /// Send an HTTP GET to this URL.
    HttpGet { url: String },
    /// Open a TCP connection to this port of the service's host.
    TcpConnect { port: u16 },
    /// The check is over.
    Verdict(bool),
    /// Nothing can be checked: the service keeps its status.
    NotChecked,
}

/// The HTTP URL probed for a service.
pub fn health_url(s: &Service) -> (r: String)
    ensures
        r@ == health_url_text(s@),
{
    let port: u16 = match s.port {
        Some(p) => p,
        None => 80,
    };
    let digits = decimal_chars(port as u64);
    let port_text = string_of(digits.as_slice());
    let path = match &s.health_path {
        Some(p) => p.clone(),
        None => "/".to_string(),
    };
    let head = concat3_str("http://", s.host.as_str(), ":");
    concat3_str(head.as_str(), port_text.as_str(), path.as_str())
}

/// The first step of checking a service: its health command when it has
/// one, otherwise the HTTP probe when it names a port (an HTTP check needs
/// one), otherwise no check at all.
pub fn health_start(s: &Service) -> (r: HealthStep)
    ensures
        match s@.health_cmd {
            Some(c) => r matches HealthStep::RunRemote { cmd } && cmd@ == c,
            None => if s.port is Some {
                r matches HealthStep::HttpGet { url } && url@ == health_url_text(s@)
            } else {
                r is NotChecked
            },
        },
{
    match &s.health_cmd {
        Some(c) => HealthStep::RunRemote { cmd: c.clone() },
        None => if s.port.is_some() {
            HealthStep::HttpGet { url: health_url(s) }
        } else {
            HealthStep::NotChecked
        },
    }
}

/// The verdict from the health command's output (`None` when the remote
/// call failed): up when the lower-cased output says so.
pub fn health_after_remote(output: Option<&str>) -> (r: bool)
    ensures
        r == match output {
            Some(o) => output_says_up(lowercase(o@)),
            None => false,
        },
{
    match output {
        Some(o) => {
            let low = lowercase_chars(&chars_of(o));
            contains_chars(&low, &chars_of("healthy")) || contains_chars(&low, &chars_of("up")) || (
            contains_chars(&low, &chars_of("running")) && !contains_chars(&low, &chars_of("stopped")))
        },
        None => false,
    }
}

/// The step after the HTTP probe: up when it answered with success,
/// otherwise a TCP connection to the service's port, or down when it has
/// none.
pub fn health_after_http(s: &Service, http_success: bool) -> (r: HealthStep)
    ensures
        http_success ==> r == HealthStep::Verdict(true),
        !http_success ==> match s.port {
            Some(p) => r == HealthStep::TcpConnect { port: p },
            None => r == HealthStep::Verdict(false),
        },
{
    if http_success {
        HealthStep::Verdict(true)
    } else {
        match s.port {
            Some(p) => HealthStep::TcpConnect { port: p },
            None => HealthStep::Verdict(false),
        }
    }
}

/// The status that a health verdict gives.
pub open spec fn health_status_text(healthy: bool) -> Seq<char> {
    if healthy {
        "running"@
    } else {
        "stopped"@
    }
}

/// The status that a health verdict gives: `running` or `stopped`.
pub fn health_status(healthy: bool) -> (r: String)
    ensures
        r@ == health_status_text(healthy),
{
    if healthy {
        "running".to_string()
    } else {
        "stopped".to_string()
    }
}

/// Records a health verdict for a service of which `snapshot` was taken
/// before the check. When the verdict's status differs from the
/// snapshot's, the first service with the snapshot's id takes the new
/// status and the updated snapshot is returned for broadcasting; otherwise
/// nothing changes.
pub fn record_health(services: &mut Vec<Service>, snapshot: &Service, healthy: bool) -> (r: Option<Service>)
    ensures
        snapshot@.status == health_status_text(healthy) ==> r is None && service_views(final(services)@)
            == service_views(old(services)@),
        snapshot@.status != health_status_text(healthy) ==> match first_with_id(
            service_views(old(services)@),
            snapshot@.id,
        ) {
            Some(i) => service_views(final(services)@) == service_views(old(services)@).update(
                i,
                with_status(service_views(old(services)@)[i], health_status_text(healthy)),
            ) && (r matches Some(u) && u@ == with_status(snapshot@, health_status_text(healthy))),
            None => r is None && service_views(final(services)@) == service_views(old(services)@),
        },
{
    let new_status = health_status(healthy);
    if snapshot.status == new_status {
        return None;
    }
    match find_service(services, snapshot.id.as_str()) {
        Some(i) => {
            proof {
                crate::dashboard::lemma_first_with_id_bounds(service_views(services@), snapshot@.id);
            }
            set_status(services, i, new_status.clone());
            let mut u = snapshot.copy();
            u.status = new_status;
            Some(u)
        },
        None => None,
    }
}

} // verus!
