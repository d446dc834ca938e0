//! The service record that the dashboard manages, and its quick commands.
use vstd::prelude::*;

verus! {

/// A named shell shortcut attached to a service.
pub struct QuickCommand {
    pub name: String,
    pub cmd: String,
    pub description: Option<String>,
    /// When true, the command is meant to run inside the service's container.
    pub in_container: Option<bool>,
}

/// One managed service: where it runs, how to control it and what is known of it.
pub struct Service {
    pub id: String,
    pub name: String,
    pub host: String,
    pub port: Option<u16>,
    pub ssh_user: Option<String>,
    pub start_cmd: Option<String>,
    pub stop_cmd: Option<String>,
    pub restart_cmd: Option<String>,
    pub log_path: Option<String>,
    pub log_cmd: Option<String>,
    pub health_cmd: Option<String>,
    pub health_path: Option<String>,
    pub dependencies: Vec<String>,
    pub status: String,
    /// Free-form tags for grouping.
    pub tags: Vec<String>,
    /// Logical stacks or project names the service belongs to.
    pub stacks: Vec<String>,
    pub container_name: Option<String>,
    pub container_id: Option<String>,
    pub image: Option<String>,
    /// True when the service was found by Docker discovery rather than configured.
    pub discovered: bool,
    pub quick_commands: Vec<QuickCommand>,
    /// Working directory or mount path guessed for the application.
    pub predicted_app_path: Option<String>,
}

/// The text of an optional string.
pub open spec fn opt_text(o: Option<String>) -> Option<Seq<char>> {
    match o {
        Some(s) => Some(s@),
        None => None,
    }
}

/// The texts of a list of strings.
pub open spec fn texts(v: Seq<String>) -> Seq<Seq<char>> {
    v.map_values(|s: String| s@)
}

/// Abstract value of a [`QuickCommand`].
pub struct QuickCommandView {
    pub name: Seq<char>,
    pub cmd: Seq<char>,
    pub description: Option<Seq<char>>,
    pub in_container: Option<bool>,
}

impl View for QuickCommand {
    type V = QuickCommandView;

    open spec fn view(&self) -> QuickCommandView {
        QuickCommandView {
            name: self.name@,
            cmd: self.cmd@,
            description: opt_text(self.description),
            in_container: self.in_container,
        }
    }
}

/// The abstract values of a list of quick commands.
pub open spec fn quick_views(v: Seq<QuickCommand>) -> Seq<QuickCommandView> {
    v.map_values(|q: QuickCommand| q@)
}

/// Abstract value of a [`Service`]: every field by its text.
pub struct ServiceView {
    pub id: Seq<char>,
    pub name: Seq<char>,
    pub host: Seq<char>,
    pub port: Option<u16>,
    pub ssh_user: Option<Seq<char>>,
    pub start_cmd: Option<Seq<char>>,
    pub stop_cmd: Option<Seq<char>>,
    pub restart_cmd: Option<Seq<char>>,
    pub log_path: Option<Seq<char>>,
    pub log_cmd: Option<Seq<char>>,
    pub health_cmd: Option<Seq<char>>,
    pub health_path: Option<Seq<char>>,
    pub dependencies: Seq<Seq<char>>,
    pub status: Seq<char>,
    pub tags: Seq<Seq<char>>,
    pub stacks: Seq<Seq<char>>,
    pub container_name: Option<Seq<char>>,
    pub container_id: Option<Seq<char>>,
    pub image: Option<Seq<char>>,
    pub discovered: bool,
    pub quick_commands: Seq<QuickCommandView>,
    pub predicted_app_path: Option<Seq<char>>,
}

impl View for Service {
    type V = ServiceView;

    open spec fn view(&self) -> ServiceView {
        ServiceView {
            id: self.id@,
            name: self.name@,
            host: self.host@,
            port: self.port,
            ssh_user: opt_text(self.ssh_user),
            start_cmd: opt_text(self.start_cmd),
            stop_cmd: opt_text(self.stop_cmd),
            restart_cmd: opt_text(self.restart_cmd),
            log_path: opt_text(self.log_path),
            log_cmd: opt_text(self.log_cmd),
            health_cmd: opt_text(self.health_cmd),
            health_path: opt_text(self.health_path),
            dependencies: texts(self.dependencies@),
            status: self.status@,
            tags: texts(self.tags@),
            stacks: texts(self.stacks@),
            container_name: opt_text(self.container_name),
            container_id: opt_text(self.container_id),
            image: opt_text(self.image),
            discovered: self.discovered,
            quick_commands: quick_views(self.quick_commands@),
            predicted_app_path: opt_text(self.predicted_app_path),
        }
    }
}

/// The abstract values of a list of services.
pub open spec fn service_views(v: Seq<Service>) -> Seq<ServiceView> {
    v.map_values(|s: Service| s@)
}

/// Status a service has before anything is known of it.
pub fn default_status() -> (r: String)
    ensures
        r@ == "unknown"@,
{
    "unknown".to_string()
}

/// A copy of an optional string.
pub fn copy_opt_string(o: &Option<String>) -> (r: Option<String>)
    ensures
        r == *o,
{
    match o {
        Some(s) => Some(s.clone()),
        None => None,
    }
}

/// A copy of a list of strings.
pub fn copy_strings(v: &Vec<String>) -> (r: Vec<String>)
    ensures
        r@ == v@,
{
    let mut r: Vec<String> = Vec::new();
    let mut i: usize = 0;
    while i < v.len()
        invariant
            i <= v.len(),
            r@ == v@.take(i as int),
        decreases v.len() - i,
    {
        r.push(v[i].clone());
        i += 1;
        assert(v@.take(i as int) =~= v@.take(i - 1).push(v@[i - 1]));
    }
    assert(v@.take(v.len() as int) =~= v@);
    r
}

impl QuickCommand {
    /// A field-by-field copy.
    pub fn copy(&self) -> (r: QuickCommand)
        ensures
            r == *self,
    {
        QuickCommand {
            name: self.name.clone(),
            cmd: self.cmd.clone(),
            description: copy_opt_string(&self.description),
            in_container: self.in_container,
        }
    }
}

/// A copy of a list of quick commands.
pub fn copy_quick_commands(v: &Vec<QuickCommand>) -> (r: Vec<QuickCommand>)
    ensures
        quick_views(r@) == quick_views(v@),
{
    let mut r: Vec<QuickCommand> = Vec::new();
    let mut i: usize = 0;
    while i < v.len()
        invariant
            i <= v.len(),
            quick_views(r@) == quick_views(v@.take(i as int)),
        decreases v.len() - i,
    {
        let ghost prev = r@;
        r.push(v[i].copy());
        assert(quick_views(r@) =~= quick_views(prev).push(v@[i as int]@));
        i += 1;
        assert(quick_views(v@.take(i as int)) =~= quick_views(v@.take(i - 1)).push(v@[i - 1]@));
    }
    assert(v@.take(v.len() as int) =~= v@);
    r
}

impl Service {
    /// A field-by-field copy.
    pub fn copy(&self) -> (r: Service)
        ensures
            r@ == self@,
    {
        Service {
            id: self.id.clone(),
            name: self.name.clone(),
            host: self.host.clone(),
            port: self.port,
            ssh_user: copy_opt_string(&self.ssh_user),
            start_cmd: copy_opt_string(&self.start_cmd),
            stop_cmd: copy_opt_string(&self.stop_cmd),
            restart_cmd: copy_opt_string(&self.restart_cmd),
            log_path: copy_opt_string(&self.log_path),
            log_cmd: copy_opt_string(&self.log_cmd),
            health_cmd: copy_opt_string(&self.health_cmd),
            health_path: copy_opt_string(&self.health_path),
            dependencies: copy_strings(&self.dependencies),
            status: self.status.clone(),
            tags: copy_strings(&self.tags),
            stacks: copy_strings(&self.stacks),
            container_name: copy_opt_string(&self.container_name),
            container_id: copy_opt_string(&self.container_id),
            image: copy_opt_string(&self.image),
            discovered: self.discovered,
            quick_commands: copy_quick_commands(&self.quick_commands),
            predicted_app_path: copy_opt_string(&self.predicted_app_path),
        }
    }
}

} // verus!
