//! App lifecycle: deploy plus the manual lifecycle and observability commands.
//!
//! Two deploy kinds:
//! - **Dockerfile**: one container Charm builds and runs as `charm_<app>`.
//! - **Compose**: the user's stack, brought up as project `charm_<app>`; the
//!   public service is attached to the `charm` network with a static IP.
//!
//! One `[routes]` entry per app. This module decides what each command does
//! (which Docker invocations, which route, which files); running them is left
//! to the caller, which reports back what it observed.
use vstd::prelude::*;
use crate::caddy;
use crate::domains::{self, DomainError, under_registered};
use crate::text::lower;
use crate::paths;
use crate::text::{
    append_chars, append_str, chars_of, decimal, decimal_string, eq_chars, eq_str, find,
    find_chars, lines, lines_chars, parse_u16, parse_u16_chars, starts_with, starts_with_chars,
    string_of, string_views, trim, trim_chars, trim_start, trim_start_chars, trim_str, views,
    contains_elem, push_decimal, signed_decimal, signed_decimal_string,
};
use crate::util::{cmd, own, Cmd, FileRead};

verus! {

// ---------------------------------------------------------------------------
// Data

/// How an app runs: recorded with its state so that the lifecycle commands
/// know how to stop, start and remove it.
pub enum Runtime {
    Dockerfile { image: String },
    Compose { compose_file: String, service: String },
}

/// Per-app desired state: the source of truth Charm reconciles into Caddy.
pub struct AppState {
    pub host: String,
    pub port: u16,
    pub ip: String,
    pub runtime: Runtime,
}

/// Deploy-time plan, derived from the pushed repo's `Charm.toml`.
pub enum Plan {
    Dockerfile { host: String, port: u16 },
    Compose { host: String, compose_file: String, service: String, port: u16 },
}

/// One row of the app list.
pub struct AppSummary {
    pub name: String,
    /// `docker` or `compose`.
    pub kind: &'static str,
    pub host: String,
    pub ip: String,
    pub port: u16,
}

/// Full detail for one app: desired config and live container/route state.
pub struct AppStatus {
    pub name: String,
    pub kind: &'static str,
    pub host: String,
    pub ip: String,
    pub port: u16,
    pub image: Option<String>,
    /// `running`, `exited`, ..., or `missing`.
    pub container_state: String,
    pub routed: bool,
}

/// The one-word health verdict; each frontend colors it.
#[derive(Debug, Clone, Copy, PartialEq, Eq, Structural)]
pub enum Health {
    Healthy,
    NotRouted,
    Stopped,
    Missing,
}

pub open spec fn spec_health(container_state: Seq<char>, routed: bool) -> Health {
    if container_state == "missing"@ {
        Health::Missing
    } else if container_state != "running"@ {
        Health::Stopped
    } else if !routed {
        Health::NotRouted
    } else {
        Health::Healthy
    }
}

/// The health verdict, spelled out: healthy only when the container runs
/// and the route is published; a running container without its route is not
/// routed; a missing one is missing; every other state (exited, restarting,
/// paused, created, ...) counts as stopped.
pub proof fn law_health_verdict(state: Seq<char>, routed: bool)
    ensures
        spec_health(state, routed) == Health::Healthy <==> (state == "running"@ && routed),
        state == "running"@ && !routed ==> spec_health(state, routed) == Health::NotRouted,
        state == "missing"@ ==> spec_health(state, routed) == Health::Missing,
        state != "running"@ && state != "missing"@ ==> spec_health(state, routed) == Health::Stopped,
{
    reveal_strlit("running");
    reveal_strlit("missing");
    assert("running"@[0] != "missing"@[0]);
}

impl AppStatus {
    pub fn health(&self) -> (r: Health)
        ensures
            r == spec_health(self.container_state@, self.routed),
    {
        if eq_str(self.container_state.as_str(), "missing") {
            Health::Missing
        } else if !eq_str(self.container_state.as_str(), "running") {
            Health::Stopped
        } else if !self.routed {
            Health::NotRouted
        } else {
            Health::Healthy
        }
    }
}

pub open spec fn spec_kind(rt: Runtime) -> Seq<char> {
    match rt {
        Runtime::Dockerfile { .. } => "docker"@,
        Runtime::Compose { .. } => "compose"@,
    }
}

pub fn kind_str(rt: &Runtime) -> (r: &'static str)
    ensures
        r@ == spec_kind(*rt),
{
    match rt {
        Runtime::Dockerfile { .. } => "docker",
        Runtime::Compose { .. } => "compose",
    }
}

/// Every name Charm gives an app's container, Compose project, image and
/// route: `charm_<app>`.
pub open spec fn charm_name(app: Seq<char>) -> Seq<char> {
    "charm_"@ + app
}

/// The container of a Dockerfile app.
pub fn container(app: &str) -> (r: String)
    ensures
        r@ == charm_name(app@),
{
    let mut s = own("charm_");
    s.append(app);
    s
}

/// The Compose project of a Compose app.
pub fn project(app: &str) -> (r: String)
    ensures
        r@ == charm_name(app@),
{
    container(app)
}

// ---------------------------------------------------------------------------
// Docker invocations

/// `docker run` of a Dockerfile app's image on the charm network at `ip`.
pub fn run_dockerfile(app: &str, ip: &str, image: &str) -> (c: Cmd)
    ensures
        c@ == ("docker"@, seq![
            "run"@, "-d"@, "--name"@, charm_name(app@), "--network"@, paths::NETWORK@, "--ip"@,
            ip@, "--restart"@, "unless-stopped"@, image@,
        ]),
{
    let args = vec![
        own("run"),
        own("-d"),
        own("--name"),
        container(app),
        own("--network"),
        own(paths::NETWORK),
        own("--ip"),
        own(ip),
        own("--restart"),
        own("unless-stopped"),
        own(image),
    ];
    let ghost want = seq![
        "run"@, "-d"@, "--name"@, charm_name(app@), "--network"@, paths::NETWORK@, "--ip"@, ip@,
        "--restart"@, "unless-stopped"@, image@,
    ];
    assert(string_views(args@) =~= want);
    cmd("docker", args)
}

/// `docker compose -p charm_<app> -f <file> <verb>`.
pub fn compose(app: &str, compose_file: &str, verb: &str) -> (c: Cmd)
    ensures
        c@ == ("docker"@, seq!["compose"@, "-p"@, charm_name(app@), "-f"@, compose_file@, verb@]),
{
    let args = vec![own("compose"), own("-p"), project(app), own("-f"), own(compose_file), own(verb)];
    assert(string_views(args@) =~= seq![
        "compose"@,
        "-p"@,
        charm_name(app@),
        "-f"@,
        compose_file@,
        verb@,
    ]);
    cmd("docker", args)
}

/// `docker <verb> charm_<app>`.
pub fn docker_on_container(verb: &str, app: &str) -> (c: Cmd)
    ensures
        c@ == ("docker"@, seq![verb@, charm_name(app@)]),
{
    let args = vec![own(verb), container(app)];
    assert(string_views(args@) =~= seq![verb@, charm_name(app@)]);
    cmd("docker", args)
}

/// What happens to an app's route around a lifecycle step.
pub enum RouteChange {
    /// Delete the route, best effort, at this admin URL, before the step.
    Remove(String),
    /// Publish this route once the step has succeeded (and not otherwise).
    PublishAfter(caddy::Route),
}

/// A lifecycle step: a command to run, whether its standard output is
/// suppressed, and what happens to the app's route around it.
pub struct Step {
    pub cmd: Cmd,
    pub quiet: bool,
    pub route: RouteChange,
}

/// The route change that takes an app's route down: delete it by id.
pub open spec fn removes_route(app: Seq<char>, c: RouteChange) -> bool {
    c matches RouteChange::Remove(u) && u@ == caddy::ADMIN@ + "/id/"@ + caddy::spec_route_id(app)
}

/// The route change that publishes a deployed app's route after the step.
pub open spec fn publishes_route(app: Seq<char>, st: AppState, c: RouteChange) -> bool {
    c matches RouteChange::PublishAfter(r) && caddy::route_view(r) == (
        caddy::spec_route_id(app),
        st.host@,
        st.ip@ + ":"@ + decimal(st.port as nat),
    )
}

/// What runs before a step: the URL of the route to delete (best effort),
/// if the step takes the route down.
pub fn before_step(s: &Step) -> (u: Option<String>)
    ensures
        match s.route {
            RouteChange::Remove(x) => u matches Some(y) && y@ == x@,
            RouteChange::PublishAfter(_) => u is None,
        },
{
    match &s.route {
        RouteChange::Remove(x) => Some(own(x.as_str())),
        RouteChange::PublishAfter(_) => None,
    }
}

/// What follows a step, given whether it succeeded: the route to publish,
/// exactly when the step succeeded and publishes one.
pub fn after_step(ok: bool, s: &Step) -> (p: Option<caddy::Route>)
    ensures
        match s.route {
            RouteChange::PublishAfter(r) => if ok {
                p matches Some(q) && caddy::route_view(q) == caddy::route_view(r)
            } else {
                p is None
            },
            RouteChange::Remove(_) => p is None,
        },
{
    match &s.route {
        RouteChange::PublishAfter(r) => if ok {
            Some(caddy::copy_route(r))
        } else {
            None
        },
        RouteChange::Remove(_) => None,
    }
}

/// Stopping an app: its route is deleted first (best effort), then this
/// command stops its container(s), output suppressed; the image and the
/// repository are kept.
pub fn stop(app: &str, st: &AppState) -> (s: Step)
    ensures
        s.quiet,
        removes_route(app@, s.route),
        s.cmd@ == match st.runtime {
            Runtime::Dockerfile { .. } => ("docker"@, seq!["stop"@, charm_name(app@)]),
            Runtime::Compose { compose_file, .. } => ("docker"@, seq![
                "compose"@, "-p"@, charm_name(app@), "-f"@, compose_file@, "stop"@,
            ]),
        },
{
    match &st.runtime {
        Runtime::Dockerfile { .. } => Step {
            cmd: docker_on_container("stop", app),
            quiet: true,
            route: RouteChange::Remove(caddy::id_url(app)),
        },
        Runtime::Compose { compose_file, .. } => Step {
            cmd: compose(app, compose_file.as_str(), "stop"),
            quiet: true,
            route: RouteChange::Remove(caddy::id_url(app)),
        },
    }
}

/// The command that brings an app up again with `verb` (`start` or
/// `restart`): a Dockerfile app whose container is gone is run afresh from
/// its image; once it succeeds the app's route is published.
fn bring_up(app: &str, st: &AppState, container_exists: bool, verb: &str) -> (s: Step)
    ensures
        publishes_route(app@, *st, s.route),
        match st.runtime {
            Runtime::Dockerfile { image } => if container_exists {
                s.quiet && s.cmd@ == ("docker"@, seq![verb@, charm_name(app@)])
            } else {
                !s.quiet && s.cmd@ == ("docker"@, seq![
                    "run"@, "-d"@, "--name"@, charm_name(app@), "--network"@, paths::NETWORK@,
                    "--ip"@, st.ip@, "--restart"@, "unless-stopped"@, image@,
                ])
            },
            Runtime::Compose { compose_file, .. } => s.quiet && s.cmd@ == ("docker"@, seq![
                "compose"@, "-p"@, charm_name(app@), "-f"@, compose_file@, verb@,
            ]),
        },
{
    let route = RouteChange::PublishAfter(
        caddy::route(app, st.host.as_str(), st.ip.as_str(), st.port),
    );
    match &st.runtime {
        Runtime::Dockerfile { image } => {
            if container_exists {
                Step { cmd: docker_on_container(verb, app), quiet: true, route }
            } else {
                Step { cmd: run_dockerfile(app, st.ip.as_str(), image.as_str()), quiet: false, route }
            }
        },
        Runtime::Compose { compose_file, .. } => Step {
            cmd: compose(app, compose_file.as_str(), verb),
            quiet: true,
            route,
        },
    }
}

/// Starting an app (no rebuild): this command, and once it succeeds the
/// app's route is published.
pub fn start(app: &str, st: &AppState, container_exists: bool) -> (s: Step)
    ensures
        publishes_route(app@, *st, s.route),
        match st.runtime {
            Runtime::Dockerfile { image } => if container_exists {
                s.quiet && s.cmd@ == ("docker"@, seq!["start"@, charm_name(app@)])
            } else {
                !s.quiet && s.cmd@ == ("docker"@, seq![
                    "run"@, "-d"@, "--name"@, charm_name(app@), "--network"@, paths::NETWORK@,
                    "--ip"@, st.ip@, "--restart"@, "unless-stopped"@, image@,
                ])
            },
            Runtime::Compose { compose_file, .. } => s.quiet && s.cmd@ == ("docker"@, seq![
                "compose"@, "-p"@, charm_name(app@), "-f"@, compose_file@, "start"@,
            ]),
        },
{
    bring_up(app, st, container_exists, "start")
}

/// Restarting an app (no rebuild): this command, and once it succeeds the
/// app's route is published.
pub fn restart(app: &str, st: &AppState, container_exists: bool) -> (s: Step)
    ensures
        publishes_route(app@, *st, s.route),
        match st.runtime {
            Runtime::Dockerfile { image } => if container_exists {
                s.quiet && s.cmd@ == ("docker"@, seq!["restart"@, charm_name(app@)])
            } else {
                !s.quiet && s.cmd@ == ("docker"@, seq![
                    "run"@, "-d"@, "--name"@, charm_name(app@), "--network"@, paths::NETWORK@,
                    "--ip"@, st.ip@, "--restart"@, "unless-stopped"@, image@,
                ])
            },
            Runtime::Compose { compose_file, .. } => s.quiet && s.cmd@ == ("docker"@, seq![
                "compose"@, "-p"@, charm_name(app@), "-f"@, compose_file@, "restart"@,
            ]),
        },
{
    bring_up(app, st, container_exists, "restart")
}

/// Another deployed app than `app` serves `host`.
pub open spec fn serves_host(app: Seq<char>, host: Seq<char>, e: (String, AppState)) -> bool {
    e.0@ != app && e.1.host@ == host
}

/// The position of the first app in `apps` other than `app` that serves
/// `host`, if any.
pub open spec fn host_holder(app: Seq<char>, host: Seq<char>, apps: Seq<(String, AppState)>) -> Option<
    int,
> {
    if exists|j: int| 0 <= j < apps.len() && serves_host(app, host, #[trigger] apps[j]) {
        Some(
            choose|j: int|
                0 <= j < apps.len() && serves_host(app, host, #[trigger] apps[j]) && forall|k: int|
                    0 <= k < j ==> !serves_host(app, host, apps[k]),
        )
    } else {
        None
    }
}

/// Publishing a deployed app, with the conflict check: the route Charm puts
/// in Caddy for it, unless another deployed app (in `apps`, the states of
/// all deployed apps) already serves the same host; then the first such app
/// is named in the error.
pub fn publish(app: &str, st: &AppState, apps: &Vec<(String, AppState)>) -> (r: Result<
    caddy::Route,
    AppError,
>)
    ensures
        match host_holder(app@, st.host@, apps@) {
            Some(j) => r matches Err(AppError::HostTaken { other, host }) && other@ == apps@[j].0@
                && host@ == st.host@,
            None => r matches Ok(route) && route.id@ == caddy::spec_route_id(app@) && route.host@
                == st.host@ && route.dial@ == st.ip@ + ":"@ + decimal(st.port as nat),
        },
{
    let mut i: usize = 0;
    while i < apps.len()
        invariant
            i <= apps.len(),
            forall|k: int| 0 <= k < i ==> !serves_host(app@, st.host@, #[trigger] apps@[k]),
        decreases apps.len() - i,
    {
        if !eq_str(apps[i].0.as_str(), app) && eq_str(apps[i].1.host.as_str(), st.host.as_str()) {
            let ghost s = apps@;
            proof {
                assert(serves_host(app@, st.host@, s[i as int]));
                let w = choose|j: int|
                    0 <= j < s.len() && serves_host(app@, st.host@, #[trigger] s[j]) && forall|k: int|
                        0 <= k < j ==> !serves_host(app@, st.host@, s[k]);
                assert(0 <= i < s.len() && serves_host(app@, st.host@, s[i as int]) && forall|k: int|
                    0 <= k < i ==> !serves_host(app@, st.host@, s[k]));
                if w < i {
                    assert(!serves_host(app@, st.host@, s[w]));
                }
                if w > i {
                    assert(!serves_host(app@, st.host@, s[i as int]));
                }
            }
            return Err(AppError::HostTaken { other: own(apps[i].0.as_str()), host: own(st.host.as_str()) });
        }
        i = i + 1;
    }
    Ok(caddy::route(app, st.host.as_str(), st.ip.as_str(), st.port))
}

/// Unpublishing a deployed app (its state loaded, so it exists) deletes its
/// route by id: the admin URL the DELETE goes to. The container is left
/// running.
pub fn unpublish(app: &str, st: &AppState) -> (url: String)
    ensures
        url@ == caddy::ADMIN@ + "/id/"@ + caddy::spec_route_id(app@),
{
    let _ = st;
    caddy::id_url(app)
}

/// The `docker ...` invocation that streams an app's logs.
pub fn logs_command(app: &str, st: &AppState) -> (r: (String, Vec<String>))
    ensures
        r.0@ == "docker"@,
        string_views(r.1@) == match st.runtime {
            Runtime::Dockerfile { .. } => seq![
                "logs"@, "-f"@, "--tail"@, "100"@, charm_name(app@),
            ],
            Runtime::Compose { compose_file, .. } => seq![
                "compose"@, "-p"@, charm_name(app@), "-f"@, compose_file@, "logs"@, "-f"@,
                "--tail"@, "100"@,
            ],
        },
{
    let args = match &st.runtime {
        Runtime::Dockerfile { .. } => {
            let a = vec![own("logs"), own("-f"), own("--tail"), own("100"), container(app)];
            assert(string_views(a@) =~= seq!["logs"@, "-f"@, "--tail"@, "100"@, charm_name(app@)]);
            a
        },
        Runtime::Compose { compose_file, .. } => {
            let a = vec![
                own("compose"),
                own("-p"),
                project(app),
                own("-f"),
                own(compose_file.as_str()),
                own("logs"),
                own("-f"),
                own("--tail"),
                own("100"),
            ];
            assert(string_views(a@) =~= seq![
                "compose"@, "-p"@, charm_name(app@), "-f"@, compose_file@, "logs"@, "-f"@,
                "--tail"@, "100"@,
            ]);
            a
        },
    };
    (own("docker"), args)
}


// ---------------------------------------------------------------------------
// Errors

pub enum AppError {
    NoRoutesTable,
    EmptyRoutes,
    Domain(DomainError),
    NeedServicePort,
    /// A route value without a `:`; carries the value.
    NoColon(String),
    /// A route value whose port part is not a port; carries the value.
    BadPort(String),
    NeedIntegerPort,
    /// A compose file sets `container_name:`; carries the line number.
    ContainerName(usize),
    /// The compose service has no running container; carries the service.
    NoRunningContainer(String),
    NoFreeIp,
    /// A Dockerfile app's port route is not a port (0 to 65535); carries it.
    PortOutOfRange(i64),
    /// Another deployed app already serves the host.
    HostTaken { other: String, host: String },
}

/// The text of an application error (as `AppError::message` gives it).
pub open spec fn app_error_text(e: AppError) -> Seq<char> {
    match e {
        AppError::NoRoutesTable => "Charm.toml needs a [routes] table"@,
        AppError::EmptyRoutes => "[routes] is empty"@,
        AppError::Domain(d) => domain_message(d),
        AppError::NeedServicePort => "compose apps need a \"service:port\" route value"@,
        AppError::NoColon(v) => "expected \"service:port\", got '"@ + v@ + "'"@,
        AppError::BadPort(v) => "invalid port in '"@ + v@ + "'"@,
        AppError::NeedIntegerPort => "Dockerfile apps need an integer port route (e.g. \"app\" = 8080)"@,
        AppError::ContainerName(n) => "compose: `container_name:` (line "@
            + decimal(n as nat)
            + ") is not allowed - it's a global name that can collide across apps. Remove it; Charm names containers per app."@,
        AppError::NoRunningContainer(svc) => "compose service '"@ + svc@
            + "' has no running container"@,
        AppError::NoFreeIp => "no free IPs left in 172.20.0.0/24"@,
        AppError::PortOutOfRange(n) => "port "@ + signed_decimal(n as int)
            + " is out of range (a port is 0 to 65535)"@,
        AppError::HostTaken { other, host } => "host '"@ + host@
            + "' is already served by '"@ + other@ + "'"@,
    }
}

impl AppError {
    pub fn message(&self) -> (r: String)
        ensures
            r@ == app_error_text(*self),
    {
        match self {
            AppError::NoRoutesTable => own("Charm.toml needs a [routes] table"),
            AppError::EmptyRoutes => own("[routes] is empty"),
            AppError::Domain(e) => e.message(),
            AppError::NeedServicePort => own("compose apps need a \"service:port\" route value"),
            AppError::NoColon(v) => {
                let mut s = own("expected \"service:port\", got '");
                s.append(v.as_str());
                s.append("'");
                s
            },
            AppError::BadPort(v) => {
                let mut s = own("invalid port in '");
                s.append(v.as_str());
                s.append("'");
                s
            },
            AppError::NeedIntegerPort => own(
                "Dockerfile apps need an integer port route (e.g. \"app\" = 8080)",
            ),
            AppError::ContainerName(n) => {
                let mut s = own("compose: `container_name:` (line ");
                let d = decimal_string(*n as u64);
                s.append(d.as_str());
                s.append(
                    ") is not allowed - it's a global name that can collide across apps. Remove it; Charm names containers per app.",
                );
                s
            },
            AppError::NoRunningContainer(svc) => {
                let mut s = own("compose service '");
                s.append(svc.as_str());
                s.append("' has no running container");
                s
            },
            AppError::NoFreeIp => own("no free IPs left in 172.20.0.0/24"),
            AppError::PortOutOfRange(n) => {
                let mut s = own("port ");
                let d = signed_decimal_string(*n);
                s.append(d.as_str());
                s.append(" is out of range (a port is 0 to 65535)");
                s
            },
            AppError::HostTaken { other, host } => {
                let mut s = own("host '");
                s.append(host.as_str());
                s.append("' is already served by '");
                s.append(other.as_str());
                s.append("'");
                s
            },
        }
    }
}

/// The text of a domain error (as `DomainError::message` gives it).
pub open spec fn domain_message(e: DomainError) -> Seq<char> {
    match e {
        DomainError::NotRoot => "this command must run as root (try with sudo)"@,
        DomainError::NotADomain(d) => "'"@ + d@ + "' doesn't look like a domain (e.g. example.com)"@,
        DomainError::NotRegistered(d) => "'"@ + d@ + "' is not registered (see `charm domain list`)"@,
        DomainError::NoDomains(h) => "no domains registered - run `charm domain add <domain>` first (for '"@
            + h@ + "')"@,
        DomainError::NotAllowed(h) => "host '"@ + h@
            + "' is not under a registered domain - `charm domain add` it (see `charm domain list`)"@,
        DomainError::CannotRead => "cannot read domains - run as root (sudo) or the charm user"@,
        DomainError::ReadFailed(_) => "reading domains"@,
    }
}

// ---------------------------------------------------------------------------
// Files

/// `<dir>/<name><suffix>`.
fn file_in(dir: String, name: &str, suffix: &str) -> (r: String)
    ensures
        r@ == dir@ + "/"@ + name@ + suffix@,
{
    let mut s = dir;
    s.append("/");
    s.append(name);
    s.append(suffix);
    s
}

/// Where an app's state is recorded.
/// Where an app's state is recorded.
pub open spec fn state_path(app: Seq<char>) -> Seq<char> {
    paths::HOME@ + "/state"@ + "/"@ + app + ".json"@
}

/// Where an app's address is recorded.
pub open spec fn ip_path(app: Seq<char>) -> Seq<char> {
    paths::HOME@ + "/state"@ + "/"@ + app + ".ip"@
}

pub fn state_file(app: &str) -> (r: String)
    ensures
        r@ == state_path(app@),
{
    file_in(paths::state(), app, ".json")
}

/// Where an app's assigned IP is recorded.
pub fn ip_file(app: &str) -> (r: String)
    ensures
        r@ == ip_path(app@),
{
    file_in(paths::state(), app, ".ip")
}

/// Where an app's pushed tree is checked out for building.
pub fn build_dir(app: &str) -> (r: String)
    ensures
        r@ == paths::HOME@ + "/builds"@ + "/"@ + app@,
{
    let mut s = paths::builds();
    s.append("/");
    s.append(app);
    s
}

/// The position of the last `c` in `s`, or -1.
pub open spec fn last_index(s: Seq<char>, c: char) -> int
    decreases s.len(),
{
    if s.len() == 0 {
        -1
    } else if s.last() == c {
        s.len() - 1
    } else {
        last_index(s.drop_last(), c)
    }
}

/// A file name's stem and extension, as `Path::file_stem` and
/// `Path::extension` split it: at the last dot, unless that dot starts the
/// name (or the name is `..`), in which case there is no extension.
pub open spec fn split_extension(name: Seq<char>) -> Option<(Seq<char>, Seq<char>)> {
    let i = last_index(name, '.');
    if name == ".."@ || i <= 0 {
        None
    } else {
        Some((name.take(i), name.skip(i + 1)))
    }
}

proof fn lemma_last_index(s: Seq<char>, c: char)
    ensures
        -1 <= last_index(s, c) < s.len(),
        last_index(s, c) >= 0 ==> s[last_index(s, c)] == c,
        forall|j: int| last_index(s, c) < j < s.len() ==> s[j] != c,
    decreases s.len(),
{
    if s.len() > 0 && s.last() != c {
        lemma_last_index(s.drop_last(), c);
        assert forall|j: int| last_index(s, c) < j < s.len() implies s[j] != c by {
            if j < s.len() - 1 {
                assert(s.drop_last()[j] == s[j]);
            }
        }
    }
}

/// The app a state-directory file belongs to: the stem of a file whose
/// extension is `ext` (`json` for state, `ip` for addresses).
pub fn stem_with_extension(name: &str, ext: &str) -> (r: Option<String>)
    ensures
        match split_extension(name@) {
            Some((stem, e)) => if e == ext@ {
                r matches Some(x) && x@ == stem
            } else {
                r is None
            },
            None => r is None,
        },
{
    let v = chars_of(name);
    if eq_str(name, "..") {
        return None;
    }
    let mut i: usize = v.len();
    while i > 0 && v[i - 1] != '.'
        invariant
            i <= v.len(),
            forall|j: int| i <= j < v.len() ==> v@[j] != '.',
        decreases i,
    {
        i = i - 1;
    }
    proof {
        lemma_last_index(v@, '.');
        let k = last_index(v@, '.');
        if i > 0 {
            assert(v@[i - 1] == '.');
            assert(k == i - 1) by {
                if k < i - 1 {
                    assert(v@[i - 1] != '.');
                }
                if k > i - 1 {
                    assert(v@[k] != '.');
                }
            }
        } else {
            assert(k == -1) by {
                if k >= 0 {
                    assert(v@[k] != '.');
                }
            }
        }
    }
    if i <= 1 {
        return None;
    }
    let dot = i - 1;
    let mut stem: Vec<char> = Vec::new();
    let mut e: Vec<char> = Vec::new();
    let mut k: usize = 0;
    while k < v.len()
        invariant
            dot < v.len(),
            k <= v.len(),
            stem@ == v@.take(if k <= dot { k as int } else { dot as int }),
            e@ == (if k <= dot + 1 { Seq::<char>::empty() } else { v@.subrange(dot + 1, k as int) }),
        decreases v.len() - k,
    {
        if k < dot {
            stem.push(v[k]);
            assert(stem@ =~= v@.take(k + 1));
        } else if k > dot {
            e.push(v[k]);
            assert(e@ =~= v@.subrange(dot + 1, k + 1));
        }
        k = k + 1;
    }
    assert(e@ =~= v@.skip(dot + 1));
    let want = chars_of(ext);
    if eq_chars(&e, &want) {
        Some(string_of(&stem))
    } else {
        None
    }
}

// ---------------------------------------------------------------------------
// Removal

/// What removing an app does, every part attempted whatever became of the
/// others: its route deleted, these commands, then these files and this
/// directory deleted.
pub struct Removal {
    pub route: RouteChange,
    pub commands: Vec<Cmd>,
    pub files: Vec<String>,
    pub dir: String,
}

pub open spec fn cmd_views(v: Seq<Cmd>) -> Seq<(Seq<char>, Seq<Seq<char>>)> {
    v.map_values(|c: Cmd| c@)
}

/// The files removing an app deletes: its state and its address.
pub open spec fn removed_files(app: Seq<char>) -> Seq<Seq<char>> {
    seq![state_path(app), ip_path(app)]
}

/// Removing an app: its route deleted, then its container(s), image(s) and,
/// with `volumes`, its volumes; then its state, address and build tree.
pub fn rm(app: &str, st: &AppState, volumes: bool) -> (r: Removal)
    ensures
        removes_route(app@, r.route),
        cmd_views(r.commands@) == match st.runtime {
            Runtime::Compose { compose_file, .. } => seq![
                ("docker"@, seq!["compose"@, "-p"@, charm_name(app@), "-f"@, compose_file@, "down"@]
                    + if volumes { seq!["--volumes"@] } else { Seq::empty() }),
            ],
            Runtime::Dockerfile { .. } => seq![
                ("docker"@, (if volumes { seq!["rm"@, "-f"@, "-v"@] } else { seq!["rm"@, "-f"@] })
                    + seq![charm_name(app@)]),
                ("sh"@, seq![
                    "-c"@,
                    "docker image ls -q '"@ + charm_name(app@) + ":*' | xargs -r docker image rm -f"@,
                ]),
            ],
        },
        string_views(r.files@) == removed_files(app@),
        r.dir@ == paths::HOME@ + "/builds"@ + "/"@ + app@,
{
    let mut commands: Vec<Cmd> = Vec::new();
    match &st.runtime {
        Runtime::Compose { compose_file, .. } => {
            let mut c = compose(app, compose_file.as_str(), "down");
            if volumes {
                let ghost before = string_views(c.args@);
                c.args.push(own("--volumes"));
                assert(string_views(c.args@) =~= before + seq!["--volumes"@]);
            } else {
                assert(string_views(c.args@) =~= string_views(c.args@) + Seq::<Seq<char>>::empty());
            }
            commands.push(c);
        },
        Runtime::Dockerfile { .. } => {
            let mut args = vec![own("rm"), own("-f")];
            if volumes {
                args.push(own("-v"));
            }
            args.push(container(app));
            assert(string_views(args@) =~= (if volumes {
                seq!["rm"@, "-f"@, "-v"@]
            } else {
                seq!["rm"@, "-f"@]
            }) + seq![charm_name(app@)]);
            commands.push(cmd("docker", args));
            let mut script = own("docker image ls -q '");
            let name = container(app);
            script.append(name.as_str());
            script.append(":*' | xargs -r docker image rm -f");
            let sargs = vec![own("-c"), script];
            assert(string_views(sargs@) =~= seq![
                "-c"@,
                "docker image ls -q '"@ + charm_name(app@) + ":*' | xargs -r docker image rm -f"@,
            ]);
            commands.push(cmd("sh", sargs));
        },
    }
    let files = vec![state_file(app), ip_file(app)];
    assert(string_views(files@) =~= seq![
        paths::HOME@ + "/state"@ + "/"@ + app@ + ".json"@,
        paths::HOME@ + "/state"@ + "/"@ + app@ + ".ip"@,
    ]);
    assert(cmd_views(commands@) =~= match st.runtime {
        Runtime::Compose { compose_file, .. } => seq![
            ("docker"@, seq!["compose"@, "-p"@, charm_name(app@), "-f"@, compose_file@, "down"@]
                + if volumes { seq!["--volumes"@] } else { Seq::empty() }),
        ],
        Runtime::Dockerfile { .. } => seq![
            ("docker"@, (if volumes { seq!["rm"@, "-f"@, "-v"@] } else { seq!["rm"@, "-f"@] })
                + seq![charm_name(app@)]),
            ("sh"@, seq![
                "-c"@,
                "docker image ls -q '"@ + charm_name(app@) + ":*' | xargs -r docker image rm -f"@,
            ]),
        ],
    });
    Removal { route: RouteChange::Remove(caddy::id_url(app)), commands, files, dir: build_dir(app) }
}

// ---------------------------------------------------------------------------
// Status

/// One app's full status: its recorded state plus what Docker and Caddy
/// report.
pub fn status(app: &str, st: AppState, container_state: String, routed: bool) -> (r: AppStatus)
    ensures
        r.name@ == app@,
        r.kind@ == spec_kind(st.runtime),
        r.host == st.host,
        r.ip == st.ip,
        r.port == st.port,
        match st.runtime {
            Runtime::Dockerfile { image } => r.image == Some(image),
            Runtime::Compose { .. } => r.image is None,
        },
        r.container_state == container_state,
        r.routed == routed,
{
    let kind = kind_str(&st.runtime);
    let image = match st.runtime {
        Runtime::Dockerfile { image } => Some(image),
        Runtime::Compose { .. } => None,
    };
    AppStatus {
        name: own(app),
        kind,
        host: st.host,
        ip: st.ip,
        port: st.port,
        image,
        container_state,
        routed,
    }
}

/// The container state from `docker inspect -f {{.State.Status}}`: its
/// trimmed output when it succeeded with some output, otherwise `missing`.
pub fn container_state(succeeded: bool, stdout: &str) -> (r: String)
    ensures
        r@ == (if succeeded && trim(stdout@).len() > 0 {
            trim(stdout@)
        } else {
            "missing"@
        }),
{
    if succeeded {
        let t = trim_str(stdout);
        if t.as_str().unicode_len() > 0 {
            return t;
        }
    }
    own("missing")
}

/// The first line of a command's output, trimmed (empty if there is none).
pub open spec fn first_line(out: Seq<char>) -> Seq<char> {
    if lines(out).len() > 0 {
        trim(lines(out)[0])
    } else {
        Seq::empty()
    }
}

pub fn first_line_trimmed(out: &str) -> (r: String)
    ensures
        r@ == first_line(out@),
{
    let v = chars_of(out);
    let ls = lines_chars(&v);
    if ls.len() == 0 {
        return String::new();
    }
    assert(views(ls@)[0] == ls@[0]@);
    let t = trim_chars(&ls[0]);
    string_of(&t)
}

/// The container of a compose service, from `docker compose ps -q`: the first
/// line of its output; an error when there is none.
pub fn compose_container(stdout: &str, service: &str) -> (r: Result<String, AppError>)
    ensures
        first_line(stdout@).len() > 0 ==> (r matches Ok(cid) && cid@ == first_line(stdout@)),
        first_line(stdout@).len() == 0 ==> (r matches Err(AppError::NoRunningContainer(s)) && s@
            == service@),
{
    let cid = first_line_trimmed(stdout);
    if cid.as_str().unicode_len() == 0 {
        return Err(AppError::NoRunningContainer(own(service)));
    }
    Ok(cid)
}

/// The container id a compose status check looks at: the first line of the
/// output of `docker compose ps -a -q` (none if that failed or was empty).
pub fn compose_status_container(stdout: Option<&str>) -> (r: Option<String>)
    ensures
        match stdout {
            Some(out) => if first_line(out@).len() > 0 {
                r matches Some(cid) && cid@ == first_line(out@)
            } else {
                r is None
            },
            None => r is None,
        },
{
    match stdout {
        Some(out) => {
            let cid = first_line_trimmed(out);
            if cid.as_str().unicode_len() == 0 {
                None
            } else {
                Some(cid)
            }
        },
        None => None,
    }
}


// ---------------------------------------------------------------------------
// Planning a deploy

/// A value in `Charm.toml`, as far as planning reads it.
pub enum TomlValue {
    Integer(i64),
    Text(String),
    Other,
}

/// What planning reads of `Charm.toml`: the `[routes]` table (in the order
/// the parsed table lists it; absent when there is no such table) and the
/// `compose` string.
pub struct CharmConfig {
    pub routes: Option<Vec<(String, TomlValue)>>,
    pub compose: Option<String>,
}

/// The compose files looked for in a repo, in order.
pub fn compose_candidates() -> (r: Vec<String>)
    ensures
        string_views(r@) == seq![
            "docker-compose.yml"@,
            "docker-compose.yaml"@,
            "compose.yml"@,
            "compose.yaml"@,
        ],
{
    let r = vec![
        own("docker-compose.yml"),
        own("docker-compose.yaml"),
        own("compose.yml"),
        own("compose.yaml"),
    ];
    assert(string_views(r@) =~= seq![
        "docker-compose.yml"@,
        "docker-compose.yaml"@,
        "compose.yml"@,
        "compose.yaml"@,
    ]);
    r
}

/// The first of the compose candidates that is present in the repo.
pub fn detect_compose(present: [bool; 4]) -> (r: Option<String>)
    ensures
        present[0] ==> (r matches Some(f) && f@ == "docker-compose.yml"@),
        !present[0] && present[1] ==> (r matches Some(f) && f@ == "docker-compose.yaml"@),
        !present[0] && !present[1] && present[2] ==> (r matches Some(f) && f@ == "compose.yml"@),
        !present[0] && !present[1] && !present[2] && present[3] ==> (r matches Some(f) && f@
            == "compose.yaml"@),
        !present[0] && !present[1] && !present[2] && !present[3] ==> r is None,
{
    if present[0] {
        Some(own("docker-compose.yml"))
    } else if present[1] {
        Some(own("docker-compose.yaml"))
    } else if present[2] {
        Some(own("compose.yml"))
    } else if present[3] {
        Some(own("compose.yaml"))
    } else {
        None
    }
}

/// Split a compose route value `service:port` at its first colon.
pub fn parse_service_port(s: &str) -> (r: Result<(String, u16), AppError>)
    ensures
        match find(s@, ":"@) {
            None => r matches Err(AppError::NoColon(v)) && v@ == s@,
            Some(i) => match parse_u16(s@.skip(i + 1)) {
                None => r matches Err(AppError::BadPort(v)) && v@ == s@,
                Some(p) => r matches Ok((svc, port)) && svc@ == s@.take(i) && port == p,
            },
        },
{
    let v = chars_of(s);
    let colon = chars_of(":");
    proof {
        reveal_strlit(":");
    }
    match find_chars(&v, &colon) {
        None => Err(AppError::NoColon(own(s))),
        Some(i) => {
            assert(occurs_at_len(v@, colon@, i as int));
            let mut svc: Vec<char> = Vec::new();
            let mut port: Vec<char> = Vec::new();
            let mut k: usize = 0;
            while k < v.len()
                invariant
                    i < v.len(),
                    k <= v.len(),
                    svc@ == v@.take(if k <= i { k as int } else { i as int }),
                    port@ == (if k <= i + 1 { Seq::<char>::empty() } else { v@.subrange(i + 1, k as int) }),
                decreases v.len() - k,
            {
                if k < i {
                    svc.push(v[k]);
                    assert(svc@ =~= v@.take(k + 1));
                } else if k > i {
                    port.push(v[k]);
                    assert(port@ =~= v@.subrange(i + 1, k + 1));
                }
                k = k + 1;
            }
            assert(port@ =~= v@.skip(i + 1));
            match parse_u16_chars(&port) {
                None => Err(AppError::BadPort(own(s))),
                Some(p) => Ok((string_of(&svc), p)),
            }
        },
    }
}

/// `p` occurs at `i`, so `i + p.len()` is within `s`.
pub open spec fn occurs_at_len(s: Seq<char>, p: Seq<char>, i: int) -> bool {
    0 <= i && i + p.len() <= s.len()
}

/// A compose-file line that sets `container_name:`.
pub open spec fn sets_container_name(line: Seq<char>) -> bool {
    starts_with(trim_start(line), "container_name:"@)
}

/// `container_name:` is a global Docker name, so two apps that set the same
/// one would collide: refuse a compose file that sets it, naming the first
/// line that does.
pub fn reject_container_name(text: &str) -> (r: Result<(), AppError>)
    ensures
        r is Ok <==> forall|i: int| 0 <= i < lines(text@).len() ==> !sets_container_name(
            #[trigger] lines(text@)[i],
        ),
        r is Err ==> (r matches Err(AppError::ContainerName(n)) && 1 <= n <= lines(text@).len()
            && sets_container_name(lines(text@)[n - 1]) && forall|j: int|
            0 <= j < n - 1 ==> !sets_container_name(#[trigger] lines(text@)[j])),
{
    let v = chars_of(text);
    let ls = lines_chars(&v);
    let key = chars_of("container_name:");
    let mut i: usize = 0;
    while i < ls.len()
        invariant
            i <= ls.len(),
            views(ls@) == lines(text@),
            key@ == "container_name:"@,
            forall|j: int| 0 <= j < i ==> !sets_container_name(#[trigger] lines(text@)[j]),
        decreases ls.len() - i,
    {
        assert(views(ls@)[i as int] == ls@[i as int]@);
        let t = trim_start_chars(&ls[i]);
        if starts_with_chars(&t, &key) {
            return Err(AppError::ContainerName(i + 1));
        }
        i = i + 1;
    }
    Ok(())
}

/// The outcome of planning from a route `host = value`, once the host is
/// allowed, with compose file `rel` (if any).
pub open spec fn planned(
    build_dir: Seq<char>,
    host: Seq<char>,
    value: TomlValue,
    rel: Option<String>,
    r: Result<Plan, AppError>,
) -> bool {
    match rel {
        Some(rel) => match value {
            TomlValue::Text(v) => match find(v@, ":"@) {
                None => r matches Err(AppError::NoColon(x)) && x@ == v@,
                Some(i) => match parse_u16(v@.skip(i + 1)) {
                    None => r matches Err(AppError::BadPort(x)) && x@ == v@,
                    Some(p) => r matches Ok(Plan::Compose { host: h, compose_file, service, port })
                        && h@ == host && compose_file@ == build_dir + "/"@ + rel@ && service@
                        == v@.take(i) && port == p,
                },
            },
            _ => r matches Err(AppError::NeedServicePort),
        },
        None => match value {
            TomlValue::Integer(n) => if 0 <= n <= 65535 {
                r matches Ok(Plan::Dockerfile { host: h, port }) && h@ == host && port == n
            } else {
                r matches Err(AppError::PortOutOfRange(m)) && m == n
            },
            _ => r matches Err(AppError::NeedIntegerPort),
        },
    }
}

/// Derive the deploy plan from `Charm.toml`, the registered domains, and the
/// compose file found in the repo (used when `Charm.toml` names none). The
/// first route's host must be under a registered domain; a compose app's
/// route value is `service:port`, a Dockerfile app's the integer port its
/// container listens on (0 to 65535).
pub fn load_plan(
    build_dir: &str,
    config: &CharmConfig,
    domains: &Vec<String>,
    detected: Option<String>,
) -> (r: Result<Plan, AppError>)
    ensures
        match config.routes {
            None => r matches Err(AppError::NoRoutesTable),
            Some(rs) => if rs@.len() == 0 {
                r matches Err(AppError::EmptyRoutes)
            } else if domains@.len() == 0 {
                r matches Err(AppError::Domain(DomainError::NoDomains(h))) && h@ == lower(rs@[0].0@)
            } else if !under_registered(rs@[0].0@, string_views(domains@)) {
                r matches Err(AppError::Domain(DomainError::NotAllowed(h))) && h@ == lower(
                    rs@[0].0@,
                )
            } else {
                planned(
                    build_dir@,
                    rs@[0].0@,
                    rs@[0].1,
                    if config.compose is Some {
                        config.compose
                    } else {
                        detected
                    },
                    r,
                )
            },
        },
{
    let routes = match &config.routes {
        None => return Err(AppError::NoRoutesTable),
        Some(rs) => rs,
    };
    if routes.len() == 0 {
        return Err(AppError::EmptyRoutes);
    }
    let host = &routes[0].0;
    let value = &routes[0].1;
    match domains::ensure_allowed(host.as_str(), domains) {
        Ok(()) => {},
        Err(e) => return Err(AppError::Domain(e)),
    }
    let compose_file = match &config.compose {
        Some(c) => Some(own(c.as_str())),
        None => detected,
    };
    match compose_file {
        Some(rel) => {
            let v = match value {
                TomlValue::Text(v) => v,
                _ => return Err(AppError::NeedServicePort),
            };
            let (service, port) = match parse_service_port(v.as_str()) {
                Ok(sp) => sp,
                Err(AppError::NoColon(_)) => return Err(AppError::NoColon(own(v.as_str()))),
                Err(AppError::BadPort(_)) => return Err(AppError::BadPort(own(v.as_str()))),
                Err(e) => return Err(e),
            };
            let mut file = own(build_dir);
            file.append("/");
            file.append(rel.as_str());
            Ok(Plan::Compose { host: own(host.as_str()), compose_file: file, service, port })
        },
        None => match value {
            TomlValue::Integer(n) => if 0 <= *n && *n <= 65535 {
                Ok(Plan::Dockerfile { host: own(host.as_str()), port: *n as u16 })
            } else {
                Err(AppError::PortOutOfRange(*n))
            },
            _ => Err(AppError::NeedIntegerPort),
        },
    }
}

// ---------------------------------------------------------------------------
// Addresses

/// The address Charm gives the `n`th app slot on its subnet.
pub open spec fn ip_for(n: nat) -> Seq<char> {
    "172.20.0."@ + decimal(n)
}

/// Slot `n` is taken by one of the recorded (trimmed) addresses.
pub open spec fn taken(used: Seq<Seq<char>>, n: nat) -> bool {
    used.map_values(|u: Seq<char>| trim(u)).contains(ip_for(n))
}

/// An address Charm assigns reads back from its file as itself (non-empty,
/// nothing to trim), so the next deploy of the app is given the same one.
pub proof fn law_assigned_ip_is_reused(n: nat)
    requires
        2 <= n <= 254,
    ensures
        trim(ip_for(n)).len() > 0,
        trim(ip_for(n)) == ip_for(n),
{
    reveal_strlit("172.20.0.");
    crate::text::lemma_decimal_digits(n);
    let d = decimal(n);
    let s = ip_for(n);
    assert(s[0] == '1');
    assert(s.last() == d[d.len() - 1]);
    assert(crate::text::is_digit(d[d.len() - 1]));
    crate::text::lemma_trim_id(s);
}

/// A stable address on the charm subnet, reused across deploys: the one
/// recorded for the app if its file holds one, else the first of
/// `172.20.0.2` ... `172.20.0.254` that no recorded address takes. The flag
/// says the address is new and must be recorded.
pub fn assign_ip(existing: Option<&str>, used: &Vec<String>) -> (r: Result<(String, bool), AppError>)
    ensures
        existing matches Some(c) && trim(c@).len() > 0 ==> (r matches Ok((ip, fresh)) && !fresh
            && ip@ == trim(existing->0@)),
        !(existing matches Some(c) && trim(c@).len() > 0) ==> ({
            let u = string_views(used@);
            if exists|n: nat| 2 <= n <= 254 && !taken(u, n) {
                r matches Ok((ip, fresh)) && fresh && exists|n: nat|
                    2 <= n <= 254 && !taken(u, n) && ip@ == ip_for(n) && forall|m: nat|
                        2 <= m < n ==> taken(u, m)
            } else {
                r matches Err(AppError::NoFreeIp)
            }
        }),
{
    if let Some(c) = existing {
        let t = trim_str(c);
        if t.as_str().unicode_len() > 0 {
            return Ok((t, false));
        }
    }
    let ghost u = string_views(used@);
    let mut trimmed: Vec<String> = Vec::new();
    let mut i: usize = 0;
    while i < used.len()
        invariant
            i <= used.len(),
            u == string_views(used@),
            string_views(trimmed@) == u.take(i as int).map_values(|x: Seq<char>| trim(x)),
        decreases used.len() - i,
    {
        let ghost before = string_views(trimmed@);
        let t = trim_str(used[i].as_str());
        trimmed.push(t);
        assert(string_views(trimmed@) =~= before.push(trim(u[i as int])));
        assert(u.take(i + 1).map_values(|x: Seq<char>| trim(x)) =~= u.take(i as int).map_values(
            |x: Seq<char>| trim(x),
        ).push(trim(u[i as int])));
        i = i + 1;
    }
    assert(u.take(i as int) =~= u);
    let mut n: u64 = 2;
    while n <= 254
        invariant
            2 <= n <= 255,
            u == string_views(used@),
            !(existing matches Some(c) && trim(c@).len() > 0),
            string_views(trimmed@) == u.map_values(|x: Seq<char>| trim(x)),
            forall|m: nat| 2 <= m < n ==> taken(u, m),
        decreases 255 - n,
    {
        let mut ip: Vec<char> = chars_of("172.20.0.");
        push_decimal(&mut ip, n);
        if !contains_elem(&trimmed, &ip) {
            assert(ip@ == ip_for(n as nat));
            assert(!taken(u, n as nat));
            return Ok((string_of(&ip), true));
        }
        n = n + 1;
    }
    assert forall|m: nat| 2 <= m <= 254 implies taken(u, m) by {}
    Err(AppError::NoFreeIp)
}


// ---------------------------------------------------------------------------
// Listing

/// `a` sorts strictly before `b`: `str`'s order, which compares UTF-8 bytes
/// and so orders as the characters' code points do.
pub open spec fn name_less(a: Seq<char>, b: Seq<char>) -> bool
    decreases a.len(),
{
    if a.len() == 0 {
        b.len() > 0
    } else if b.len() == 0 {
        false
    } else if a[0] != b[0] {
        a[0] < b[0]
    } else {
        name_less(a.drop_first(), b.drop_first())
    }
}

/// App names are ordered as `str` orders them: by the first position where
/// they differ, and a name before every longer name it begins.
pub proof fn law_name_order(a: Seq<char>, b: Seq<char>, k: int)
    requires
        0 <= k <= a.len(),
        k <= b.len(),
        a.take(k) == b.take(k),
    ensures
        k < a.len() && k < b.len() && a[k] != b[k] ==> (name_less(a, b) <==> a[k] < b[k]),
        k == a.len() ==> (name_less(a, b) <==> k < b.len()),
        k == b.len() && k < a.len() ==> !name_less(a, b),
    decreases k,
{
    if k > 0 {
        assert(a[0] == a.take(k)[0]);
        assert(b[0] == b.take(k)[0]);
        assert(a.drop_first().take(k - 1) =~= a.take(k).drop_first());
        assert(b.drop_first().take(k - 1) =~= b.take(k).drop_first());
        law_name_order(a.drop_first(), b.drop_first(), k - 1);
        if k < a.len() {
            assert(a.drop_first()[k - 1] == a[k]);
        }
        if k < b.len() {
            assert(b.drop_first()[k - 1] == b[k]);
        }
    }
}

pub fn name_less_exec(a: &Vec<char>, b: &Vec<char>) -> (r: bool)
    ensures
        r == name_less(a@, b@),
{
    let mut i: usize = 0;
    assert(a@.skip(0) =~= a@);
    assert(b@.skip(0) =~= b@);
    while i < a.len() && i < b.len() && a[i] == b[i]
        invariant
            i <= a.len(),
            i <= b.len(),
            name_less(a@, b@) == name_less(a@.skip(i as int), b@.skip(i as int)),
        decreases a.len() - i,
    {
        assert(a@.skip(i as int).drop_first() =~= a@.skip(i + 1));
        assert(b@.skip(i as int).drop_first() =~= b@.skip(i + 1));
        assert(a@.skip(i as int)[0] == a@[i as int]);
        assert(b@.skip(i as int)[0] == b@[i as int]);
        i = i + 1;
    }
    if i == a.len() {
        return i < b.len();
    }
    if i == b.len() {
        return false;
    }
    assert(a@.skip(i as int)[0] == a@[i as int]);
    assert(b@.skip(i as int)[0] == b@[i as int]);
    a[i] < b[i]
}

/// Insert a named state after every state whose name does not sort after it.
pub open spec fn insert_by_name(
    sorted: Seq<(String, AppState)>,
    x: (String, AppState),
) -> Seq<(String, AppState)>
    decreases sorted.len(),
{
    if sorted.len() == 0 {
        seq![x]
    } else if name_less(x.0@, sorted.last().0@) {
        insert_by_name(sorted.drop_last(), x).push(sorted.last())
    } else {
        sorted.push(x)
    }
}

/// The states ordered by name, stably (as `sort_by` on the names orders them).
pub open spec fn sorted_by_name(s: Seq<(String, AppState)>) -> Seq<(String, AppState)>
    decreases s.len(),
{
    if s.len() == 0 {
        Seq::empty()
    } else {
        insert_by_name(sorted_by_name(s.drop_last()), s.last())
    }
}

fn insert_state(v: &mut Vec<(String, AppState)>, x: (String, AppState))
    ensures
        final(v)@ == insert_by_name(old(v)@, x),
    decreases old(v)@.len(),
{
    if v.len() == 0 {
        v.push(x);
        assert(v@ =~= seq![x]);
        return;
    }
    let ghost before = v@;
    let last = v.pop().unwrap();
    assert(before.drop_last() =~= v@);
    let a = chars_of(x.0.as_str());
    let b = chars_of(last.0.as_str());
    if name_less_exec(&a, &b) {
        insert_state(v, x);
        v.push(last);
    } else {
        v.push(last);
        assert(v@ =~= before);
        v.push(x);
    }
}

/// The states found in the state directory, ordered by app name.
pub fn list_states(found: Vec<(String, AppState)>) -> (r: Vec<(String, AppState)>)
    ensures
        r@ == sorted_by_name(found@),
    decreases found@.len(),
{
    let mut found = found;
    if found.len() == 0 {
        assert(found@ =~= Seq::<(String, AppState)>::empty());
        return found;
    }
    let ghost all = found@;
    let x = found.pop().unwrap();
    assert(all.drop_last() =~= found@);
    let mut r = list_states(found);
    insert_state(&mut r, x);
    r
}

/// All deployed apps as list rows, ordered by name.
pub fn summaries(found: Vec<(String, AppState)>) -> (r: Vec<AppSummary>)
    ensures
        r@.len() == found@.len(),
        forall|i: int|
            0 <= i < r@.len() ==> {
                let s = #[trigger] sorted_by_name(found@)[i];
                &&& r@[i].name@ == s.0@
                &&& r@[i].kind@ == spec_kind(s.1.runtime)
                &&& r@[i].host@ == s.1.host@
                &&& r@[i].ip@ == s.1.ip@
                &&& r@[i].port == s.1.port
            },
{
    let states = list_states(found);
    proof {
        lemma_sorted_by_name_len(found@);
    }
    let ghost all = states@;
    let mut r: Vec<AppSummary> = Vec::new();
    let mut i: usize = 0;
    while i < states.len()
        invariant
            i <= states.len(),
            states@ == all,
            r@.len() == i,
            forall|j: int|
                0 <= j < i ==> {
                    &&& r@[j].name@ == all[j].0@
                    &&& r@[j].kind@ == spec_kind(all[j].1.runtime)
                    &&& r@[j].host@ == all[j].1.host@
                    &&& r@[j].ip@ == all[j].1.ip@
                    &&& r@[j].port == all[j].1.port
                },
        decreases states.len() - i,
    {
        let st = &states[i].1;
        let row = AppSummary {
            name: own(states[i].0.as_str()),
            kind: kind_str(&st.runtime),
            host: own(st.host.as_str()),
            ip: own(st.ip.as_str()),
            port: st.port,
        };
        r.push(row);
        i = i + 1;
    }
    r
}

proof fn lemma_insert_len(sorted: Seq<(String, AppState)>, x: (String, AppState))
    ensures
        insert_by_name(sorted, x).len() == sorted.len() + 1,
    decreases sorted.len(),
{
    if sorted.len() > 0 && name_less(x.0@, sorted.last().0@) {
        lemma_insert_len(sorted.drop_last(), x);
    }
}

proof fn lemma_sorted_by_name_len(s: Seq<(String, AppState)>)
    ensures
        sorted_by_name(s).len() == s.len(),
    decreases s.len(),
{
    if s.len() > 0 {
        lemma_sorted_by_name_len(s.drop_last());
        lemma_insert_len(sorted_by_name(s.drop_last()), s.last());
    }
}

/// Re-applying every app's route: the routes to publish, in the order of the
/// app names; the names are reported back as synced.
pub fn sync(found: Vec<(String, AppState)>) -> (r: Vec<(String, caddy::Route)>)
    ensures
        r@.len() == found@.len(),
        forall|i: int|
            0 <= i < r@.len() ==> {
                let s = #[trigger] sorted_by_name(found@)[i];
                &&& r@[i].0@ == s.0@
                &&& r@[i].1.id@ == caddy::spec_route_id(s.0@)
                &&& r@[i].1.host@ == s.1.host@
                &&& r@[i].1.dial@ == s.1.ip@ + ":"@ + decimal(s.1.port as nat)
            },
{
    let states = list_states(found);
    proof {
        lemma_sorted_by_name_len(found@);
    }
    let ghost all = states@;
    let mut r: Vec<(String, caddy::Route)> = Vec::new();
    let mut i: usize = 0;
    while i < states.len()
        invariant
            i <= states.len(),
            states@ == all,
            r@.len() == i,
            forall|j: int|
                0 <= j < i ==> {
                    &&& r@[j].0@ == all[j].0@
                    &&& r@[j].1.id@ == caddy::spec_route_id(all[j].0@)
                    &&& r@[j].1.host@ == all[j].1.host@
                    &&& r@[j].1.dial@ == all[j].1.ip@ + ":"@ + decimal(all[j].1.port as nat)
                },
        decreases states.len() - i,
    {
        let route = caddy::route(states[i].0.as_str(), states[i].1.host.as_str(), states[i].1.ip.as_str(), states[i].1.port);
        let name = own(states[i].0.as_str());
        assert(name@ == all[i as int].0@);
        r.push((name, route));
        i = i + 1;
    }
    r
}


/// Where a sync stands after some of its routes were tried.
pub enum SyncStep {
    /// Publish the route at this position next.
    Publish(usize),
    /// Stop: publishing a route failed; carries the error's context,
    /// `syncing '<app>'`.
    Failed(String),
    /// Every route was published; carries the app names synced, in order.
    Done(Vec<String>),
}

/// The position of the first failed publish among the first `n` outcomes.
pub open spec fn first_failure(outcomes: Seq<bool>, n: int) -> Option<int> {
    if exists|k: int| 0 <= k < n && k < outcomes.len() && !#[trigger] outcomes[k] {
        Some(
            choose|k: int|
                0 <= k < n && k < outcomes.len() && !#[trigger] outcomes[k] && forall|j: int|
                    0 <= j < k ==> outcomes[j],
        )
    } else {
        None
    }
}

/// The next step of a sync over `routes` (as `sync` gives them), given the
/// outcomes of the publishes tried so far, in order: the first failure ends
/// it with its context, so no later route is published; otherwise the next
/// route is published, and once all were, the names are reported.
pub fn sync_next(routes: &Vec<(String, caddy::Route)>, outcomes: &Vec<bool>) -> (s: SyncStep)
    ensures
        match first_failure(outcomes@, routes@.len() as int) {
            Some(k) => s matches SyncStep::Failed(c) && c@ == "syncing '"@ + routes@[k].0@ + "'"@,
            None => if outcomes@.len() < routes@.len() {
                s == SyncStep::Publish(outcomes@.len() as usize)
            } else {
                s matches SyncStep::Done(names) && names@.len() == routes@.len() && forall|i: int|
                    0 <= i < routes@.len() ==> (#[trigger] names@[i])@ == routes@[i].0@
            },
        },
{
    let mut i: usize = 0;
    while i < routes.len() && i < outcomes.len()
        invariant
            i <= routes.len(),
            i <= outcomes.len(),
            forall|j: int| 0 <= j < i ==> outcomes@[j],
        decreases routes.len() - i,
    {
        if !outcomes[i] {
            let ghost o = outcomes@;
            let ghost n = routes@.len() as int;
            proof {
                assert(0 <= i < n && i < o.len() && !o[i as int]);
                let w = choose|k: int|
                    0 <= k < n && k < o.len() && !#[trigger] o[k] && forall|j: int|
                        0 <= j < k ==> o[j];
                if w < i {
                    assert(o[w]);
                }
                if w > i {
                    assert(o[i as int]);
                }
            }
            let mut c = own("syncing '");
            c.append(routes[i].0.as_str());
            c.append("'");
            return SyncStep::Failed(c);
        }
        i = i + 1;
    }
    if outcomes.len() < routes.len() {
        return SyncStep::Publish(outcomes.len());
    }
    let mut names: Vec<String> = Vec::new();
    let mut j: usize = 0;
    while j < routes.len()
        invariant
            j <= routes.len(),
            names@.len() == j,
            forall|k: int| 0 <= k < j ==> (#[trigger] names@[k])@ == routes@[k].0@,
        decreases routes.len() - j,
    {
        names.push(own(routes[j].0.as_str()));
        j = j + 1;
    }
    SyncStep::Done(names)
}

// ---------------------------------------------------------------------------
// Deploying

/// Only pushes to `main` or `master` deploy: the branch a pushed ref names.
pub fn deploy_branch(gitref: &str) -> (r: Option<String>)
    ensures
        gitref@ == "refs/heads/main"@ ==> (r matches Some(b) && b@ == "main"@),
        gitref@ == "refs/heads/master"@ ==> (r matches Some(b) && b@ == "master"@),
        gitref@ != "refs/heads/main"@ && gitref@ != "refs/heads/master"@ ==> r is None,
{
    proof {
        reveal_strlit("refs/heads/main");
        reveal_strlit("refs/heads/master");
        assert("refs/heads/main"@.len() != "refs/heads/master"@.len());
    }
    if eq_str(gitref, "refs/heads/main") {
        Some(own("main"))
    } else if eq_str(gitref, "refs/heads/master") {
        Some(own("master"))
    } else {
        None
    }
}

/// The number of bytes `c` takes in UTF-8.
pub open spec fn utf8_width(c: char) -> nat {
    if (c as u32) < 0x80 {
        1
    } else if (c as u32) < 0x800 {
        2
    } else if (c as u32) < 0x10000 {
        3
    } else {
        4
    }
}

/// The number of bytes `s` takes in UTF-8.
pub open spec fn byte_len(s: Seq<char>) -> nat
    decreases s.len(),
{
    if s.len() == 0 {
        0
    } else {
        byte_len(s.drop_last()) + utf8_width(s.last())
    }
}

proof fn lemma_ascii_byte_len(s: Seq<char>)
    requires
        forall|i: int| 0 <= i < s.len() ==> (#[trigger] s[i] as u32) < 0x80,
    ensures
        byte_len(s) == s.len(),
    decreases s.len(),
{
    if s.len() > 0 {
        assert forall|i: int| 0 <= i < s.drop_last().len() implies (#[trigger] s.drop_last()[i] as u32)
            < 0x80 by {
            assert(s.drop_last()[i] == s[i]);
        }
        lemma_ascii_byte_len(s.drop_last());
        assert((s[s.len() - 1] as u32) < 0x80);
    }
}

/// A commit id in ASCII (as git's hexadecimal ids are) is shortened to its
/// first seven characters, and one shorter than that is kept whole.
pub proof fn law_short_sha_of_ascii(sha: Seq<char>)
    requires
        forall|i: int| 0 <= i < sha.len() ==> (#[trigger] sha[i] as u32) < 0x80,
    ensures
        sha.len() >= 7 ==> short_sha_of(sha) == sha.take(7),
        sha.len() < 7 ==> short_sha_of(sha) == sha,
{
    assert forall|k: int| 0 <= k <= sha.len() implies byte_len(#[trigger] sha.take(k)) == k by {
        assert forall|i: int| 0 <= i < sha.take(k).len() implies (#[trigger] sha.take(k)[i] as u32)
            < 0x80 by {
            assert(sha.take(k)[i] == sha[i]);
        }
        lemma_ascii_byte_len(sha.take(k));
    }
    if sha.len() >= 7 {
        assert(byte_len(sha.take(7)) == 7);
    }
}

/// The first 7 bytes of a commit id when they end on a character boundary
/// (`sha.get(..7)`), else the whole id.
pub open spec fn short_sha_of(sha: Seq<char>) -> Seq<char> {
    if exists|k: int| 0 <= k <= sha.len() && byte_len(#[trigger] sha.take(k)) == 7 {
        sha.take(choose|k: int| 0 <= k <= sha.len() && byte_len(#[trigger] sha.take(k)) == 7)
    } else {
        sha
    }
}

proof fn lemma_byte_len_increasing(s: Seq<char>, j: int, k: int)
    requires
        0 <= j < k <= s.len(),
    ensures
        byte_len(s.take(j)) < byte_len(s.take(k)),
    decreases k - j,
{
    assert(s.take(k).drop_last() =~= s.take(k - 1));
    if j < k - 1 {
        lemma_byte_len_increasing(s, j, k - 1);
    }
}

fn utf8_width_exec(c: char) -> (r: usize)
    ensures
        r == utf8_width(c),
{
    let u = c as u32;
    if u < 0x80 {
        1
    } else if u < 0x800 {
        2
    } else if u < 0x10000 {
        3
    } else {
        4
    }
}

/// The short commit id shown while deploying and used as the image tag.
pub fn short_sha(sha: &str) -> (r: String)
    ensures
        r@ == short_sha_of(sha@),
{
    let v = chars_of(sha);
    let mut k: usize = 0;
    let mut b: usize = 0;
    loop
        invariant
            k <= v.len(),
            v@ == sha@,
            b == byte_len(v@.take(k as int)),
            b < 7,
        decreases v.len() - k,
    {
        if k == v.len() {
            proof {
                assert forall|j: int| 0 <= j <= v@.len() implies byte_len(#[trigger] v@.take(j))
                    != 7 by {
                    if j < k {
                        lemma_byte_len_increasing(v@, j, k as int);
                    }
                }
                assert(v@.take(k as int) =~= v@);
                assert(!exists|j: int| 0 <= j <= sha@.len() && byte_len(#[trigger] sha@.take(j)) == 7);
            }
            return own(sha);
        }
        let w = utf8_width_exec(v[k]);
        assert(v@.take(k + 1).drop_last() =~= v@.take(k as int));
        assert(v@.take(k + 1).last() == v@[k as int]);
        b = b + w;
        k = k + 1;
        assert(b == byte_len(v@.take(k as int)));
        if b == 7 {
            let mut p: Vec<char> = Vec::new();
            let mut j: usize = 0;
            while j < k
                invariant
                    j <= k <= v.len(),
                    v@ == sha@,
                    b == 7,
                    b == byte_len(v@.take(k as int)),
                    p@ == v@.take(j as int),
                decreases k - j,
            {
                p.push(v[j]);
                j = j + 1;
                assert(p@ =~= v@.take(j as int));
            }
            proof {
                assert(byte_len(sha@.take(k as int)) == 7);
                let c = choose|c: int| 0 <= c <= sha@.len() && byte_len(#[trigger] sha@.take(c)) == 7;
                if c < k {
                    lemma_byte_len_increasing(v@, c, k as int);
                }
                if c > k {
                    lemma_byte_len_increasing(v@, k as int, c);
                }
            }
            return string_of(&p);
        }
        if b > 7 {
            proof {
                assert forall|j: int| 0 <= j <= v@.len() implies byte_len(#[trigger] v@.take(j))
                    != 7 by {
                    if j < k - 1 {
                        lemma_byte_len_increasing(v@, j, k - 1);
                    }
                    if j > k {
                        lemma_byte_len_increasing(v@, k as int, j);
                    }
                }
                assert(!exists|j: int| 0 <= j <= sha@.len() && byte_len(#[trigger] sha@.take(j)) == 7);
            }
            return own(sha);
        }
    }
}

/// The image a Dockerfile deploy builds: `charm_<app>:<short sha>`.
pub fn image_tag(app: &str, short: &str) -> (r: String)
    ensures
        r@ == charm_name(app@) + ":"@ + short@,
{
    let mut s = container(app);
    s.append(":");
    s.append(short);
    s
}

/// Materialize the pushed tree (bare repos have no working tree).
pub fn checkout(repo: &str, dir: &str, branch: &str) -> (c: Cmd)
    ensures
        c@ == ("git"@, seq!["--git-dir"@, repo@, "--work-tree"@, dir@, "checkout"@, "-f"@, branch@]),
{
    let args = vec![
        own("--git-dir"),
        own(repo),
        own("--work-tree"),
        own(dir),
        own("checkout"),
        own("-f"),
        own(branch),
    ];
    assert(string_views(args@) =~= seq![
        "--git-dir"@,
        repo@,
        "--work-tree"@,
        dir@,
        "checkout"@,
        "-f"@,
        branch@,
    ]);
    cmd("git", args)
}

/// Build a Dockerfile app's image.
pub fn docker_build(image: &str, dir: &str) -> (c: Cmd)
    ensures
        c@ == ("docker"@, seq!["build"@, "-t"@, image@, dir@]),
{
    let args = vec![own("build"), own("-t"), own(image), own(dir)];
    assert(string_views(args@) =~= seq!["build"@, "-t"@, image@, dir@]);
    cmd("docker", args)
}

/// Remove a Dockerfile app's container before running a new one.
pub fn rm_container(app: &str) -> (c: Cmd)
    ensures
        c@ == ("docker"@, seq!["rm"@, "-f"@, charm_name(app@)]),
{
    let args = vec![own("rm"), own("-f"), container(app)];
    assert(string_views(args@) =~= seq!["rm"@, "-f"@, charm_name(app@)]);
    cmd("docker", args)
}

/// Whether a Dockerfile app's container exists: this command succeeds.
pub fn container_exists(app: &str) -> (c: Cmd)
    ensures
        c@ == ("docker"@, seq!["inspect"@, charm_name(app@)]),
{
    docker_on_container("inspect", app)
}

/// The state of a container: what this command prints.
pub fn inspect_state(name: &str) -> (c: Cmd)
    ensures
        c@ == ("docker"@, seq!["inspect"@, "-f"@, "{{.State.Status}}"@, name@]),
{
    let args = vec![own("inspect"), own("-f"), own("{{.State.Status}}"), own(name)];
    assert(string_views(args@) =~= seq!["inspect"@, "-f"@, "{{.State.Status}}"@, name@]);
    cmd("docker", args)
}

/// Bring a compose stack up, building what it needs.
pub fn compose_up(app: &str, compose_file: &str) -> (c: Cmd)
    ensures
        c@ == ("docker"@, seq![
            "compose"@, "-p"@, charm_name(app@), "-f"@, compose_file@, "up"@, "-d"@, "--build"@,
        ]),
{
    let mut c = compose(app, compose_file, "up");
    let ghost before = string_views(c.args@);
    c.args.push(own("-d"));
    c.args.push(own("--build"));
    assert(string_views(c.args@) =~= before + seq!["-d"@, "--build"@]);
    c
}

/// List the container(s) of a compose service (`all` includes stopped ones).
pub fn compose_ps(app: &str, compose_file: &str, service: &str, all: bool) -> (c: Cmd)
    ensures
        c@ == ("docker"@, seq!["compose"@, "-p"@, charm_name(app@), "-f"@, compose_file@, "ps"@]
            + (if all { seq!["-a"@] } else { Seq::empty() }) + seq!["-q"@, service@]),
{
    let mut c = compose(app, compose_file, "ps");
    let ghost before = string_views(c.args@);
    if all {
        c.args.push(own("-a"));
    }
    c.args.push(own("-q"));
    c.args.push(own(service));
    assert(string_views(c.args@) =~= before + (if all {
        seq!["-a"@]
    } else {
        Seq::empty()
    }) + seq!["-q"@, service@]);
    c
}

/// Detach a container from the charm network (a redeploy recreates it).
pub fn network_disconnect(cid: &str) -> (c: Cmd)
    ensures
        c@ == ("docker"@, seq!["network"@, "disconnect"@, paths::NETWORK@, cid@]),
{
    let args = vec![own("network"), own("disconnect"), own(paths::NETWORK), own(cid)];
    assert(string_views(args@) =~= seq!["network"@, "disconnect"@, paths::NETWORK@, cid@]);
    cmd("docker", args)
}

/// Attach a container to the charm network at the app's address.
pub fn network_connect(ip: &str, cid: &str) -> (c: Cmd)
    ensures
        c@ == ("docker"@, seq!["network"@, "connect"@, "--ip"@, ip@, paths::NETWORK@, cid@]),
{
    let args = vec![
        own("network"),
        own("connect"),
        own("--ip"),
        own(ip),
        own(paths::NETWORK),
        own(cid),
    ];
    assert(string_views(args@) =~= seq![
        "network"@,
        "connect"@,
        "--ip"@,
        ip@,
        paths::NETWORK@,
        cid@,
    ]);
    cmd("docker", args)
}

/// The state recorded for a deployed app: its route and address, and how it
/// runs (a Dockerfile app by its built image).
pub fn deployed_state(plan: Plan, ip: String, image: String) -> (r: AppState)
    ensures
        r.ip == ip,
        match plan {
            Plan::Dockerfile { host, port } => r.host == host && r.port == port
                && r.runtime == Runtime::Dockerfile { image },
            Plan::Compose { host, compose_file, service, port } => r.host == host && r.port == port
                && r.runtime == Runtime::Compose { compose_file, service },
        },
{
    match plan {
        Plan::Dockerfile { host, port } => AppState {
            host,
            port,
            ip,
            runtime: Runtime::Dockerfile { image },
        },
        Plan::Compose { host, compose_file, service, port } => AppState {
            host,
            port,
            ip,
            runtime: Runtime::Compose { compose_file, service },
        },
    }
}


// ---------------------------------------------------------------------------
// Reading recorded state

pub enum StateError {
    /// No state is recorded for this app.
    NoSuchApp(String),
    /// The state exists but this user may not read it.
    CannotRead,
    /// Reading the state failed otherwise; carries the cause.
    ReadFailed(String),
    /// The state directory does not exist; carries its path.
    NotInstalled(String),
    /// The state directory may not be read; carries its path.
    CannotReadDir(String),
    /// Listing the state directory failed otherwise; carries the cause.
    DirFailed(String),
}

impl StateError {
    pub fn message(&self) -> (r: String)
        ensures
            r@ == match self {
                StateError::NoSuchApp(a) => "no deployed app '"@ + a@ + "'"@,
                StateError::CannotRead =>
                    "cannot read Charm state - run as root (sudo) or the charm user"@,
                StateError::ReadFailed(_) => "reading app state"@,
                StateError::NotInstalled(p) => "Charm isn't installed (no "@ + p@
                    + "). Run `charm install` first."@,
                StateError::CannotReadDir(p) => "cannot read Charm state at "@ + p@
                    + " - run as root (sudo charm ...) or the charm user"@,
                StateError::DirFailed(_) => "reading Charm state"@,
            },
    {
        match self {
            StateError::NoSuchApp(a) => {
                let mut s = own("no deployed app '");
                s.append(a.as_str());
                s.append("'");
                s
            },
            StateError::CannotRead => own(
                "cannot read Charm state - run as root (sudo) or the charm user",
            ),
            StateError::ReadFailed(_) => own("reading app state"),
            StateError::NotInstalled(p) => {
                let mut s = own("Charm isn't installed (no ");
                s.append(p.as_str());
                s.append("). Run `charm install` first.");
                s
            },
            StateError::CannotReadDir(p) => {
                let mut s = own("cannot read Charm state at ");
                s.append(p.as_str());
                s.append(" - run as root (sudo charm ...) or the charm user");
                s
            },
            StateError::DirFailed(_) => own("reading Charm state"),
        }
    }
}

/// What looking up `app`'s state gives, from the read of its state file.
pub open spec fn state_lookup(app: Seq<char>, read: FileRead, r: Result<String, StateError>) -> bool {
    match read {
        FileRead::Content(c) => r == Ok::<String, StateError>(c),
        FileRead::NotFound => r matches Err(StateError::NoSuchApp(a)) && a@ == app,
        FileRead::PermissionDenied => r matches Err(StateError::CannotRead),
        FileRead::Failed(e) => r matches Err(StateError::ReadFailed(x)) && x == e,
    }
}

/// After `rm`, the app is gone: its state file is among the files removed,
/// so a later lookup (its file not found) answers `NoSuchApp(app)`, and a
/// listing of the states that remain has no entry for it.
pub proof fn law_rm_then_lookup_fails(
    app: Seq<char>,
    files: Set<Seq<char>>,
    remaining: Seq<(String, AppState)>,
    r: Result<String, StateError>,
)
    requires
        state_lookup(app, FileRead::NotFound, r),
        forall|i: int| 0 <= i < remaining.len() ==> (#[trigger] remaining[i]).0@ != app,
    ensures
        !files.difference(removed_files(app).to_set()).contains(state_path(app)),
        r matches Err(StateError::NoSuchApp(a)) && a@ == app,
        forall|i: int|
            0 <= i < sorted_by_name(remaining).len() ==> (#[trigger] sorted_by_name(remaining)[i]).0@
                != app,
{
    broadcast use vstd::seq_lib::group_to_multiset_ensures;

    assert(removed_files(app)[0] == state_path(app));
    assert(removed_files(app).to_set().contains(state_path(app)));
    law_listing_sorted_permutation(remaining);
    assert forall|i: int| 0 <= i < sorted_by_name(remaining).len() implies (
    #[trigger] sorted_by_name(remaining)[i]).0@ != app by {
        let x = sorted_by_name(remaining)[i];
        assert(sorted_by_name(remaining).contains(x));
        assert(remaining.to_multiset().count(x) > 0);
        assert(remaining.contains(x));
    }
}

/// The recorded state text of `app`, given the read of its state file: a
/// missing file means the app is not deployed.
pub fn state_text(app: &str, read: FileRead) -> (r: Result<String, StateError>)
    ensures
        state_lookup(app@, read, r),
{
    match read {
        FileRead::Content(c) => Ok(c),
        FileRead::NotFound => Err(StateError::NoSuchApp(own(app))),
        FileRead::PermissionDenied => Err(StateError::CannotRead),
        FileRead::Failed(e) => Err(StateError::ReadFailed(e)),
    }
}

/// How listing the state directory went.
pub enum DirAccess {
    Readable,
    NotFound,
    PermissionDenied,
    Failed(String),
}

/// Management commands need to read the state directory (as root or the
/// charm user); otherwise listings would silently come back empty.
pub fn ensure_state_access(access: DirAccess) -> (r: Result<(), StateError>)
    ensures
        match access {
            DirAccess::Readable => r is Ok,
            DirAccess::NotFound => r matches Err(StateError::NotInstalled(p)) && p@ == paths::HOME@
                + "/state"@,
            DirAccess::PermissionDenied => r matches Err(StateError::CannotReadDir(p)) && p@
                == paths::HOME@ + "/state"@,
            DirAccess::Failed(e) => r matches Err(StateError::DirFailed(x)) && x == e,
        },
{
    match access {
        DirAccess::Readable => Ok(()),
        DirAccess::NotFound => Err(StateError::NotInstalled(paths::state())),
        DirAccess::PermissionDenied => Err(StateError::CannotReadDir(paths::state())),
        DirAccess::Failed(e) => Err(StateError::DirFailed(e)),
    }
}

// ---------------------------------------------------------------------------
// Laws

/// A Compose route value written as `service:port`, for a service name
/// without a colon, reads back as that service and port.
pub proof fn law_service_port_round_trip(service: Seq<char>, port: u16)
    requires
        !service.contains(':'),
    ensures
        find(service + ":"@ + decimal(port as nat), ":"@) == Some(service.len() as int),
        parse_u16((service + ":"@ + decimal(port as nat)).skip(service.len() + 1int)) == Some(port),
        (service + ":"@ + decimal(port as nat)).take(service.len() as int) == service,
{
    reveal_strlit(":");
    let v = service + ":"@ + decimal(port as nat);
    let c = ":"@;
    assert(c.len() == 1);
    assert(v.subrange(service.len() as int, service.len() + 1int) =~= c);
    assert(crate::text::occurs_at(v, c, service.len() as int));
    assert forall|j: int| 0 <= j < service.len() implies !crate::text::occurs_at(v, c, j) by {
        assert(v.subrange(j, j + 1)[0] == service[j]);
        assert(service[j] != ':');
    }
    crate::text::lemma_find_in_range(v, c);
    let f = find(v, c);
    assert(f is Some);
    let i = f->0;
    assert(i == service.len()) by {
        if i < service.len() {
            assert(!crate::text::occurs_at(v, c, i));
        }
        if i > service.len() {
            assert(!crate::text::occurs_at(v, c, service.len() as int));
        }
    }
    assert(v.skip(service.len() + 1int) =~= decimal(port as nat));
    assert(v.take(service.len() as int) =~= service);
    crate::text::law_parse_decimal_round_trip(port);
}

/// A Dockerfile app's container, a Compose app's project and an app's route
/// all carry the one name `charm_<app>`.
pub proof fn law_one_name_per_app(app: Seq<char>)
    ensures
        charm_name(app) == caddy::spec_route_id(app),
{
}

proof fn lemma_name_less_asym(a: Seq<char>, b: Seq<char>)
    ensures
        !(name_less(a, b) && name_less(b, a)),
        !name_less(a, a),
    decreases a.len(),
{
    if a.len() > 0 && b.len() > 0 && a[0] == b[0] {
        lemma_name_less_asym(a.drop_first(), b.drop_first());
    }
    if a.len() > 0 {
        lemma_name_less_asym(a.drop_first(), a.drop_first());
    }
}

proof fn lemma_name_less_total(a: Seq<char>, b: Seq<char>)
    ensures
        name_less(a, b) || name_less(b, a) || a == b,
    decreases a.len(),
{
    if a.len() > 0 && b.len() > 0 {
        if a[0] == b[0] {
            lemma_name_less_total(a.drop_first(), b.drop_first());
            if a.drop_first() == b.drop_first() {
                assert(a =~= seq![a[0]] + a.drop_first());
                assert(b =~= seq![b[0]] + b.drop_first());
            }
        }
    } else if a.len() == 0 && b.len() == 0 {
        assert(a =~= b);
    }
}

proof fn lemma_name_less_trans(a: Seq<char>, b: Seq<char>, c: Seq<char>)
    requires
        name_less(a, b),
        name_less(b, c),
    ensures
        name_less(a, c),
    decreases a.len(),
{
    if a.len() > 0 && b.len() > 0 && c.len() > 0 && a[0] == b[0] && b[0] == c[0] {
        lemma_name_less_trans(a.drop_first(), b.drop_first(), c.drop_first());
    }
}

/// Listed in order: no later name sorts before an earlier one.
pub open spec fn ordered_by_name(s: Seq<(String, AppState)>) -> bool {
    forall|i: int, j: int| 0 <= i < j < s.len() ==> !name_less(s[j].0@, s[i].0@)
}

proof fn lemma_insert(sorted: Seq<(String, AppState)>, x: (String, AppState))
    requires
        ordered_by_name(sorted),
    ensures
        ordered_by_name(insert_by_name(sorted, x)),
        insert_by_name(sorted, x).to_multiset() == sorted.to_multiset().insert(x),
    decreases sorted.len(),
{
    broadcast use vstd::seq_lib::group_to_multiset_ensures;

    if sorted.len() == 0 {
        assert(seq![x] =~= Seq::<(String, AppState)>::empty().push(x));
    } else {
        let p = sorted.drop_last();
        let l = sorted.last();
        assert(sorted =~= p.push(l));
        assert(ordered_by_name(p)) by {
            assert forall|i: int, j: int| 0 <= i < j < p.len() implies !name_less(
                p[j].0@,
                p[i].0@,
            ) by {
                assert(p[i] == sorted[i] && p[j] == sorted[j]);
            }
        }
        if name_less(x.0@, l.0@) {
            lemma_insert(p, x);
            let q = insert_by_name(p, x);
            let r = q.push(l);
            assert forall|i: int, j: int| 0 <= i < j < r.len() implies !name_less(
                r[j].0@,
                r[i].0@,
            ) by {
                if j == r.len() - 1 {
                    let e = r[i];
                    assert(q.contains(e)) by {
                        assert(q[i] == e);
                    }
                    assert(q.to_multiset().count(e) > 0);
                    if e == x {
                        lemma_name_less_asym(x.0@, l.0@);
                    } else {
                        assert(p.to_multiset().count(e) > 0);
                        assert(p.contains(e));
                        let k = choose|k: int| 0 <= k < p.len() && p[k] == e;
                        assert(sorted[k] == e);
                        assert(sorted[sorted.len() - 1] == l);
                    }
                } else {
                    assert(r[i] == q[i] && r[j] == q[j]);
                }
            }
        } else {
            let r = sorted.push(x);
            assert forall|i: int, j: int| 0 <= i < j < r.len() implies !name_less(
                r[j].0@,
                r[i].0@,
            ) by {
                if j == r.len() - 1 {
                    let e = sorted[i];
                    assert(r[i] == e);
                    if i < sorted.len() - 1 {
                        assert(!name_less(l.0@, e.0@)) by {
                            assert(sorted[sorted.len() - 1] == l);
                        }
                        if name_less(x.0@, e.0@) {
                            lemma_name_less_total(l.0@, e.0@);
                            if name_less(e.0@, l.0@) {
                                lemma_name_less_trans(x.0@, e.0@, l.0@);
                            }
                        }
                    }
                } else {
                    assert(r[i] == sorted[i] && r[j] == sorted[j]);
                }
            }
        }
    }
}

/// The app list comes out ordered by name, and holds every app found, each
/// once (as many times as it was found).
pub proof fn law_listing_sorted_permutation(found: Seq<(String, AppState)>)
    ensures
        ordered_by_name(sorted_by_name(found)),
        sorted_by_name(found).to_multiset() == found.to_multiset(),
    decreases found.len(),
{
    broadcast use vstd::seq_lib::group_to_multiset_ensures;

    if found.len() == 0 {
        assert(sorted_by_name(found) =~= Seq::<(String, AppState)>::empty());
        assert(found =~= Seq::<(String, AppState)>::empty());
    } else {
        let p = found.drop_last();
        law_listing_sorted_permutation(p);
        lemma_insert(sorted_by_name(p), found.last());
        assert(found =~= p.push(found.last()));
    }
}

} // verus!
