//! The push-triggered deploy, as a sequence of steps: checkout, plan,
//! address, build and run (or bring the Compose stack up and attach it),
//! record the state, then route it. The caller performs each action and
//! reports how it went; `deploy_next` decides what comes next.
use vstd::prelude::*;
use crate::app::{
    app_error_text, build_dir, charm_name, checkout, compose_container, compose_ps, compose_up,
    deployed_state, docker_build, first_line, image_tag, ip_path, network_connect,
    network_disconnect, reject_container_name, rm_container, run_dockerfile, short_sha, short_sha_of,
    AppError, AppState, Plan, Runtime,
};
use crate::caddy::{self, route_view, Route};
use crate::paths;
use crate::text::{decimal, eq_str};
use crate::util::{own, Cmd};

verus! {

/// Where a deploy stands.
pub enum DeployStage {
    /// Nothing done yet.
    Start,
    /// The build directory is being made.
    Preparing,
    /// The pushed branch is being checked out.
    CheckingOut,
    /// Checked out; the plan is being made.
    CheckedOut,
    /// A Compose plan whose compose file is being checked.
    Checking(Plan),
    /// Planned; the address is being assigned.
    Planned(Plan),
    /// A new address is being recorded.
    RecordingIp(Plan, String),
    /// The image is being built.
    Building(Plan, String),
    /// The old container is being removed (best effort).
    RemovingOld(Plan, String),
    /// The new container is being started.
    Starting(Plan, String),
    /// The Compose stack is being brought up.
    ComposeUp(Plan, String),
    /// The public service's container is being looked up.
    Listing(Plan, String),
    /// The container is being detached from the charm network (best effort).
    Detaching(Plan, String, String),
    /// The container is being attached with its address.
    Attaching(Plan, String),
    /// The state is being saved; this route follows.
    Saving(Route),
    /// The route to this host is being published.
    Publishing(String),
    /// Finished, ignored or failed: nothing more to do.
    Done,
}

/// How the last action went.
pub enum DeployEvent {
    /// The push arrived (the first event).
    Pushed,
    StepOk,
    /// The action failed; carries the error's text.
    StepFailed(String),
    /// The outcome of planning (see `load_plan`).
    Planned(Result<Plan, AppError>),
    /// The outcome of checking the compose file (see `reject_container_name`).
    Checked(Result<(), AppError>),
    /// The outcome of assigning the address (see `assign_ip`).
    Ip(Result<(String, bool), AppError>),
    /// The standard output of a captured command.
    Output(String),
}

/// What to do next.
pub enum DeployAction {
    /// Print this and stop: the push does not deploy.
    Ignore(String),
    /// Print the note and make the directory.
    Prepare { note: String, dir: String },
    /// Run the command, showing its output; it must succeed.
    Run(Cmd),
    /// Run the command silently; its failure is reported but does not stop
    /// the deploy.
    Attempt(Cmd),
    /// Run the command and report its standard output.
    Capture(Cmd),
    /// Plan from the `Charm.toml` in this directory, the registered domains
    /// and the compose file found there (`load_plan`).
    MakePlan { dir: String },
    /// Read this compose file and check it (`reject_container_name`).
    CheckCompose(String),
    /// Assign the address from the recorded ones (`assign_ip`).
    AssignIp,
    /// Record the new address in this file.
    WriteIp { path: String, ip: String },
    /// Save the app's state.
    SaveState(AppState),
    /// Publish the route.
    Publish(Route),
    /// Print this: the deploy succeeded.
    Finish(String),
    /// The deploy failed with this error.
    Fail(String),
}

/// The branch a pushed ref deploys: only `main` and `master` do.
pub open spec fn branch_of(gitref: Seq<char>) -> Option<Seq<char>> {
    if gitref == "refs/heads/main"@ {
        Some("main"@)
    } else if gitref == "refs/heads/master"@ {
        Some("master"@)
    } else {
        None
    }
}

/// The build directory of an app.
pub open spec fn build_path(app: Seq<char>) -> Seq<char> {
    paths::HOME@ + "/builds"@ + "/"@ + app
}

/// The deploy ends with this error.
pub open spec fn failed(e: Seq<char>, next: DeployStage, act: DeployAction) -> bool {
    next is Done && (act matches DeployAction::Fail(m) && m@ == e)
}

/// An event the stage does not expect ends the deploy.
pub open spec fn unexpected(next: DeployStage, act: DeployAction) -> bool {
    failed("deploy: unexpected step"@, next, act)
}

/// Building and running start: a Dockerfile app's image is built, a Compose
/// stack is brought up.
pub open spec fn begin_run(
    app: Seq<char>,
    dir: Seq<char>,
    image: Seq<char>,
    plan: Plan,
    ip: Seq<char>,
    next: DeployStage,
    act: DeployAction,
) -> bool {
    match plan {
        Plan::Dockerfile { .. } => next matches DeployStage::Building(p, i) && p == plan && i@ == ip
            && (act matches DeployAction::Run(c) && c@ == ("docker"@, seq!["build"@, "-t"@, image, dir])),
        Plan::Compose { compose_file, .. } => next matches DeployStage::ComposeUp(p, i) && p == plan
            && i@ == ip && (act matches DeployAction::Run(c) && c@ == ("docker"@, seq![
            "compose"@, "-p"@, charm_name(app), "-f"@, compose_file@, "up"@, "-d"@, "--build"@,
        ])),
    }
}

/// The app runs: its state (the plan, the address and, for a Dockerfile
/// app, the image) is saved, and the route to it follows.
pub open spec fn save_step(
    app: Seq<char>,
    image: Seq<char>,
    plan: Plan,
    ip: Seq<char>,
    next: DeployStage,
    act: DeployAction,
) -> bool {
    &&& act matches DeployAction::SaveState(st)
    &&& st.ip@ == ip
    &&& match plan {
        Plan::Dockerfile { host, port } => st.host == host && st.port == port
            && (st.runtime matches Runtime::Dockerfile { image: im } && im@ == image),
        Plan::Compose { host, compose_file, service, port } => st.host == host && st.port == port
            && st.runtime == Runtime::Compose { compose_file, service },
    }
    &&& next matches DeployStage::Saving(r)
    &&& route_view(r) == (
        caddy::spec_route_id(app),
        st.host@,
        st.ip@ + ":"@ + decimal(st.port as nat),
    )
}

/// One step of deploying `app` from `repo` for a push of `gitref` at
/// commit `sha`: from `stage` and the outcome `ev` of the last action, the
/// next stage and action.
pub open spec fn deploy_step(
    app: Seq<char>,
    repo: Seq<char>,
    gitref: Seq<char>,
    sha: Seq<char>,
    stage: DeployStage,
    ev: DeployEvent,
    next: DeployStage,
    act: DeployAction,
) -> bool {
    let dir = build_path(app);
    let image = charm_name(app) + ":"@ + short_sha_of(sha);
    match stage {
        DeployStage::Start => match ev {
            DeployEvent::Pushed => match branch_of(gitref) {
                None => next is Done && (act matches DeployAction::Ignore(m) && m@
                    == "charm: ignoring push to "@ + gitref + " (only main/master deploy)"@),
                Some(b) => next is Preparing && (act matches DeployAction::Prepare { note, dir: d }
                    && note@ == "charm: deploying '"@ + app + "' ("@ + b + " @ "@ + short_sha_of(sha)
                    + ")"@ && d@ == dir),
            },
            _ => unexpected(next, act),
        },
        DeployStage::Preparing => match ev {
            DeployEvent::StepOk => match branch_of(gitref) {
                Some(b) => next is CheckingOut && (act matches DeployAction::Run(c) && c@ == ("git"@, seq![
                    "--git-dir"@, repo, "--work-tree"@, dir, "checkout"@, "-f"@, b,
                ])),
                None => unexpected(next, act),
            },
            DeployEvent::StepFailed(e) => failed(e@, next, act),
            _ => unexpected(next, act),
        },
        DeployStage::CheckingOut => match ev {
            DeployEvent::StepOk => next is CheckedOut && (act matches DeployAction::MakePlan { dir: d }
                && d@ == dir),
            DeployEvent::StepFailed(e) => failed(e@, next, act),
            _ => unexpected(next, act),
        },
        DeployStage::CheckedOut => match ev {
            DeployEvent::Planned(r) => match r {
                Ok(plan) => match plan {
                    Plan::Compose { compose_file, .. } => next == DeployStage::Checking(plan)
                        && (act matches DeployAction::CheckCompose(f) && f@ == compose_file@),
                    Plan::Dockerfile { .. } => next == DeployStage::Planned(plan)
                        && act is AssignIp,
                },
                Err(e) => failed(app_error_text(e), next, act),
            },
            DeployEvent::StepFailed(e) => failed(e@, next, act),
            _ => unexpected(next, act),
        },
        DeployStage::Checking(plan) => match ev {
            DeployEvent::Checked(r) => match r {
                Ok(_) => next == DeployStage::Planned(plan) && act is AssignIp,
                Err(e) => failed(app_error_text(e), next, act),
            },
            DeployEvent::StepFailed(e) => failed(e@, next, act),
            _ => unexpected(next, act),
        },
        DeployStage::Planned(plan) => match ev {
            DeployEvent::Ip(r) => match r {
                Ok((ip, fresh)) => if fresh {
                    next matches DeployStage::RecordingIp(p, i) && p == plan && i@ == ip@
                        && (act matches DeployAction::WriteIp { path, ip: x } && path@ == ip_path(app)
                        && x@ == ip@)
                } else {
                    begin_run(app, dir, image, plan, ip@, next, act)
                },
                Err(e) => failed(app_error_text(e), next, act),
            },
            DeployEvent::StepFailed(e) => failed(e@, next, act),
            _ => unexpected(next, act),
        },
        DeployStage::RecordingIp(plan, ip) => match ev {
            DeployEvent::StepOk => begin_run(app, dir, image, plan, ip@, next, act),
            DeployEvent::StepFailed(e) => failed(e@, next, act),
            _ => unexpected(next, act),
        },
        DeployStage::Building(plan, ip) => match ev {
            DeployEvent::StepOk => next matches DeployStage::RemovingOld(p, i) && p == plan && i@
                == ip@ && (act matches DeployAction::Attempt(c) && c@ == ("docker"@, seq![
                "rm"@,
                "-f"@,
                charm_name(app),
            ])),
            DeployEvent::StepFailed(e) => failed(e@, next, act),
            _ => unexpected(next, act),
        },
        DeployStage::RemovingOld(plan, ip) => match ev {
            DeployEvent::StepOk | DeployEvent::StepFailed(_) => next matches DeployStage::Starting(
                p,
                i,
            ) && p == plan && i@ == ip@ && (act matches DeployAction::Run(c) && c@ == ("docker"@, seq![
                "run"@, "-d"@, "--name"@, charm_name(app), "--network"@, paths::NETWORK@, "--ip"@,
                ip@, "--restart"@, "unless-stopped"@, image,
            ])),
            _ => unexpected(next, act),
        },
        DeployStage::Starting(plan, ip) => match ev {
            DeployEvent::StepOk => save_step(app, image, plan, ip@, next, act),
            DeployEvent::StepFailed(e) => failed(e@, next, act),
            _ => unexpected(next, act),
        },
        DeployStage::ComposeUp(plan, ip) => match ev {
            DeployEvent::StepOk => match plan {
                Plan::Compose { compose_file, service, .. } => next matches DeployStage::Listing(p, i)
                    && p == plan && i@ == ip@ && (act matches DeployAction::Capture(c) && c@ == (
                    "docker"@,
                    seq![
                        "compose"@, "-p"@, charm_name(app), "-f"@, compose_file@, "ps"@, "-q"@,
                        service@,
                    ],
                )),
                Plan::Dockerfile { .. } => unexpected(next, act),
            },
            DeployEvent::StepFailed(e) => failed(e@, next, act),
            _ => unexpected(next, act),
        },
        DeployStage::Listing(plan, ip) => match ev {
            DeployEvent::Output(out) => match plan {
                Plan::Compose { service, .. } => if first_line(out@).len() > 0 {
                    next matches DeployStage::Detaching(p, i, cid) && p == plan && i@ == ip@ && cid@
                        == first_line(out@) && (act matches DeployAction::Attempt(c) && c@ == (
                        "docker"@,
                        seq!["network"@, "disconnect"@, paths::NETWORK@, first_line(out@)],
                    ))
                } else {
                    failed(
                        "compose service '"@ + service@ + "' has no running container"@,
                        next,
                        act,
                    )
                },
                Plan::Dockerfile { .. } => unexpected(next, act),
            },
            DeployEvent::StepFailed(e) => failed(e@, next, act),
            _ => unexpected(next, act),
        },
        DeployStage::Detaching(plan, ip, cid) => match ev {
            DeployEvent::StepOk | DeployEvent::StepFailed(_) => next matches DeployStage::Attaching(
                p,
                i,
            ) && p == plan && i@ == ip@ && (act matches DeployAction::Run(c) && c@ == ("docker"@, seq![
                "network"@, "connect"@, "--ip"@, ip@, paths::NETWORK@, cid@,
            ])),
            _ => unexpected(next, act),
        },
        DeployStage::Attaching(plan, ip) => match ev {
            DeployEvent::StepOk => save_step(app, image, plan, ip@, next, act),
            DeployEvent::StepFailed(e) => failed(e@, next, act),
            _ => unexpected(next, act),
        },
        DeployStage::Saving(route) => match ev {
            DeployEvent::StepOk => next matches DeployStage::Publishing(h) && h@ == route.host@
                && (act matches DeployAction::Publish(r) && route_view(r) == route_view(route)),
            DeployEvent::StepFailed(e) => failed(e@, next, act),
            _ => unexpected(next, act),
        },
        DeployStage::Publishing(host) => match ev {
            DeployEvent::StepOk => next is Done && (act matches DeployAction::Finish(m) && m@
                == "charm: '"@ + app + "' is live at https://"@ + host@),
            DeployEvent::StepFailed(e) => failed(e@, next, act),
            _ => unexpected(next, act),
        },
        DeployStage::Done => unexpected(next, act),
    }
}

fn fail(e: String) -> (r: (DeployStage, DeployAction))
    ensures
        failed(e@, r.0, r.1),
{
    (DeployStage::Done, DeployAction::Fail(e))
}

fn fail_unexpected() -> (r: (DeployStage, DeployAction))
    ensures
        unexpected(r.0, r.1),
{
    fail(own("deploy: unexpected step"))
}

/// The deploy's pushed branch, if it deploys.
fn branch(gitref: &str) -> (r: Option<String>)
    ensures
        match branch_of(gitref@) {
            Some(b) => r matches Some(x) && x@ == b,
            None => r is None,
        },
{
    crate::app::deploy_branch(gitref)
}

fn start_run(app: &str, dir: &str, image: &str, plan: Plan, ip: String) -> (r: (DeployStage, DeployAction))
    ensures
        begin_run(app@, dir@, image@, plan, ip@, r.0, r.1),
{
    match &plan {
        Plan::Dockerfile { .. } => {
            let c = docker_build(image, dir);
            (DeployStage::Building(plan, ip), DeployAction::Run(c))
        },
        Plan::Compose { compose_file, .. } => {
            let c = compose_up(app, compose_file.as_str());
            (DeployStage::ComposeUp(plan, ip), DeployAction::Run(c))
        },
    }
}

fn save(app: &str, image: &str, plan: Plan, ip: String) -> (r: (DeployStage, DeployAction))
    ensures
        save_step(app@, image@, plan, ip@, r.0, r.1),
{
    let st = deployed_state(plan, ip, own(image));
    let route = caddy::route(app, st.host.as_str(), st.ip.as_str(), st.port);
    (DeployStage::Saving(route), DeployAction::SaveState(st))
}

/// The next step of a deploy (see `deploy_step`).
pub fn deploy_next(app: &str, repo: &str, gitref: &str, sha: &str, stage: DeployStage, ev: DeployEvent) -> (r: (
    DeployStage,
    DeployAction,
))
    ensures
        deploy_step(app@, repo@, gitref@, sha@, stage, ev, r.0, r.1),
{
    let dir = build_dir(app);
    let short = short_sha(sha);
    let image = image_tag(app, short.as_str());
    match stage {
        DeployStage::Start => match ev {
            DeployEvent::Pushed => match branch(gitref) {
                None => {
                    let mut m = own("charm: ignoring push to ");
                    m.append(gitref);
                    m.append(" (only main/master deploy)");
                    (DeployStage::Done, DeployAction::Ignore(m))
                },
                Some(b) => {
                    let mut note = own("charm: deploying '");
                    note.append(app);
                    note.append("' (");
                    note.append(b.as_str());
                    note.append(" @ ");
                    note.append(short.as_str());
                    note.append(")");
                    (DeployStage::Preparing, DeployAction::Prepare { note, dir })
                },
            },
            _ => fail_unexpected(),
        },
        DeployStage::Preparing => match ev {
            DeployEvent::StepOk => match branch(gitref) {
                Some(b) => {
                    let c = checkout(repo, dir.as_str(), b.as_str());
                    (DeployStage::CheckingOut, DeployAction::Run(c))
                },
                None => fail_unexpected(),
            },
            DeployEvent::StepFailed(e) => fail(e),
            _ => fail_unexpected(),
        },
        DeployStage::CheckingOut => match ev {
            DeployEvent::StepOk => (DeployStage::CheckedOut, DeployAction::MakePlan { dir }),
            DeployEvent::StepFailed(e) => fail(e),
            _ => fail_unexpected(),
        },
        DeployStage::CheckedOut => match ev {
            DeployEvent::Planned(r) => match r {
                Ok(plan) => {
                    let file = match &plan {
                        Plan::Compose { compose_file, .. } => Some(own(compose_file.as_str())),
                        Plan::Dockerfile { .. } => None,
                    };
                    match file {
                        Some(f) => (DeployStage::Checking(plan), DeployAction::CheckCompose(f)),
                        None => (DeployStage::Planned(plan), DeployAction::AssignIp),
                    }
                },
                Err(e) => fail(e.message()),
            },
            DeployEvent::StepFailed(e) => fail(e),
            _ => fail_unexpected(),
        },
        DeployStage::Checking(plan) => match ev {
            DeployEvent::Checked(r) => match r {
                Ok(_) => (DeployStage::Planned(plan), DeployAction::AssignIp),
                Err(e) => fail(e.message()),
            },
            DeployEvent::StepFailed(e) => fail(e),
            _ => fail_unexpected(),
        },
        DeployStage::Planned(plan) => match ev {
            DeployEvent::Ip(r) => match r {
                Ok((ip, fresh)) => if fresh {
                    let path = crate::app::ip_file(app);
                    let x = own(ip.as_str());
                    (DeployStage::RecordingIp(plan, ip), DeployAction::WriteIp { path, ip: x })
                } else {
                    start_run(app, dir.as_str(), image.as_str(), plan, ip)
                },
                Err(e) => fail(e.message()),
            },
            DeployEvent::StepFailed(e) => fail(e),
            _ => fail_unexpected(),
        },
        DeployStage::RecordingIp(plan, ip) => match ev {
            DeployEvent::StepOk => start_run(app, dir.as_str(), image.as_str(), plan, ip),
            DeployEvent::StepFailed(e) => fail(e),
            _ => fail_unexpected(),
        },
        DeployStage::Building(plan, ip) => match ev {
            DeployEvent::StepOk => (DeployStage::RemovingOld(plan, ip), DeployAction::Attempt(rm_container(app))),
            DeployEvent::StepFailed(e) => fail(e),
            _ => fail_unexpected(),
        },
        DeployStage::RemovingOld(plan, ip) => match ev {
            DeployEvent::StepOk | DeployEvent::StepFailed(_) => {
                let c = run_dockerfile(app, ip.as_str(), image.as_str());
                (DeployStage::Starting(plan, ip), DeployAction::Run(c))
            },
            _ => fail_unexpected(),
        },
        DeployStage::Starting(plan, ip) => match ev {
            DeployEvent::StepOk => save(app, image.as_str(), plan, ip),
            DeployEvent::StepFailed(e) => fail(e),
            _ => fail_unexpected(),
        },
        DeployStage::ComposeUp(plan, ip) => match ev {
            DeployEvent::StepOk => {
                let c = match &plan {
                    Plan::Compose { compose_file, service, .. } => {
                        let c = compose_ps(app, compose_file.as_str(), service.as_str(), false);
                        assert(c@.1 =~= seq![
                            "compose"@, "-p"@, charm_name(app@), "-f"@, compose_file@, "ps"@, "-q"@,
                            service@,
                        ]);
                        Some(c)
                    },
                    Plan::Dockerfile { .. } => None,
                };
                match c {
                    Some(c) => (DeployStage::Listing(plan, ip), DeployAction::Capture(c)),
                    None => fail_unexpected(),
                }
            },
            DeployEvent::StepFailed(e) => fail(e),
            _ => fail_unexpected(),
        },
        DeployStage::Listing(plan, ip) => match ev {
            DeployEvent::Output(out) => {
                let found = match &plan {
                    Plan::Compose { service, .. } => Some(compose_container(out.as_str(), service.as_str())),
                    Plan::Dockerfile { .. } => None,
                };
                match found {
                    Some(Ok(cid)) => {
                        let c = network_disconnect(cid.as_str());
                        (DeployStage::Detaching(plan, ip, cid), DeployAction::Attempt(c))
                    },
                    Some(Err(e)) => fail(e.message()),
                    None => fail_unexpected(),
                }
            },
            DeployEvent::StepFailed(e) => fail(e),
            _ => fail_unexpected(),
        },
        DeployStage::Detaching(plan, ip, cid) => match ev {
            DeployEvent::StepOk | DeployEvent::StepFailed(_) => {
                let c = network_connect(ip.as_str(), cid.as_str());
                (DeployStage::Attaching(plan, ip), DeployAction::Run(c))
            },
            _ => fail_unexpected(),
        },
        DeployStage::Attaching(plan, ip) => match ev {
            DeployEvent::StepOk => save(app, image.as_str(), plan, ip),
            DeployEvent::StepFailed(e) => fail(e),
            _ => fail_unexpected(),
        },
        DeployStage::Saving(route) => match ev {
            DeployEvent::StepOk => {
                let host = own(route.host.as_str());
                (DeployStage::Publishing(host), DeployAction::Publish(route))
            },
            DeployEvent::StepFailed(e) => fail(e),
            _ => fail_unexpected(),
        },
        DeployStage::Publishing(host) => match ev {
            DeployEvent::StepOk => {
                let mut m = own("charm: '");
                m.append(app);
                m.append("' is live at https://");
                m.append(host.as_str());
                (DeployStage::Done, DeployAction::Finish(m))
            },
            DeployEvent::StepFailed(e) => fail(e),
            _ => fail_unexpected(),
        },
        DeployStage::Done => fail_unexpected(),
    }
}

/// A push of `refs/heads/main` or `refs/heads/master` deploys that very
/// branch: the deploy announces it, and its checkout takes it.
pub proof fn law_pushed_branch_is_deployed(
    app: Seq<char>,
    repo: Seq<char>,
    b: Seq<char>,
    sha: Seq<char>,
    ev: DeployEvent,
    next: DeployStage,
    act: DeployAction,
    next2: DeployStage,
    act2: DeployAction,
)
    requires
        b == "main"@ || b == "master"@,
        deploy_step(app, repo, "refs/heads/"@ + b, sha, DeployStage::Start, DeployEvent::Pushed, next, act),
        deploy_step(app, repo, "refs/heads/"@ + b, sha, DeployStage::Preparing, DeployEvent::StepOk, next2, act2),
    ensures
        act matches DeployAction::Prepare { note, .. } && note@ == "charm: deploying '"@ + app + "' ("@ + b
            + " @ "@ + short_sha_of(sha) + ")"@,
        act2 matches DeployAction::Run(c) && c@ == ("git"@, seq![
            "--git-dir"@, repo, "--work-tree"@, paths::HOME@ + "/builds"@ + "/"@ + app, "checkout"@, "-f"@, b,
        ]),
{
    reveal_strlit("refs/heads/");
    reveal_strlit("refs/heads/main");
    reveal_strlit("refs/heads/master");
    reveal_strlit("main");
    reveal_strlit("master");
    if b == "main"@ {
        assert("refs/heads/"@ + b =~= "refs/heads/main"@);
    } else {
        assert("refs/heads/"@ + b =~= "refs/heads/master"@);
        assert(("refs/heads/"@ + b).len() != "refs/heads/main"@.len());
    }
}

/// A push of any other ref deploys nothing: it is ignored, and the deploy
/// is over.
pub proof fn law_other_refs_are_ignored(
    app: Seq<char>,
    repo: Seq<char>,
    gitref: Seq<char>,
    sha: Seq<char>,
    next: DeployStage,
    act: DeployAction,
)
    requires
        gitref != "refs/heads/main"@,
        gitref != "refs/heads/master"@,
        deploy_step(app, repo, gitref, sha, DeployStage::Start, DeployEvent::Pushed, next, act),
    ensures
        next is Done,
        act is Ignore,
{
}

/// The order a deploy keeps, whatever the events: the route is published
/// only right after the state was saved, and the state is saved only once
/// the container (or the attached Compose service) runs; a failed step ends
/// the deploy, except the best-effort removal of the old container and
/// detaching from the network, after which it goes on; nothing follows the
/// end.
pub proof fn law_deploy_order(
    app: Seq<char>,
    repo: Seq<char>,
    gitref: Seq<char>,
    sha: Seq<char>,
    stage: DeployStage,
    ev: DeployEvent,
    next: DeployStage,
    act: DeployAction,
)
    requires
        deploy_step(app, repo, gitref, sha, stage, ev, next, act),
    ensures
        act is Publish ==> stage is Saving && ev is StepOk,
        act is SaveState ==> (stage is Starting || stage is Attaching) && ev is StepOk,
        ev is StepFailed && !(stage is RemovingOld) && !(stage is Detaching) ==> next is Done
            && act is Fail,
        stage is RemovingOld && (ev is StepOk || ev is StepFailed) ==> act is Run && next is Starting,
        stage is Detaching && (ev is StepOk || ev is StepFailed) ==> act is Run && next is Attaching,
        stage is Done ==> next is Done && act is Fail,
{
}

} // verus!
