//! `charm uninstall`: removing Charm's control plane. By default deployed
//! app containers are left running and the uninstall refuses; `--all` tears
//! them down too, `--volumes` also drops their data.
use vstd::prelude::*;
use crate::paths;
use crate::text::{lines, nonblank_lines, string_views, trimmed_nonblank};
use crate::util::{cmd, own, Cmd};

verus! {

/// List the containers Charm started (named `charm_<app>`).
pub fn list_containers() -> (c: Cmd)
    ensures
        c@ == ("docker"@, seq![
            "ps"@,
            "-a"@,
            "--filter"@,
            "name=charm_"@,
            "--format"@,
            "{{.Names}}"@,
        ]),
{
    let args = vec![
        own("ps"),
        own("-a"),
        own("--filter"),
        own("name=charm_"),
        own("--format"),
        own("{{.Names}}"),
    ];
    assert(string_views(args@) =~= seq![
        "ps"@,
        "-a"@,
        "--filter"@,
        "name=charm_"@,
        "--format"@,
        "{{.Names}}"@,
    ]);
    cmd("docker", args)
}

/// The container names in the listing's output (none when it failed).
pub fn charm_containers(stdout: Option<&str>) -> (r: Vec<String>)
    ensures
        string_views(r@) == match stdout {
            Some(out) => trimmed_nonblank(lines(out@)),
            None => Seq::empty(),
        },
{
    match stdout {
        Some(out) => nonblank_lines(out),
        None => {
            let r: Vec<String> = Vec::new();
            assert(string_views(r@) =~= Seq::empty());
            r
        },
    }
}

/// Remove one app container, and with `volumes` its anonymous volumes.
pub fn teardown_container(name: &str, volumes: bool) -> (c: Cmd)
    ensures
        c@ == ("docker"@, (if volumes {
            seq!["rm"@, "-f"@, "-v"@]
        } else {
            seq!["rm"@, "-f"@]
        }) + seq![name@]),
{
    let mut args = vec![own("rm"), own("-f")];
    if volumes {
        args.push(own("-v"));
    }
    args.push(own(name));
    assert(string_views(args@) =~= (if volumes {
        seq!["rm"@, "-f"@, "-v"@]
    } else {
        seq!["rm"@, "-f"@]
    }) + seq![name@]);
    cmd("docker", args)
}

pub enum UninstallError {
    NotRoot,
    /// Apps are still deployed and `--all` was not given; carries how many.
    AppsDeployed(usize),
}

impl UninstallError {
    pub fn message(&self) -> (r: String)
        ensures
            r@ == match self {
                UninstallError::NotRoot =>
                    "charm uninstall must run as root (try: sudo charm uninstall ...)"@,
                UninstallError::AppsDeployed(_) =>
                    "refusing to remove the control plane while apps are deployed"@,
            },
    {
        match self {
            UninstallError::NotRoot => own(
                "charm uninstall must run as root (try: sudo charm uninstall ...)",
            ),
            UninstallError::AppsDeployed(_) => own(
                "refusing to remove the control plane while apps are deployed",
            ),
        }
    }
}

/// The best-effort commands of an uninstall, in order: with `all`, each app
/// container torn down; then the `charm` user with its home (if it exists);
/// then the charm network. (The binary is unlinked last.) Refused unless
/// root, and refused while containers remain and `all` is not given.
pub fn plan(root: bool, containers: &Vec<String>, all: bool, volumes: bool, user_exists: bool) -> (r:
    Result<Vec<Cmd>, UninstallError>)
    ensures
        !root ==> r matches Err(UninstallError::NotRoot),
        root && containers@.len() > 0 && !all ==> (r matches Err(UninstallError::AppsDeployed(n))
            && n == containers@.len()),
        root && (containers@.len() == 0 || all) ==> (r matches Ok(cmds) && cmds@.len()
            == containers@.len() + (if user_exists { 1int } else { 0 }) + 1 && (forall|i: int|
            0 <= i < containers@.len() ==> (#[trigger] cmds@[i])@ == ("docker"@, (if volumes {
                seq!["rm"@, "-f"@, "-v"@]
            } else {
                seq!["rm"@, "-f"@]
            }) + seq![containers@[i]@])) && (user_exists ==> cmds@[containers@.len() as int]@ == (
        "userdel"@, seq!["-r"@, paths::USER@])) && cmds@.last()@ == ("docker"@, seq![
            "network"@,
            "rm"@,
            paths::NETWORK@,
        ])),
{
    if !root {
        return Err(UninstallError::NotRoot);
    }
    if containers.len() > 0 && !all {
        return Err(UninstallError::AppsDeployed(containers.len()));
    }
    let mut cmds: Vec<Cmd> = Vec::new();
    let mut i: usize = 0;
    while i < containers.len()
        invariant
            i <= containers.len(),
            cmds@.len() == i,
            forall|j: int|
                0 <= j < i ==> (#[trigger] cmds@[j])@ == ("docker"@, (if volumes {
                    seq!["rm"@, "-f"@, "-v"@]
                } else {
                    seq!["rm"@, "-f"@]
                }) + seq![containers@[j]@]),
        decreases containers.len() - i,
    {
        cmds.push(teardown_container(containers[i].as_str(), volumes));
        i = i + 1;
    }
    if user_exists {
        let args = vec![own("-r"), own(paths::USER)];
        assert(string_views(args@) =~= seq!["-r"@, paths::USER@]);
        cmds.push(cmd("userdel", args));
    }
    let args = vec![own("network"), own("rm"), own(paths::NETWORK)];
    assert(string_views(args@) =~= seq!["network"@, "rm"@, paths::NETWORK@]);
    cmds.push(cmd("docker", args));
    Ok(cmds)
}

} // verus!
