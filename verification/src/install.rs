//! `charm install`: provisioning this host. Idempotent: each step checks
//! first and only acts when something is missing.
use vstd::prelude::*;
use crate::paths;
use crate::text::string_views;
use crate::util::{cmd, own, Cmd};
use crate::keys::{appended, material};
use crate::text::{contains, trim};

verus! {

/// Whether the `charm` user exists: this command succeeds.
pub fn user_exists() -> (c: Cmd)
    ensures
        c@ == ("id"@, seq![paths::USER@]),
{
    let args = vec![own(paths::USER)];
    assert(string_views(args@) =~= seq![paths::USER@]);
    cmd("id", args)
}

/// Create the `charm` user unless it exists. It gets a real shell, so that
/// sshd can run the forced command; access is restricted by that command.
/// The command that creates the `charm` user, unless it exists.
pub open spec fn user_creation(exists: bool) -> Option<(Seq<char>, Seq<Seq<char>>)> {
    if exists {
        None
    } else {
        Some(("useradd"@, seq!["-m"@, "-s"@, "/bin/bash"@, paths::USER@]))
    }
}

pub fn ensure_user(exists: bool) -> (r: Option<Cmd>)
    ensures
        match r {
            Some(c) => user_creation(exists) == Some(c@),
            None => user_creation(exists) is None,
        },
{
    if exists {
        return None;
    }
    let args = vec![own("-m"), own("-s"), own("/bin/bash"), own(paths::USER)];
    assert(string_views(args@) =~= seq!["-m"@, "-s"@, "/bin/bash"@, paths::USER@]);
    Some(cmd("useradd", args))
}

/// The directories `install` creates (the first is made private).
pub fn ensure_dirs() -> (r: Vec<String>)
    ensures
        string_views(r@) == seq![
            paths::HOME@ + "/.ssh"@,
            paths::HOME@ + "/repos"@,
            paths::HOME@ + "/builds"@,
            paths::HOME@ + "/state"@,
        ],
{
    let r = vec![paths::ssh_dir(), paths::repos(), paths::builds(), paths::state()];
    assert(string_views(r@) =~= seq![
        paths::HOME@ + "/.ssh"@,
        paths::HOME@ + "/repos"@,
        paths::HOME@ + "/builds"@,
        paths::HOME@ + "/state"@,
    ]);
    r
}

/// Let the `charm` user reach Docker.
pub fn ensure_docker_group() -> (c: Cmd)
    ensures
        c@ == ("usermod"@, seq!["-aG"@, "docker"@, paths::USER@]),
{
    let args = vec![own("-aG"), own("docker"), own(paths::USER)];
    assert(string_views(args@) =~= seq!["-aG"@, "docker"@, paths::USER@]);
    cmd("usermod", args)
}

/// Whether the charm network exists: this command succeeds.
pub fn network_exists() -> (c: Cmd)
    ensures
        c@ == ("docker"@, seq!["network"@, "inspect"@, paths::NETWORK@]),
{
    let args = vec![own("network"), own("inspect"), own(paths::NETWORK)];
    assert(string_views(args@) =~= seq!["network"@, "inspect"@, paths::NETWORK@]);
    cmd("docker", args)
}

/// Create the charm network on its subnet unless it exists.
/// The command that creates the charm network, unless it exists.
pub open spec fn network_creation(exists: bool) -> Option<(Seq<char>, Seq<Seq<char>>)> {
    if exists {
        None
    } else {
        Some(("docker"@, seq!["network"@, "create"@, "--subnet"@, paths::SUBNET@, paths::NETWORK@]))
    }
}

pub fn ensure_network(exists: bool) -> (r: Option<Cmd>)
    ensures
        match r {
            Some(c) => network_creation(exists) == Some(c@),
            None => network_creation(exists) is None,
        },
{
    if exists {
        return None;
    }
    let args = vec![
        own("network"),
        own("create"),
        own("--subnet"),
        own(paths::SUBNET),
        own(paths::NETWORK),
    ];
    assert(string_views(args@) =~= seq![
        "network"@,
        "create"@,
        "--subnet"@,
        paths::SUBNET@,
        paths::NETWORK@,
    ]);
    Some(cmd("docker", args))
}

/// Hand the whole home directory to the `charm` user.
pub fn chown_home() -> (c: Cmd)
    ensures
        c@ == ("chown"@, seq!["-R"@, paths::USER@ + ":"@ + paths::USER@, paths::HOME@]),
{
    let mut owner = own(paths::USER);
    owner.append(":");
    owner.append(paths::USER);
    let args = vec![own("-R"), owner, own(paths::HOME)];
    assert(string_views(args@) =~= seq!["-R"@, paths::USER@ + ":"@ + paths::USER@, paths::HOME@]);
    cmd("chown", args)
}

/// Installing again changes nothing: once the first install has created the
/// `charm` user and network, neither is created again, and the key it
/// authorized (whether its line was appended or its material was already in
/// `authorized_keys`) is found there, so authorizing it again writes nothing.
pub proof fn law_install_again_changes_nothing(existing: Seq<char>, key: Seq<char>, m: Seq<char>)
    requires
        material(trim(key)) == Some(m),
    ensures
        user_creation(true) is None,
        network_creation(true) is None,
        contains(appended(existing, key), m),
{
    crate::keys::law_readd_same_material_is_noop(existing, key, m);
}

} // verus!
