//! Filesystem locations and names Charm owns. The `charm` user's home is
//! fixed, so these are constants: `install` (as root) and the per-push
//! commands (as `charm`) must agree on them.
use vstd::prelude::*;

verus! {

pub const USER: &'static str = "charm";

pub const HOME: &'static str = "/home/charm";

/// In `/usr/bin` so that `sudo charm` finds it under every distribution's
/// `secure_path`.
pub const BIN: &'static str = "/usr/bin/charm";

pub const NETWORK: &'static str = "charm";

pub const SUBNET: &'static str = "172.20.0.0/16";

/// `HOME` followed by `suffix`.
fn under_home(suffix: &str) -> (r: String)
    ensures
        r@ == HOME@ + suffix@,
{
    let mut s = String::from_str(HOME);
    s.append(suffix);
    s
}

pub fn ssh_dir() -> (r: String)
    ensures
        r@ == HOME@ + "/.ssh"@,
{
    under_home("/.ssh")
}

pub fn authorized_keys() -> (r: String)
    ensures
        r@ == HOME@ + "/.ssh/authorized_keys"@,
{
    under_home("/.ssh/authorized_keys")
}

pub fn repos() -> (r: String)
    ensures
        r@ == HOME@ + "/repos"@,
{
    under_home("/repos")
}

pub fn builds() -> (r: String)
    ensures
        r@ == HOME@ + "/builds"@,
{
    under_home("/builds")
}

pub fn state() -> (r: String)
    ensures
        r@ == HOME@ + "/state"@,
{
    under_home("/state")
}

} // verus!
