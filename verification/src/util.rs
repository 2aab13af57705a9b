//! Shared plain types: the outcome of reading a file, an external command to
//! run, and the root check.
use vstd::prelude::*;
use crate::paths;
use crate::text::{eq_str, string_views, trim, trim_str};

verus! {

/// What reading a file gave: its text, or why not.
pub enum FileRead {
    Content(String),
    NotFound,
    PermissionDenied,
    /// Any other failure, with the system's description of it.
    Failed(String),
}

/// An external command: a program and its arguments.
pub struct Cmd {
    pub bin: String,
    pub args: Vec<String>,
}

impl View for Cmd {
    type V = (Seq<char>, Seq<Seq<char>>);

    open spec fn view(&self) -> (Seq<char>, Seq<Seq<char>>) {
        (self.bin@, string_views(self.args@))
    }
}

/// The owned string for `s`.
pub fn own(s: &str) -> (r: String)
    ensures
        r@ == s@,
{
    String::from_str(s)
}

/// The command `bin args...`.
pub fn cmd(bin: &str, args: Vec<String>) -> (c: Cmd)
    ensures
        c@ == (bin@, string_views(args@)),
{
    Cmd { bin: own(bin), args }
}

/// Whether `id -u` reported uid 0: its standard output, when the command ran
/// and printed UTF-8, trimmed, is exactly `0`.
pub fn is_root(id_stdout: Option<&str>) -> (r: bool)
    ensures
        r == match id_stdout {
            Some(s) => trim(s@) == "0"@,
            None => false,
        },
{
    match id_stdout {
        Some(s) => {
            let t = trim_str(s);
            eq_str(t.as_str(), "0")
        },
        None => false,
    }
}

pub enum RootError {
    NotRoot,
}

impl RootError {
    pub fn message(&self) -> (r: String)
        ensures
            r@ == "this command must run as root (try with sudo)"@,
    {
        own("this command must run as root (try with sudo)")
    }
}

/// Commands that change Charm's files refuse to run unless as root.
pub fn require_root(root: bool) -> (r: Result<(), RootError>)
    ensures
        r is Ok <==> root,
{
    if !root {
        return Err(RootError::NotRoot);
    }
    Ok(())
}

/// `chown charm:charm <path>`: keep files Charm writes owned by the charm user.
pub fn chown_charm(path: &str) -> (c: Cmd)
    ensures
        c@ == ("chown"@, seq![paths::USER@ + ":"@ + paths::USER@, path@]),
{
    let mut owner = own(paths::USER);
    owner.append(":");
    owner.append(paths::USER);
    let args = vec![owner, own(path)];
    assert(string_views(args@) =~= seq![paths::USER@ + ":"@ + paths::USER@, path@]);
    cmd("chown", args)
}

} // verus!
