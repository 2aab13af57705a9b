//! The SSH forced command (`charm shell`): what a session of the `charm`
//! user may do. A push (`git-receive-pack '<app>'`) goes to the app's bare
//! repo, whose `post-receive` hook deploys it; a session without a command
//! opens the console; anything else is refused, since there is no shell
//! access.
use vstd::prelude::*;
use crate::paths;
use crate::text::{chars_of, ends_with, ends_with_chars, string_of, string_views, trim, trim_chars, words, words_chars};
use crate::util::{cmd, own, Cmd};

verus! {

/// What a session asked for.
pub enum ShellRequest {
    /// No command: an interactive session, which opens the console.
    Console,
    /// A push to the app of this name.
    Push(String),
    /// Anything else.
    Refused,
}

/// A character an app name may hold.
pub open spec fn name_char(c: char) -> bool {
    ('a' <= c && c <= 'z') || ('A' <= c && c <= 'Z') || ('0' <= c && c <= '9') || c == '-' || c
        == '_'
}

/// An app name: ASCII letters, digits, `-` and `_`, not starting with `-`.
pub open spec fn valid_name(n: Seq<char>) -> bool {
    n.len() > 0 && n[0] != '-' && forall|i: int| 0 <= i < n.len() ==> name_char(#[trigger] n[i])
}

/// The path a push names without its quotes (if both are there).
pub open spec fn unquote(p: Seq<char>) -> Seq<char> {
    if p.len() >= 2 && p[0] == '\'' && p.last() == '\'' {
        p.subrange(1, p.len() - 1)
    } else {
        p
    }
}

/// The app a pushed path names: without quotes, a leading `/` and a
/// trailing `.git`.
pub open spec fn push_target(p: Seq<char>) -> Seq<char> {
    let a = unquote(p);
    let b = if a.len() > 0 && a[0] == '/' {
        a.skip(1)
    } else {
        a
    };
    if ends_with(b, ".git"@) {
        b.take(b.len() - 4)
    } else {
        b
    }
}

/// How a session's command (`$SSH_ORIGINAL_COMMAND`, if set) is answered:
/// none or a blank one opens the console; `git-receive-pack <path>` pushes
/// to the app the path names, if that is a valid name; anything else is
/// refused.
pub open spec fn shell_answer(command: Option<Seq<char>>) -> Option<Option<Seq<char>>> {
    match command {
        None => None,
        Some(c) => if trim(c).len() == 0 {
            None
        } else {
            let w = words(c);
            if w.len() == 2 && w[0] == "git-receive-pack"@ && valid_name(push_target(w[1])) {
                Some(Some(push_target(w[1])))
            } else {
                Some(None)
            }
        },
    }
}

fn valid_name_exec(n: &Vec<char>) -> (r: bool)
    ensures
        r == valid_name(n@),
{
    if n.len() == 0 || n[0] == '-' {
        return false;
    }
    let mut i: usize = 0;
    while i < n.len()
        invariant
            i <= n.len(),
            forall|j: int| 0 <= j < i ==> name_char(#[trigger] n@[j]),
        decreases n.len() - i,
    {
        let c = n[i];
        if !(('a' <= c && c <= 'z') || ('A' <= c && c <= 'Z') || ('0' <= c && c <= '9') || c == '-'
            || c == '_') {
            return false;
        }
        i = i + 1;
    }
    true
}

/// `v[from..to]`.
fn slice(v: &Vec<char>, from: usize, to: usize) -> (r: Vec<char>)
    requires
        from <= to <= v.len(),
    ensures
        r@ == v@.subrange(from as int, to as int),
{
    let mut r: Vec<char> = Vec::new();
    let mut k: usize = from;
    while k < to
        invariant
            from <= k <= to,
            to <= v.len(),
            r@ == v@.subrange(from as int, k as int),
        decreases to - k,
    {
        r.push(v[k]);
        k = k + 1;
        assert(r@ =~= v@.subrange(from as int, k as int));
    }
    r
}

fn push_target_exec(p: &Vec<char>) -> (r: Vec<char>)
    ensures
        r@ == push_target(p@),
{
    let a = if p.len() >= 2 && p[0] == '\'' && p[p.len() - 1] == '\'' {
        slice(p, 1, p.len() - 1)
    } else {
        slice(p, 0, p.len())
    };
    assert(p@.subrange(0, p@.len() as int) =~= p@);
    let b = if a.len() > 0 && a[0] == '/' {
        slice(&a, 1, a.len())
    } else {
        slice(&a, 0, a.len())
    };
    assert(a@.subrange(0, a@.len() as int) =~= a@);
    assert(a@.subrange(1, a@.len() as int) =~= a@.skip(1));
    let git = chars_of(".git");
    proof {
        reveal_strlit(".git");
    }
    if ends_with_chars(&b, &git) {
        assert(b@.len() >= 4) by {
            assert(ends_with(b@, ".git"@));
        }
        let r = slice(&b, 0, b.len() - 4);
        assert(r@ =~= b@.take(b@.len() - 4));
        r
    } else {
        slice(&b, 0, b.len())
    }
}

/// What a session asked for, from its command.
pub fn shell_request(command: Option<&str>) -> (r: ShellRequest)
    ensures
        match shell_answer(
            match command {
                Some(c) => Some(c@),
                None => None,
            },
        ) {
            None => r is Console,
            Some(None) => r is Refused,
            Some(Some(app)) => r matches ShellRequest::Push(a) && a@ == app,
        },
{
    let c = match command {
        None => return ShellRequest::Console,
        Some(c) => c,
    };
    let v = chars_of(c);
    let t = trim_chars(&v);
    if t.len() == 0 {
        return ShellRequest::Console;
    }
    let w = words_chars(&v);
    let verb = chars_of("git-receive-pack");
    if w.len() != 2 {
        return ShellRequest::Refused;
    }
    assert(w@[0]@ == words(c@)[0] && w@[1]@ == words(c@)[1]);
    if !crate::text::eq_chars(&w[0], &verb) {
        return ShellRequest::Refused;
    }
    let name = push_target_exec(&w[1]);
    if !valid_name_exec(&name) {
        return ShellRequest::Refused;
    }
    ShellRequest::Push(string_of(&name))
}

/// The bare repository of an app.
pub fn repo_dir(app: &str) -> (r: String)
    ensures
        r@ == paths::HOME@ + "/repos"@ + "/"@ + app@ + ".git"@,
{
    let mut r = paths::repos();
    r.append("/");
    r.append(app);
    r.append(".git");
    r
}

/// Creating the bare repository (harmless when it exists).
pub fn init_repo(repo: &str) -> (c: Cmd)
    ensures
        c@ == ("git"@, seq!["init"@, "--bare"@, "--quiet"@, repo@]),
{
    let args = vec![own("init"), own("--bare"), own("--quiet"), own(repo)];
    assert(string_views(args@) =~= seq!["init"@, "--bare"@, "--quiet"@, repo@]);
    cmd("git", args)
}

/// Where the repository's `post-receive` hook lives.
pub fn hook_path(repo: &str) -> (r: String)
    ensures
        r@ == repo@ + "/hooks/post-receive"@,
{
    let mut r = own(repo);
    r.append("/hooks/post-receive");
    r
}

/// The `post-receive` hook: each pushed ref is handed to `charm deploy`
/// with the app, the repository, the ref and the new commit.
pub fn hook_text(app: &str, repo: &str) -> (r: String)
    ensures
        r@ == "#!/bin/sh\nwhile read old new ref; do\n  "@ + paths::BIN@ + " deploy '"@ + app@ + "' '"@
            + repo@ + "' \"$ref\" \"$new\"\ndone\n"@,
{
    let mut r = own("#!/bin/sh\nwhile read old new ref; do\n  ");
    r.append(paths::BIN);
    r.append(" deploy '");
    r.append(app);
    r.append("' '");
    r.append(repo);
    r.append("' \"$ref\" \"$new\"\ndone\n");
    r
}

/// The command that receives the push into the repository.
pub fn receive_pack(repo: &str) -> (c: Cmd)
    ensures
        c@ == ("git-receive-pack"@, seq![repo@]),
{
    let args = vec![own(repo)];
    assert(string_views(args@) =~= seq![repo@]);
    cmd("git-receive-pack", args)
}

} // verus!
