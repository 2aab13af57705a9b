//! The SSH public keys authorized to push: the forced-command lines of
//! `<home>/.ssh/authorized_keys`. A key is identified by its key material
//! (the base64 field), so re-adding it with another comment is a no-op; in
//! listings a key is identified by its number (its position, from 1).
use vstd::prelude::*;
use crate::paths;
use crate::text::{
    is_ws, lemma_contains_within, lemma_find_same, lemma_lines_end_newline, lemma_lines_from_append,
    lemma_lines_join, lemma_lines_no_newline, lemma_lines_single, lemma_occurs_strip_cr,
    lemma_trim_ends, lemma_trim_push_ws, lemma_trim_strip_cr, lemma_words_occur, strip_cr,
    occurs_at,
    append_chars, append_str, chars_of, contains, contains_chars, decimal, decimal_string,
    find, find_chars, join, join_chars, lines, lines_chars, starts_with, starts_with_chars,
    string_of, string_views, trim, trim_chars, views, words, words_chars,
};
use crate::util::{own, FileRead};

verus! {

// ---------------------------------------------------------------------------
// Model

/// The options that restrict a key to running `charm shell`.
pub open spec fn options() -> Seq<char> {
    "command=\""@ + paths::BIN@ + " shell\",no-agent-forwarding,no-port-forwarding,no-X11-forwarding "@
}

/// The `authorized_keys` line for a key: the options, then the trimmed key.
pub open spec fn forced_line(key: Seq<char>) -> Seq<char> {
    options() + trim(key)
}

pub open spec fn is_key_type(t: Seq<char>) -> bool {
    starts_with(t, "ssh-"@) || starts_with(t, "ecdsa-"@) || starts_with(t, "sk-"@)
}

/// The base64 key material (the second field) of a public key, if its first
/// field names a key type.
pub open spec fn material(key: Seq<char>) -> Option<Seq<char>> {
    let w = words(key);
    if w.len() > 0 && is_key_type(w[0]) && w.len() > 1 {
        Some(w[1])
    } else {
        None
    }
}

/// The "type base64 comment" part of a line: after the first of the markers
/// ` ssh-`, ` ecdsa-`, ` sk-` (tried in that order) that occurs, trimmed.
pub open spec fn key_part(line: Seq<char>) -> Seq<char> {
    match find(line, " ssh-"@) {
        Some(i) => trim(line.skip(i + 1)),
        None => match find(line, " ecdsa-"@) {
            Some(i) => trim(line.skip(i + 1)),
            None => match find(line, " sk-"@) {
                Some(i) => trim(line.skip(i + 1)),
                None => trim(line),
            },
        },
    }
}

/// The one-line description of a key line: its type, two spaces, and its
/// comment (or `(no comment)`).
pub open spec fn description(line: Seq<char>) -> Seq<char> {
    let w = words(key_part(line));
    let typ = if w.len() > 0 {
        w[0]
    } else {
        "?"@
    };
    let comment = if w.len() > 2 {
        join(w.skip(2), " "@)
    } else {
        "(no comment)"@
    };
    typ + "  "@ + comment
}

/// The lines that are not blank, untrimmed, in order.
pub open spec fn nonblank(ls: Seq<Seq<char>>) -> Seq<Seq<char>>
    decreases ls.len(),
{
    if ls.len() == 0 {
        Seq::empty()
    } else {
        let before = nonblank(ls.drop_last());
        if trim(ls.last()).len() > 0 {
            before.push(ls.last())
        } else {
            before
        }
    }
}

/// The key lines of an `authorized_keys` text.
pub open spec fn key_lines(content: Seq<char>) -> Seq<Seq<char>> {
    nonblank(lines(content))
}

/// The descriptions of the keys in an `authorized_keys` text, in order.
pub open spec fn entries_of(content: Seq<char>) -> Seq<Seq<char>> {
    key_lines(content).map_values(|l: Seq<char>| description(l))
}

/// The text after appending the line for `key` to `existing`: a line break
/// is first added if the text is not empty and does not end with one.
pub open spec fn appended(existing: Seq<char>, key: Seq<char>) -> Seq<char> {
    let sep = if existing.len() > 0 && existing.last() != '\n' {
        seq!['\n']
    } else {
        Seq::empty()
    };
    existing + sep + forced_line(key) + seq!['\n']
}

/// The text written after removing key line `idx`: the remaining key lines,
/// each ended by a line break.
pub open spec fn rewritten(lines: Seq<Seq<char>>, idx: int) -> Seq<char> {
    let kept = lines.remove(idx);
    if kept.len() == 0 {
        Seq::empty()
    } else {
        join(kept, seq!['\n']) + seq!['\n']
    }
}

// ---------------------------------------------------------------------------
// Errors

pub enum KeyError {
    NotRoot,
    /// The text is not an SSH public key.
    NotAKey,
    /// The keys file exists but this user may not read it.
    CannotRead,
    /// Reading the keys file failed; carries the cause.
    ReadFailed(String),
    /// No key has this number.
    NoSuchKey(usize),
}

impl KeyError {
    pub fn message(&self) -> (r: String)
        ensures
            r@ == match self {
                KeyError::NotRoot => "this command must run as root (try with sudo)"@,
                KeyError::NotAKey =>
                    "not an SSH public key (expected e.g. `ssh-ed25519 AAAA... you@host`)"@,
                KeyError::CannotRead =>
                    "cannot read authorized keys - run as root (sudo) or the charm user"@,
                KeyError::ReadFailed(_) => "reading authorized_keys"@,
                KeyError::NoSuchKey(n) => "no key #"@ + decimal(*n as nat)
                    + " (see `charm key list`)"@,
            },
    {
        match self {
            KeyError::NotRoot => own("this command must run as root (try with sudo)"),
            KeyError::NotAKey => own(
                "not an SSH public key (expected e.g. `ssh-ed25519 AAAA... you@host`)",
            ),
            KeyError::CannotRead => own(
                "cannot read authorized keys - run as root (sudo) or the charm user",
            ),
            KeyError::ReadFailed(_) => own("reading authorized_keys"),
            KeyError::NoSuchKey(n) => {
                let mut s = own("no key #");
                let d = decimal_string(*n as u64);
                s.append(d.as_str());
                s.append(" (see `charm key list`)");
                s
            },
        }
    }
}

// ---------------------------------------------------------------------------
// Operations

/// The `authorized_keys` line that lets `key` run only `charm shell`.
pub fn forced_command_line(key: &str) -> (r: String)
    ensures
        r@ == forced_line(key@),
{
    let mut s = own("command=\"");
    s.append(paths::BIN);
    s.append(" shell\",no-agent-forwarding,no-port-forwarding,no-X11-forwarding ");
    let t = crate::text::trim_str(key);
    s.append(t.as_str());
    s
}

fn is_key_type_exec(t: &Vec<char>) -> (r: bool)
    ensures
        r == is_key_type(t@),
{
    let a = chars_of("ssh-");
    let b = chars_of("ecdsa-");
    let c = chars_of("sk-");
    starts_with_chars(t, &a) || starts_with_chars(t, &b) || starts_with_chars(t, &c)
}

/// The key material of `key`, or `None` if it does not look like a key.
pub fn key_material(key: &str) -> (r: Option<String>)
    ensures
        match r {
            Some(m) => material(key@) == Some(m@),
            None => material(key@) is None,
        },
{
    let v = chars_of(key);
    let w = words_chars(&v);
    assert(views(w@) == words(key@));
    if w.len() == 0 {
        return None;
    }
    assert(views(w@)[0] == w@[0]@);
    if !is_key_type_exec(&w[0]) {
        return None;
    }
    if w.len() < 2 {
        return None;
    }
    assert(views(w@)[1] == w@[1]@);
    Some(string_of(&w[1]))
}

/// The "type base64 comment" part of a key line.
pub fn key_str(line: &Vec<char>) -> (r: Vec<char>)
    ensures
        r@ == key_part(line@),
{
    let m1 = chars_of(" ssh-");
    proof {
        reveal_strlit(" ssh-");
        assert(m1@.len() == 5);
    }
    if let Some(i) = find_chars(line, &m1) {
        assert(occurs_at(line@, m1@, i as int));
        assert(i + m1@.len() <= line@.len());
        assert(i < line.len());
        let rest = suffix(line, i + 1);
        return trim_chars(&rest);
    }
    let m2 = chars_of(" ecdsa-");
    proof {
        reveal_strlit(" ecdsa-");
        assert(m2@.len() == 7);
    }
    if let Some(i) = find_chars(line, &m2) {
        assert(occurs_at(line@, m2@, i as int));
        assert(i + m2@.len() <= line@.len());
        assert(i < line.len());
        let rest = suffix(line, i + 1);
        return trim_chars(&rest);
    }
    let m3 = chars_of(" sk-");
    proof {
        reveal_strlit(" sk-");
        assert(m3@.len() == 4);
    }
    if let Some(i) = find_chars(line, &m3) {
        assert(occurs_at(line@, m3@, i as int));
        assert(i + m3@.len() <= line@.len());
        assert(i < line.len());
        let rest = suffix(line, i + 1);
        return trim_chars(&rest);
    }
    trim_chars(line)
}

/// The characters of `v` from position `from` on.
fn suffix(v: &Vec<char>, from: usize) -> (r: Vec<char>)
    requires
        from <= v.len(),
    ensures
        r@ == v@.skip(from as int),
{
    let mut r: Vec<char> = Vec::new();
    let mut k: usize = from;
    while k < v.len()
        invariant
            from <= k <= v.len(),
            r@ == v@.subrange(from as int, k as int),
        decreases v.len() - k,
    {
        r.push(v[k]);
        k = k + 1;
        assert(r@ =~= v@.subrange(from as int, k as int));
    }
    assert(r@ =~= v@.skip(from as int));
    r
}

/// The one-line description of a key line, e.g. `ssh-ed25519  you@laptop`.
pub fn describe(line: &Vec<char>) -> (r: String)
    ensures
        r@ == description(line@),
{
    let k = key_str(line);
    let w = words_chars(&k);
    let mut out: Vec<char> = Vec::new();
    if w.len() > 0 {
        assert(views(w@)[0] == w@[0]@);
        append_chars(&mut out, &w[0]);
    } else {
        append_str(&mut out, "?");
    }
    append_str(&mut out, "  ");
    if w.len() > 2 {
        let mut rest: Vec<Vec<char>> = Vec::new();
        let mut i: usize = 2;
        while i < w.len()
            invariant
                2 <= i <= w.len(),
                views(rest@) == views(w@).subrange(2, i as int),
            decreases w.len() - i,
        {
            let ghost before = views(rest@);
            let x = copy_chars(&w[i]);
            rest.push(x);
            assert(views(rest@) =~= before.push(w@[i as int]@));
            assert(views(w@).subrange(2, i + 1) =~= views(w@).subrange(2, i as int).push(
                views(w@)[i as int],
            ));
            i = i + 1;
        }
        assert(views(w@).subrange(2, i as int) =~= views(w@).skip(2));
        let sp = chars_of(" ");
        let c = join_chars(&rest, &sp);
        append_chars(&mut out, &c);
    } else {
        append_str(&mut out, "(no comment)");
    }
    string_of(&out)
}

fn copy_chars(v: &Vec<char>) -> (r: Vec<char>)
    ensures
        r@ == v@,
{
    let mut r: Vec<char> = Vec::new();
    append_chars(&mut r, v);
    assert(r@ =~= v@);
    r
}

/// The non-blank lines of a text, untrimmed.
fn nonblank_lines_raw(content: &str) -> (r: Vec<Vec<char>>)
    ensures
        views(r@) == key_lines(content@),
{
    let v = chars_of(content);
    let ls = lines_chars(&v);
    let mut r: Vec<Vec<char>> = Vec::new();
    let mut i: usize = 0;
    assert(views(r@) =~= nonblank(views(ls@).take(0)));
    while i < ls.len()
        invariant
            i <= ls.len(),
            views(r@) == nonblank(views(ls@).take(i as int)),
        decreases ls.len() - i,
    {
        let ghost before = views(r@);
        assert(views(ls@).take(i + 1).drop_last() =~= views(ls@).take(i as int));
        assert(views(ls@).take(i + 1).last() == ls@[i as int]@);
        let t = trim_chars(&ls[i]);
        if t.len() > 0 {
            r.push(copy_chars(&ls[i]));
            assert(views(r@) =~= before.push(ls@[i as int]@));
        }
        i = i + 1;
    }
    assert(views(ls@).take(i as int) =~= views(ls@));
    r
}

/// The descriptions of the given key lines.
fn describe_all(ls: &Vec<Vec<char>>) -> (r: Vec<String>)
    ensures
        string_views(r@) == views(ls@).map_values(|l: Seq<char>| description(l)),
{
    let mut r: Vec<String> = Vec::new();
    let mut i: usize = 0;
    while i < ls.len()
        invariant
            i <= ls.len(),
            string_views(r@) == views(ls@).take(i as int).map_values(
                |l: Seq<char>| description(l),
            ),
        decreases ls.len() - i,
    {
        let ghost before = string_views(r@);
        let d = describe(&ls[i]);
        r.push(d);
        assert(string_views(r@) =~= before.push(description(ls@[i as int]@)));
        assert(views(ls@).take(i + 1).map_values(|l: Seq<char>| description(l)) =~= views(ls@).take(
            i as int,
        ).map_values(|l: Seq<char>| description(l)).push(description(ls@[i as int]@)));
        i = i + 1;
    }
    assert(views(ls@).take(i as int) =~= views(ls@));
    r
}

/// Authorize a public key, given the current text of `authorized_keys`
/// (empty if it could not be read). Returns the key's description and, when
/// the key is not yet there, the new text to write.
pub fn add(key: &str, existing: &str) -> (r: Result<(String, Option<String>), KeyError>)
    ensures
        material(trim(key@)) is None ==> r matches Err(KeyError::NotAKey),
        material(trim(key@)) matches Some(m) ==> (r matches Ok((desc, new)) && desc@
            == description(forced_line(key@)) && (contains(existing@, m) ==> new is None) && (
        !contains(existing@, m) ==> (new matches Some(t) && t@ == appended(existing@, key@)))),
{
    let k = crate::text::trim_str(key);
    let m = match key_material(k.as_str()) {
        Some(m) => m,
        None => return Err(KeyError::NotAKey),
    };
    let line = forced_command_line(k.as_str());
    proof {
        crate::text::lemma_trim_idempotent(key@);
    }
    let lv = chars_of(line.as_str());
    let desc = describe(&lv);
    let ev = chars_of(existing);
    let mv = chars_of(m.as_str());
    if contains_chars(&ev, &mv) {
        return Ok((desc, None));
    }
    let mut content = own(existing);
    if ev.len() > 0 && ev[ev.len() - 1] != '\n' {
        content.push('\n');
    }
    content.append(line.as_str());
    content.push('\n');
    assert(content@ =~= appended(existing@, key@));
    Ok((desc, Some(content)))
}

/// The descriptions of the authorized keys, in order (number = index + 1).
/// Only a permission failure is an error; an unreadable file has no keys.
pub fn entries(read: &FileRead) -> (r: Result<Vec<String>, KeyError>)
    ensures
        match read {
            FileRead::Content(c) => r matches Ok(v) && string_views(v@) == entries_of(c@),
            FileRead::PermissionDenied => r matches Err(KeyError::CannotRead),
            _ => r matches Ok(v) && v@.len() == 0,
        },
{
    match read {
        FileRead::Content(c) => {
            let ls = nonblank_lines_raw(c.as_str());
            Ok(describe_all(&ls))
        },
        FileRead::PermissionDenied => Err(KeyError::CannotRead),
        _ => Ok(Vec::new()),
    }
}

/// Remove key number `number` (root only), given the read of
/// `authorized_keys`. Returns the removed key's description and the new text.
pub fn remove(number: usize, root: bool, read: &FileRead) -> (r: Result<(String, String), KeyError>)
    ensures
        !root ==> r matches Err(KeyError::NotRoot),
        root ==> match read {
            FileRead::Content(c) => if number == 0 || number > key_lines(c@).len() {
                (r matches Err(KeyError::NoSuchKey(n)) && n == number)
            } else {
                (r matches Ok((removed, text)) && removed@ == description(key_lines(c@)[number - 1])
                    && text@ == rewritten(key_lines(c@), number - 1))
            },
            FileRead::Failed(e) => r matches Err(KeyError::ReadFailed(x)) && x@ == e@,
            FileRead::NotFound => r matches Err(KeyError::ReadFailed(x)) && x@
                == "No such file or directory"@,
            FileRead::PermissionDenied => r matches Err(KeyError::ReadFailed(x)) && x@
                == "Permission denied"@,
        },
{
    if !root {
        return Err(KeyError::NotRoot);
    }
    let content = match read {
        FileRead::Content(c) => c,
        FileRead::Failed(e) => return Err(KeyError::ReadFailed(own(e.as_str()))),
        FileRead::NotFound => return Err(KeyError::ReadFailed(own("No such file or directory"))),
        FileRead::PermissionDenied => return Err(KeyError::ReadFailed(own("Permission denied"))),
    };
    let ls = nonblank_lines_raw(content.as_str());
    if number == 0 || number > ls.len() {
        return Err(KeyError::NoSuchKey(number));
    }
    let idx = number - 1;
    assert(views(ls@)[idx as int] == ls@[idx as int]@);
    let removed = describe(&ls[idx]);
    let mut kept: Vec<Vec<char>> = Vec::new();
    let mut i: usize = 0;
    while i < ls.len()
        invariant
            i <= ls.len(),
            idx < ls.len(),
            views(kept@) == (if i <= idx {
                views(ls@).take(i as int)
            } else {
                views(ls@).remove(idx as int).take(i - 1)
            }),
        decreases ls.len() - i,
    {
        let ghost before = views(kept@);
        if i != idx {
            kept.push(copy_chars(&ls[i]));
            assert(views(kept@) =~= before.push(ls@[i as int]@));
        }
        i = i + 1;
        proof {
            let l = views(ls@);
            if i <= idx {
                assert(views(kept@) =~= l.take(i as int));
            } else if i == idx + 1 {
                assert(l.take(idx as int) =~= l.remove(idx as int).take(i - 1));
            } else {
                assert(l.remove(idx as int).take(i - 1) =~= l.remove(idx as int).take(i - 2).push(
                    l[i - 1],
                ));
            }
        }
    }
    assert(views(ls@).remove(idx as int).take(i - 1) =~= views(ls@).remove(idx as int));
    let sep = vec!['\n'];
    assert(sep@ =~= seq!['\n']);
    let mut out = join_chars(&kept, &sep);
    if kept.len() > 0 {
        out.push('\n');
    }
    assert(out@ =~= rewritten(views(ls@), idx as int));
    Ok((removed, string_of(&out)))
}


// ---------------------------------------------------------------------------
// Laws

/// Every space in `x` but its last character starts ` sh`.
pub open spec fn spaces_start_sh(x: Seq<char>) -> bool {
    forall|i: int|
        0 <= i < x.len() - 1 && #[trigger] x[i] == ' ' ==> i + 2 < x.len() && x[i + 1] == 's' && x[i
            + 2] == 'h'
}

proof fn lemma_options_shape()
    ensures
        options().len() > 0,
        options().last() == ' ',
        spaces_start_sh(options()),
{
    reveal_strlit("command=\"");
    reveal_strlit("/usr/bin/charm");
    reveal_strlit(" shell\",no-agent-forwarding,no-port-forwarding,no-X11-forwarding ");
    let x = options();
    assert forall|i: int| 0 <= i < x.len() - 1 && #[trigger] x[i] == ' ' implies i + 2 < x.len()
        && x[i + 1] == 's' && x[i + 2] == 'h' by {
        assert(i == 23);
    }
}

/// The first occurrence of `p` in `s` is at `i`.
proof fn lemma_find_at(s: Seq<char>, p: Seq<char>, i: int)
    requires
        occurs_at(s, p, i),
        forall|j: int| 0 <= j < i ==> !occurs_at(s, p, j),
    ensures
        find(s, p) == Some(i),
{
    crate::text::lemma_find_in_range(s, p);
    assert(contains(s, p));
    let k = find(s, p)->0;
    if k < i {
        assert(!occurs_at(s, p, k));
    }
    if k > i {
        assert(!occurs_at(s, p, i));
    }
}

/// A marker (a space, then not `sh`) cannot occur in `x + t` before the
/// last character of `x`.
proof fn lemma_no_marker_before(x: Seq<char>, t: Seq<char>, m: Seq<char>, i: int)
    requires
        spaces_start_sh(x),
        m.len() >= 3,
        m[0] == ' ',
        !(m[1] == 's' && m[2] == 'h'),
        0 <= i < x.len() - 1,
    ensures
        !occurs_at(x + t, m, i),
{
    let s = x + t;
    if occurs_at(s, m, i) {
        assert(s.subrange(i, i + m.len())[0] == s[i]);
        assert(s[i] == x[i]);
        assert(s.subrange(i, i + m.len())[1] == s[i + 1]);
        assert(s.subrange(i, i + m.len())[2] == s[i + 2]);
        assert(s[i + 1] == x[i + 1]);
        assert(s[i + 2] == x[i + 2]);
    }
}

proof fn lemma_marker_at_join(x: Seq<char>, t: Seq<char>, m: Seq<char>)
    requires
        x.len() > 0,
        x.last() == ' ',
        spaces_start_sh(x),
        m.len() >= 3,
        m[0] == ' ',
        !(m[1] == 's' && m[2] == 'h'),
        starts_with(t, m.drop_first()),
    ensures
        find(x + t, m) == Some(x.len() - 1),
{
    let s = x + t;
    let l = x.len() as int;
    assert(s.subrange(l - 1, l - 1 + m.len()) =~= m) by {
        assert forall|j: int| 0 <= j < m.len() implies s.subrange(l - 1, l - 1 + m.len())[j] == m[j] by {
            if j > 0 {
                assert(t.subrange(0, m.len() - 1)[j - 1] == m.drop_first()[j - 1]);
            }
        }
    }
    assert forall|j: int| 0 <= j < l - 1 implies !occurs_at(s, m, j) by {
        lemma_no_marker_before(x, t, m, j);
    }
    lemma_find_at(s, m, l - 1);
}

proof fn lemma_marker_absent(x: Seq<char>, t: Seq<char>, m: Seq<char>)
    requires
        x.len() > 0,
        spaces_start_sh(x),
        m.len() >= 3,
        m[0] == ' ',
        !(m[1] == 's' && m[2] == 'h'),
        !starts_with(t, m.drop_first()),
        !contains(t, m),
    ensures
        find(x + t, m) is None,
{
    let s = x + t;
    let l = x.len() as int;
    assert forall|i: int| !occurs_at(s, m, i) by {
        if 0 <= i < l - 1 {
            lemma_no_marker_before(x, t, m, i);
        } else if i == l - 1 && occurs_at(s, m, i) {
            assert forall|j: int| 0 <= j < m.len() - 1 implies t.subrange(0, m.len() - 1)[j]
                == m.drop_first()[j] by {
                assert(s.subrange(i, i + m.len())[j + 1] == s[l + j]);
            }
            assert(t.subrange(0, m.len() - 1) =~= m.drop_first());
        } else if i >= l && occurs_at(s, m, i) {
            assert(t.subrange(i - l, i - l + m.len()) =~= s.subrange(i, i + m.len()));
            assert(occurs_at(t, m, i - l));
        }
    }
    crate::text::lemma_find_in_range(s, m);
}

/// The line authorizing a key describes that key: what follows the
/// forced-command options is the key itself, whatever its type among
/// `ssh-`, `ecdsa-` and `sk-`. (A marker tried earlier must not occur inside
/// the key: an `ecdsa-` key whose comment holds ` ssh-` is described from
/// there on.)
pub proof fn law_forced_line_describes_the_key(k: Seq<char>)
    requires
        starts_with(trim(k), "ssh-"@) || (starts_with(trim(k), "ecdsa-"@) && !contains(
            trim(k),
            " ssh-"@,
        )) || (starts_with(trim(k), "sk-"@) && !contains(trim(k), " ssh-"@) && !contains(
            trim(k),
            " ecdsa-"@,
        )),
    ensures
        key_part(forced_line(k)) == trim(k),
{
    reveal_strlit(" ssh-");
    reveal_strlit(" ecdsa-");
    reveal_strlit(" sk-");
    reveal_strlit("ssh-");
    reveal_strlit("ecdsa-");
    reveal_strlit("sk-");
    lemma_options_shape();
    let x = options();
    let t = trim(k);
    let l = x.len() as int;
    crate::text::lemma_trim_idempotent(k);
    assert(" ssh-"@.drop_first() =~= "ssh-"@);
    assert(" ecdsa-"@.drop_first() =~= "ecdsa-"@);
    assert(" sk-"@.drop_first() =~= "sk-"@);
    assert((x + t).skip(l) =~= t);
    if starts_with(t, "ssh-"@) {
        lemma_marker_at_join(x, t, " ssh-"@);
    } else if starts_with(t, "ecdsa-"@) {
        assert(t[0] == t.subrange(0, 6)[0]);
        if starts_with(t, "ssh-"@) {
            assert(t[0] == t.subrange(0, 4)[0]);
        }
        lemma_marker_absent(x, t, " ssh-"@);
        lemma_marker_at_join(x, t, " ecdsa-"@);
    } else {
        assert(t[0] == t.subrange(0, 3)[0]);
        assert(t[1] == t.subrange(0, 3)[1]);
        if starts_with(t, "ssh-"@) {
            assert(t[1] == t.subrange(0, 4)[1]);
        }
        if starts_with(t, "ecdsa-"@) {
            assert(t[0] == t.subrange(0, 6)[0]);
        }
        lemma_marker_absent(x, t, " ssh-"@);
        lemma_marker_absent(x, t, " ecdsa-"@);
        lemma_marker_at_join(x, t, " sk-"@);
    }
}

proof fn lemma_markers()
    ensures
        " ssh-"@.len() > 0 && !" ssh-"@.contains('\r'),
        " ecdsa-"@.len() > 0 && !" ecdsa-"@.contains('\r'),
        " sk-"@.len() > 0 && !" sk-"@.contains('\r'),
{
    reveal_strlit(" ssh-");
    reveal_strlit(" ecdsa-");
    reveal_strlit(" sk-");
    assert(!" ssh-"@.contains('\r')) by {
        if " ssh-"@.contains('\r') {
            let j = choose|j: int| 0 <= j < " ssh-"@.len() && " ssh-"@[j] == '\r';
        }
    }
    assert(!" ecdsa-"@.contains('\r')) by {
        if " ecdsa-"@.contains('\r') {
            let j = choose|j: int| 0 <= j < " ecdsa-"@.len() && " ecdsa-"@[j] == '\r';
        }
    }
    assert(!" sk-"@.contains('\r')) by {
        if " sk-"@.contains('\r') {
            let j = choose|j: int| 0 <= j < " sk-"@.len() && " sk-"@[j] == '\r';
        }
    }
}

proof fn lemma_after_marker(l: Seq<char>, i: int)
    requires
        0 <= i < strip_cr(l).len(),
    ensures
        trim(strip_cr(l).skip(i + 1)) == trim(l.skip(i + 1)),
{
    if l.len() > 0 && l.last() == '\r' {
        assert(l.skip(i + 1) =~= strip_cr(l).skip(i + 1).push('\r'));
        lemma_trim_push_ws(strip_cr(l).skip(i + 1), '\r');
    }
}

/// A line's final carriage return does not change which key it describes.
pub proof fn lemma_key_part_strip_cr(l: Seq<char>)
    ensures
        key_part(strip_cr(l)) == key_part(l),
        description(strip_cr(l)) == description(l),
        trim(strip_cr(l)).len() == trim(l).len(),
{
    lemma_markers();
    let s = strip_cr(l);
    lemma_occurs_strip_cr(l, " ssh-"@);
    lemma_occurs_strip_cr(l, " ecdsa-"@);
    lemma_occurs_strip_cr(l, " sk-"@);
    lemma_find_same(s, l, " ssh-"@);
    lemma_find_same(s, l, " ecdsa-"@);
    lemma_find_same(s, l, " sk-"@);
    crate::text::lemma_find_in_range(s, " ssh-"@);
    crate::text::lemma_find_in_range(s, " ecdsa-"@);
    crate::text::lemma_find_in_range(s, " sk-"@);
    lemma_trim_strip_cr(l);
    match find(s, " ssh-"@) {
        Some(i) => lemma_after_marker(l, i),
        None => match find(s, " ecdsa-"@) {
            Some(i) => lemma_after_marker(l, i),
            None => match find(s, " sk-"@) {
                Some(i) => lemma_after_marker(l, i),
                None => {},
            },
        },
    }
}

proof fn lemma_nonblank_push(ls: Seq<Seq<char>>, x: Seq<char>)
    ensures
        nonblank(ls.push(x)) == (if trim(x).len() > 0 {
            nonblank(ls).push(x)
        } else {
            nonblank(ls)
        }),
{
    assert(ls.push(x).drop_last() =~= ls);
}

proof fn lemma_nonblank_append(a: Seq<Seq<char>>, b: Seq<Seq<char>>)
    ensures
        nonblank(a + b) == nonblank(a) + nonblank(b),
    decreases b.len(),
{
    if b.len() == 0 {
        assert(a + b =~= a);
        assert(nonblank(a) + nonblank(b) =~= nonblank(a));
    } else {
        lemma_nonblank_append(a, b.drop_last());
        assert((a + b).drop_last() =~= a + b.drop_last());
        assert((a + b).last() == b.last());
        if trim(b.last()).len() > 0 {
            assert(nonblank(a) + nonblank(b) =~= (nonblank(a) + nonblank(b.drop_last())).push(
                b.last(),
            ));
        }
    }
}

/// The entries of a text are unchanged by ending it with a line break.
proof fn lemma_entries_end_newline(c: Seq<char>)
    requires
        c.len() > 0,
        c.last() != '\n',
    ensures
        entries_of(c + seq!['\n']) == entries_of(c),
{
    lemma_lines_end_newline(c);
    let l = lines(c);
    let p = l.drop_last();
    let x = l.last();
    assert(l =~= p.push(x));
    lemma_nonblank_push(p, x);
    lemma_nonblank_push(p, strip_cr(x));
    lemma_key_part_strip_cr(x);
    if trim(x).len() > 0 {
        assert(nonblank(p).push(strip_cr(x)).map_values(|l: Seq<char>| description(l))
            =~= nonblank(p).push(x).map_values(|l: Seq<char>| description(l)));
    }
}

proof fn lemma_forced_line(key: Seq<char>)
    ensures
        trim(forced_line(key)).len() > 0,
        strip_cr(forced_line(key)) == forced_line(key),
        !trim(key).contains('\n') ==> !forced_line(key).contains('\n'),
{
    reveal_strlit("command=\"");
    reveal_strlit(" shell\",no-agent-forwarding,no-port-forwarding,no-X11-forwarding ");
    let f = forced_line(key);
    let o = options();
    assert(o.len() > 0);
    assert(f[0] == 'c');
    assert(f.last() != '\r') by {
        lemma_trim_ends(key);
        if trim(key).len() == 0 {
            assert(f.last() == ' ');
        } else {
            assert(f.last() == trim(key).last());
        }
    }
    assert(trim(f).len() > 0) by {
        assert(!is_ws(f[0]));
        assert(crate::text::trim_start(f) == f);
        assert(f.len() > 0);
        crate::text::lemma_trim_ends(f);
        assert(trim(f).len() > 0) by {
            assert(crate::text::trim_end(f).len() > 0) by {
                lemma_trim_end_keeps_first(f);
            }
        }
    }
    if !trim(key).contains('\n') && f.contains('\n') {
        let j = choose|j: int| 0 <= j < f.len() && f[j] == '\n';
        if j >= o.len() {
            assert(trim(key)[j - o.len()] == '\n');
        } else {
            reveal_strlit("/usr/bin/charm");
            let a = "command=\""@;
            let b = paths::BIN@;
            let c = " shell\",no-agent-forwarding,no-port-forwarding,no-X11-forwarding "@;
            assert(b == "/usr/bin/charm"@);
            assert(o == a + b + c);
            if j < a.len() {
                assert(o[j] == a[j]);
            } else if j < a.len() + b.len() {
                assert(o[j] == b[j - a.len()]);
            } else {
                assert(o[j] == c[j - a.len() - b.len()]);
            }
        }
    }
}

proof fn lemma_trim_end_keeps_first(f: Seq<char>)
    requires
        f.len() > 0,
        !is_ws(f[0]),
    ensures
        crate::text::trim_end(f).len() > 0,
    decreases f.len(),
{
    if f.len() > 1 && is_ws(f.last()) {
        assert(f.drop_last()[0] == f[0]);
        lemma_trim_end_keeps_first(f.drop_last());
    }
}

/// Authorizing a key adds exactly its entry at the end of the key list.
pub proof fn law_add_appends_entry(existing: Seq<char>, key: Seq<char>)
    requires
        !trim(key).contains('\n'),
    ensures
        entries_of(appended(existing, key)) == entries_of(existing).push(
            description(forced_line(key)),
        ),
{
    let f = forced_line(key);
    lemma_forced_line(key);
    let sep = if existing.len() > 0 && existing.last() != '\n' {
        seq!['\n']
    } else {
        Seq::<char>::empty()
    };
    let a = existing + sep;
    assert(appended(existing, key) =~= a + (f + seq!['\n']));
    lemma_lines_single(f);
    assert(nonblank(seq![f]) =~= seq![f]) by {
        lemma_nonblank_push(Seq::empty(), f);
        assert(Seq::<Seq<char>>::empty().push(f) =~= seq![f]);
        assert(nonblank(Seq::<Seq<char>>::empty()) =~= Seq::<Seq<char>>::empty());
    }
    if a.len() == 0 {
        assert(a + (f + seq!['\n']) =~= f + seq!['\n']);
        assert(lines(a) =~= Seq::<Seq<char>>::empty());
        assert(nonblank(Seq::<Seq<char>>::empty()) =~= Seq::<Seq<char>>::empty());
        assert(existing =~= Seq::<char>::empty());
        assert(entries_of(existing) =~= Seq::<Seq<char>>::empty());
        assert(entries_of(appended(existing, key)) =~= seq![description(f)]);
    } else {
        assert(a.last() == '\n');
        lemma_lines_from_append(Seq::empty(), a, f + seq!['\n']);
        lemma_nonblank_append(lines(a), seq![f]);
        assert(entries_of(a) == entries_of(existing)) by {
            if sep.len() > 0 {
                lemma_entries_end_newline(existing);
            } else {
                assert(a =~= existing);
            }
        }
        assert((nonblank(lines(a)) + seq![f]).map_values(|l: Seq<char>| description(l))
            =~= nonblank(lines(a)).map_values(|l: Seq<char>| description(l)).push(description(f)));
    }
}

/// Once a key is authorized, authorizing any key with the same key material
/// writes nothing: the material is found in the text.
pub proof fn law_readd_same_material_is_noop(existing: Seq<char>, key: Seq<char>, m: Seq<char>)
    requires
        material(trim(key)) == Some(m),
    ensures
        contains(appended(existing, key), m),
{
    let k = trim(key);
    lemma_words_occur(k);
    assert(words(k)[1] == m);
    assert(contains(k, m));
    let sep = if existing.len() > 0 && existing.last() != '\n' {
        seq!['\n']
    } else {
        Seq::<char>::empty()
    };
    let t = appended(existing, key);
    let at: int = (existing.len() + sep.len() + options().len()) as int;
    assert(t =~= existing + sep + options() + k + seq!['\n']);
    assert(t.subrange(at, at + k.len()) =~= k);
    lemma_contains_within(t, k, at, m);
}

proof fn lemma_nonblank_elems(ls: Seq<Seq<char>>)
    ensures
        forall|i: int|
            0 <= i < nonblank(ls).len() ==> ls.contains(#[trigger] nonblank(ls)[i]) && trim(
                nonblank(ls)[i],
            ).len() > 0,
    decreases ls.len(),
{
    if ls.len() > 0 {
        let p = ls.drop_last();
        lemma_nonblank_elems(p);
        assert forall|i: int| 0 <= i < nonblank(ls).len() implies ls.contains(
            #[trigger] nonblank(ls)[i],
        ) && trim(nonblank(ls)[i]).len() > 0 by {
            if i < nonblank(p).len() {
                assert(nonblank(ls)[i] == nonblank(p)[i]);
                assert(p.contains(nonblank(p)[i]));
                let j = choose|j: int| 0 <= j < p.len() && p[j] == nonblank(p)[i];
                assert(ls[j] == p[j]);
            } else {
                assert(nonblank(ls)[i] == ls.last());
                assert(ls[ls.len() - 1] == ls.last());
            }
        }
    }
}

proof fn lemma_nonblank_id(ls: Seq<Seq<char>>)
    requires
        forall|i: int| 0 <= i < ls.len() ==> trim(#[trigger] ls[i]).len() > 0,
    ensures
        nonblank(ls) == ls,
    decreases ls.len(),
{
    if ls.len() > 0 {
        let p = ls.drop_last();
        assert forall|i: int| 0 <= i < p.len() implies trim(#[trigger] p[i]).len() > 0 by {
            assert(p[i] == ls[i]);
        }
        lemma_nonblank_id(p);
        assert(trim(ls[ls.len() - 1]).len() > 0);
        assert(ls =~= p.push(ls.last()));
    }
}

/// Removing key number `n` takes exactly its entry out of the key list, and
/// reports that entry.
pub proof fn law_remove_drops_one_entry(content: Seq<char>, n: int)
    requires
        0 < n <= key_lines(content).len(),
    ensures
        description(key_lines(content)[n - 1]) == entries_of(content)[n - 1],
        entries_of(rewritten(key_lines(content), n - 1)) == entries_of(content).remove(n - 1),
{
    let kl = key_lines(content);
    let kept = kl.remove(n - 1);
    lemma_lines_no_newline(content);
    lemma_nonblank_elems(lines(content));
    assert forall|i: int| 0 <= i < kept.len() implies !(#[trigger] kept[i]).contains('\n') && trim(
        kept[i],
    ).len() > 0 by {
        let e = if i < n - 1 {
            kl[i]
        } else {
            kl[i + 1]
        };
        assert(kept[i] == e);
        assert(lines(content).contains(e));
        let j = choose|j: int| 0 <= j < lines(content).len() && lines(content)[j] == e;
        assert(!lines(content)[j].contains('\n'));
    }
    let de = |l: Seq<char>| description(l);
    if kept.len() == 0 {
        assert(rewritten(kl, n - 1) =~= Seq::<char>::empty());
        assert(lines(Seq::<char>::empty()) =~= Seq::<Seq<char>>::empty());
        assert(nonblank(Seq::<Seq<char>>::empty()) =~= Seq::<Seq<char>>::empty());
        assert(entries_of(Seq::<char>::empty()) =~= Seq::<Seq<char>>::empty());
        assert(entries_of(content).remove(n - 1) =~= Seq::<Seq<char>>::empty());
    } else {
        lemma_lines_join(kept);
        let sc = kept.map_values(|e: Seq<char>| strip_cr(e));
        assert forall|i: int| 0 <= i < sc.len() implies trim(#[trigger] sc[i]).len() > 0 by {
            lemma_key_part_strip_cr(kept[i]);
        }
        lemma_nonblank_id(sc);
        assert forall|i: int| 0 <= i < sc.len() implies #[trigger] description(sc[i]) == description(
            kept[i],
        ) by {
            lemma_key_part_strip_cr(kept[i]);
        }
        assert(sc.map_values(de) =~= kl.map_values(de).remove(n - 1));
    }
}

} // verus!
