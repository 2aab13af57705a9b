//! The domains Charm serves apps under: an allowlist, stored one per line in
//! `<state>/domains`. Every route's host must be, or be a subdomain of, a
//! registered domain. There is no bare-label expansion and no default.
use vstd::prelude::*;
use crate::paths;
use crate::text::{
    is_ws, lemma_lines_join, lemma_lower_idempotent, lemma_trimmed_nonblank_id, lemma_trim_id,
    strip_cr, append_chars, append_str, chars_of, contains_elem, ends_with, ends_with_chars, eq_chars,
    join, join_chars, lines, lower, lower_chars, nonblank_lines, string_of, string_views, trim,
    trim_chars, trimmed_nonblank, views, chars_of_all,
};
use crate::util::{own, FileRead};

verus! {

// ---------------------------------------------------------------------------
// Model

/// A domain as Charm stores it: trimmed and ASCII-lowercased.
pub open spec fn normalize(d: Seq<char>) -> Seq<char> {
    lower(trim(d))
}

pub open spec fn is_domain_char(c: char) -> bool {
    ('a' <= c && c <= 'z') || ('A' <= c && c <= 'Z') || ('0' <= c && c <= '9') || c == '.' || c
        == '-'
}

/// Has a dot, neither starts nor ends with one, and holds only ASCII letters,
/// digits, dots and hyphens.
pub open spec fn looks_like_domain(d: Seq<char>) -> bool {
    &&& d.contains('.')
    &&& !(d.len() > 0 && d[0] == '.')
    &&& !(d.len() > 0 && d.last() == '.')
    &&& forall|i: int| 0 <= i < d.len() ==> is_domain_char(#[trigger] d[i])
}

/// Joining a label and a domain name with a dot makes a domain: any label
/// `a` of ASCII letters, digits and hyphens, and any `b` of ASCII letters,
/// digits, hyphens and dots (however many) that neither starts nor ends with
/// a dot, such as `example.com`, `apps` + `example.com` or `example.co.uk`.
pub proof fn law_dotted_names_are_domains(a: Seq<char>, b: Seq<char>)
    requires
        a.len() > 0,
        b.len() > 0,
        forall|i: int|
            0 <= i < a.len() ==> {
                let c = #[trigger] a[i];
                ('a' <= c && c <= 'z') || ('A' <= c && c <= 'Z') || ('0' <= c && c <= '9') || c == '-'
            },
        forall|i: int|
            0 <= i < b.len() ==> {
                let c = #[trigger] b[i];
                ('a' <= c && c <= 'z') || ('A' <= c && c <= 'Z') || ('0' <= c && c <= '9') || c == '-'
                    || c == '.'
            },
        b[0] != '.',
        b.last() != '.',
    ensures
        looks_like_domain(a + seq!['.'] + b),
{
    let d = a + seq!['.'] + b;
    assert(d[a.len() as int] == '.');
    assert(d[0] == a[0]);
    assert(d.last() == b.last());
    assert forall|i: int| 0 <= i < d.len() implies is_domain_char(#[trigger] d[i]) by {
        if i < a.len() {
            assert(d[i] == a[i]);
        } else if i > a.len() {
            assert(d[i] == b[i - a.len() - 1]);
        }
    }
}

/// What looks like a domain, spelled out: a dot somewhere, none first or
/// last, and nothing but ASCII letters, digits, dots and hyphens. Nothing
/// else is asked (not the number of dots, nor the labels' lengths).
pub proof fn law_domain_shape(d: Seq<char>)
    ensures
        looks_like_domain(d) <==> {
            &&& exists|i: int| 0 <= i < d.len() && d[i] == '.'
            &&& d[0] != '.'
            &&& d[d.len() - 1] != '.'
            &&& forall|i: int|
                0 <= i < d.len() ==> {
                    let c = #[trigger] d[i];
                    ('a' <= c && c <= 'z') || ('A' <= c && c <= 'Z') || ('0' <= c && c <= '9') || c
                        == '.' || c == '-'
                }
        },
{
    if exists|i: int| 0 <= i < d.len() && d[i] == '.' {
        let i = choose|i: int| 0 <= i < d.len() && d[i] == '.';
        assert(d.contains('.'));
    }
}

/// The registered domains recorded in the text of the domains file.
pub open spec fn entries_of(content: Seq<char>) -> Seq<Seq<char>> {
    trimmed_nonblank(lines(content))
}

/// The text of the domains file for `list`: one per line, each line ended.
pub open spec fn render(list: Seq<Seq<char>>) -> Seq<char> {
    if list.len() == 0 {
        Seq::empty()
    } else {
        join(list, seq!['\n']) + seq!['\n']
    }
}

/// `list` with `d` registered: unchanged if it is already there.
pub open spec fn with_domain(list: Seq<Seq<char>>, d: Seq<char>) -> Seq<Seq<char>> {
    if list.contains(d) {
        list
    } else {
        list.push(d)
    }
}

/// `list` without any entry equal to `d`, in order.
pub open spec fn without(list: Seq<Seq<char>>, d: Seq<char>) -> Seq<Seq<char>>
    decreases list.len(),
{
    if list.len() == 0 {
        Seq::empty()
    } else {
        let before = without(list.drop_last(), d);
        if list.last() == d {
            before
        } else {
            before.push(list.last())
        }
    }
}

/// `host` (case-insensitively) is a registered domain or a subdomain of one.
pub open spec fn under_registered(host: Seq<char>, list: Seq<Seq<char>>) -> bool {
    exists|i: int|
        0 <= i < list.len() && (lower(host) == #[trigger] list[i] || ends_with(
            lower(host),
            seq!['.'] + list[i],
        ))
}

/// Only registered domains and their subdomains are allowed: a host whose
/// lowercase form neither is a registered domain nor ends with a dot
/// followed by one (so `evilexample.com` is not under `example.com`) is
/// refused.
pub proof fn law_only_registered_hosts_allowed(host: Seq<char>, list: Seq<Seq<char>>)
    requires
        forall|i: int|
            0 <= i < list.len() ==> {
                let d = #[trigger] list[i];
                let h = lower(host);
                &&& h != d
                &&& !(h.len() > d.len() && h.subrange(h.len() - d.len(), h.len() as int) == d && h[h.len()
                    - d.len() - 1] == '.')
            },
    ensures
        !under_registered(host, list),
{
    let h = lower(host);
    if under_registered(host, list) {
        let i = choose|i: int|
            0 <= i < list.len() && (h == #[trigger] list[i] || ends_with(h, seq!['.'] + list[i]));
        let d = list[i];
        if ends_with(h, seq!['.'] + d) {
            let e = seq!['.'] + d;
            assert(h.subrange(h.len() - e.len(), h.len() as int) == e);
            assert(e.subrange(1, e.len() as int) =~= d);
            assert(h.subrange(h.len() - d.len(), h.len() as int) =~= e.subrange(1, e.len() as int));
            assert(h.subrange(h.len() - e.len(), h.len() as int)[0] == h[h.len() - d.len() - 1]);
            assert(e[0] == '.');
            assert(h.len() > d.len());
        }
    }
}

/// A list as Charm keeps it: every entry a normalized domain, none twice.
pub open spec fn well_formed(list: Seq<Seq<char>>) -> bool {
    &&& forall|i: int| 0 <= i < list.len() ==> looks_like_domain(#[trigger] list[i])
    &&& forall|i: int| 0 <= i < list.len() ==> lower(#[trigger] list[i]) == list[i]
    &&& list.no_duplicates()
}

// ---------------------------------------------------------------------------
// Errors

pub enum DomainError {
    NotRoot,
    /// The (normalized) text does not look like a domain.
    NotADomain(String),
    /// The (normalized) domain is not in the list.
    NotRegistered(String),
    /// No domain is registered at all; carries the (lowercased) host.
    NoDomains(String),
    /// The (lowercased) host is under no registered domain.
    NotAllowed(String),
    /// The domains file exists but this user may not read it.
    CannotRead,
    /// Reading the domains file failed otherwise; carries the cause.
    ReadFailed(String),
}

impl DomainError {
    pub fn message(&self) -> (r: String)
        ensures
            r@ == match self {
                DomainError::NotRoot => "this command must run as root (try with sudo)"@,
                DomainError::NotADomain(d) => "'"@ + d@
                    + "' doesn't look like a domain (e.g. example.com)"@,
                DomainError::NotRegistered(d) => "'"@ + d@
                    + "' is not registered (see `charm domain list`)"@,
                DomainError::NoDomains(h) =>
                    "no domains registered - run `charm domain add <domain>` first (for '"@ + h@
                    + "')"@,
                DomainError::NotAllowed(h) => "host '"@ + h@
                    + "' is not under a registered domain - `charm domain add` it (see `charm domain list`)"@,
                DomainError::CannotRead =>
                    "cannot read domains - run as root (sudo) or the charm user"@,
                DomainError::ReadFailed(_) => "reading domains"@,
            },
    {
        match self {
            DomainError::NotRoot => own("this command must run as root (try with sudo)"),
            DomainError::NotADomain(d) => {
                let mut s = own("'");
                s.append(d.as_str());
                s.append("' doesn't look like a domain (e.g. example.com)");
                s
            },
            DomainError::NotRegistered(d) => {
                let mut s = own("'");
                s.append(d.as_str());
                s.append("' is not registered (see `charm domain list`)");
                s
            },
            DomainError::NoDomains(h) => {
                let mut s = own(
                    "no domains registered - run `charm domain add <domain>` first (for '",
                );
                s.append(h.as_str());
                s.append("')");
                s
            },
            DomainError::NotAllowed(h) => {
                let mut s = own("host '");
                s.append(h.as_str());
                s.append(
                    "' is not under a registered domain - `charm domain add` it (see `charm domain list`)",
                );
                s
            },
            DomainError::CannotRead => own(
                "cannot read domains - run as root (sudo) or the charm user",
            ),
            DomainError::ReadFailed(_) => own("reading domains"),
        }
    }
}

// ---------------------------------------------------------------------------
// Operations

/// Path of the domains file.
pub fn file() -> (r: String)
    ensures
        r@ == paths::HOME@ + "/state"@ + "/domains"@,
{
    let mut s = paths::state();
    s.append("/domains");
    s
}

/// Registered domains (trimmed, non-blank lines); none when the file could
/// not be read.
pub fn registered(read: &FileRead) -> (r: Vec<String>)
    ensures
        string_views(r@) == match read {
            FileRead::Content(c) => entries_of(c@),
            _ => Seq::empty(),
        },
{
    match read {
        FileRead::Content(c) => nonblank_lines(c.as_str()),
        _ => {
            let r: Vec<String> = Vec::new();
            assert(string_views(r@) =~= Seq::empty());
            r
        },
    }
}

/// Registered domains as data: a missing file means none; only a real read
/// failure is an error.
pub fn entries(read: &FileRead) -> (r: Result<Vec<String>, DomainError>)
    ensures
        match read {
            FileRead::Content(c) => r matches Ok(v) && string_views(v@) == entries_of(c@),
            FileRead::NotFound => r matches Ok(v) && v@.len() == 0,
            FileRead::PermissionDenied => r matches Err(DomainError::CannotRead),
            FileRead::Failed(e) => r matches Err(DomainError::ReadFailed(x)) && x@ == e@,
        },
{
    match read {
        FileRead::Content(c) => Ok(nonblank_lines(c.as_str())),
        FileRead::NotFound => Ok(Vec::new()),
        FileRead::PermissionDenied => Err(DomainError::CannotRead),
        FileRead::Failed(e) => Err(DomainError::ReadFailed(own(e.as_str()))),
    }
}

/// `domain` trimmed and lowercased.
pub fn normalized(domain: &str) -> (r: Vec<char>)
    ensures
        r@ == normalize(domain@),
{
    let v = chars_of(domain);
    let t = trim_chars(&v);
    lower_chars(&t)
}

pub fn looks_like_domain_exec(d: &Vec<char>) -> (r: bool)
    ensures
        r == looks_like_domain(d@),
{
    if d.len() == 0 || d[0] == '.' || d[d.len() - 1] == '.' {
        proof {
            if d.len() == 0 {
                assert(!d@.contains('.'));
            }
        }
        return false;
    }
    let mut has_dot = false;
    let mut i: usize = 0;
    while i < d.len()
        invariant
            i <= d.len(),
            forall|j: int| 0 <= j < i ==> is_domain_char(#[trigger] d@[j]),
            has_dot == (exists|j: int| 0 <= j < i && d@[j] == '.'),
        decreases d.len() - i,
    {
        let c = d[i];
        if !(('a' <= c && c <= 'z') || ('A' <= c && c <= 'Z') || ('0' <= c && c <= '9') || c == '.'
            || c == '-') {
            assert(!is_domain_char(d@[i as int]));
            return false;
        }
        if c == '.' {
            has_dot = true;
        }
        i = i + 1;
    }
    proof {
        if has_dot {
            let j = choose|j: int| 0 <= j < i && d@[j] == '.';
            assert(d@.contains('.'));
        } else {
            assert(!d@.contains('.'));
        }
    }
    has_dot
}

/// Register a domain (root only). On success `list` holds it afterwards and
/// the result says whether it was newly added.
pub fn add(domain: &str, root: bool, list: &mut Vec<String>) -> (r: Result<bool, DomainError>)
    ensures
        !root ==> r matches Err(DomainError::NotRoot),
        root && !looks_like_domain(normalize(domain@)) ==> (r matches Err(DomainError::NotADomain(d))
            && d@ == normalize(domain@)),
        root && looks_like_domain(normalize(domain@)) ==> (r matches Ok(added) && added
            == !string_views(old(list)@).contains(normalize(domain@))),
        r is Ok ==> string_views(final(list)@) == with_domain(
            string_views(old(list)@),
            normalize(domain@),
        ),
        r is Err ==> final(list)@ == old(list)@,
{
    if !root {
        return Err(DomainError::NotRoot);
    }
    let d = normalized(domain);
    if !looks_like_domain_exec(&d) {
        return Err(DomainError::NotADomain(string_of(&d)));
    }
    if contains_elem(list, &d) {
        return Ok(false);
    }
    let ghost before = string_views(list@);
    list.push(string_of(&d));
    assert(string_views(list@) =~= before.push(d@));
    Ok(true)
}

/// Unregister a domain (root only). On success `list` no longer holds it.
pub fn remove(domain: &str, root: bool, list: &mut Vec<String>) -> (r: Result<(), DomainError>)
    ensures
        !root ==> r matches Err(DomainError::NotRoot),
        root && string_views(old(list)@).contains(normalize(domain@)) ==> r is Ok,
        root && !string_views(old(list)@).contains(normalize(domain@)) ==> (r matches Err(
            DomainError::NotRegistered(d),
        ) && d@ == normalize(domain@)),
        r is Ok ==> string_views(final(list)@) == without(
            string_views(old(list)@),
            normalize(domain@),
        ),
        r is Err ==> final(list)@ == old(list)@,
{
    if !root {
        return Err(DomainError::NotRoot);
    }
    let d = normalized(domain);
    let mut kept: Vec<String> = Vec::new();
    let mut i: usize = 0;
    let ghost old_views = string_views(list@);
    assert(string_views(kept@) =~= without(old_views.take(0), d@));
    while i < list.len()
        invariant
            i <= list.len(),
            old_views == string_views(list@),
            string_views(kept@) == without(old_views.take(i as int), d@),
            kept@.len() + (exists|j: int| 0 <= j < i && old_views[j] == d@) as int <= i,
            (forall|j: int| 0 <= j < i ==> old_views[j] != d@) ==> kept@.len() == i,
        decreases list.len() - i,
    {
        let ghost before = string_views(kept@);
        let c = chars_of(list[i].as_str());
        assert(old_views.take(i + 1).drop_last() =~= old_views.take(i as int));
        assert(old_views.take(i + 1).last() == old_views[i as int]);
        assert(old_views[i as int] == list@[i as int]@);
        if !eq_chars(&c, &d) {
            kept.push(own(list[i].as_str()));
            assert(string_views(kept@) =~= before.push(old_views[i as int]));
        }
        i = i + 1;
    }
    assert(old_views.take(i as int) =~= old_views);
    if kept.len() == list.len() {
        proof {
            if old_views.contains(d@) {
                let j = choose|j: int| 0 <= j < old_views.len() && old_views[j] == d@;
                assert(exists|j: int| 0 <= j < i && old_views[j] == d@);
            }
        }
        return Err(DomainError::NotRegistered(string_of(&d)));
    }
    proof {
        if !old_views.contains(d@) {
            assert(forall|j: int| 0 <= j < i ==> old_views[j] != d@);
        }
    }
    *list = kept;
    Ok(())
}

/// Error unless `host` is, or is a subdomain of, a registered domain.
pub fn ensure_allowed(host: &str, list: &Vec<String>) -> (r: Result<(), DomainError>)
    ensures
        list@.len() == 0 ==> (r matches Err(DomainError::NoDomains(h)) && h@ == lower(host@)),
        list@.len() > 0 && under_registered(host@, string_views(list@)) ==> r is Ok,
        list@.len() > 0 && !under_registered(host@, string_views(list@)) ==> (r matches Err(
            DomainError::NotAllowed(h),
        ) && h@ == lower(host@)),
{
    let hv = chars_of(host);
    let h = lower_chars(&hv);
    if list.len() == 0 {
        return Err(DomainError::NoDomains(string_of(&h)));
    }
    let ds = chars_of_all(list);
    let mut i: usize = 0;
    while i < ds.len()
        invariant
            i <= ds.len(),
            views(ds@) == string_views(list@),
            list@.len() > 0,
            h@ == lower(host@),
            forall|j: int|
                0 <= j < i ==> !(h@ == #[trigger] views(ds@)[j] || ends_with(
                    h@,
                    seq!['.'] + views(ds@)[j],
                )),
        decreases ds.len() - i,
    {
        let mut dotted: Vec<char> = Vec::new();
        dotted.push('.');
        append_chars(&mut dotted, &ds[i]);
        assert(views(ds@)[i as int] == ds@[i as int]@);
        assert(dotted@ =~= seq!['.'] + ds@[i as int]@);
        if eq_chars(&h, &ds[i]) || ends_with_chars(&h, &dotted) {
            assert(string_views(list@)[i as int] == views(ds@)[i as int]);
            return Ok(());
        }
        i = i + 1;
    }
    proof {
        assert forall|j: int| 0 <= j < string_views(list@).len() implies !(lower(host@)
            == #[trigger] string_views(list@)[j] || ends_with(
            lower(host@),
            seq!['.'] + string_views(list@)[j],
        )) by {
            assert(views(ds@)[j] == string_views(list@)[j]);
        }
    }
    Err(DomainError::NotAllowed(string_of(&h)))
}

/// The text of the domains file for `list`.
pub fn render_list(list: &Vec<String>) -> (r: String)
    ensures
        r@ == render(string_views(list@)),
{
    let parts = chars_of_all(list);
    let sep = vec!['\n'];
    assert(sep@ =~= seq!['\n']);
    let mut out = join_chars(&parts, &sep);
    if list.len() > 0 {
        out.push('\n');
        assert(out@ =~= join(string_views(list@), seq!['\n']) + seq!['\n']);
    } else {
        assert(out@ =~= Seq::<char>::empty());
    }
    string_of(&out)
}


// ---------------------------------------------------------------------------
// Laws

/// Once a domain is registered, the domain itself and every subdomain of it
/// are allowed as hosts, in any letter case.
pub proof fn law_registered_domain_allows_its_hosts(
    list: Seq<Seq<char>>,
    domain: Seq<char>,
    host: Seq<char>,
)
    requires
        lower(host) == normalize(domain) || ends_with(lower(host), seq!['.'] + normalize(domain)),
    ensures
        under_registered(host, with_domain(list, normalize(domain))),
{
    let d = normalize(domain);
    let l = with_domain(list, d);
    if list.contains(d) {
        let i = choose|i: int| 0 <= i < list.len() && list[i] == d;
        assert(lower(host) == l[i] || ends_with(lower(host), seq!['.'] + l[i]));
    } else {
        assert(l[list.len() as int] == d);
        assert(lower(host) == l[list.len() as int] || ends_with(
            lower(host),
            seq!['.'] + l[list.len() as int],
        ));
    }
}

/// Registering a domain that is already registered changes nothing (and
/// `add` then reports it as not newly added).
pub proof fn law_add_idempotent(list: Seq<Seq<char>>, d: Seq<char>)
    ensures
        with_domain(list, d).contains(d),
        with_domain(with_domain(list, d), d) == with_domain(list, d),
{
    if !list.contains(d) {
        assert(list.push(d)[list.len() as int] == d);
    }
}

proof fn lemma_without_absent(list: Seq<Seq<char>>, d: Seq<char>)
    requires
        !list.contains(d),
    ensures
        without(list, d) == list,
    decreases list.len(),
{
    if list.len() > 0 {
        let p = list.drop_last();
        assert(!p.contains(d)) by {
            if p.contains(d) {
                let i = choose|i: int| 0 <= i < p.len() && p[i] == d;
                assert(list[i] == d);
            }
        }
        lemma_without_absent(p, d);
        assert(list.last() != d) by {
            assert(list[list.len() - 1] == list.last());
        }
        assert(list =~= p.push(list.last()));
    }
}

/// Removing a domain that was just newly registered gives back the list as
/// it was before.
pub proof fn law_remove_undoes_add(list: Seq<Seq<char>>, d: Seq<char>)
    requires
        !list.contains(d),
    ensures
        without(with_domain(list, d), d) == list,
{
    let l = list.push(d);
    assert(l.drop_last() =~= list);
    lemma_without_absent(list, d);
}

proof fn lemma_without_subset(list: Seq<Seq<char>>, d: Seq<char>)
    ensures
        forall|x: Seq<char>| #[trigger] without(list, d).contains(x) ==> list.contains(x) && x != d,
        list.no_duplicates() ==> without(list, d).no_duplicates(),
    decreases list.len(),
{
    if list.len() > 0 {
        let p = list.drop_last();
        lemma_without_subset(p, d);
        let w = without(p, d);
        assert forall|x: Seq<char>| without(list, d).contains(x) implies list.contains(x) && x
            != d by {
            let i = choose|i: int| 0 <= i < without(list, d).len() && without(list, d)[i] == x;
            if i < w.len() {
                assert(w[i] == x);
                assert(w.contains(x));
                assert(p.contains(x) && x != d);
                let j = choose|j: int| 0 <= j < p.len() && p[j] == x;
                assert(list[j] == x);
            } else {
                assert(x == list.last());
                assert(list[list.len() - 1] == x);
            }
        }
        if list.no_duplicates() {
            assert(p.no_duplicates()) by {
                assert forall|i: int, j: int| 0 <= i < p.len() && 0 <= j < p.len() && i != j implies p[i]
                    != p[j] by {
                    assert(p[i] == list[i] && p[j] == list[j]);
                }
            }
            if list.last() != d {
                assert(!w.contains(list.last())) by {
                    if w.contains(list.last()) {
                        assert(p.contains(list.last()));
                        let j = choose|j: int| 0 <= j < p.len() && p[j] == list.last();
                        assert(list[j] == list[list.len() - 1]);
                    }
                }
                let wl = w.push(list.last());
                assert forall|i: int, j: int| 0 <= i < wl.len() && 0 <= j < wl.len() && i != j implies wl[i]
                    != wl[j] by {
                    if i < w.len() && j < w.len() {
                    } else if i < w.len() {
                        assert(w.contains(w[i]));
                    } else if j < w.len() {
                        assert(w.contains(w[j]));
                    }
                }
            }
        }
    }
}

/// Adding and removing keep a well-formed list well-formed: normalized
/// domains, each at most once.
pub proof fn law_edits_keep_list_well_formed(list: Seq<Seq<char>>, domain: Seq<char>)
    requires
        well_formed(list),
    ensures
        looks_like_domain(normalize(domain)) ==> well_formed(with_domain(list, normalize(domain))),
        well_formed(without(list, normalize(domain))),
{
    let d = normalize(domain);
    lemma_lower_idempotent(trim(domain));
    if looks_like_domain(d) && !list.contains(d) {
        let l = list.push(d);
        assert forall|i: int| 0 <= i < l.len() implies looks_like_domain(#[trigger] l[i]) by {
            if i < list.len() {
                assert(l[i] == list[i]);
            }
        }
        assert forall|i: int| 0 <= i < l.len() implies lower(#[trigger] l[i]) == l[i] by {
            if i < list.len() {
                assert(l[i] == list[i]);
            }
        }
        assert forall|i: int, j: int| 0 <= i < l.len() && 0 <= j < l.len() && i != j implies l[i]
            != l[j] by {
            if i < list.len() && j < list.len() {
                assert(l[i] == list[i] && l[j] == list[j]);
            } else if i < list.len() {
                assert(list.contains(l[i]));
            } else if j < list.len() {
                assert(list.contains(l[j]));
            }
        }
    }
    lemma_without_subset(list, d);
    let w = without(list, d);
    assert forall|i: int| 0 <= i < w.len() implies looks_like_domain(#[trigger] w[i]) && lower(w[i])
        == w[i] by {
        assert(w.contains(w[i]));
        assert(list.contains(w[i]));
        let j = choose|j: int| 0 <= j < list.len() && list[j] == w[i];
        assert(looks_like_domain(list[j]) && lower(list[j]) == list[j]);
    }
}

/// Writing a list of entries and reading the file back gives the same list,
/// for entries that are trimmed, not blank, and have no line break.
pub proof fn law_render_read_round_trip(list: Seq<Seq<char>>)
    requires
        forall|i: int| 0 <= i < list.len() ==> (#[trigger] list[i]).len() > 0,
        forall|i: int| 0 <= i < list.len() ==> trim(#[trigger] list[i]) == list[i],
        forall|i: int| 0 <= i < list.len() ==> !(#[trigger] list[i]).contains('\n'),
    ensures
        entries_of(render(list)) == list,
{
    if list.len() == 0 {
        assert(lines(Seq::empty()) =~= Seq::<Seq<char>>::empty());
        assert(trimmed_nonblank(Seq::empty()) =~= Seq::<Seq<char>>::empty());
    } else {
        assert forall|i: int| 0 <= i < list.len() implies strip_cr(#[trigger] list[i]) == list[i] by {
            let e = list[i];
            crate::text::lemma_trim_ends(e);
            assert(!is_ws(e.last()));
        }
        lemma_lines_join(list);
        assert(list.map_values(|e: Seq<char>| strip_cr(e)) =~= list);
        lemma_trimmed_nonblank_id(list);
    }
}

/// The entries read from the domains file are non-empty, trimmed, and hold no
/// line break: what the round trip of `render` and reading needs.
pub proof fn lemma_entries_clean(content: Seq<char>)
    ensures
        forall|i: int|
            0 <= i < entries_of(content).len() ==> {
                let e = #[trigger] entries_of(content)[i];
                &&& e.len() > 0
                &&& trim(e) == e
                &&& !e.contains('\n')
            },
{
    let ls = lines(content);
    crate::text::lemma_trimmed_nonblank_elems(ls);
    crate::text::lemma_lines_no_newline(content);
    assert forall|i: int| 0 <= i < entries_of(content).len() implies !(
    #[trigger] entries_of(content)[i]).contains('\n') by {
        let e = entries_of(content)[i];
        let j = choose|j: int| 0 <= j < ls.len() && e == trim(ls[j]);
        crate::text::lemma_trim_within(ls[j], '\n');
    }
}

/// Whatever the domains file holds, writing back the entries read from it
/// and reading again gives the same entries.
pub proof fn law_read_write_read(content: Seq<char>)
    ensures
        entries_of(render(entries_of(content))) == entries_of(content),
{
    lemma_entries_clean(content);
    law_render_read_round_trip(entries_of(content));
}

/// A well-formed list meets the conditions of the round trip: the domains
/// file always reads back as the list last written.
pub proof fn law_well_formed_round_trip(list: Seq<Seq<char>>)
    requires
        well_formed(list),
    ensures
        entries_of(render(list)) == list,
{
    assert forall|i: int| 0 <= i < list.len() implies (#[trigger] list[i]).len() > 0 && trim(list[i])
        == list[i] && !list[i].contains('\n') by {
        let e = list[i];
        assert(looks_like_domain(e));
        assert(e.len() > 0);
        assert(!is_ws(e[0]) && !is_ws(e.last())) by {
            assert(is_domain_char(e[0]));
            assert(is_domain_char(e[e.len() - 1]));
        }
        lemma_trim_id(e);
        if e.contains('\n') {
            let j = choose|j: int| 0 <= j < e.len() && e[j] == '\n';
            assert(is_domain_char(e[j]));
        }
    }
    law_render_read_round_trip(list);
}

} // verus!
