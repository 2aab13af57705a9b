use charm::domains::{
    add, ensure_allowed, entries, looks_like_domain_exec, normalized, registered, remove,
    render_list, DomainError,
};
use charm::util::FileRead;

fn list(xs: &[&str]) -> Vec<String> {
    xs.iter().map(|s| s.to_string()).collect()
}

#[test]
fn domains_file_lives_in_state() {
    assert_eq!(charm::domains::file(), "/home/charm/state/domains");
}

#[test]
fn normalizing_trims_and_lowercases() {
    let n: String = normalized("  Example.COM \n").into_iter().collect();
    assert_eq!(n, "example.com");
}

#[test]
fn what_looks_like_a_domain() {
    let ok = |s: &str| looks_like_domain_exec(&s.chars().collect());
    assert!(ok("example.com"));
    assert!(ok("a-b.c0"));
    assert!(!ok("localhost"));
    assert!(!ok(".example.com"));
    assert!(!ok("example.com."));
    assert!(!ok("exa mple.com"));
    assert!(!ok("exa_mple.com"));
    assert!(!ok(""));
}

#[test]
fn add_registers_a_new_domain_once() {
    let mut l = list(&["a.com"]);
    assert!(matches!(add(" B.com ", true, &mut l), Ok(true)));
    assert_eq!(l, list(&["a.com", "b.com"]));
    assert!(matches!(add("b.COM", true, &mut l), Ok(false)));
    assert_eq!(l, list(&["a.com", "b.com"]));
}

#[test]
fn add_needs_root_and_a_domain() {
    let mut l = list(&[]);
    assert!(matches!(add("a.com", false, &mut l), Err(DomainError::NotRoot)));
    match add(" NoDot ", true, &mut l) {
        Err(DomainError::NotADomain(d)) => assert_eq!(d, "nodot"),
        _ => panic!("expected NotADomain"),
    }
    assert!(l.is_empty());
}

#[test]
fn remove_drops_every_copy_or_errors() {
    let mut l = list(&["a.com", "b.com", "a.com"]);
    assert!(remove(" A.com", true, &mut l).is_ok());
    assert_eq!(l, list(&["b.com"]));
    match remove("c.com", true, &mut l) {
        Err(DomainError::NotRegistered(d)) => assert_eq!(d, "c.com"),
        _ => panic!("expected NotRegistered"),
    }
    assert_eq!(l, list(&["b.com"]));
    assert!(matches!(remove("b.com", false, &mut l), Err(DomainError::NotRoot)));
}

#[test]
fn add_then_remove_restores_the_list() {
    let mut l = list(&["a.com"]);
    add("new.org", true, &mut l).ok();
    remove("new.org", true, &mut l).ok();
    assert_eq!(l, list(&["a.com"]));
}

#[test]
fn allowed_hosts_are_the_domain_and_its_subdomains() {
    let l = list(&["example.com"]);
    assert!(ensure_allowed("example.com", &l).is_ok());
    assert!(ensure_allowed("Blog.Example.COM", &l).is_ok());
    assert!(ensure_allowed("a.b.example.com", &l).is_ok());
    match ensure_allowed("evilexample.com", &l) {
        Err(DomainError::NotAllowed(h)) => assert_eq!(h, "evilexample.com"),
        _ => panic!("expected NotAllowed"),
    }
    match ensure_allowed("X.org", &list(&[])) {
        Err(DomainError::NoDomains(h)) => assert_eq!(h, "x.org"),
        _ => panic!("expected NoDomains"),
    }
}

#[test]
fn registered_domain_allows_its_hosts() {
    let mut l = list(&[]);
    add("Example.com", true, &mut l).ok();
    assert!(ensure_allowed("app.example.com", &l).is_ok());
}

#[test]
fn file_text_round_trips() {
    let l = list(&["a.com", "b.org"]);
    let text = render_list(&l);
    assert_eq!(text, "a.com\nb.org\n");
    assert_eq!(registered(&FileRead::Content(text)), l);
    assert_eq!(render_list(&list(&[])), "");
}

#[test]
fn reading_domains() {
    assert_eq!(registered(&FileRead::Content(" a.com \n\nb.org".to_string())), list(&["a.com", "b.org"]));
    assert!(registered(&FileRead::NotFound).is_empty());
    assert!(registered(&FileRead::PermissionDenied).is_empty());
    assert!(matches!(entries(&FileRead::NotFound), Ok(v) if v.is_empty()));
    assert!(matches!(entries(&FileRead::PermissionDenied), Err(DomainError::CannotRead)));
    assert!(matches!(entries(&FileRead::Failed("io".to_string())), Err(DomainError::ReadFailed(_))));
    assert!(matches!(entries(&FileRead::Content("x.io\n".to_string())), Ok(v) if v == list(&["x.io"])));
}

#[test]
fn domain_error_messages() {
    assert_eq!(DomainError::NotADomain("x".into()).message(), "'x' doesn't look like a domain (e.g. example.com)");
    assert_eq!(DomainError::NotRegistered("x.com".into()).message(), "'x.com' is not registered (see `charm domain list`)");
    assert_eq!(
        DomainError::NoDomains("h.io".into()).message(),
        "no domains registered - run `charm domain add <domain>` first (for 'h.io')"
    );
    assert_eq!(
        DomainError::NotAllowed("h.io".into()).message(),
        "host 'h.io' is not under a registered domain - `charm domain add` it (see `charm domain list`)"
    );
    assert_eq!(DomainError::CannotRead.message(), "cannot read domains - run as root (sudo) or the charm user");
    assert_eq!(DomainError::NotRoot.message(), "this command must run as root (try with sudo)");
}

#[test]
fn a_read_list_writes_back_unchanged() {
    let read = entries(&FileRead::Content("  A.com \r\n\n\tb.org\n".into())).ok().unwrap();
    assert_eq!(read, list(&["A.com", "b.org"]));
    let again = entries(&FileRead::Content(render_list(&read))).ok().unwrap();
    assert_eq!(again, read);
}
