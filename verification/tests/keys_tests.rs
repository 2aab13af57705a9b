use charm::keys::{add, describe, entries, forced_command_line, key_material, key_str, remove, KeyError};
use charm::util::FileRead;

const PREFIX: &str =
    "command=\"/usr/bin/charm shell\",no-agent-forwarding,no-port-forwarding,no-X11-forwarding ";

fn d(line: &str) -> String {
    describe(&line.chars().collect())
}

#[test]
fn forced_line_restricts_the_key() {
    assert_eq!(
        forced_command_line("  ssh-ed25519 AAAA me@x \n"),
        format!("{PREFIX}ssh-ed25519 AAAA me@x")
    );
}

#[test]
fn material_is_the_second_field_of_a_key() {
    assert_eq!(key_material("ssh-ed25519 AAAA me@x"), Some("AAAA".to_string()));
    assert_eq!(key_material("ecdsa-sha2-nistp256 BBBB"), Some("BBBB".to_string()));
    assert_eq!(key_material("sk-ssh-ed25519@openssh.com CCCC c"), Some("CCCC".to_string()));
    assert_eq!(key_material("rsa AAAA"), None);
    assert_eq!(key_material("ssh-rsa"), None);
    assert_eq!(key_material(""), None);
}

#[test]
fn key_part_skips_the_options() {
    let line = format!("{PREFIX}ssh-ed25519 AAAA me@x");
    let k: String = key_str(&line.chars().collect()).into_iter().collect();
    assert_eq!(k, "ssh-ed25519 AAAA me@x");
    let bare: String = key_str(&" sk-x Y ".chars().collect()).into_iter().collect();
    assert_eq!(bare, "sk-x Y");
    let plain: String = key_str(&"  nothing here ".chars().collect()).into_iter().collect();
    assert_eq!(plain, "nothing here");
}

#[test]
fn descriptions() {
    assert_eq!(d(&format!("{PREFIX}ssh-ed25519 AAAA you@laptop")), "ssh-ed25519  you@laptop");
    assert_eq!(d(&format!("{PREFIX}ssh-ed25519 AAAA two words")), "ssh-ed25519  two words");
    assert_eq!(d(&format!("{PREFIX}ssh-ed25519 AAAA")), "ssh-ed25519  (no comment)");
    assert_eq!(d("   "), "?  (no comment)");
}

#[test]
fn add_appends_a_forced_line() {
    let (desc, new) = match add("ssh-ed25519 AAAA me@x", "") {
        Ok(r) => r,
        Err(_) => panic!("expected Ok"),
    };
    assert_eq!(desc, "ssh-ed25519  me@x");
    assert_eq!(new, Some(format!("{PREFIX}ssh-ed25519 AAAA me@x\n")));
}

#[test]
fn add_ends_an_unterminated_last_line_first() {
    let (_, new) = match add("ssh-rsa BBBB", "old line") {
        Ok(r) => r,
        Err(_) => panic!("expected Ok"),
    };
    assert_eq!(new, Some(format!("old line\n{PREFIX}ssh-rsa BBBB\n")));
}

#[test]
fn readding_the_same_material_is_a_noop() {
    let (_, first) = match add("ssh-ed25519 AAAA me@x", "") {
        Ok(r) => r,
        Err(_) => panic!(),
    };
    let content = first.unwrap();
    match add("ssh-ed25519 AAAA other comment", &content) {
        Ok((desc, new)) => {
            assert_eq!(desc, "ssh-ed25519  other comment");
            assert_eq!(new, None);
        }
        Err(_) => panic!("expected Ok"),
    }
}

#[test]
fn add_rejects_non_keys() {
    assert!(matches!(add("hello world", ""), Err(KeyError::NotAKey)));
    assert_eq!(
        KeyError::NotAKey.message(),
        "not an SSH public key (expected e.g. `ssh-ed25519 AAAA... you@host`)"
    );
}

#[test]
fn entries_list_descriptions_in_order() {
    let text = format!("{PREFIX}ssh-ed25519 A one\n\n   \n{PREFIX}ssh-rsa B two\n");
    match entries(&FileRead::Content(text)) {
        Ok(v) => assert_eq!(v, vec!["ssh-ed25519  one", "ssh-rsa  two"]),
        Err(_) => panic!(),
    }
    assert!(matches!(entries(&FileRead::NotFound), Ok(v) if v.is_empty()));
    assert!(matches!(entries(&FileRead::Failed("x".into())), Ok(v) if v.is_empty()));
    assert!(matches!(entries(&FileRead::PermissionDenied), Err(KeyError::CannotRead)));
}

#[test]
fn add_then_entries_shows_the_new_key_last() {
    let start = format!("{PREFIX}ssh-rsa B two");
    let (desc, new) = match add("ssh-ed25519 A one", &start) {
        Ok(r) => r,
        Err(_) => panic!(),
    };
    match entries(&FileRead::Content(new.unwrap())) {
        Ok(v) => assert_eq!(v, vec!["ssh-rsa  two".to_string(), desc]),
        Err(_) => panic!(),
    }
}

#[test]
fn remove_by_number() {
    let text = format!("{PREFIX}ssh-ed25519 A one\n  \n{PREFIX}ssh-rsa B two\n{PREFIX}ssh-rsa C three\r\n");
    match remove(2, true, &FileRead::Content(text.clone())) {
        Ok((removed, new)) => {
            assert_eq!(removed, "ssh-rsa  two");
            assert_eq!(new, format!("{PREFIX}ssh-ed25519 A one\n{PREFIX}ssh-rsa C three\n"));
            match entries(&FileRead::Content(new)) {
                Ok(v) => assert_eq!(v, vec!["ssh-ed25519  one", "ssh-rsa  three"]),
                Err(_) => panic!(),
            }
        }
        Err(_) => panic!("expected Ok"),
    }
    match remove(1, true, &FileRead::Content(format!("{PREFIX}ssh-rsa B two"))) {
        Ok((_, new)) => assert_eq!(new, ""),
        Err(_) => panic!(),
    }
}

#[test]
fn remove_errors() {
    let text = format!("{PREFIX}ssh-ed25519 A one\n");
    assert!(matches!(remove(0, true, &FileRead::Content(text.clone())), Err(KeyError::NoSuchKey(0))));
    assert!(matches!(remove(2, true, &FileRead::Content(text.clone())), Err(KeyError::NoSuchKey(2))));
    assert!(matches!(remove(1, false, &FileRead::Content(text)), Err(KeyError::NotRoot)));
    assert!(matches!(remove(1, true, &FileRead::NotFound), Err(KeyError::ReadFailed(_))));
    assert_eq!(KeyError::NoSuchKey(12).message(), "no key #12 (see `charm key list`)");
    assert_eq!(KeyError::ReadFailed("x".into()).message(), "reading authorized_keys");
    assert_eq!(
        KeyError::CannotRead.message(),
        "cannot read authorized keys - run as root (sudo) or the charm user"
    );
}
