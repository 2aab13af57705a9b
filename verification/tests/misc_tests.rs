use charm::app::{status, AppState, Runtime};
use charm::caddy::{
    first_route_url, https_server, id_url, listens_on_443, place, publish, publish_requests, route, route_id, server_url,
    Request,
    servers_url,
};
use charm::cli::{color_state, verdict, Tone};
use charm::install::{
    chown_home, ensure_dirs, ensure_docker_group, ensure_network, ensure_user, network_exists,
    user_exists,
};
use charm::paths::{authorized_keys, builds, repos, ssh_dir, state};
use charm::shell::{hook_path, hook_text, init_repo, receive_pack, repo_dir, shell_request, ShellRequest};
use charm::tui::{detail_lines, health_label, key_action, reselect, row_health, state_color, step, ConsoleAction};
use charm::app::Health;
use charm::uninstall::{charm_containers, list_containers, plan, teardown_container, UninstallError};
use charm::util::{chown_charm, is_root, require_root, Cmd, RootError};

fn argv(c: &Cmd) -> Vec<String> {
    let mut v = vec![c.bin.clone()];
    v.extend(c.args.iter().cloned());
    v
}

#[test]
fn paths_under_home() {
    assert_eq!(ssh_dir(), "/home/charm/.ssh");
    assert_eq!(authorized_keys(), "/home/charm/.ssh/authorized_keys");
    assert_eq!(repos(), "/home/charm/repos");
    assert_eq!(builds(), "/home/charm/builds");
    assert_eq!(state(), "/home/charm/state");
}

#[test]
fn root_detection() {
    assert!(is_root(Some("0\n")));
    assert!(!is_root(Some("1000\n")));
    assert!(!is_root(Some("00")));
    assert!(!is_root(None));
    assert!(require_root(true).is_ok());
    assert!(matches!(require_root(false), Err(RootError::NotRoot)));
    assert_eq!(RootError::NotRoot.message(), "this command must run as root (try with sudo)");
    assert_eq!(argv(&chown_charm("/x")), vec!["chown", "charm:charm", "/x"]);
}

#[test]
fn caddy_urls_and_routes() {
    assert_eq!(route_id("blog"), "charm_blog");
    assert_eq!(id_url("blog"), "http://127.0.0.1:2019/id/charm_blog");
    assert_eq!(servers_url(), "http://127.0.0.1:2019/config/apps/http/servers");
    assert_eq!(server_url("charm"), "http://127.0.0.1:2019/config/apps/http/servers/charm");
    assert_eq!(first_route_url("srv0"), "http://127.0.0.1:2019/config/apps/http/servers/srv0/routes/0");
    let r = route("a", "a.example.com", "172.20.0.9", 443);
    assert_eq!(r.id, "charm_a");
    assert_eq!(r.host, "a.example.com");
    assert_eq!(r.dial, "172.20.0.9:443");
}

fn strings(xs: &[&str]) -> Vec<String> {
    xs.iter().map(|s| s.to_string()).collect()
}

#[test]
fn which_server_owns_443() {
    assert!(listens_on_443(&strings(&[":80", ":443"])));
    assert!(listens_on_443(&strings(&["443"])));
    assert!(listens_on_443(&strings(&["0.0.0.0:443"])));
    assert!(!listens_on_443(&strings(&[":4430", "4443"])));
    assert!(!listens_on_443(&strings(&[])));
    let servers = vec![
        ("a".to_string(), None),
        ("b".to_string(), Some(strings(&[":80"]))),
        ("c".to_string(), Some(strings(&[":443"]))),
        ("d".to_string(), Some(strings(&["443"]))),
    ];
    assert_eq!(https_server(&servers), Some("c".to_string()));
    assert_eq!(https_server(&vec![]), None);
}

#[test]
fn publishing_picks_or_creates_the_https_server() {
    let servers = vec![("srv0".to_string(), Some(strings(&[":443"])))];
    let p = publish("a", "a.example.com", "172.20.0.2", 8080, &servers);
    assert!(!p.create_server);
    assert_eq!(p.server, "srv0");
    assert_eq!(p.route.dial, "172.20.0.2:8080");
    let p = publish("a", "a.example.com", "172.20.0.2", 8080, &vec![("x".to_string(), None)]);
    assert!(p.create_server);
    assert_eq!(p.server, "charm");
}

#[test]
fn placing_a_route_keeps_it() {
    let servers = vec![("a".to_string(), Some(strings(&[":80"]))), ("b".to_string(), Some(strings(&["0.0.0.0:443"])))];
    let p = place(route("shop", "shop.example.com", "172.20.0.5", 3000), &servers);
    assert!(!p.create_server);
    assert_eq!(p.server, "b");
    assert_eq!((p.route.id.as_str(), p.route.host.as_str(), p.route.dial.as_str()), ("charm_shop", "shop.example.com", "172.20.0.5:3000"));
    let p = place(route("shop", "shop.example.com", "172.20.0.5", 3000), &vec![]);
    assert!(p.create_server);
    assert_eq!(p.server, "charm");
}

fn app_status(state: &str, routed: bool) -> charm::app::AppStatus {
    let st = AppState {
        host: "h.example.com".into(),
        port: 1,
        ip: "172.20.0.2".into(),
        runtime: Runtime::Dockerfile { image: "i".into() },
    };
    status("blog", st, state.into(), routed)
}

#[test]
fn cli_tones_and_verdicts() {
    assert_eq!(color_state("running"), Tone::Green);
    assert_eq!(color_state("missing"), Tone::Red);
    assert_eq!(color_state("exited"), Tone::Yellow);
    assert_eq!(verdict(&app_status("running", true)), (Tone::Green, "healthy".to_string()));
    assert_eq!(
        verdict(&app_status("running", false)),
        (Tone::Yellow, "running but not routed - run `charm sync`".to_string())
    );
    assert_eq!(
        verdict(&app_status("exited", true)),
        (Tone::Yellow, "stopped - run `charm start blog`".to_string())
    );
    assert_eq!(
        verdict(&app_status("missing", true)),
        (Tone::Red, "container missing - run `charm start blog` or redeploy".to_string())
    );
}

#[test]
fn tui_labels_and_selection() {
    assert_eq!(state_color("running"), Tone::Green);
    assert_eq!(state_color("paused"), Tone::Yellow);
    assert_eq!(health_label(app_status("running", false).health()), ("not routed", Tone::Yellow));
    assert_eq!(health_label(app_status("missing", false).health()), ("missing", Tone::Red));
    assert_eq!(step(Some(0), -1, 3), Some(2));
    assert_eq!(step(Some(2), 1, 3), Some(0));
    assert_eq!(step(None, 1, 3), Some(1));
    assert_eq!(step(Some(1), -7, 3), Some(0));
    assert_eq!(step(None, 1, 0), None);
    assert_eq!(reselect(Some(5), 3), Some(2));
    assert_eq!(reselect(Some(1), 3), Some(1));
    assert_eq!(reselect(None, 3), Some(0));
    assert_eq!(reselect(Some(1), 0), None);
}

#[test]
fn install_steps() {
    assert_eq!(argv(&user_exists()), vec!["id", "charm"]);
    assert!(ensure_user(true).is_none());
    assert_eq!(argv(&ensure_user(false).unwrap()), vec!["useradd", "-m", "-s", "/bin/bash", "charm"]);
    assert_eq!(
        ensure_dirs(),
        vec!["/home/charm/.ssh", "/home/charm/repos", "/home/charm/builds", "/home/charm/state"]
    );
    assert_eq!(argv(&ensure_docker_group()), vec!["usermod", "-aG", "docker", "charm"]);
    assert_eq!(argv(&network_exists()), vec!["docker", "network", "inspect", "charm"]);
    assert!(ensure_network(true).is_none());
    assert_eq!(
        argv(&ensure_network(false).unwrap()),
        vec!["docker", "network", "create", "--subnet", "172.20.0.0/16", "charm"]
    );
    assert_eq!(argv(&chown_home()), vec!["chown", "-R", "charm:charm", "/home/charm"]);
}

#[test]
fn uninstall_plans() {
    assert_eq!(
        argv(&list_containers()),
        vec!["docker", "ps", "-a", "--filter", "name=charm_", "--format", "{{.Names}}"]
    );
    assert_eq!(charm_containers(Some("charm_a\n\n charm_b \n")), vec!["charm_a", "charm_b"]);
    assert!(charm_containers(None).is_empty());
    assert_eq!(argv(&teardown_container("charm_a", true)), vec!["docker", "rm", "-f", "-v", "charm_a"]);
    assert_eq!(argv(&teardown_container("charm_a", false)), vec!["docker", "rm", "-f", "charm_a"]);
    let cs = vec!["charm_a".to_string()];
    assert!(matches!(plan(false, &cs, true, false, true), Err(UninstallError::NotRoot)));
    assert!(matches!(plan(true, &cs, false, false, true), Err(UninstallError::AppsDeployed(1))));
    match plan(true, &cs, true, true, true) {
        Ok(cmds) => {
            let all: Vec<Vec<String>> = cmds.iter().map(argv).collect();
            assert_eq!(
                all,
                vec![
                    vec!["docker", "rm", "-f", "-v", "charm_a"],
                    vec!["userdel", "-r", "charm"],
                    vec!["docker", "network", "rm", "charm"],
                ]
            );
        }
        Err(_) => panic!(),
    }
    match plan(true, &vec![], false, false, false) {
        Ok(cmds) => assert_eq!(cmds.len(), 1),
        Err(_) => panic!(),
    }
    assert_eq!(
        UninstallError::AppsDeployed(2).message(),
        "refusing to remove the control plane while apps are deployed"
    );
    assert_eq!(
        UninstallError::NotRoot.message(),
        "charm uninstall must run as root (try: sudo charm uninstall ...)"
    );
}

#[test]
fn publishing_requests_in_order() {
    let p = place(route("shop", "shop.example.com", "172.20.0.5", 3000), &vec![]);
    let r = publish_requests(p);
    assert_eq!(r.len(), 3);
    assert!(matches!(&r[0], Request::CreateServer { server, url } if server == "charm" && url == "http://127.0.0.1:2019/config/apps/http/servers/charm"));
    assert!(matches!(&r[1], Request::DeleteRoute { id, url } if id == "charm_shop" && url == "http://127.0.0.1:2019/id/charm_shop"));
    assert!(matches!(&r[2], Request::InsertRoute { server, url, route }
        if server == "charm" && url == "http://127.0.0.1:2019/config/apps/http/servers/charm/routes/0" && route.dial == "172.20.0.5:3000"));
    let servers = vec![("srv0".to_string(), Some(strings(&[":443"])))];
    let r = publish_requests(place(route("shop", "shop.example.com", "172.20.0.5", 3000), &servers));
    assert_eq!(r.len(), 2);
    assert!(matches!(&r[0], Request::DeleteRoute { .. }));
    assert!(matches!(&r[1], Request::InsertRoute { server, .. } if server == "srv0"));
}

#[test]
fn console_keys() {
    assert_eq!(key_action(Some('q'), false, false, false, false), ConsoleAction::Quit);
    assert_eq!(key_action(None, true, false, false, false), ConsoleAction::Quit);
    assert_eq!(key_action(Some('c'), false, false, false, true), ConsoleAction::Quit);
    assert_eq!(key_action(Some('d'), false, false, false, true), ConsoleAction::Quit);
    assert_eq!(key_action(Some('c'), false, false, false, false), ConsoleAction::Nothing);
    assert_eq!(key_action(Some('j'), false, false, false, false), ConsoleAction::Move(1));
    assert_eq!(key_action(None, false, false, true, false), ConsoleAction::Move(1));
    assert_eq!(key_action(Some('k'), false, false, false, false), ConsoleAction::Move(-1));
    assert_eq!(key_action(None, false, true, false, false), ConsoleAction::Move(-1));
    assert_eq!(key_action(Some('r'), false, false, false, false), ConsoleAction::Refresh);
    assert_eq!(key_action(Some('s'), false, false, false, false), ConsoleAction::Stop);
    assert_eq!(key_action(Some('g'), false, false, false, false), ConsoleAction::Start);
    assert_eq!(key_action(Some('x'), false, false, false, false), ConsoleAction::Restart);
    assert_eq!(key_action(Some('z'), false, false, false, false), ConsoleAction::Nothing);
}

#[test]
fn console_detail_panel() {
    let lines = detail_lines(&app_status("exited", false));
    let got: Vec<(&str, &str, Option<Tone>)> = lines.iter().map(|(a, b, t)| (a.as_str(), b.as_str(), *t)).collect();
    assert_eq!(
        got,
        vec![
            ("kind", "docker", None),
            ("url", "https://h.example.com", None),
            ("upstream", "172.20.0.2:1", None),
            ("image", "i", None),
            ("container", "exited", Some(Tone::Yellow)),
            ("route", "missing", Some(Tone::Red)),
            ("", "", None),
            ("status", "stopped", Some(Tone::Yellow)),
        ]
    );
    assert_eq!(row_health(None), Health::Missing);
    assert_eq!(row_health(Some(&app_status("running", true))), Health::Healthy);
}

#[test]
fn installing_again_creates_nothing() {
    assert!(ensure_user(true).is_none());
    assert!(ensure_network(true).is_none());
    let key = "ssh-ed25519 AAAAkey me@laptop";
    let (_, first) = charm::keys::add(key, "").ok().unwrap();
    let text = first.unwrap();
    let (_, second) = charm::keys::add(key, &text).ok().unwrap();
    assert!(second.is_none());
}

#[test]
fn shell_sessions() {
    assert!(matches!(shell_request(None), ShellRequest::Console));
    assert!(matches!(shell_request(Some("  ")), ShellRequest::Console));
    assert!(matches!(shell_request(Some("git-receive-pack 'my-app'")), ShellRequest::Push(a) if a == "my-app"));
    assert!(matches!(shell_request(Some("git-receive-pack '/blog.git'")), ShellRequest::Push(a) if a == "blog"));
    assert!(matches!(shell_request(Some("git-upload-pack 'blog'")), ShellRequest::Refused));
    assert!(matches!(shell_request(Some("git-receive-pack '../etc'")), ShellRequest::Refused));
    assert!(matches!(shell_request(Some("bash")), ShellRequest::Refused));
    let repo = repo_dir("blog");
    assert_eq!(repo, "/home/charm/repos/blog.git");
    assert_eq!(hook_path(&repo), "/home/charm/repos/blog.git/hooks/post-receive");
    assert_eq!(
        hook_text("blog", &repo),
        "#!/bin/sh\nwhile read old new ref; do\n  /usr/bin/charm deploy 'blog' '/home/charm/repos/blog.git' \"$ref\" \"$new\"\ndone\n"
    );
    assert_eq!(argv(&init_repo(&repo)), vec!["git", "init", "--bare", "--quiet", "/home/charm/repos/blog.git"]);
    assert_eq!(argv(&receive_pack(&repo)), vec!["git-receive-pack", "/home/charm/repos/blog.git"]);
}
